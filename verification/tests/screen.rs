//! The pane's bytes, played on a small terminal.

use direnv_instant::layout::SplitConfig;
use direnv_instant::pane::SplitPane;

struct Terminal {
    lines: Vec<String>,
    bottom: usize,
    row: usize,
    col: usize,
    saved: (usize, usize),
}

impl Terminal {
    fn new(rows: usize, row: usize, col: usize) -> Self {
        Terminal {
            lines: (1..=rows).map(|i| format!("shell line {i}")).collect(),
            bottom: rows,
            row,
            col,
            saved: (1, 1),
        }
    }

    fn line(&self, row: usize) -> &str {
        &self.lines[row - 1]
    }

    fn play(&mut self, bytes: &[u8]) {
        let text = std::str::from_utf8(bytes).unwrap();
        let mut rest = text;
        while let Some(c) = rest.chars().next() {
            if c != '\x1b' {
                let end = rest.find('\x1b').unwrap_or(rest.len());
                let printed = &rest[..end];
                let line = &mut self.lines[self.row - 1];
                let kept: String = line.chars().take(self.col - 1).collect();
                let after: String = line
                    .chars()
                    .skip(self.col - 1 + printed.chars().count())
                    .collect();
                *line = format!("{kept}{printed}{after}");
                self.col += printed.chars().count();
                rest = &rest[end..];
            } else if let Some(after) = rest.strip_prefix("\x1b7") {
                self.saved = (self.row, self.col);
                rest = after;
            } else if let Some(after) = rest.strip_prefix("\x1b8") {
                (self.row, self.col) = self.saved;
                rest = after;
            } else {
                let body = rest.strip_prefix("\x1b[").unwrap();
                let end = body.find(|c: char| c.is_ascii_alphabetic()).unwrap();
                let params: Vec<usize> = body[..end].split(';').map(|p| p.parse().unwrap()).collect();
                self.control(body.as_bytes()[end], &params);
                rest = &body[end + 1..];
            }
        }
    }

    fn control(&mut self, end: u8, params: &[usize]) {
        match end {
            b'r' => {
                assert_eq!(params[0], 1);
                self.bottom = params[1];
                self.row = 1;
                self.col = 1;
            }
            b'H' => {
                self.row = params[0];
                self.col = params[1];
            }
            b'K' => {
                assert_eq!(params, [2]);
                self.lines[self.row - 1].clear();
            }
            b'M' => {
                for _ in 0..params[0] {
                    if self.row <= self.bottom {
                        self.lines.remove(self.row - 1);
                        self.lines.insert(self.bottom - 1, String::new());
                    }
                }
                self.col = 1;
            }
            b'L' => {
                for _ in 0..params[0] {
                    if self.row <= self.bottom {
                        self.lines.remove(self.bottom - 1);
                        self.lines.insert(self.row - 1, String::new());
                    }
                }
                self.col = 1;
            }
            b'A' => self.row = self.row.saturating_sub(params[0]).max(1),
            b'B' => self.row = (self.row + params[0]).min(self.bottom),
            _ => panic!("unknown control {end}"),
        }
    }
}

const ROWS: usize = 40;
const COLS: usize = 60;

#[test]
fn prompt_keeps_its_place_for_every_initial_row() {
    for prompt_row in 1..=ROWS {
        let mut pane = SplitPane::new(
            Some((ROWS as u16, COLS as u16)),
            SplitConfig::tmux_like(prompt_row as u16),
        );
        let mut term = Terminal::new(ROWS, prompt_row, 9);
        let prompt = format!("prompt$ row {prompt_row:02}");
        term.lines[prompt_row - 1] = prompt.clone();
        let above: Vec<String> = term.lines[..prompt_row - 1].to_vec();

        term.play(&pane.setup());
        let row = prompt_row.min(29);
        assert_eq!((term.row, term.col), (row, 9));
        assert_eq!(term.line(row), prompt);
        assert_eq!(term.lines[..row - 1], above[..row - 1]);
        assert_eq!(term.bottom, 29);
        assert_eq!(term.line(30), "─".repeat(COLS));
        assert!(term.lines[30..].iter().all(|line| line.is_empty()));

        for i in 1..=12 {
            pane.ingest(format!("log {i:02}\n").as_bytes());
            term.play(&pane.redraw());
            assert_eq!((term.row, term.col), (row, 9));
            assert_eq!(term.line(row), prompt);
        }
        assert_eq!(term.line(31), "log 04");
        assert_eq!(term.line(39), "log 12");
        assert_eq!(term.line(40), "");

        term.play(&pane.teardown());
        assert_eq!((term.row, term.col), (prompt_row, 9));
        assert_eq!(term.line(prompt_row), prompt);
        assert_eq!(term.lines[..row - 1], above[..row - 1]);
        assert_eq!(term.bottom, ROWS);
        if prompt_row > 29 {
            assert!(term.lines[row - 1..prompt_row - 1].iter().all(|line| line.is_empty()));
        }
        assert!(term.lines[prompt_row.max(29)..].iter().all(|line| line.is_empty()));
    }
}

#[test]
fn typed_input_survives_drawing() {
    let mut pane = SplitPane::new(Some((24, 80)), SplitConfig::tmux_like(10));
    let mut term = Terminal::new(24, 10, 9);
    term.play(&pane.setup());
    for (i, c) in "draft command".chars().enumerate() {
        pane.ingest(format!("redraw race {i}\n").as_bytes());
        term.play(&pane.redraw());
        let mut typed = [0u8; 4];
        term.play(c.encode_utf8(&mut typed).as_bytes());
    }
    assert_eq!(&term.line(10)[8..21], "draft command");
    assert_eq!(term.col, 22);
}

#[test]
fn damaged_pane_is_repaired() {
    let mut pane = SplitPane::new(Some((24, 80)), SplitConfig::tmux_like(10));
    let mut term = Terminal::new(24, 10, 9);
    term.play(&pane.setup());
    pane.ingest(b"one\ntwo");
    term.play(&pane.redraw());
    let drawn = term.lines.clone();
    for row in 22..=24 {
        term.lines[row - 1] = "damage".to_string();
    }
    term.play(&pane.redraw());
    assert_eq!(term.lines, drawn);
    assert_eq!(term.line(23), "one");
    assert_eq!(term.line(24), "two");
}

#[test]
fn resized_terminal_shows_recent_lines() {
    let mut pane = SplitPane::new(Some((40, 60)), SplitConfig::tmux_like(40));
    for i in 1..=8 {
        pane.ingest(format!("R{i:02}\n").as_bytes());
    }
    let mut term = Terminal::new(24, 12, 3);
    term.play(&pane.handle_resize(Some((24, 60))).unwrap());
    assert_eq!(term.bottom, 21);
    assert_eq!(term.line(22), "─".repeat(60));
    assert_eq!(term.row, 22);
    term.play(&pane.redraw());
    assert_eq!(term.line(23), "R08");
    assert_eq!(term.line(24), "");
    assert_eq!(term.line(21), "shell line 21");
}
