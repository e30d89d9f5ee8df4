use direnv_instant::layout::SplitConfig;
use direnv_instant::pane::SplitPane;
use direnv_instant::watch::pty_size;
use direnv_instant::winsize::WinSize;

fn pane_with_rows(rows: u16) -> SplitPane {
    SplitPane::new(
        None,
        SplitConfig {
            min_pane_rows: rows,
            max_pane_rows: rows,
            preferred_pane_rows: rows,
            min_top_rows: 0,
            cursor_row: Some(24),
        },
    )
}

fn row_text(pane: &SplitPane, row: usize) -> String {
    String::from_utf8(pane.row(row).clone()).unwrap()
}

fn text(bytes: Vec<u8>) -> String {
    String::from_utf8(bytes).unwrap()
}

#[test]
fn partial_line_stays_on_current_row() {
    let mut pane = pane_with_rows(3);

    pane.ingest(b"partial");

    assert_eq!(row_text(&pane, 0), "partial");
    assert_eq!(pane.cursor().0, 0);
    assert_eq!(pane.cursor().1, "partial".len());
}

#[test]
fn ring_scrolls_when_log_exceeds_pane_height() {
    let mut pane = pane_with_rows(3);

    pane.ingest(b"L1\nL2\nL3\nL4");

    assert_eq!(row_text(&pane, 0), "L2");
    assert_eq!(row_text(&pane, 1), "L3");
    assert_eq!(row_text(&pane, 2), "L4");
}

#[test]
fn long_lines_wrap_at_visible_width() {
    let mut pane = pane_with_rows(3);
    let mut line = "x".repeat(80).into_bytes();
    line.push(b'y');

    pane.ingest(&line);

    assert_eq!(*pane.row(0), vec![b'x'; 80]);
    assert_eq!(row_text(&pane, 1), "y");
    assert_eq!(pane.cursor().0, 1);
    assert_eq!(pane.cursor().1, 1);
}

#[test]
fn ansi_escape_bytes_do_not_advance_visible_cursor() {
    let mut pane = pane_with_rows(3);

    pane.ingest(b"\x1b[31mcolored\x1b[0m text");

    assert_eq!(pane.cursor().1, "colored text".len());
    assert_eq!(row_text(&pane, 0), "\x1b[31mcolored\x1b[0m text");
}

#[test]
fn setup_reserves_shell_region_and_draws_separator() {
    let mut pane = pane_with_rows(2);

    let output = text(pane.setup());

    assert!(output.contains("\x1b[21;1H\x1b[3M"));
    assert!(output.contains("\x1b[1;21r"));
    assert!(output.contains("\x1b[23;1H"));
    assert!(output.contains(&"─".repeat(80)));
}

#[test]
fn teardown_restores_full_scroll_region_and_clears_pane() {
    let mut pane = pane_with_rows(2);

    let _ = pane.setup();
    let output = text(pane.teardown());

    assert!(output.contains("\x1b[1;24r"));
    assert!(output.contains("\x1b[23;1H\x1b[2K"));
    assert!(output.contains("\x1b[24;1H\x1b[2K"));
    assert!(output.contains("\x1b[21;1H\x1b[3L"));
}

#[test]
fn redraw_reasserts_shell_scroll_region() {
    let mut pane = pane_with_rows(2);

    let _ = pane.setup();
    pane.ingest(b"visible");
    let output = text(pane.redraw());

    assert!(output.contains("\x1b[1;21r"));
    assert!(output.contains("visible"));
}

#[test]
fn redraw_repaints_current_pane_without_new_input() {
    let mut pane = pane_with_rows(2);

    pane.ingest(b"first line\nsecond line");
    let first = text(pane.redraw());
    assert!(first.contains("first line"));
    assert!(first.contains("second line"));

    let second = text(pane.redraw());
    assert!(
        second.contains("first line") && second.contains("second line"),
        "redraw must repair pane contents even when no log bytes changed; got {second:?}"
    );
    assert_eq!(first, second);
}

#[test]
fn setup_sends_exactly_this() {
    let mut pane = SplitPane::new(
        Some((6, 3)),
        SplitConfig {
            min_pane_rows: 2,
            max_pane_rows: 2,
            preferred_pane_rows: 2,
            min_top_rows: 0,
            cursor_row: None,
        },
    );
    assert_eq!(pane.pane_size(), (2, 3));
    assert!(pane.can_setup());
    assert_eq!(
        text(pane.setup()),
        "\x1b7\x1b[3;1H\x1b[3M\x1b[1;3r\x1b[4;1H───\x1b[5;1H\x1b[2K\x1b[6;1H\x1b[2K\x1b8\x1b[3A"
    );
    pane.ingest(b"ab\ncd");
    assert_eq!(
        text(pane.redraw()),
        "\x1b7\x1b[1;3r\x1b[4;1H\x1b[2K───\x1b[5;1H\x1b[2Kab\x1b[6;1H\x1b[2Kcd\x1b8"
    );
    assert_eq!(
        text(pane.teardown()),
        "\x1b7\x1b[1;6r\x1b[4;1H\x1b[2K\x1b[5;1H\x1b[2K\x1b[6;1H\x1b[2K\x1b[3;1H\x1b[3L\x1b8\x1b[3B"
    );
}

#[test]
fn setup_without_overflow_moves_nothing() {
    let mut pane = SplitPane::new(Some((40, 2)), SplitConfig::tmux_like(5));
    assert_eq!(pane.pane_size(), (10, 2));
    let output = text(pane.setup());
    assert!(output.starts_with("\x1b7\x1b[1;29r\x1b[30;1H──\x1b[31;1H\x1b[2K"));
    assert!(output.ends_with("\x1b[40;1H\x1b[2K\x1b8"));
    let output = text(pane.teardown());
    assert!(output.starts_with("\x1b7\x1b[1;40r\x1b[30;1H\x1b[2K"));
    assert!(output.ends_with("\x1b[40;1H\x1b[2K\x1b8"));
}

#[test]
fn resize_keeps_recent_lines() {
    let mut pane = SplitPane::new(Some((40, 60)), SplitConfig::tmux_like(40));
    for i in 1..=8 {
        pane.ingest(format!("R{i:02}\n").as_bytes());
    }
    assert_eq!(pane.cursor(), (8, 0));
    assert!(pane.can_resize(Some((25, 60))));
    let output = text(pane.handle_resize(Some((25, 60))).unwrap());
    assert_eq!(
        output,
        format!("\x1b[1;21r\x1b[22;1H\x1b[2K{}", "─".repeat(60))
    );
    assert_eq!(pane.pane_size(), (3, 60));
    assert_eq!(row_text(&pane, 0), "R07");
    assert_eq!(row_text(&pane, 1), "R08");
    assert_eq!(row_text(&pane, 2), "");
    assert_eq!(pane.cursor(), (2, 0));

    let _ = pane.handle_resize(Some((40, 60)));
    assert_eq!(pane.pane_size(), (10, 60));
    assert_eq!(row_text(&pane, 0), "R07");
    assert_eq!(row_text(&pane, 2), "");
    assert_eq!(row_text(&pane, 9), "");
    assert_eq!(pane.cursor(), (2, 0));
}

#[test]
fn larger_and_back_is_the_same() {
    let mut pane = SplitPane::new(Some((24, 80)), SplitConfig::tmux_like(24));
    pane.ingest(b"one\ntwo");
    let before = pane.redraw();
    assert!(pane.handle_resize(Some((50, 90))).is_some());
    assert!(pane.handle_resize(Some((24, 80))).is_some());
    assert_eq!(pane.redraw(), before);
}

#[test]
fn same_size_sends_nothing() {
    let mut pane = SplitPane::new(Some((24, 80)), SplitConfig::tmux_like(24));
    assert!(pane.handle_resize(Some((24, 80))).is_none());
    assert!(pane.handle_resize(None).is_none());
    assert!(pane.handle_resize(Some((24, 81))).is_some());
    assert_eq!(pane.pane_size(), (2, 81));
}

#[test]
fn pieces_of_the_log_do_not_matter() {
    let log = b"a long line that wraps\r\nred \x1b[31mtext\x1b[0m\nlast\r!\n\n x";
    let mut whole = SplitPane::new(Some((24, 7)), SplitConfig::tmux_like(24));
    whole.ingest(log);
    for size in 1..log.len() {
        let mut pieces = SplitPane::new(Some((24, 7)), SplitConfig::tmux_like(24));
        for piece in log.chunks(size) {
            pieces.ingest(piece);
        }
        assert_eq!(pieces.redraw(), whole.redraw());
        assert_eq!(pieces.cursor(), whole.cursor());
    }
}

#[test]
fn carriage_return_keeps_the_line() {
    let mut pane = pane_with_rows(3);
    pane.ingest(b"abc\rd");
    assert_eq!(row_text(&pane, 0), "abcd");
    assert_eq!(pane.cursor(), (0, 1));
}

#[test]
fn line_feed_inside_a_control_sequence_leaves_it_open() {
    let mut pane = pane_with_rows(3);
    pane.ingest(b"\x1b[3\n1mx");
    assert_eq!(row_text(&pane, 0), "\x1b[3");
    assert_eq!(row_text(&pane, 1), "1mx");
    assert_eq!(pane.cursor(), (1, 1));
}

#[test]
fn terminal_without_columns_has_one_byte_on_each_line() {
    let mut pane = SplitPane::new(Some((24, 0)), SplitConfig::tmux_like(24));
    pane.ingest(b"ab");
    assert_eq!(row_text(&pane, 0), "b");
    assert_eq!(row_text(&pane, 1), "");
    assert_eq!(pane.cursor(), (1, 0));
}

#[test]
fn exact_width_starts_a_line() {
    let mut pane = SplitPane::new(Some((40, 3)), SplitConfig::tmux_like(40));
    pane.ingest(b"abcdefgh");
    assert_eq!(row_text(&pane, 0), "abc");
    assert_eq!(row_text(&pane, 1), "def");
    assert_eq!(row_text(&pane, 2), "gh");
    assert_eq!(pane.cursor(), (2, 2));
    pane.ingest(b"i");
    assert_eq!(row_text(&pane, 2), "ghi");
    assert_eq!(pane.cursor(), (3, 0));
}

#[test]
fn pane_without_rows_takes_only_carriage_returns() {
    let config = SplitConfig {
        min_pane_rows: 0,
        max_pane_rows: 0,
        preferred_pane_rows: 0,
        min_top_rows: 0,
        cursor_row: None,
    };
    let mut pane = SplitPane::new(Some((24, 80)), config);
    pane.ingest(b"\r\r");
    assert_eq!(pane.pane_size(), (0, 80));
    assert_eq!(pane.cursor(), (0, 0));
}

#[test]
fn small_terminals_do_not_fit() {
    assert!(!SplitPane::new(Some((0, 0)), SplitConfig::tmux_like(1)).fits());
    assert!(!SplitPane::new(Some((2, 80)), SplitConfig::tmux_like(1)).fits());
    assert!(SplitPane::new(Some((3, 80)), SplitConfig::tmux_like(1)).fits());
    assert!(SplitPane::new(Some((65535, 80)), SplitConfig::tmux_like(65524)).can_setup());
    assert!(!SplitPane::new(Some((65535, 80)), SplitConfig::tmux_like(65525)).can_setup());
    let pane = SplitPane::new(Some((24, 80)), SplitConfig::tmux_like(1));
    assert!(!pane.can_resize(Some((2, 80))));
    assert!(pane.can_resize(Some((3, 80))));
    assert!(pane.can_resize(None));
}

#[test]
fn no_byte_of_the_log_is_lost() {
    let log = b"wrapped line\r\nred \x1b[31mtext\x1b[0m\n\nlast";
    let mut pane = SplitPane::new(Some((40, 5)), SplitConfig::tmux_like(40));
    pane.ingest(log);
    let mut rows: Vec<u8> = Vec::new();
    for i in 0..10 {
        rows.extend_from_slice(pane.row(i));
    }
    let kept: Vec<u8> = log
        .iter()
        .copied()
        .filter(|b| *b != b'\r' && *b != b'\n')
        .collect();
    assert_eq!(rows, kept);
}

#[test]
fn bytes_leave_only_with_their_row() {
    let mut pane = pane_with_rows(2);
    pane.ingest(b"ab\ncd");
    assert_eq!((row_text(&pane, 0), row_text(&pane, 1)), ("ab".to_string(), "cd".to_string()));
    pane.ingest(b"\x1b[1me\r\nfg");
    assert_eq!(row_text(&pane, 0), "cd\x1b[1me");
    assert_eq!(row_text(&pane, 1), "fg");
}

#[test]
fn pieces_are_laid_out_at_the_width_of_their_time() {
    let mut pane = SplitPane::new(Some((26, 5)), SplitConfig::tmux_like(20));
    pane.ingest(b"abcdefg\n");
    assert!(pane.handle_resize(Some((25, 3))).is_some());
    pane.ingest(b"hijk");
    let rows: Vec<String> = (0..3).map(|i| row_text(&pane, i)).collect();
    assert_eq!(rows, ["fg", "hij", "k"]);
    assert!(pane.handle_resize(None).is_none());
    assert!(pane.handle_resize(Some((26, 8))).is_some());
    pane.ingest(b"lm\nn");
    let rows: Vec<String> = (0..4).map(|i| row_text(&pane, i)).collect();
    assert_eq!(rows, ["fg", "hij", "klm", "n"]);
    assert_eq!(pane.cursor(), (3, 1));
}

#[test]
fn log_terminal_gets_the_size_of_the_pane() {
    let mut pane = SplitPane::new(Some((32, 100)), SplitConfig::tmux_like(20));
    let request = pty_size(&pane);
    assert_eq!(request, WinSize { rows: 10, cols: 100, x_pixels: 0, y_pixels: 0 });
    let _ = pane.handle_resize(Some((25, 60)));
    let request = pty_size(&pane);
    assert_eq!(request, WinSize { rows: 3, cols: 60, x_pixels: 0, y_pixels: 0 });
}

#[test]
fn control_sequences_do_not_change_where_lines_wrap() {
    let mut plain = SplitPane::new(Some((40, 4)), SplitConfig::tmux_like(40));
    plain.ingest(b"abcdefghij");
    let mut colored = SplitPane::new(Some((40, 4)), SplitConfig::tmux_like(40));
    colored.ingest(b"ab\x1b[1;31mcdef\x1b[0mghi\x1b[Kj");
    assert_eq!(colored.cursor(), plain.cursor());
    assert_eq!(row_text(&colored, 0), "ab\x1b[1;31mcd");
    assert_eq!(row_text(&colored, 1), "ef\x1b[0mgh");
    assert_eq!(row_text(&colored, 2), "i\x1b[Kj");
}

#[test]
fn pane_as_tall_as_the_terminal_can_be_undone_but_not_set_up() {
    let config = SplitConfig {
        min_pane_rows: 2,
        max_pane_rows: 2,
        preferred_pane_rows: 2,
        min_top_rows: 0,
        cursor_row: None,
    };
    let pane = SplitPane::new(Some((2, 80)), config);
    assert!(!pane.fits());
    assert!(!pane.can_setup());
    assert!(pane.can_teardown());
    assert_eq!(
        text(pane.teardown()),
        "\x1b7\x1b[1;2r\x1b[0;1H\x1b[2K\x1b[1;1H\x1b[2K\x1b[2;1H\x1b[2K\x1b8"
    );
    assert!(!SplitPane::new(Some((1, 80)), config).can_teardown());
    let mut split = SplitPane::new(Some((24, 80)), config);
    let _ = split.setup();
    assert!(split.can_teardown());
}
