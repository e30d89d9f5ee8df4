//! The pane below the shell: the log's last lines, and how they are drawn.

use crate::ctl::{Ctl, CtlWriter, ESC};
use crate::layout::{build_separator, pane_rows_for_height, SplitConfig};
use crate::layout::{FALLBACK_COLS, FALLBACK_ROWS};
use crate::log::{is_ascii_letter, Log, CR, LF};
use crate::{ctl, layout, log};
use vstd::prelude::*;

verus! {

/// A pane on a terminal of `total_rows` rows and `cols` columns.
///
/// The shell keeps the rows at the top, one row holds the separator, and the
/// pane has the last `pane_rows` rows. `rows` is what they show; the log goes on
/// at the end of row `cursor_row`.
pub struct PaneState {
    pub config: SplitConfig,
    pub total_rows: nat,
    pub cols: nat,
    pub pane_rows: nat,
    pub rows: Seq<Seq<u8>>,
    pub cursor_row: int,
    pub cursor_col: nat,
    pub in_esc: bool,
    pub separator: Seq<u8>,
    pub overflow: nat,
}

impl PaneState {
    /// What every pane keeps to.
    pub open spec fn wf(self) -> bool {
        &&& self.config.valid()
        &&& self.total_rows <= u16::MAX
        &&& self.cols <= u16::MAX
        &&& self.overflow <= u16::MAX
        &&& self.pane_rows == layout::pane_height(self.total_rows as int, self.config)
        &&& self.rows.len() == self.pane_rows
        &&& 0 <= self.cursor_row
        &&& self.cursor_row < self.pane_rows || self.cursor_row == self.pane_rows == 0
        &&& forall|i: int|
            self.cursor_row < i < self.pane_rows ==> #[trigger] self.rows[i] == Seq::<u8>::empty()
        &&& self.cursor_col < u16::MAX
        &&& self.separator == layout::separator_bytes(self.cols)
    }

    /// The terminal has room for the separator and the pane.
    pub open spec fn fits(self) -> bool {
        self.pane_rows < self.total_rows
    }

    /// The split can be undone: the pane is no taller than the terminal, and there is
    /// a shell row to put lines in at where some were taken.
    pub open spec fn can_be_undone(self) -> bool {
        &&& self.pane_rows <= self.total_rows
        &&& self.overflow > 0 ==> self.fits()
    }

    /// The row that holds the separator.
    pub open spec fn separator_row(self) -> nat {
        (self.total_rows - self.pane_rows) as nat
    }

    /// The first row of the pane.
    pub open spec fn pane_start(self) -> nat {
        self.separator_row() + 1
    }

    /// The last row of the shell.
    pub open spec fn shell_bottom(self) -> nat {
        (self.separator_row() - 1) as nat
    }

    /// The log as far as the pane remembers it.
    pub open spec fn log(self) -> Log {
        let kept = layout::smaller(self.cursor_row + 1, self.rows.len() as int);
        Log { lines: self.rows.take(kept), col: self.cursor_col, esc: self.in_esc }
    }

    /// The pane when it shows the end of `log`.
    pub open spec fn showing(self, log: Log) -> PaneState {
        PaneState {
            rows: log::shown(log.lines, self.pane_rows),
            cursor_row: log::shown_row(log.lines.len(), self.pane_rows),
            cursor_col: log.col,
            in_esc: log.esc,
            ..self
        }
    }

    /// The pane once `data` has been put after the log that it remembers.
    pub open spec fn ingested(self, data: Seq<u8>) -> PaneState {
        self.showing(self.log().feed_all(data, self.cols))
    }

    /// The pane once it has taken in one piece after the other.
    pub open spec fn ingested_in_turn(self, pieces: Seq<Seq<u8>>) -> PaneState
        decreases pieces.len(),
    {
        if pieces.len() == 0 {
            self
        } else {
            self.ingested_in_turn(pieces.drop_last()).ingested(pieces.last())
        }
    }

    /// A pane that has not taken in anything yet.
    pub open spec fn fresh(total_rows: nat, cols: nat, config: SplitConfig) -> PaneState {
        let pane_rows = layout::pane_height(total_rows as int, config) as nat;
        PaneState {
            config,
            total_rows,
            cols,
            pane_rows,
            rows: Seq::new(pane_rows, |i: int| Seq::empty()),
            cursor_row: 0,
            cursor_col: 0,
            in_esc: false,
            separator: layout::separator_bytes(cols),
            overflow: 0,
        }
    }

    /// The row that the shell's cursor is taken to be on at the start.
    pub open spec fn shell_cursor_row(self) -> nat {
        match self.config.cursor_row {
            Some(row) => row as nat,
            None => self.total_rows,
        }
    }

    /// How many rows the shell's cursor is too low to stay above the separator.
    pub open spec fn shell_overflow(self) -> nat {
        layout::larger(self.shell_cursor_row() + self.pane_rows + 1 - self.total_rows, 0) as nat
    }

    /// Whether a terminal of this size is another than the pane was laid out for.
    pub open spec fn resizes(self, size: Option<(u16, u16)>) -> bool {
        size matches Some(s) && (s.0 != self.total_rows || s.1 != self.cols)
    }

    /// The pane with another number of rows: it shows the end of what it showed.
    pub open spec fn refitted(self, pane_rows: nat) -> PaneState {
        PaneState { pane_rows, ..self }.showing(self.log())
    }

    /// The pane on a terminal of another size.
    pub open spec fn resized(self, size: (u16, u16)) -> PaneState {
        PaneState {
            total_rows: size.0 as nat,
            cols: size.1 as nat,
            separator: layout::separator_bytes(size.1 as nat),
            ..self
        }.refitted(layout::pane_height(size.0 as int, self.config) as nat)
    }

    /// The pane once `overflow` lines have been taken from the shell.
    pub open spec fn with_overflow(self, overflow: nat) -> PaneState {
        PaneState { overflow, ..self }
    }

    /// What splits the screen: lines are taken out from under the shell's cursor
    /// where it is too low, the shell is confined to its rows, the separator is
    /// drawn, the pane is blanked, and the cursor is put back on its line.
    pub open spec fn setup_ctls(self) -> Seq<Ctl> {
        seq![Ctl::SaveCursor] + (if self.overflow > 0 {
            seq![Ctl::Goto { row: self.shell_bottom() }, Ctl::DeleteLines { n: self.overflow }]
        } else {
            seq![]
        }) + seq![
            Ctl::ScrollRegion { bottom: self.shell_bottom() },
            Ctl::Goto { row: self.separator_row() },
            Ctl::Print { text: self.separator },
        ] + clear_ctls(self.pane_start(), self.pane_rows) + seq![Ctl::RestoreCursor] + (
        if self.overflow > 0 {
            seq![Ctl::Up { n: self.overflow }]
        } else {
            seq![]
        })
    }

    /// What undoes the split: the shell gets all rows, separator and pane are
    /// blanked, and the lines that were taken out are put in again as blank ones.
    pub open spec fn teardown_ctls(self) -> Seq<Ctl> {
        seq![Ctl::SaveCursor, Ctl::ScrollRegion { bottom: self.total_rows }] + clear_ctls(
            self.separator_row(),
            self.pane_rows + 1,
        ) + (if self.overflow > 0 {
            seq![Ctl::Goto { row: self.shell_bottom() }, Ctl::InsertLines { n: self.overflow }]
        } else {
            seq![]
        }) + seq![Ctl::RestoreCursor] + (if self.overflow > 0 {
            seq![Ctl::Down { n: self.overflow }]
        } else {
            seq![]
        })
    }

    /// What draws the separator anew, after the terminal's size has changed.
    pub open spec fn resize_ctls(self) -> Seq<Ctl> {
        seq![
            Ctl::ScrollRegion { bottom: self.shell_bottom() },
            Ctl::Goto { row: self.separator_row() },
            Ctl::EraseLine,
            Ctl::Print { text: self.separator },
        ]
    }

    /// What draws the separator and all of the pane.
    pub open spec fn redraw_ctls(self) -> Seq<Ctl> {
        seq![Ctl::SaveCursor] + self.resize_ctls() + paint_ctls(self.pane_start(), self.rows)
            + seq![Ctl::RestoreCursor]
    }
}

/// What blanks `n` rows from row `from` on.
pub open spec fn clear_ctls(from: nat, n: nat) -> Seq<Ctl>
    decreases n,
{
    if n == 0 {
        seq![]
    } else {
        clear_ctls(from, (n - 1) as nat) + seq![
            Ctl::Goto { row: (from + n - 1) as nat },
            Ctl::EraseLine,
        ]
    }
}

/// What draws `rows`, one below the other, from row `from` on.
pub open spec fn paint_ctls(from: nat, rows: Seq<Seq<u8>>) -> Seq<Ctl>
    decreases rows.len(),
{
    if rows.len() == 0 {
        seq![]
    } else {
        paint_ctls(from, rows.drop_last()) + seq![
            Ctl::Goto { row: (from + rows.len() - 1) as nat },
            Ctl::EraseLine,
            Ctl::Print { text: rows.last() },
        ]
    }
}

/// Feeding a log does not depend on lines that are no longer shown: what is shown
/// after `log` and one more byte is what was shown, fed with that byte.
pub(crate) proof fn lemma_showing_step(p: PaneState, log: Log, b: u8)
    requires
        p.pane_rows > 0,
        log.lines.len() > 0,
    ensures
        p.showing(p.showing(log).log().feed(b, p.cols)) == p.showing(log.feed(b, p.cols)),
{
    let kept = p.showing(log).log();
    let n = p.pane_rows;
    let cut = if log.lines.len() > n {
        log.lines.len() - n
    } else {
        0
    };
    assert(kept.lines =~= log.lines.skip(cut));
    let next = log.feed(b, p.cols);
    let next_kept = kept.feed(b, p.cols);
    assert(next_kept.lines =~= next.lines.skip(cut));
    assert(log::shown(next_kept.lines, n) =~= log::shown(next.lines, n));
}

/// A log of no more lines than the pane has rows can be read off the pane.
pub(crate) proof fn lemma_shown_log(p: PaneState, log: Log)
    requires
        0 < log.lines.len() <= p.pane_rows,
    ensures
        p.showing(log).log() == log,
{
    assert(p.showing(log).log().lines =~= log.lines);
}

/// A pane that shows a log is a proper pane.
pub(crate) proof fn lemma_showing_wf(p: PaneState, log: Log)
    requires
        p.wf(),
        log.col < u16::MAX,
    ensures
        p.showing(log).wf(),
{
}

/// Showing what is shown changes nothing.
pub(crate) proof fn lemma_showing_own_log(p: PaneState)
    requires
        p.wf(),
    ensures
        p.showing(p.log()) == p,
{
    assert(p.showing(p.log()).rows =~= p.rows);
}

/// The pane that sits below the shell.
pub struct SplitPane {
    config: SplitConfig,
    total_rows: u16,
    cols: u16,
    pane_rows: u16,
    ring: Vec<Vec<u8>>,
    cursor_row: usize,
    cursor_col: usize,
    in_esc: bool,
    separator: Vec<u8>,
    overflow: u16,
}

impl View for SplitPane {
    type V = PaneState;

    closed spec fn view(&self) -> PaneState {
        PaneState {
            config: self.config,
            total_rows: self.total_rows as nat,
            cols: self.cols as nat,
            pane_rows: self.pane_rows as nat,
            rows: Seq::new(self.ring@.len(), |i: int| self.ring@[i]@),
            cursor_row: self.cursor_row as int,
            cursor_col: self.cursor_col as nat,
            in_esc: self.in_esc,
            separator: self.separator@,
            overflow: self.overflow as nat,
        }
    }
}

/// `n` empty rows.
fn blank_rows(n: usize) -> (rows: Vec<Vec<u8>>)
    ensures
        rows@.len() == n,
        forall|i: int| 0 <= i < n ==> (#[trigger] rows@[i])@ == Seq::<u8>::empty(),
{
    let mut rows: Vec<Vec<u8>> = Vec::new();
    let mut i: usize = 0;
    while i < n
        invariant
            i <= n,
            rows@.len() == i,
            forall|k: int| 0 <= k < i ==> (#[trigger] rows@[k])@ == Seq::<u8>::empty(),
        decreases n - i,
    {
        rows.push(Vec::new());
        i = i + 1;
    }
    rows
}

impl SplitPane {
    /// The next line is started: on the next row, or on the last one after all
    /// rows have moved up.
    fn newline(&mut self)
        requires
            old(self)@.wf(),
            old(self)@.pane_rows > 0,
        ensures
            final(self)@ == old(self)@.showing(old(self)@.log().new_line()),
            final(self)@.wf(),
    {
        let ghost p = self@;
        let ghost log = p.log();
        if self.cursor_row + 1 < self.ring.len() {
            self.cursor_row += 1;
        } else {
            let mut row = self.ring.remove(0);
            row.clear();
            self.ring.push(row);
        }
        self.cursor_col = 0;
        assert(self@.rows =~= log::shown(log.new_line().lines, p.pane_rows));
    }

    /// A byte is put at the end of the row that the log goes on at.
    fn push_byte(&mut self, b: u8)
        requires
            old(self)@.wf(),
            old(self)@.pane_rows > 0,
        ensures
            final(self)@ == old(self)@.showing(old(self)@.log().append(b)),
            final(self)@.wf(),
    {
        let ghost p = self@;
        let ghost log = p.log();
        let row: usize = self.cursor_row;
        self.ring[row].push(b);
        assert(self.ring@[row as int]@ == p.rows[row as int].push(b));
        assert(log.lines.last() == p.rows[row as int]);
        assert(self@.rows =~= p.rows.update(row as int, p.rows[row as int].push(b)));
        assert forall|i: int| 0 <= i < p.pane_rows implies self@.rows[i] == log::shown(
            log.append(b).lines,
            p.pane_rows,
        )[i] by {
            if i > row {
                assert(p.rows[i] == Seq::<u8>::empty());
            }
        }
        assert(self@.rows =~= log::shown(log.append(b).lines, p.pane_rows));
    }

    /// Takes in one byte of the log.
    fn ingest_byte(&mut self, b: u8)
        requires
            old(self)@.wf(),
            old(self)@.pane_rows > 0 || b == CR,
        ensures
            final(self)@ == old(self)@.showing(old(self)@.log().feed(b, old(self)@.cols)),
            final(self)@.wf(),
    {
        let ghost p = self@;
        proof {
            lemma_showing_own_log(p);
        }
        if b == CR {
            self.cursor_col = 0;
            assert(self@.rows =~= p.rows);
        } else if b == LF {
            self.newline();
        } else if b == ESC {
            self.push_byte(b);
            self.in_esc = true;
            assert(self@.rows =~= p.showing(p.log().append(b)).rows);
        } else {
            self.push_byte(b);
            let ghost q = self@;
            proof {
                lemma_shown_log(p, p.log().append(b));
            }
            if self.in_esc {
                if is_ascii_letter(b) {
                    self.in_esc = false;
                    assert(self@.rows =~= q.rows);
                }
            } else {
                let col: usize = self.cursor_col + 1;
                if col >= self.cols as usize {
                    self.newline();
                } else {
                    self.cursor_col = col;
                    assert(self@.rows =~= q.rows);
                }
            }
        }
    }

    /// Takes in a piece of the log. The pane then shows the end of the log that it
    /// remembered, with the piece put after it.
    pub fn ingest(&mut self, data: &[u8])
        requires
            old(self)@.wf(),
            old(self)@.pane_rows > 0 || forall|i: int| 0 <= i < data@.len() ==> data@[i] == CR,
        ensures
            final(self)@ == old(self)@.ingested(data@),
            final(self)@.wf(),
    {
        let ghost p = self@;
        let mut i: usize = 0;
        proof {
            lemma_showing_own_log(p);
            assert(data@.take(0) =~= Seq::<u8>::empty());
        }
        while i < data.len()
            invariant
                i <= data@.len(),
                p.wf(),
                self@.wf(),
                p.pane_rows > 0 || forall|k: int| 0 <= k < data@.len() ==> data@[k] == CR,
                self@ == p.showing(p.log().feed_all(data@.take(i as int), p.cols)),
                p.pane_rows > 0 ==> p.log().feed_all(data@.take(i as int), p.cols).lines.len() > 0,
            decreases data@.len() - i,
        {
            let ghost log = p.log().feed_all(data@.take(i as int), p.cols);
            self.ingest_byte(data[i]);
            proof {
                assert(data@.take(i + 1).drop_last() =~= data@.take(i as int));
                assert(data@.take(i + 1).last() == data@[i as int]);
                if p.pane_rows > 0 {
                    lemma_showing_step(p, log, data@[i as int]);
                } else {
                    assert(data@[i as int] == CR);
                    let kept = p.showing(log).log();
                    assert(log::shown(kept.lines, 0) =~= log::shown(log.lines, 0));
                }
            }
            i = i + 1;
        }
        assert(data@.take(data@.len() as int) =~= data@);
    }

    /// A pane on a terminal of the given rows and columns; where the terminal does
    /// not say, on one of the usual size.
    pub fn new(size: Option<(u16, u16)>, config: SplitConfig) -> (pane: Self)
        requires
            config.valid(),
        ensures
            pane@ == (match size {
                Some(s) => PaneState::fresh(s.0 as nat, s.1 as nat, config),
                None => PaneState::fresh(FALLBACK_ROWS as nat, FALLBACK_COLS as nat, config),
            }),
            pane@.wf(),
    {
        let (total_rows, cols) = match size {
            Some(s) => s,
            None => (FALLBACK_ROWS, FALLBACK_COLS),
        };
        let pane_rows: u16 = pane_rows_for_height(total_rows, config);
        let pane = SplitPane {
            config,
            total_rows,
            cols,
            pane_rows,
            ring: blank_rows(pane_rows as usize),
            cursor_row: 0,
            cursor_col: 0,
            in_esc: false,
            separator: build_separator(cols),
            overflow: 0,
        };
        assert(pane@.rows =~= PaneState::fresh(total_rows as nat, cols as nat, config).rows);
        pane
    }

    /// The bytes of one row.
    pub fn row(&self, i: usize) -> (row: &Vec<u8>)
        requires
            i < self@.rows.len(),
        ensures
            row@ == self@.rows[i as int],
    {
        &self.ring[i]
    }

    /// The row and the column at which the log goes on.
    pub fn cursor(&self) -> (cursor: (usize, usize))
        ensures
            cursor.0 == self@.cursor_row,
            cursor.1 == self@.cursor_col,
    {
        (self.cursor_row, self.cursor_col)
    }

    /// Whether the terminal has room for the separator and the pane.
    pub fn fits(&self) -> (yes: bool)
        ensures
            yes == self@.fits(),
    {
        self.pane_rows < self.total_rows
    }

    /// Whether the split can be undone.
    pub fn can_teardown(&self) -> (yes: bool)
        ensures
            yes == self@.can_be_undone(),
    {
        self.pane_rows <= self.total_rows && (self.overflow == 0 || self.fits())
    }

    /// Whether the rows that `setup` works with can be counted.
    pub fn can_setup(&self) -> (yes: bool)
        ensures
            yes == (self@.fits() && self@.shell_cursor_row() + self@.pane_rows + 1 <= u16::MAX),
    {
        let cursor_row: u16 = match self.config.cursor_row {
            Some(row) => row,
            None => self.total_rows,
        };
        self.fits() && cursor_row as u32 + self.pane_rows as u32 + 1 <= u16::MAX as u32
    }

    /// Whether a terminal of this size has room for the separator and the pane.
    pub fn can_resize(&self, size: Option<(u16, u16)>) -> (yes: bool)
        requires
            self@.wf(),
        ensures
            yes == (self@.resizes(size) ==> self@.resized(size->0).fits()),
    {
        match size {
            None => true,
            Some((rows, cols)) => (rows == self.total_rows && cols == self.cols)
                || pane_rows_for_height(rows, self.config) < rows,
        }
    }

    /// The pane's rows and columns.
    pub fn pane_size(&self) -> (size: (u16, u16))
        ensures
            size.0 == self@.pane_rows,
            size.1 == self@.cols,
    {
        (self.pane_rows, self.cols)
    }

    fn separator_row(&self) -> (row: u16)
        requires
            self@.pane_rows <= self@.total_rows,
        ensures
            row == self@.separator_row(),
            self@.fits() ==> row > 0,
    {
        self.total_rows - self.pane_rows
    }

    fn pane_start(&self) -> (row: usize)
        requires
            self@.fits(),
        ensures
            row == self@.pane_start(),
    {
        self.separator_row() as usize + 1
    }

    fn shell_bottom(&self) -> (row: u16)
        requires
            self@.fits(),
        ensures
            row == self@.shell_bottom(),
    {
        self.separator_row() - 1
    }

    fn write_shell_scroll_region(&self, w: &mut CtlWriter)
        requires
            self@.fits(),
            old(w).wf(),
        ensures
            final(w).wf(),
            final(w)@ == old(w)@.push(Ctl::ScrollRegion { bottom: self@.shell_bottom() }),
    {
        w.scroll_region(self.shell_bottom());
    }

    fn write_full_scroll_region(&self, w: &mut CtlWriter)
        requires
            old(w).wf(),
        ensures
            final(w).wf(),
            final(w)@ == old(w)@.push(Ctl::ScrollRegion { bottom: self@.total_rows }),
    {
        w.scroll_region(self.total_rows);
    }

    /// Splits the screen. Gives back what has to be sent to the terminal.
    pub fn setup(&mut self) -> (bytes: Vec<u8>)
        requires
            old(self)@.wf(),
            old(self)@.fits(),
            old(self)@.shell_cursor_row() + old(self)@.pane_rows + 1 <= u16::MAX,
        ensures
            final(self)@ == old(self)@.with_overflow(old(self)@.shell_overflow()),
            old(self)@.config.cursor_row is None ==> final(self)@.overflow == old(self)@.pane_rows
                + 1,
            old(self)@.config.cursor_row matches Some(at) ==> (at + old(self)@.pane_rows
                < old(self)@.total_rows && final(self)@.overflow == 0) || at + old(self)@.pane_rows
                + 1 == old(self)@.total_rows + final(self)@.overflow,
            final(self)@.wf(),
            bytes@ == ctl::encode(final(self)@.setup_ctls()),
    {
        let ghost p = self@;
        let total: u16 = self.total_rows;
        let pane_space: u16 = self.pane_rows + 1;
        let cursor_row: u16 = match self.config.cursor_row {
            Some(row) => row,
            None => total,
        };
        let overflow: u16 = (cursor_row + pane_space).saturating_sub(total);
        self.overflow = overflow;
        assert(self@.rows =~= p.rows);

        let mut w = CtlWriter::new();
        w.save_cursor();
        if overflow > 0 {
            w.goto(self.shell_bottom() as usize);
            w.delete_lines(overflow);
        }
        self.write_shell_scroll_region(&mut w);
        w.goto(self.separator_row() as usize);
        w.print(&self.separator);
        clear_rows(&mut w, self.pane_start(), self.pane_rows as usize);
        w.restore_cursor();
        if overflow > 0 {
            w.up(overflow);
        }
        assert(w@ =~= self@.setup_ctls());
        w.finish()
    }

    /// Undoes the split. Gives back what has to be sent to the terminal.
    pub fn teardown(&self) -> (bytes: Vec<u8>)
        requires
            self@.wf(),
            self@.can_be_undone(),
        ensures
            bytes@ == ctl::encode(self@.teardown_ctls()),
    {
        let mut w = CtlWriter::new();
        w.save_cursor();
        self.write_full_scroll_region(&mut w);
        clear_rows(&mut w, self.separator_row() as usize, self.pane_rows as usize + 1);
        if self.overflow > 0 {
            w.goto(self.shell_bottom() as usize);
            w.insert_lines(self.overflow);
        }
        w.restore_cursor();
        if self.overflow > 0 {
            w.down(self.overflow);
        }
        assert(w@ =~= self@.teardown_ctls());
        w.finish()
    }

    /// Lays the pane out again where the terminal's size has changed. Gives back
    /// what has then to be sent to the terminal.
    pub fn handle_resize(&mut self, size: Option<(u16, u16)>) -> (bytes: Option<Vec<u8>>)
        requires
            old(self)@.wf(),
            old(self)@.resizes(size) ==> old(self)@.resized(size->0).fits(),
        ensures
            final(self)@.wf(),
            old(self)@.resizes(size) ==> {
                &&& final(self)@ == old(self)@.resized(size->0)
                &&& bytes matches Some(sent) && sent@ == ctl::encode(final(self)@.resize_ctls())
            },
            !old(self)@.resizes(size) ==> final(self)@ == old(self)@ && bytes is None,
            size matches Some((rows, cols)) ==> {
                &&& final(self)@.total_rows == rows
                &&& final(self)@.cols == cols
                &&& bytes is Some <==> rows != old(self)@.total_rows || cols != old(self)@.cols
            },
    {
        let ghost p = self@;
        match size {
            None => None,
            Some((rows, cols)) => {
                if rows == self.total_rows && cols == self.cols {
                    return None;
                }
                let new_pane_rows: u16 = pane_rows_for_height(rows, self.config);
                self.total_rows = rows;
                self.cols = cols;
                if new_pane_rows != self.pane_rows {
                    self.resize_ring(new_pane_rows);
                }
                self.separator = build_separator(cols);
                proof {
                    lemma_showing_own_log(p);
                    assert(self@.rows =~= p.resized((rows, cols)).rows);
                }
                let mut w = CtlWriter::new();
                self.write_shell_scroll_region(&mut w);
                w.goto(self.separator_row() as usize);
                w.erase_line();
                w.print(&self.separator);
                assert(w@ =~= self@.resize_ctls());
                Some(w.finish())
            },
        }
    }

    /// The pane gets `pane_rows` rows; the end of what was shown stays.
    pub(crate) fn resize_ring(&mut self, pane_rows: u16)
        requires
            old(self)@.cursor_row < usize::MAX,
        ensures
            final(self)@ == old(self)@.refitted(pane_rows as nat),
    {
        self.pane_rows = pane_rows;
        let ghost p = self@;
        let new_cap: usize = self.pane_rows as usize;
        let count: usize = self.cursor_row + 1;
        let old_count: usize = if count <= self.ring.len() {
            count
        } else {
            self.ring.len()
        };
        let keep: usize = if old_count <= new_cap {
            old_count
        } else {
            new_cap
        };
        let skip: usize = old_count - keep;
        let mut new_ring = blank_rows(new_cap);
        let mut i: usize = 0;
        while i < keep
            invariant
                i <= keep <= new_cap,
                new_ring@.len() == new_cap,
                skip + keep == old_count <= self.ring@.len() == p.rows.len(),
                forall|k: int|
                    skip + i <= k < old_count ==> (#[trigger] self.ring@[k])@ == p.rows[k],
                forall|k: int| 0 <= k < i ==> (#[trigger] new_ring@[k])@ == p.rows[skip + k],
                forall|k: int|
                    i <= k < new_cap ==> (#[trigger] new_ring@[k])@ == Seq::<u8>::empty(),
                self@ == (PaneState { rows: self@.rows, ..p }),
            decreases keep - i,
        {
            std::mem::swap(&mut new_ring[i], &mut self.ring[skip + i]);
            i = i + 1;
        }
        self.ring = new_ring;
        self.cursor_row = if keep == 0 {
            0
        } else {
            keep - 1
        };
        assert(self@.rows =~= log::shown(p.log().lines, p.pane_rows));
    }

    /// Draws the separator and the pane, and leaves the cursor where it was.
    /// Gives back what has to be sent to the terminal.
    pub fn redraw(&self) -> (bytes: Vec<u8>)
        requires
            self@.wf(),
            self@.fits(),
        ensures
            bytes@ == ctl::encode(self@.redraw_ctls()),
    {
        let pane_rows: usize = self.pane_rows as usize;
        let pane_start: usize = self.pane_start();
        let mut w = CtlWriter::new();
        w.save_cursor();
        self.write_shell_scroll_region(&mut w);
        w.goto(self.separator_row() as usize);
        w.erase_line();
        w.print(&self.separator);
        let ghost head = w@;
        assert(head =~= seq![Ctl::SaveCursor] + self@.resize_ctls());
        assert(head =~= head + paint_ctls(pane_start as nat, self@.rows.take(0)));
        let mut i: usize = 0;
        while i < pane_rows
            invariant
                i <= pane_rows == self@.pane_rows,
                self@.wf(),
                pane_start == self@.pane_start() <= u16::MAX + 1,
                w.wf(),
                w@ == head + paint_ctls(pane_start as nat, self@.rows.take(i as int)),
            decreases pane_rows - i,
        {
            let row: usize = pane_start + i;
            w.goto(row);
            w.erase_line();
            w.print(&self.ring[i]);
            proof {
                let next = self@.rows.take(i + 1);
                assert(next.drop_last() =~= self@.rows.take(i as int));
                assert(w@ =~= head + paint_ctls(pane_start as nat, next));
            }
            i = i + 1;
        }
        w.restore_cursor();
        assert(self@.rows.take(pane_rows as int) =~= self@.rows);
        assert(w@ =~= self@.redraw_ctls());
        w.finish()
    }
}

/// Asks to blank `n` rows from row `from` on.
fn clear_rows(w: &mut CtlWriter, from: usize, n: usize)
    requires
        old(w).wf(),
        from + n <= u32::MAX,
    ensures
        final(w).wf(),
        final(w)@ == old(w)@ + clear_ctls(from as nat, n as nat),
{
    let ghost before = w@;
    assert(before =~= before + clear_ctls(from as nat, 0));
    let mut i: usize = 0;
    while i < n
        invariant
            i <= n,
            from + n <= u32::MAX,
            w.wf(),
            w@ == before + clear_ctls(from as nat, i as nat),
        decreases n - i,
    {
        w.goto(from + i);
        w.erase_line();
        i = i + 1;
        assert(w@ =~= before + clear_ctls(from as nat, i as nat));
    }
}

} // verus!
