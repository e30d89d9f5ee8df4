//! What the pane's control sequences do to a screen.
//!
//! The screen is modelled as far as the pane needs it: lines, a scroll region
//! that starts at the first row, a cursor and a remembered place. How text looks
//! on a line is left open: the laws hold for every way a terminal may show it, as
//! long as text stays on the line that it is printed on.

use crate::ctl;
use crate::ctl::Ctl;
use crate::pane;
use crate::pane::{PaneState, SplitPane};
use vstd::prelude::*;

verus! {

/// How a terminal shows text on its lines.
#[verifier::reject_recursive_types(L)]
pub struct Glyphs<L> {
    /// A line that holds nothing.
    pub blank: L,
    /// A line after text was printed on it, from a column on.
    pub print: spec_fn(L, int, Seq<u8>) -> L,
    /// The column after text was printed from a column on.
    pub advance: spec_fn(int, Seq<u8>) -> int,
}

/// A screen. Rows and columns count from one; `lines[0]` is row one.
pub struct Screen<L> {
    pub lines: Seq<L>,
    /// The last row of the scroll region.
    pub bottom: int,
    pub row: int,
    pub col: int,
    pub saved_row: int,
    pub saved_col: int,
}

impl<L> Screen<L> {
    /// The cursor and the scroll region are on the screen.
    pub open spec fn wf(self) -> bool {
        &&& 1 <= self.row <= self.lines.len()
        &&& 1 <= self.bottom <= self.lines.len()
    }

    /// The line in a row.
    pub open spec fn line(self, row: int) -> L {
        self.lines[row - 1]
    }

    /// The screen after one request.
    pub open spec fn after(self, ctl: Ctl, glyphs: Glyphs<L>) -> Screen<L> {
        let height = self.lines.len() as int;
        match ctl {
            Ctl::SaveCursor => Screen { saved_row: self.row, saved_col: self.col, ..self },
            Ctl::RestoreCursor => Screen { row: self.saved_row, col: self.saved_col, ..self },
            // A region of less than two rows, or one that is not on the screen, is not taken.
            Ctl::ScrollRegion { bottom } => if 2 <= bottom <= height {
                Screen { bottom: bottom as int, row: 1, col: 1, ..self }
            } else {
                self
            },
            Ctl::Goto { row } => Screen {
                row: if row < 1 {
                    1
                } else if row > height {
                    height
                } else {
                    row as int
                },
                col: 1,
                ..self
            },
            Ctl::EraseLine => Screen {
                lines: self.lines.update(self.row - 1, glyphs.blank),
                ..self
            },
            // The lines below, down to the end of the region, move up.
            Ctl::DeleteLines { n } => if self.row <= self.bottom {
                Screen {
                    lines: Seq::new(
                        self.lines.len(),
                        |i: int|
                            if i < self.row - 1 || i >= self.bottom {
                                self.lines[i]
                            } else if i + n < self.bottom {
                                self.lines[i + n]
                            } else {
                                glyphs.blank
                            },
                    ),
                    col: 1,
                    ..self
                }
            } else {
                self
            },
            // The cursor's line and those below move down; what leaves the region is gone.
            Ctl::InsertLines { n } => if self.row <= self.bottom {
                Screen {
                    lines: Seq::new(
                        self.lines.len(),
                        |i: int|
                            if i < self.row - 1 || i >= self.bottom {
                                self.lines[i]
                            } else if i - n >= self.row - 1 {
                                self.lines[i - n]
                            } else {
                                glyphs.blank
                            },
                    ),
                    col: 1,
                    ..self
                }
            } else {
                self
            },
            Ctl::Up { n } => Screen {
                row: if self.row - n < 1 {
                    1
                } else {
                    self.row - n
                },
                ..self
            },
            // From within the region the cursor does not leave it.
            Ctl::Down { n } => {
                let limit = if self.row <= self.bottom {
                    self.bottom
                } else {
                    height
                };
                Screen {
                    row: if self.row + n > limit {
                        limit
                    } else {
                        self.row + n
                    },
                    ..self
                }
            },
            Ctl::Print { text } => Screen {
                lines: self.lines.update(
                    self.row - 1,
                    (glyphs.print)(self.line(self.row), self.col, text),
                ),
                col: (glyphs.advance)(self.col, text),
                ..self
            },
        }
    }

    /// The screen after all requests of a list.
    pub open spec fn after_all(self, ctls: Seq<Ctl>, glyphs: Glyphs<L>) -> Screen<L>
        decreases ctls.len(),
    {
        if ctls.len() == 0 {
            self
        } else {
            self.after_all(ctls.drop_last(), glyphs).after(ctls.last(), glyphs)
        }
    }

    /// The screen after the pane was drawn in each of several states.
    pub open spec fn after_redraws(self, panes: Seq<PaneState>, glyphs: Glyphs<L>) -> Screen<L>
        decreases panes.len(),
    {
        if panes.len() == 0 {
            self
        } else {
            self.after_redraws(panes.drop_last(), glyphs).after_all(
                panes.last().redraw_ctls(),
                glyphs,
            )
        }
    }
}

proof fn lemma_after_concat<L>(s: Screen<L>, a: Seq<Ctl>, b: Seq<Ctl>, g: Glyphs<L>)
    ensures
        s.after_all(a + b, g) == s.after_all(a, g).after_all(b, g),
    decreases b.len(),
{
    if b.len() == 0 {
        assert(a + b =~= a);
    } else {
        lemma_after_concat(s, a, b.drop_last(), g);
        assert((a + b).drop_last() =~= a + b.drop_last());
        assert((a + b).last() == b.last());
    }
}

proof fn lemma_after_one<L>(s: Screen<L>, a: Ctl, g: Glyphs<L>)
    ensures
        s.after_all(seq![a], g) == s.after(a, g),
{
    assert(seq![a].drop_last() =~= Seq::<Ctl>::empty());
    assert(s.after_all(Seq::<Ctl>::empty(), g) == s);
}

proof fn lemma_after_two<L>(s: Screen<L>, a: Ctl, b: Ctl, g: Glyphs<L>)
    ensures
        s.after_all(seq![a, b], g) == s.after(a, g).after(b, g),
{
    assert(seq![a, b].drop_last() =~= seq![a]);
    lemma_after_one(s, a, g);
}

proof fn lemma_after_three<L>(s: Screen<L>, a: Ctl, b: Ctl, c: Ctl, g: Glyphs<L>)
    ensures
        s.after_all(seq![a, b, c], g) == s.after(a, g).after(b, g).after(c, g),
{
    assert(seq![a, b, c].drop_last() =~= seq![a, b]);
    lemma_after_two(s, a, b, g);
}

/// Blanking rows changes those rows, and the cursor's place.
proof fn lemma_clear<L>(s: Screen<L>, from: nat, n: nat, g: Glyphs<L>)
    requires
        s.wf(),
        1 <= from,
        from + n <= s.lines.len() + 1,
    ensures
        ({
            let t = s.after_all(pane::clear_ctls(from, n), g);
            &&& t.wf()
            &&& t.lines == Seq::new(
                s.lines.len(),
                |i: int|
                    if from <= i + 1 < from + n {
                        g.blank
                    } else {
                        s.lines[i]
                    },
            )
            &&& t.bottom == s.bottom
            &&& t.saved_row == s.saved_row
            &&& t.saved_col == s.saved_col
        }),
    decreases n,
{
    let t = s.after_all(pane::clear_ctls(from, n), g);
    let cleared = Seq::new(
        s.lines.len(),
        |i: int|
            if from <= i + 1 < from + n {
                g.blank
            } else {
                s.lines[i]
            },
    );
    if n == 0 {
        assert(t.lines =~= cleared);
    } else {
        let m = (n - 1) as nat;
        let row = (from + n - 1) as nat;
        lemma_clear(s, from, m, g);
        let u = s.after_all(pane::clear_ctls(from, m), g);
        lemma_after_concat(
            s,
            pane::clear_ctls(from, m),
            seq![Ctl::Goto { row }, Ctl::EraseLine],
            g,
        );
        lemma_after_two(u, Ctl::Goto { row }, Ctl::EraseLine, g);
        assert(t.lines =~= cleared);
    }
}

/// Painting rows changes those rows, and the cursor's place.
proof fn lemma_paint<L>(s: Screen<L>, from: nat, rows: Seq<Seq<u8>>, g: Glyphs<L>)
    requires
        s.wf(),
        1 <= from,
        from + rows.len() <= s.lines.len() + 1,
    ensures
        ({
            let t = s.after_all(pane::paint_ctls(from, rows), g);
            &&& t.wf()
            &&& t.lines == Seq::new(
                s.lines.len(),
                |i: int|
                    if from <= i + 1 < from + rows.len() {
                        (g.print)(g.blank, 1, rows[i + 1 - from])
                    } else {
                        s.lines[i]
                    },
            )
            &&& t.bottom == s.bottom
            &&& t.saved_row == s.saved_row
            &&& t.saved_col == s.saved_col
        }),
    decreases rows.len(),
{
    let t = s.after_all(pane::paint_ctls(from, rows), g);
    let painted = Seq::new(
        s.lines.len(),
        |i: int|
            if from <= i + 1 < from + rows.len() {
                (g.print)(g.blank, 1, rows[i + 1 - from])
            } else {
                s.lines[i]
            },
    );
    if rows.len() == 0 {
        assert(t.lines =~= painted);
    } else {
        let before = rows.drop_last();
        let row = (from + rows.len() - 1) as nat;
        let text = rows.last();
        lemma_paint(s, from, before, g);
        let u = s.after_all(pane::paint_ctls(from, before), g);
        lemma_after_concat(
            s,
            pane::paint_ctls(from, before),
            seq![Ctl::Goto { row }, Ctl::EraseLine, Ctl::Print { text }],
            g,
        );
        lemma_after_three(u, Ctl::Goto { row }, Ctl::EraseLine, Ctl::Print { text }, g);
        assert(t.lines =~= painted);
    }
}

/// After a change of size the shell is confined to its rows and the separator is
/// drawn on a blank line. No other line changes; the cursor is left on the
/// separator's row.
pub proof fn law_resize_draws_separator<L>(s: Screen<L>, p: PaneState, g: Glyphs<L>)
    requires
        s.wf(),
        p.wf(),
        p.fits(),
        p.shell_bottom() >= 2,
        s.lines.len() == p.total_rows,
    ensures
        ({
            let t = s.after_all(p.resize_ctls(), g);
            &&& t.wf()
            &&& t.row == p.separator_row()
            &&& t.bottom == p.shell_bottom()
            &&& t.saved_row == s.saved_row && t.saved_col == s.saved_col
            &&& t.lines == s.lines.update(
                p.separator_row() - 1,
                (g.print)(g.blank, 1, p.separator),
            )
        }),
{
    let region = Ctl::ScrollRegion { bottom: p.shell_bottom() };
    let goto = Ctl::Goto { row: p.separator_row() };
    let print = Ctl::Print { text: p.separator };
    assert(p.resize_ctls() =~= seq![region, goto] + seq![Ctl::EraseLine, print]);
    lemma_after_concat(s, seq![region, goto], seq![Ctl::EraseLine, print], g);
    lemma_after_two(s, region, goto, g);
    let s1 = s.after(region, g).after(goto, g);
    lemma_after_two(s1, Ctl::EraseLine, print, g);
    let t = s.after_all(p.resize_ctls(), g);
    assert(t.lines =~= s.lines.update(
        p.separator_row() - 1,
        (g.print)(g.blank, 1, p.separator),
    ));
}

/// Drawing the pane leaves the shell alone: its lines, its cursor and so what is
/// being typed stay as they are, and it stays confined to its rows. The separator
/// and the pane's rows are drawn on blank lines, whatever stood there before.
pub proof fn law_redraw_leaves_shell_alone<L>(s: Screen<L>, p: PaneState, g: Glyphs<L>)
    requires
        s.wf(),
        p.wf(),
        p.fits(),
        p.shell_bottom() >= 2,
        s.lines.len() == p.total_rows,
    ensures
        ({
            let t = s.after_all(p.redraw_ctls(), g);
            &&& t.wf()
            &&& t.row == s.row && t.col == s.col
            &&& t.bottom == p.shell_bottom()
            &&& t.lines.len() == s.lines.len()
            &&& forall|row: int| 1 <= row <= p.shell_bottom() ==> #[trigger] t.line(row) == s.line(row)
            &&& t.line(p.separator_row() as int) == (g.print)(g.blank, 1, p.separator)
            &&& forall|k: int|
                0 <= k < p.pane_rows ==> #[trigger] t.line(p.pane_start() + k) == (g.print)(
                    g.blank,
                    1,
                    p.rows[k],
                )
        }),
{
    let top = seq![Ctl::SaveCursor];
    let head = p.resize_ctls();
    let rows = pane::paint_ctls(p.pane_start(), p.rows);
    let end = seq![Ctl::RestoreCursor];
    lemma_after_concat(s, top + head + rows, end, g);
    lemma_after_concat(s, top + head, rows, g);
    lemma_after_concat(s, top, head, g);
    lemma_after_one(s, Ctl::SaveCursor, g);
    let s1 = s.after(Ctl::SaveCursor, g);
    law_resize_draws_separator(s1, p, g);
    let s2 = s1.after_all(head, g);
    lemma_paint(s2, p.pane_start(), p.rows, g);
    let s3 = s2.after_all(rows, g);
    lemma_after_one(s3, Ctl::RestoreCursor, g);
}

/// Drawing the pane again, with nothing new in the log, changes nothing: a second
/// drawing repairs the pane and does no more.
pub proof fn law_redraw_twice<L>(s: Screen<L>, p: PaneState, g: Glyphs<L>)
    requires
        s.wf(),
        p.wf(),
        p.fits(),
        p.shell_bottom() >= 2,
        s.lines.len() == p.total_rows,
    ensures
        ({
            let once = s.after_all(p.redraw_ctls(), g);
            let twice = once.after_all(p.redraw_ctls(), g);
            &&& twice.lines == once.lines
            &&& twice.row == once.row && twice.col == once.col
            &&& twice.bottom == once.bottom
        }),
{
    let once = s.after_all(p.redraw_ctls(), g);
    let twice = once.after_all(p.redraw_ctls(), g);
    law_redraw_leaves_shell_alone(s, p, g);
    law_redraw_leaves_shell_alone(once, p, g);
    assert forall|i: int| 0 <= i < once.lines.len() implies twice.lines[i] == once.lines[i] by {
        let row = i + 1;
        assert(twice.lines[i] == twice.line(row));
        assert(once.lines[i] == once.line(row));
        if row > p.separator_row() {
            let k = row - p.pane_start();
            assert(twice.line(p.pane_start() + k) == once.line(p.pane_start() + k));
        }
    }
    assert(twice.lines =~= once.lines);
}

/// The screen is one that the pane can be set up on: it has the size that the
/// pane was laid out for, all of it scrolls, and the cursor is on the row that is
/// given, or on the last one where none is. The lines that are taken out are as many
/// as the cursor is too low.
pub open spec fn ready_for_setup<L>(s: Screen<L>, p: PaneState) -> bool {
    &&& s.wf()
    &&& p.wf()
    &&& p.fits()
    &&& p.shell_bottom() >= 2
    &&& s.lines.len() == p.total_rows
    &&& s.bottom == p.total_rows
    &&& s.row == (match p.config.cursor_row {
        Some(row) => row as int,
        None => p.total_rows as int,
    })
    &&& p.overflow == (if s.row + p.pane_rows + 1 > p.total_rows {
        s.row + p.pane_rows + 1 - p.total_rows
    } else {
        0
    })
}

/// Setting up keeps the shell's line: it moves up by the rows that the cursor was
/// too low, the cursor moves with it and keeps its column, and every line above
/// is as it was. The shell is confined to its rows, the separator is drawn, and
/// the pane is blank.
pub proof fn law_setup_keeps_prompt<L>(s: Screen<L>, p: PaneState, g: Glyphs<L>)
    requires
        ready_for_setup(s, p),
    ensures
        ({
            let t = s.after_all(p.setup_ctls(), g);
            let o = p.overflow as int;
            &&& t.wf()
            &&& t.lines.len() == s.lines.len()
            &&& t.row == s.row - o && t.col == s.col
            &&& t.row <= p.shell_bottom()
            &&& o > 0 ==> t.row == p.shell_bottom()
            &&& t.bottom == p.shell_bottom()
            &&& t.line(t.row) == s.line(s.row)
            &&& forall|row: int| 1 <= row < t.row ==> #[trigger] t.line(row) == s.line(row)
            &&& o == 0 ==> forall|row: int|
                1 <= row <= p.shell_bottom() ==> #[trigger] t.line(row) == s.line(row)
            &&& t.line(p.separator_row() as int) == (g.print)(
                if p.separator_row() + o <= p.total_rows {
                    s.line(p.separator_row() + o)
                } else {
                    g.blank
                },
                1,
                p.separator,
            )
            &&& forall|row: int|
                p.pane_start() <= row <= p.total_rows ==> #[trigger] t.line(row) == g.blank
        }),
{
    let o = p.overflow;
    let save = seq![Ctl::SaveCursor];
    let sb = Ctl::Goto { row: p.shell_bottom() };
    let del = Ctl::DeleteLines { n: o };
    let take = if o > 0 {
        seq![sb, del]
    } else {
        seq![]
    };
    let region = Ctl::ScrollRegion { bottom: p.shell_bottom() };
    let sep = Ctl::Goto { row: p.separator_row() };
    let print = Ctl::Print { text: p.separator };
    let draw = seq![region, sep, print];
    let clear = pane::clear_ctls(p.pane_start(), p.pane_rows);
    let restore = seq![Ctl::RestoreCursor];
    let up = if o > 0 {
        seq![Ctl::Up { n: o }]
    } else {
        seq![]
    };
    lemma_after_concat(s, save + take + draw + clear + restore, up, g);
    lemma_after_concat(s, save + take + draw + clear, restore, g);
    lemma_after_concat(s, save + take + draw, clear, g);
    lemma_after_concat(s, save + take, draw, g);
    lemma_after_concat(s, save, take, g);
    lemma_after_one(s, Ctl::SaveCursor, g);
    let s1 = s.after(Ctl::SaveCursor, g);
    if o > 0 {
        lemma_after_two(s1, sb, del, g);
    }
    let s2 = s1.after_all(take, g);
    lemma_after_three(s2, region, sep, print, g);
    let s3 = s2.after_all(draw, g);
    lemma_clear(s3, p.pane_start(), p.pane_rows, g);
    let s4 = s3.after_all(clear, g);
    lemma_after_one(s4, Ctl::RestoreCursor, g);
    let s5 = s4.after(Ctl::RestoreCursor, g);
    if o > 0 {
        lemma_after_one(s5, Ctl::Up { n: o }, g);
    }
}

/// A split that is set up lifts the shell's cursor, with its line, to the last row
/// above the separator if it was lower, and leaves both where they are if not. Where
/// no cursor row is given, that is the cursor of a screen that stands on its last row.
pub proof fn law_setup_lifts_the_cursor<L>(
    pane: &mut SplitPane,
    bytes: Vec<u8>,
    s: Screen<L>,
    g: Glyphs<L>,
)
    requires
        old(pane)@.wf(),
        call_ensures(SplitPane::setup, (pane,), bytes),
        s.wf(),
        s.lines.len() == old(pane)@.total_rows,
        s.bottom == old(pane)@.total_rows,
        s.row == (match old(pane)@.config.cursor_row {
            Some(row) => row as int,
            None => old(pane)@.total_rows as int,
        }),
        old(pane)@.pane_rows + 3 <= old(pane)@.total_rows,
    ensures
        bytes@ == ctl::encode(final(pane)@.setup_ctls()),
        ({
            let t = s.after_all(final(pane)@.setup_ctls(), g);
            let lowest = old(pane)@.total_rows - old(pane)@.pane_rows - 1;
            &&& t.row == (if s.row > lowest {
                lowest
            } else {
                s.row
            })
            &&& t.col == s.col
            &&& t.line(t.row) == s.line(s.row)
            &&& forall|row: int| 1 <= row < t.row ==> #[trigger] t.line(row) == s.line(row)
            &&& t.bottom == lowest
            &&& t.line(lowest + 1) == (g.print)(
                if s.row > lowest {
                    if s.row + 1 <= old(pane)@.total_rows {
                        s.line(s.row + 1)
                    } else {
                        g.blank
                    }
                } else {
                    s.line(lowest + 1)
                },
                1,
                old(pane)@.separator,
            )
            &&& forall|row: int|
                lowest + 1 < row <= old(pane)@.total_rows ==> #[trigger] t.line(row) == g.blank
        }),
{
    law_setup_keeps_prompt(s, final(pane)@, g);
}

/// Undoing the split gives the shell the whole screen. Where lines had been taken
/// from it, its last line moves down again by as many rows, the cursor with it;
/// what the separator, the pane and the taken lines stood on is blank.
pub proof fn law_teardown_gives_screen_back<L>(s: Screen<L>, p: PaneState, g: Glyphs<L>)
    requires
        s.wf(),
        p.wf(),
        p.fits(),
        p.shell_bottom() >= 2,
        s.lines.len() == p.total_rows,
        s.row <= p.shell_bottom(),
        p.overflow <= p.pane_rows + 1,
    ensures
        ({
            let t = s.after_all(p.teardown_ctls(), g);
            let o = p.overflow as int;
            &&& t.wf()
            &&& t.lines.len() == s.lines.len()
            &&& t.row == s.row + o && t.col == s.col
            &&& t.bottom == p.total_rows
            &&& forall|row: int| 1 <= row < p.shell_bottom() ==> #[trigger] t.line(row) == s.line(row)
            &&& t.line(p.shell_bottom() + o) == s.line(p.shell_bottom() as int)
            &&& forall|row: int|
                p.shell_bottom() <= row <= p.total_rows && row != p.shell_bottom() + o
                    ==> #[trigger] t.line(row) == g.blank
        }),
{
    let o = p.overflow;
    let region = Ctl::ScrollRegion { bottom: p.total_rows };
    let start = seq![Ctl::SaveCursor, region];
    let clear = pane::clear_ctls(p.separator_row(), p.pane_rows + 1);
    let sb = Ctl::Goto { row: p.shell_bottom() };
    let ins = Ctl::InsertLines { n: o };
    let put = if o > 0 {
        seq![sb, ins]
    } else {
        seq![]
    };
    let restore = seq![Ctl::RestoreCursor];
    let down = if o > 0 {
        seq![Ctl::Down { n: o }]
    } else {
        seq![]
    };
    lemma_after_concat(s, start + clear + put + restore, down, g);
    lemma_after_concat(s, start + clear + put, restore, g);
    lemma_after_concat(s, start + clear, put, g);
    lemma_after_concat(s, start, clear, g);
    lemma_after_two(s, Ctl::SaveCursor, region, g);
    let s1 = s.after_all(start, g);
    lemma_clear(s1, p.separator_row(), p.pane_rows + 1, g);
    let s2 = s1.after_all(clear, g);
    if o > 0 {
        lemma_after_two(s2, sb, ins, g);
    }
    let s3 = s2.after_all(put, g);
    lemma_after_one(s3, Ctl::RestoreCursor, g);
    let s4 = s3.after(Ctl::RestoreCursor, g);
    if o > 0 {
        lemma_after_one(s4, Ctl::Down { n: o }, g);
    }
}

/// `q` is `p` with other rows: the pane on the same terminal at another time.
pub open spec fn same_split(p: PaneState, q: PaneState) -> bool {
    &&& q.wf()
    &&& q.total_rows == p.total_rows
    &&& q.pane_rows == p.pane_rows
    &&& q.overflow == p.overflow
}

/// However often the pane is drawn, the shell is left alone.
pub proof fn law_redraws_leave_shell_alone<L>(
    s: Screen<L>,
    p: PaneState,
    panes: Seq<PaneState>,
    g: Glyphs<L>,
)
    requires
        s.wf(),
        p.wf(),
        p.fits(),
        p.shell_bottom() >= 2,
        s.lines.len() == p.total_rows,
        forall|i: int| 0 <= i < panes.len() ==> same_split(p, #[trigger] panes[i]),
    ensures
        ({
            let t = s.after_redraws(panes, g);
            &&& t.wf()
            &&& t.row == s.row && t.col == s.col
            &&& t.lines.len() == s.lines.len()
            &&& forall|row: int| 1 <= row <= p.shell_bottom() ==> #[trigger] t.line(row) == s.line(row)
        }),
    decreases panes.len(),
{
    if panes.len() > 0 {
        let before = panes.drop_last();
        assert forall|i: int| 0 <= i < before.len() implies same_split(p, #[trigger] before[i]) by {
            assert(before[i] == panes[i]);
        }
        law_redraws_leave_shell_alone(s, p, before, g);
        assert(panes.last() == panes[panes.len() - 1]);
        law_redraw_leaves_shell_alone(s.after_redraws(before, g), panes.last(), g);
    }
}

/// A whole session leaves the shell where it was: after the split, any number of
/// drawings and the end of the split, the cursor and the line that it is on are
/// back in their row, the lines above the place from which lines were taken are as
/// they were, the lines from there on are blank, and all of the screen scrolls
/// again. Where no lines had to be taken, all of the shell's rows are as they were.
pub proof fn law_session_returns_prompt<L>(
    s: Screen<L>,
    p: PaneState,
    panes: Seq<PaneState>,
    last: PaneState,
    g: Glyphs<L>,
)
    requires
        ready_for_setup(s, p),
        forall|i: int| 0 <= i < panes.len() ==> same_split(p, #[trigger] panes[i]),
        same_split(p, last),
    ensures
        ({
            let t = s.after_all(p.setup_ctls(), g).after_redraws(panes, g).after_all(
                last.teardown_ctls(),
                g,
            );
            &&& t.wf()
            &&& t.row == s.row && t.col == s.col
            &&& t.bottom == p.total_rows
            &&& t.line(s.row) == s.line(s.row)
            &&& forall|row: int|
                1 <= row < s.row - p.overflow ==> #[trigger] t.line(row) == s.line(row)
            &&& p.overflow == 0 ==> forall|row: int|
                1 <= row <= p.shell_bottom() ==> #[trigger] t.line(row) == s.line(row)
            &&& p.overflow > 0 ==> forall|row: int|
                s.row - p.overflow <= row < s.row ==> #[trigger] t.line(row) == g.blank
            &&& forall|row: int|
                p.shell_bottom() < row <= p.total_rows && row != s.row ==> #[trigger] t.line(row)
                    == g.blank
        }),
{
    let set = s.after_all(p.setup_ctls(), g);
    let drawn = set.after_redraws(panes, g);
    law_setup_keeps_prompt(s, p, g);
    law_redraws_leave_shell_alone(set, p, panes, g);
    law_teardown_gives_screen_back(drawn, last, g);
    assert(drawn.line(set.row) == set.line(set.row));
    let t = drawn.after_all(last.teardown_ctls(), g);
    assert forall|row: int| 1 <= row < s.row - p.overflow implies #[trigger] t.line(row) == s.line(
        row,
    ) by {
        assert(drawn.line(row) == set.line(row));
        assert(set.line(row) == s.line(row));
    }
    if p.overflow > 0 {
        assert(set.row == p.shell_bottom());
    } else {
        assert forall|row: int| 1 <= row <= p.shell_bottom() implies #[trigger] t.line(row)
            == s.line(row) by {
            assert(drawn.line(row) == set.line(row));
            assert(set.line(row) == s.line(row));
        }
    }
}

} // verus!
