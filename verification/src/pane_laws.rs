//! What holds of a pane over many pieces of a log and many sizes of the terminal.

use crate::layout::SplitConfig;
use crate::log::Log;
use crate::pane::PaneState;
use crate::{layout, log, pane};
use vstd::prelude::*;

verus! {

/// The shell's rows, the separator and the pane's rows share out the terminal: they
/// follow one another without a gap and end with the last row.
pub proof fn law_rows_are_shared_out(p: PaneState)
    requires
        p.wf(),
        p.fits(),
    ensures
        p.shell_bottom() + 1 == p.separator_row(),
        p.separator_row() + 1 == p.pane_start(),
        p.pane_start() + p.pane_rows == p.total_rows + 1,
{
}

/// What is shown after a longer log depends only on what was shown.
proof fn lemma_showing_more(p: PaneState, log: Log, data: Seq<u8>)
    requires
        p.pane_rows > 0,
        log.lines.len() > 0,
    ensures
        p.showing(log).ingested(data) == p.showing(log.feed_all(data, p.cols)),
    decreases data.len(),
{
    let q = p.showing(log);
    if data.len() == 0 {
        let kept = q.log();
        let n = p.pane_rows;
        let cut = if log.lines.len() > n {
            log.lines.len() - n
        } else {
            0
        };
        assert(kept.lines =~= log.lines.skip(cut));
        assert(log::shown(kept.lines, n) =~= log::shown(log.lines, n));
    } else {
        let shorter = data.drop_last();
        lemma_showing_more(p, log, shorter);
        log::law_lines_only_grow(log, shorter, p.cols);
        log::law_lines_only_grow(q.log(), shorter, p.cols);
        pane::lemma_showing_step(p, log.feed_all(shorter, p.cols), data.last());
        pane::lemma_showing_step(q, q.log().feed_all(shorter, p.cols), data.last());
    }
}

/// A pane stays a proper pane whatever it takes in.
pub proof fn law_ingest_keeps_pane(p: PaneState, data: Seq<u8>)
    requires
        p.wf(),
    ensures
        p.ingested(data).wf(),
{
    lemma_column_bound(p.log(), data, p.cols);
    pane::lemma_showing_wf(p, p.log().feed_all(data, p.cols));
}

/// The column stays below the terminal's width, or where it was.
proof fn lemma_column_bound(log: Log, data: Seq<u8>, cols: nat)
    requires
        log.col < u16::MAX,
        cols <= u16::MAX,
    ensures
        log.feed_all(data, cols).col < u16::MAX,
    decreases data.len(),
{
    if data.len() > 0 {
        lemma_column_bound(log, data.drop_last(), cols);
    }
}

/// How the log is cut into pieces on the way to the pane does not matter: what is
/// shown in the end is what the whole log gives at once.
pub proof fn law_ingest_in_pieces(p: PaneState, pieces: Seq<Seq<u8>>)
    requires
        p.wf(),
        p.pane_rows > 0,
    ensures
        p.ingested_in_turn(pieces) == p.ingested(log::joined(pieces)),
    decreases pieces.len(),
{
    if pieces.len() == 0 {
        pane::lemma_showing_own_log(p);
    } else {
        let before = pieces.drop_last();
        law_ingest_in_pieces(p, before);
        let a = log::joined(before);
        let b = pieces.last();
        log::law_lines_only_grow(p.log(), a, p.cols);
        lemma_showing_more(p, p.log().feed_all(a, p.cols), b);
        log::law_feed_in_pieces(p.log(), a, b, p.cols);
    }
}

/// The pane shows the end of the log: whatever the pieces it came in, the rows
/// are the last lines of the whole log at the terminal's width, from the top, and
/// blank rows follow where there are fewer lines than rows.
pub proof fn law_pane_shows_end_of_log(
    total_rows: nat,
    cols: nat,
    config: SplitConfig,
    pieces: Seq<Seq<u8>>,
)
    requires
        config.valid(),
        total_rows <= u16::MAX,
        cols <= u16::MAX,
        PaneState::fresh(total_rows, cols, config).pane_rows > 0,
    ensures
        ({
            let pane = PaneState::fresh(total_rows, cols, config).ingested_in_turn(pieces);
            let log = Log::empty().feed_all(log::joined(pieces), cols);
            let n = pane.pane_rows as int;
            let len = log.lines.len() as int;
            &&& pane.rows.len() == n
            &&& len > n ==> pane.rows == log.lines.skip(len - n) && pane.cursor_row == n - 1
            &&& len <= n ==> pane.rows.take(len) == log.lines && pane.cursor_row == len - 1
            &&& len <= n ==> forall|i: int|
                len <= i < n ==> #[trigger] pane.rows[i] == Seq::<u8>::empty()
            &&& pane.cursor_col == log.col
            &&& pane.in_esc == log.esc
        }),
{
    let p = PaneState::fresh(total_rows, cols, config);
    assert(p.log().lines =~= Log::empty().lines);
    law_ingest_in_pieces(p, pieces);
    let log = Log::empty().feed_all(log::joined(pieces), cols);
    log::law_lines_only_grow(Log::empty(), log::joined(pieces), cols);
    let n = p.pane_rows as int;
    let len = log.lines.len() as int;
    let rows = log::shown(log.lines, p.pane_rows);
    if len > n {
        assert(rows =~= log.lines.skip(len - n));
    } else {
        assert(rows.take(len) =~= log.lines);
    }
}

/// Another size of the terminal keeps the most recent lines: as many of the last
/// lines that were shown as the pane now has rows for.
pub proof fn law_resize_keeps_recent_lines(p: PaneState, size: (u16, u16))
    requires
        p.wf(),
        p.pane_rows > 0,
        p.resized(size).pane_rows > 0,
    ensures
        ({
            let q = p.resized(size);
            let len = p.log().lines.len() as int;
            let n = q.pane_rows as int;
            let kept = if len <= n {
                len
            } else {
                n
            };
            &&& q.wf()
            &&& q.log().lines == p.log().lines.skip(len - kept)
            &&& q.log().col == p.log().col
            &&& q.log().esc == p.log().esc
        }),
{
    let q = p.resized(size);
    let len = p.log().lines.len() as int;
    let n = q.pane_rows as int;
    let kept = if len <= n {
        len
    } else {
        n
    };
    assert(q.log().lines =~= p.log().lines.skip(len - kept));
}

/// What happens to a pane: it takes in a piece of the log, or it is told the
/// terminal's size, where that is known.
pub enum PaneEvent {
    Piece(Seq<u8>),
    Size(Option<(u16, u16)>),
}

impl PaneState {
    /// The pane after one event.
    pub open spec fn after(self, event: PaneEvent) -> PaneState {
        match event {
            PaneEvent::Piece(data) => self.ingested(data),
            PaneEvent::Size(size) => if self.resizes(size) {
                self.resized(size->0)
            } else {
                self
            },
        }
    }

    /// The pane after one event after the other.
    pub open spec fn after_all(self, events: Seq<PaneEvent>) -> PaneState
        decreases events.len(),
    {
        if events.len() == 0 {
            self
        } else {
            self.after_all(events.drop_last()).after(events.last())
        }
    }

    /// The fewest rows that the pane has had, from before the events on.
    pub open spec fn fewest_rows(self, events: Seq<PaneEvent>) -> int
        decreases events.len(),
    {
        if events.len() == 0 {
            self.pane_rows as int
        } else {
            layout::smaller(
                self.fewest_rows(events.drop_last()),
                self.after_all(events).pane_rows as int,
            )
        }
    }
}

/// The terminal's columns after the events: those of the last size that is known.
pub open spec fn cols_after(cols: nat, events: Seq<PaneEvent>) -> nat
    decreases events.len(),
{
    if events.len() == 0 {
        cols
    } else {
        match events.last() {
            PaneEvent::Size(Some(size)) => size.1 as nat,
            _ => cols_after(cols, events.drop_last()),
        }
    }
}

/// The whole of a log after the events, no line forgotten: each piece is laid out
/// at the width that the terminal had when the piece came.
pub open spec fn whole_log(log: Log, cols: nat, events: Seq<PaneEvent>) -> Log
    decreases events.len(),
{
    if events.len() == 0 {
        log
    } else {
        let before = whole_log(log, cols, events.drop_last());
        match events.last() {
            PaneEvent::Piece(data) => before.feed_all(data, cols_after(cols, events.drop_last())),
            PaneEvent::Size(_) => before,
        }
    }
}

/// Every size leaves the pane at least one row.
pub open spec fn sizes_leave_a_row(config: SplitConfig, events: Seq<PaneEvent>) -> bool {
    forall|i: int|
        0 <= i < events.len() ==> (#[trigger] events[i] matches PaneEvent::Size(Some(size))
            ==> layout::pane_height(size.0 as int, config) > 0)
}

/// What a pane remembers after `data`, of the log that it remembered before.
proof fn lemma_ingested_log(p: PaneState, data: Seq<u8>)
    requires
        p.wf(),
        p.pane_rows > 0,
    ensures
        ({
            let all = p.log().feed_all(data, p.cols);
            let len = all.lines.len() as int;
            let kept = layout::smaller(len, p.pane_rows as int);
            p.ingested(data).log() == all.without(len - kept)
        }),
{
    let all = p.log().feed_all(data, p.cols);
    let len = all.lines.len() as int;
    let kept = layout::smaller(len, p.pane_rows as int);
    log::law_lines_only_grow(p.log(), data, p.cols);
    assert(p.ingested(data).log().lines =~= all.lines.skip(len - kept));
}

/// Whatever comes, pieces and sizes in any order, the pane remembers the end of
/// the log: its lines are the last of all lines, each laid out at the width of its
/// time, and they are no fewer than the pane has always had rows for. These lines
/// are what it shows.
pub proof fn law_pane_remembers_end_of_log(p: PaneState, events: Seq<PaneEvent>)
    requires
        p.wf(),
        p.pane_rows > 0,
        sizes_leave_a_row(p.config, events),
    ensures
        ({
            let q = p.after_all(events);
            let whole = whole_log(p.log(), p.cols, events);
            let len = whole.lines.len() as int;
            let kept = q.log().lines.len() as int;
            &&& q.wf()
            &&& q.config == p.config
            &&& q.pane_rows > 0
            &&& q.cols == cols_after(p.cols, events)
            &&& 0 < kept <= len
            &&& q.log().lines == whole.lines.skip(len - kept)
            &&& q.log().col == whole.col
            &&& q.log().esc == whole.esc
            &&& kept >= layout::smaller(len, p.fewest_rows(events))
            &&& q.rows == log::shown(q.log().lines, q.pane_rows)
        }),
    decreases events.len(),
{
    let q = p.after_all(events);
    let whole = whole_log(p.log(), p.cols, events);
    if events.len() == 0 {
        assert(q.log().lines =~= whole.lines.skip(0));
    } else {
        let before = events.drop_last();
        assert(sizes_leave_a_row(p.config, before)) by {
            assert forall|i: int| 0 <= i < before.len() implies (
            #[trigger] before[i] matches PaneEvent::Size(Some(size)) ==> layout::pane_height(
                size.0 as int,
                p.config,
            ) > 0) by {
                assert(before[i] == events[i]);
            }
        }
        law_pane_remembers_end_of_log(p, before);
        let r = p.after_all(before);
        let w = whole_log(p.log(), p.cols, before);
        let cut = w.lines.len() - r.log().lines.len();
        assert(events[events.len() - 1] == events.last());
        match events.last() {
            PaneEvent::Piece(data) => {
                law_ingest_keeps_pane(r, data);
                lemma_ingested_log(r, data);
                log::law_lines_only_grow(r.log(), data, r.cols);
                log::law_earlier_lines_do_not_matter(w, cut, data, r.cols);
                log::law_lines_only_grow(w, data, r.cols);
                assert(r.log() == w.without(cut));
            },
            PaneEvent::Size(size) => {
                if r.resizes(size) {
                    law_resize_keeps_recent_lines(r, size->0);
                }
            },
        }
        let len = whole.lines.len() as int;
        let kept = q.log().lines.len() as int;
        assert(q.log().lines =~= whole.lines.skip(len - kept));
    }
    pane::lemma_showing_own_log(q);
}

/// No byte is lost in the pane but with a row that leaves it at the top: the bytes
/// of the rows before and the bytes that are kept of `data` are, in order, those
/// of the lines that have left and those of the rows after. Where no line has
/// left, they are those of the rows after.
pub proof fn law_bytes_leave_only_with_their_row(p: PaneState, data: Seq<u8>)
    requires
        p.wf(),
        p.pane_rows > 0,
    ensures
        ({
            let bytes = log::joined(p.rows) + log::kept_bytes(data);
            let rows = p.ingested(data).rows;
            let lines = p.log().feed_all(data, p.cols).lines;
            let left = layout::larger(lines.len() - p.pane_rows, 0);
            &&& bytes == log::joined(lines.take(left)) + log::joined(rows)
            &&& log::joined(rows).is_suffix_of(bytes)
            &&& left == 0 ==> log::joined(rows) == bytes
        }),
{
    let q = p.ingested(data);
    let lines = p.log().feed_all(data, p.cols).lines;
    let left = layout::larger(lines.len() - p.pane_rows, 0);
    law_ingest_keeps_pane(p, data);
    lemma_ingested_log(p, data);
    log::law_no_byte_is_lost(p.log(), data, p.cols);
    lemma_rows_join_as_log(p);
    lemma_rows_join_as_log(q);
    log::law_joined_parts(lines.take(left), lines.skip(left));
    assert(lines.take(left) + lines.skip(left) =~= lines);
    let bytes = log::joined(p.rows) + log::kept_bytes(data);
    let gone = log::joined(lines.take(left));
    assert(bytes == gone + log::joined(q.rows));
    assert(log::joined(q.rows) =~= bytes.subrange(gone.len() as int, bytes.len() as int));
    if left == 0 {
        assert(lines.take(left) =~= seq![]);
        assert(gone + log::joined(q.rows) =~= log::joined(q.rows));
    }
}

/// The blank rows below the log hold no byte.
proof fn lemma_rows_join_as_log(p: PaneState)
    requires
        p.wf(),
    ensures
        log::joined(p.rows) == log::joined(p.log().lines),
{
    let kept = p.log().lines.len() as int;
    log::law_joined_parts(p.rows.take(kept), p.rows.skip(kept));
    assert(p.rows.take(kept) + p.rows.skip(kept) =~= p.rows);
    log::law_empty_lines_join_to_nothing(p.rows.skip(kept));
    assert(log::joined(p.rows) =~= log::joined(p.log().lines));
}

/// Growing loses nothing and shrinking back undoes it: rows that become more, and
/// then as many as before, are what they were, and so is the row that the log goes
/// on at. `p` is any pane whose rows below that row are empty, whatever the rest
/// of it is.
pub proof fn law_ring_grows_and_shrinks_back(p: PaneState, more: nat)
    requires
        p.pane_rows == p.rows.len(),
        0 <= p.cursor_row < p.pane_rows,
        forall|i: int|
            p.cursor_row < i < p.pane_rows ==> #[trigger] p.rows[i] == Seq::<u8>::empty(),
        more >= p.pane_rows,
    ensures
        p.refitted(more).refitted(p.pane_rows) == p,
        p.refitted(more).log() == p.log(),
{
    let grown = p.refitted(more);
    pane::lemma_shown_log(PaneState { pane_rows: more, ..p }, p.log());
    assert(grown.refitted(p.pane_rows).rows =~= p.rows);
}

/// A pane that was made larger, or not too small for its lines, is the same again
/// when the terminal gets its old size back.
pub proof fn law_resize_and_back(p: PaneState, size: (u16, u16), old_size: (u16, u16))
    requires
        p.wf(),
        old_size.0 == p.total_rows,
        old_size.1 == p.cols,
        p.pane_rows > 0,
        p.cursor_row < p.resized(size).pane_rows,
    ensures
        p.resized(size).resized(old_size) == p,
{
    let q = p.resized(size);
    pane::lemma_shown_log(q, p.log());
    pane::lemma_showing_own_log(p);
    assert(q.log() == p.log());
}

} // verus!
