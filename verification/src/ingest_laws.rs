//! What each byte of a log does to the pane, and what whole logs look like in it.

use crate::layout::SplitConfig;
use crate::log::Log;
use crate::pane::{PaneState, SplitPane};
use crate::{log, pane, pane_laws};
use vstd::prelude::*;

verus! {

/// A line feed always starts a line: the lines before stay as they are, one empty
/// line follows them, and the log goes on at its first column.
pub proof fn law_line_feed_starts_a_line(log: Log, cols: nat)
    ensures
        log.feed(0x0a, cols).lines == log.lines.push(Seq::<u8>::empty()),
        log.feed(0x0a, cols).col == 0,
        log.feed(0x0a, cols).esc == log.esc,
{
}

/// A carriage return changes no line; the next byte counts as the first of its line.
pub proof fn law_carriage_return_keeps_the_line(log: Log, cols: nat)
    ensures
        log.feed(0x0d, cols).lines == log.lines,
        log.feed(0x0d, cols).col == 0,
        log.feed(0x0d, cols).esc == log.esc,
{
}

/// Every other byte goes at the end of the last line, and all lines before that one
/// stay as they are. At most one empty line is started behind it.
pub proof fn law_other_bytes_are_appended(log: Log, b: u8, cols: nat)
    requires
        log.lines.len() > 0,
        b != 0x0a,
        b != 0x0d,
    ensures
        ({
            let last = log.lines.len() - 1;
            let after = log.feed(b, cols).lines;
            &&& after.take(last) == log.lines.take(last)
            &&& after[last] == log.lines[last].push(b)
            &&& after.len() == last + 1 || after.len() == last + 2 && after[last + 1]
                == Seq::<u8>::empty()
        }),
{
    let last = log.lines.len() - 1;
    assert(log.feed(b, cols).lines.take(last) =~= log.lines.take(last));
}

/// The byte that opens a control sequence, and what is inside one, takes no column
/// and starts no line. A sequence is open from that byte on until a letter comes.
pub proof fn law_sequences_take_no_column(log: Log, b: u8, cols: nat)
    requires
        log.lines.len() > 0,
        b == 0x1b || log.esc,
        b != 0x0a,
        b != 0x0d,
    ensures
        log.feed(b, cols).lines.len() == log.lines.len(),
        log.feed(b, cols).col == log.col,
        log.feed(b, cols).esc == !('A' <= b as char <= 'Z' || 'a' <= b as char <= 'z'),
{
}

/// Outside of control sequences every byte takes one column. The line is full, and
/// the next one is started, exactly when its last column is taken.
pub proof fn law_visible_bytes_take_a_column(log: Log, b: u8, cols: nat)
    requires
        log.lines.len() > 0,
        !log.esc,
        b != 0x0a,
        b != 0x0d,
        b != 0x1b,
    ensures
        !log.feed(b, cols).esc,
        log.col + 1 < cols ==> log.feed(b, cols).col == log.col + 1 && log.feed(
            b,
            cols,
        ).lines.len() == log.lines.len(),
        log.col + 1 >= cols ==> log.feed(b, cols).col == 0 && log.feed(b, cols).lines.len()
            == log.lines.len() + 1,
{
}

/// Text that holds neither a carriage return nor a line feed nor the start of a
/// control sequence.
pub open spec fn is_plain_text(text: Seq<u8>) -> bool {
    forall|i: int|
        0 <= i < text.len() ==> #[trigger] text[i] != 0x0d && text[i] != 0x0a && text[i] != 0x1b
}

/// Lines with a line feed between each and the next.
pub open spec fn with_line_feeds(lines: Seq<Seq<u8>>) -> Seq<u8> {
    Seq::new((lines.len() - 1) as nat, |i: int| lines[i].push(0x0a)).flatten() + lines.last()
}

/// Plain text that is shorter than the terminal is wide stays on one line.
proof fn lemma_short_text_stays_on_its_line(log: Log, text: Seq<u8>, cols: nat)
    requires
        log.lines.len() > 0,
        log.lines.last() == Seq::<u8>::empty(),
        log.col == 0,
        !log.esc,
        is_plain_text(text),
        text.len() < cols,
    ensures
        log.feed_all(text, cols) == (Log {
            lines: log.lines.drop_last().push(text),
            col: text.len(),
            esc: false,
        }),
    decreases text.len(),
{
    if text.len() == 0 {
        assert(text =~= Seq::<u8>::empty());
        assert(log.lines =~= log.lines.drop_last().push(text));
    } else {
        let before = text.drop_last();
        assert forall|i: int| 0 <= i < before.len() implies #[trigger] before[i] != 0x0d
            && before[i] != 0x0a && before[i] != 0x1b by {
            assert(before[i] == text[i]);
        }
        lemma_short_text_stays_on_its_line(log, before, cols);
        assert(text[text.len() - 1] == text.last());
        assert(before.push(text.last()) =~= text);
        assert(log.feed_all(text, cols).lines =~= log.lines.drop_last().push(text));
    }
}

/// A log of lines that fit, with a line feed between each and the next, is broken
/// into exactly those lines.
pub proof fn law_lines_are_told_apart(lines: Seq<Seq<u8>>, cols: nat)
    requires
        lines.len() > 0,
        forall|i: int|
            0 <= i < lines.len() ==> is_plain_text(#[trigger] lines[i]) && lines[i].len() < cols,
    ensures
        Log::empty().feed_all(with_line_feeds(lines), cols).lines == lines,
        Log::empty().feed_all(with_line_feeds(lines), cols).col == lines.last().len(),
        !Log::empty().feed_all(with_line_feeds(lines), cols).esc,
    decreases lines.len(),
{
    let n = lines.len() - 1;
    let data = with_line_feeds(lines);
    let ended = Seq::new(n as nat, |i: int| lines[i].push(0x0a));
    assert(lines[n] == lines.last());
    if n == 0 {
        assert(ended.flatten() =~= Seq::<u8>::empty());
        assert(data =~= lines.last());
        lemma_short_text_stays_on_its_line(Log::empty(), lines.last(), cols);
        assert(Log::empty().lines.drop_last().push(lines.last()) =~= lines);
    } else {
        let before = lines.drop_last();
        assert forall|i: int| 0 <= i < before.len() implies is_plain_text(#[trigger] before[i])
            && before[i].len() < cols by {
            assert(before[i] == lines[i]);
        }
        law_lines_are_told_apart(before, cols);
        let fewer = Seq::new((n - 1) as nat, |i: int| before[i].push(0x0a));
        assert(ended =~= fewer.push(before.last().push(0x0a)));
        fewer.lemma_flatten_push(before.last().push(0x0a));
        let head = with_line_feeds(before).push(0x0a);
        assert(data =~= head + lines.last());
        log::law_feed_in_pieces(Log::empty(), head, lines.last(), cols);
        assert(head.drop_last() =~= with_line_feeds(before));
        let fed = Log::empty().feed_all(head, cols);
        assert(fed.lines == before.push(Seq::<u8>::empty()));
        lemma_short_text_stays_on_its_line(fed, lines.last(), cols);
        assert(fed.lines.drop_last().push(lines.last()) =~= lines);
    }
}

/// A new pane that is given lines that fit, with a line feed between each and the
/// next, shows the last of them: one on each row from the top, as many as it has
/// rows for, and nothing below them. The log goes on behind the last one.
pub proof fn law_pane_shows_last_lines(
    size: Option<(u16, u16)>,
    config: SplitConfig,
    fresh: SplitPane,
    pane: &mut SplitPane,
    data: &[u8],
    lines: Seq<Seq<u8>>,
    i: usize,
    row: &Vec<u8>,
    cursor: (usize, usize),
)
    requires
        config.min_pane_rows <= config.max_pane_rows,
        call_ensures(SplitPane::new, (size, config), fresh),
        *old(pane) == fresh,
        call_ensures(SplitPane::ingest, (pane, data), ()),
        call_ensures(SplitPane::row, (final(pane), i), row),
        call_ensures(SplitPane::cursor, (final(pane),), cursor),
        i < fresh@.pane_rows,
        lines.len() > 0,
        data@ == with_line_feeds(lines),
        forall|k: int|
            0 <= k < lines.len() ==> is_plain_text(#[trigger] lines[k]) && lines[k].len() < (
            match size {
                Some(s) => s.1 as int,
                None => 80,
            }),
    ensures
        ({
            let n = fresh@.pane_rows as int;
            let len = lines.len() as int;
            let first = if len > n {
                len - n
            } else {
                0
            };
            &&& row@ == (if first + i < len {
                lines[first + i]
            } else {
                Seq::<u8>::empty()
            })
            &&& cursor.0 == len - 1 - first
            &&& cursor.1 == lines.last().len()
        }),
{
    let p = fresh@;
    law_lines_are_told_apart(lines, p.cols);
    assert(p.log().lines =~= Log::empty().lines);
}

/// Taking in two pieces, one after the other, is taking in both at once, and taking
/// in nothing changes nothing.
pub proof fn law_pieces_add_up(
    first: &mut SplitPane,
    second: &mut SplitPane,
    whole: &mut SplitPane,
    a: &[u8],
    b: &[u8],
    both: &[u8],
)
    requires
        old(first)@.wf(),
        old(first)@.pane_rows > 0,
        old(whole)@ == old(first)@,
        old(second)@ == final(first)@,
        both@ == a@ + b@,
        call_ensures(SplitPane::ingest, (first, a), ()),
        call_ensures(SplitPane::ingest, (second, b), ()),
        call_ensures(SplitPane::ingest, (whole, both), ()),
    ensures
        final(second)@ == final(whole)@,
        a@.len() == 0 ==> final(first)@ == old(first)@,
{
    let p = old(first)@;
    let pieces = seq![a@, b@];
    pane_laws::law_ingest_in_pieces(p, pieces);
    assert(pieces.drop_last() =~= seq![a@]);
    assert(seq![a@].drop_last() =~= Seq::<Seq<u8>>::empty());
    assert(p.ingested_in_turn(Seq::<Seq<u8>>::empty()) == p);
    assert(p.ingested_in_turn(seq![a@]) == p.ingested(a@));
    assert(p.ingested_in_turn(pieces) == p.ingested(a@).ingested(b@));
    assert(log::joined(Seq::<Seq<u8>>::empty()) =~= Seq::<u8>::empty());
    assert(log::joined(seq![a@]) =~= a@);
    assert(log::joined(pieces) =~= a@ + b@);
    if a@.len() == 0 {
        pane::lemma_showing_own_log(p);
        assert(a@ =~= Seq::<u8>::empty());
    }
}

/// The pane with the next row to write in: the row below, or the last one once all
/// rows have moved up by one and the first is gone.
pub open spec fn on_next_row(p: PaneState) -> PaneState {
    if p.cursor_row + 1 < p.rows.len() {
        PaneState { cursor_row: p.cursor_row + 1, cursor_col: 0, ..p }
    } else {
        PaneState { rows: p.rows.drop_first().push(Seq::empty()), cursor_col: 0, ..p }
    }
}

/// The pane with a byte at the end of the row that is written in.
pub open spec fn with_byte(p: PaneState, b: u8) -> PaneState {
    PaneState { rows: p.rows.update(p.cursor_row, p.rows[p.cursor_row].push(b)), ..p }
}

/// A line feed, a carriage return and the start of a control sequence each do one
/// thing to a pane, whatever it shows: the next row is gone to, the column is gone
/// back to, the byte is kept and a sequence is open.
pub proof fn law_control_bytes_in_the_pane(pane: &mut SplitPane, data: &[u8], b: u8)
    requires
        old(pane)@.wf(),
        old(pane)@.pane_rows > 0 || b == 0x0d,
        data@ == seq![b],
        call_ensures(SplitPane::ingest, (pane, data), ()),
    ensures
        b == 0x0a ==> final(pane)@ == on_next_row(old(pane)@),
        b == 0x0d ==> final(pane)@ == (PaneState { cursor_col: 0, ..old(pane)@ }),
        b == 0x1b ==> final(pane)@ == (PaneState { in_esc: true, ..with_byte(old(pane)@, b) }),
{
    let p = old(pane)@;
    if p.pane_rows > 0 {
        lemma_one_byte(p, b);
    } else {
        assert(seq![b].drop_last() =~= Seq::<u8>::empty());
        assert(p.log().feed_all(Seq::<u8>::empty(), p.cols) == p.log());
        assert(p.log().feed_all(seq![b], p.cols) == p.log().feed(b, p.cols));
        assert(p.ingested(seq![b]).rows =~= p.rows);
    }
}

/// Any other byte goes at the end of the row. Inside a control sequence it does
/// nothing else, but that a letter ends the sequence. Outside it takes a column, and
/// the next row is gone to exactly when that was the last one.
pub proof fn law_other_bytes_in_the_pane(pane: &mut SplitPane, data: &[u8], b: u8)
    requires
        old(pane)@.wf(),
        old(pane)@.pane_rows > 0,
        data@ == seq![b],
        b != 0x0a,
        b != 0x0d,
        b != 0x1b,
        call_ensures(SplitPane::ingest, (pane, data), ()),
    ensures
        ({
            let p = old(pane)@;
            let q = final(pane)@;
            let kept = with_byte(p, b);
            let letter = 'A' <= b as char <= 'Z' || 'a' <= b as char <= 'z';
            &&& p.in_esc ==> q == (PaneState { in_esc: !letter, ..kept })
            &&& !p.in_esc && p.cursor_col + 1 < p.cols ==> q == (PaneState {
                cursor_col: p.cursor_col + 1,
                ..kept
            })
            &&& !p.in_esc && p.cursor_col + 1 >= p.cols ==> q == on_next_row(kept)
        }),
{
    lemma_one_byte(old(pane)@, b);
}

/// What one byte does to the rows of a pane.
proof fn lemma_one_byte(p: PaneState, b: u8)
    requires
        p.wf(),
        p.pane_rows > 0,
    ensures
        p.ingested(seq![b]) == p.showing(p.log().feed(b, p.cols)),
        b == 0x0a ==> p.ingested(seq![b]) == on_next_row(p),
        b == 0x0d ==> p.ingested(seq![b]) == (PaneState { cursor_col: 0, ..p }),
        b == 0x1b ==> p.ingested(seq![b]) == (PaneState { in_esc: true, ..with_byte(p, b) }),
        b != 0x0a && b != 0x0d && b != 0x1b ==> p.ingested(seq![b]) == (if p.in_esc {
            PaneState {
                in_esc: !('A' <= b as char <= 'Z' || 'a' <= b as char <= 'z'),
                ..with_byte(p, b)
            }
        } else if p.cursor_col + 1 < p.cols {
            PaneState { cursor_col: p.cursor_col + 1, ..with_byte(p, b) }
        } else {
            on_next_row(with_byte(p, b))
        }),
{
    let log = p.log();
    assert(seq![b].drop_last() =~= Seq::<u8>::empty());
    assert(log.feed_all(Seq::<u8>::empty(), p.cols) == log);
    assert(log.feed_all(seq![b], p.cols) == log.feed(b, p.cols));
    let q = p.ingested(seq![b]);
    pane::lemma_showing_own_log(p);
    let kept = with_byte(p, b);
    assert(p.showing(log.append(b)).rows =~= kept.rows);
    assert(p.showing(log.new_line()).rows =~= on_next_row(p).rows);
    assert(p.showing(log.append(b).new_line()).rows =~= on_next_row(kept).rows);
    assert(p.showing(log).rows =~= p.rows);
}

} // verus!
