//! What a log looks like once it is broken into lines of a given width.

use crate::ctl::ESC;
use vstd::prelude::*;

verus! {

/// Carriage return.
pub const CR: u8 = 0x0d;

/// Line feed.
pub const LF: u8 = 0x0a;

/// An ASCII letter; the first one ends a control sequence.
pub open spec fn is_letter(b: u8) -> bool {
    0x41 <= b <= 0x5a || 0x61 <= b <= 0x7a
}

/// Whether `b` is an ASCII letter.
pub fn is_ascii_letter(b: u8) -> (yes: bool)
    ensures
        yes == is_letter(b),
{
    (0x41 <= b && b <= 0x5a) || (0x61 <= b && b <= 0x7a)
}

/// The lines of a log so far. The last one is still being written: `col` visible
/// bytes stand on it since its start or the last carriage return, and `esc` says
/// whether a control sequence is open.
pub struct Log {
    pub lines: Seq<Seq<u8>>,
    pub col: nat,
    pub esc: bool,
}

impl Log {
    /// A log that holds nothing: one empty line.
    pub open spec fn empty() -> Log {
        Log { lines: seq![Seq::<u8>::empty()], col: 0, esc: false }
    }

    /// The next line is started.
    pub open spec fn new_line(self) -> Log {
        Log { lines: self.lines.push(Seq::empty()), col: 0, esc: self.esc }
    }

    /// The first `cut` lines are forgotten.
    pub open spec fn without(self, cut: int) -> Log {
        Log { lines: self.lines.skip(cut), ..self }
    }

    /// A byte is put at the end of the last line.
    pub open spec fn append(self, b: u8) -> Log {
        Log { lines: self.lines.update(self.lines.len() - 1, self.lines.last().push(b)), ..self }
    }

    /// The log after one more byte, on a terminal of `cols` columns.
    ///
    /// A carriage return goes back to the first column and keeps the line; a line
    /// feed starts a line. Any other byte is kept. Outside a control sequence it
    /// takes a column, and the line is full with the `cols`-th.
    pub open spec fn feed(self, b: u8, cols: nat) -> Log {
        if b == CR {
            Log { col: 0, ..self }
        } else if b == LF {
            self.new_line()
        } else if b == ESC {
            Log { esc: true, ..self.append(b) }
        } else if self.esc {
            Log { esc: !is_letter(b), ..self.append(b) }
        } else if self.col + 1 >= cols {
            self.append(b).new_line()
        } else {
            Log { col: self.col + 1, ..self.append(b) }
        }
    }

    /// The log after more bytes.
    pub open spec fn feed_all(self, data: Seq<u8>, cols: nat) -> Log
        decreases data.len(),
    {
        if data.len() == 0 {
            self
        } else {
            self.feed_all(data.drop_last(), cols).feed(data.last(), cols)
        }
    }
}

/// The last `n` of `lines`, from the top; where there are fewer, blank rows follow.
pub open spec fn shown(lines: Seq<Seq<u8>>, n: nat) -> Seq<Seq<u8>> {
    Seq::new(
        n,
        |i: int|
            if lines.len() > n {
                lines[lines.len() - n + i]
            } else if i < lines.len() {
                lines[i]
            } else {
                Seq::empty()
            },
    )
}

/// The row, of `n`, on which the last of `lines` lines is shown.
pub open spec fn shown_row(lines: nat, n: nat) -> int {
    if lines == 0 || n == 0 {
        0
    } else if lines > n {
        n - 1
    } else {
        lines - 1
    }
}

/// Feeding two pieces, one after the other, is feeding both at once: how a log is
/// cut up on the way does not matter.
pub proof fn law_feed_in_pieces(log: Log, a: Seq<u8>, b: Seq<u8>, cols: nat)
    ensures
        log.feed_all(a + b, cols) == log.feed_all(a, cols).feed_all(b, cols),
    decreases b.len(),
{
    if b.len() == 0 {
        assert(a + b =~= a);
    } else {
        law_feed_in_pieces(log, a, b.drop_last(), cols);
        assert((a + b).drop_last() =~= a + b.drop_last());
        assert((a + b).last() == b.last());
    }
}

/// A log never loses a line.
pub proof fn law_lines_only_grow(log: Log, data: Seq<u8>, cols: nat)
    ensures
        log.feed_all(data, cols).lines.len() >= log.lines.len(),
    decreases data.len(),
{
    if data.len() > 0 {
        law_lines_only_grow(log, data.drop_last(), cols);
    }
}

/// Lines that are done with have no say in what follows: a log that has forgotten
/// its first `cut` lines goes on as the whole one does.
pub proof fn law_earlier_lines_do_not_matter(log: Log, cut: int, data: Seq<u8>, cols: nat)
    requires
        0 <= cut < log.lines.len(),
    ensures
        log.without(cut).feed_all(data, cols) == log.feed_all(data, cols).without(cut),
    decreases data.len(),
{
    if data.len() > 0 {
        let before = data.drop_last();
        law_earlier_lines_do_not_matter(log, cut, before, cols);
        law_lines_only_grow(log, before, cols);
        let b = data.last();
        let whole = log.feed_all(before, cols);
        let rest = whole.without(cut);
        assert(rest.append(b).lines =~= whole.append(b).lines.skip(cut));
        assert(rest.new_line().lines =~= whole.new_line().lines.skip(cut));
        assert(rest.append(b).new_line().lines =~= whole.append(b).new_line().lines.skip(cut));
    }
}

/// The bytes of all lines, in order.
pub open spec fn joined(lines: Seq<Seq<u8>>) -> Seq<u8>
    decreases lines.len(),
{
    if lines.len() == 0 {
        seq![]
    } else {
        joined(lines.drop_last()) + lines.last()
    }
}

/// The bytes of lines, and of the lines that follow them, are the bytes of all.
pub proof fn law_joined_parts(a: Seq<Seq<u8>>, b: Seq<Seq<u8>>)
    ensures
        joined(a + b) == joined(a) + joined(b),
    decreases b.len(),
{
    if b.len() == 0 {
        assert(a + b =~= a);
        assert(joined(a) + joined(b) =~= joined(a));
    } else {
        law_joined_parts(a, b.drop_last());
        assert((a + b).drop_last() =~= a + b.drop_last());
        assert((a + b).last() == b.last());
        assert(joined(a + b) =~= joined(a) + joined(b));
    }
}

/// Empty lines hold no byte.
pub proof fn law_empty_lines_join_to_nothing(lines: Seq<Seq<u8>>)
    requires
        forall|i: int| 0 <= i < lines.len() ==> #[trigger] lines[i] == Seq::<u8>::empty(),
    ensures
        joined(lines) == Seq::<u8>::empty(),
    decreases lines.len(),
{
    if lines.len() > 0 {
        law_empty_lines_join_to_nothing(lines.drop_last());
        assert(joined(lines) =~= Seq::<u8>::empty());
    }
}

/// The bytes of `data` that are kept: all but carriage returns and line feeds.
pub open spec fn kept_bytes(data: Seq<u8>) -> Seq<u8>
    decreases data.len(),
{
    if data.len() == 0 {
        seq![]
    } else if data.last() == CR || data.last() == LF {
        kept_bytes(data.drop_last())
    } else {
        kept_bytes(data.drop_last()).push(data.last())
    }
}

/// Every byte but carriage returns and line feeds goes into the lines, once and
/// in order, control sequences included.
pub proof fn law_no_byte_is_lost(log: Log, data: Seq<u8>, cols: nat)
    requires
        log.lines.len() > 0,
    ensures
        joined(log.feed_all(data, cols).lines) == joined(log.lines) + kept_bytes(data),
    decreases data.len(),
{
    if data.len() == 0 {
        assert(joined(log.lines) + kept_bytes(data) =~= joined(log.lines));
    } else {
        law_no_byte_is_lost(log, data.drop_last(), cols);
        law_lines_only_grow(log, data.drop_last(), cols);
        let before = log.feed_all(data.drop_last(), cols);
        let b = data.last();
        let appended = before.append(b);
        assert(appended.lines.drop_last() =~= before.lines.drop_last());
        assert(joined(appended.lines) =~= joined(before.lines).push(b));
        assert(before.new_line().lines.drop_last() =~= before.lines);
        assert(joined(before.new_line().lines) =~= joined(before.lines));
        assert(appended.new_line().lines.drop_last() =~= appended.lines);
        assert(joined(appended.new_line().lines) =~= joined(appended.lines));
        assert(joined(log.feed_all(data, cols).lines) =~= joined(log.lines) + kept_bytes(data));
    }
}

/// A byte that takes a column where no control sequence is open.
pub open spec fn is_plain(b: u8) -> bool {
    b != CR && b != LF && b != ESC
}

/// The columns that a line has room for: at least one.
pub open spec fn line_width(cols: nat) -> nat {
    if cols == 0 {
        1
    } else {
        cols
    }
}

/// The part of `data` that goes on the `k`-th line of `width` columns.
pub open spec fn chunk(data: Seq<u8>, k: nat, width: nat) -> Seq<u8> {
    let from = (k * width) as int;
    let to = from + width;
    data.subrange(
        from,
        if to <= data.len() {
            to
        } else {
            data.len() as int
        },
    )
}

/// The `k`-th line after `log` was fed with plain `data`, counted from the line
/// that was being written.
pub open spec fn wrapped_line(log: Log, data: Seq<u8>, k: nat, width: nat) -> Seq<u8> {
    if k == 0 {
        log.lines.last() + chunk(data, k, width)
    } else {
        chunk(data, k, width)
    }
}

/// Long lines wrap at the visible width: plain text that starts in the first
/// column is cut into lines of exactly the terminal's width, and the last line
/// holds the rest.
pub proof fn law_plain_text_wraps(log: Log, data: Seq<u8>, cols: nat)
    requires
        log.lines.len() > 0,
        log.col == 0,
        !log.esc,
        forall|i: int| 0 <= i < data.len() ==> is_plain(data[i]),
    ensures
        ({
            let width = line_width(cols);
            let after = log.feed_all(data, cols);
            &&& after.col == data.len() % width
            &&& !after.esc
            &&& after.lines.len() == log.lines.len() + data.len() / width
            &&& after.lines.take(log.lines.len() - 1) == log.lines.drop_last()
            &&& forall|k: nat|
                k <= data.len() / width ==> #[trigger] after.lines[log.lines.len() - 1 + k]
                    == wrapped_line(log, data, k, width)
        }),
    decreases data.len(),
{
    let width = line_width(cols);
    let base = log.lines.len() - 1;
    let after = log.feed_all(data, cols);
    let n = data.len();
    if n == 0 {
        assert(0nat / width == 0 && 0nat % width == 0) by (nonlinear_arith)
            requires
                width > 0,
        ;
        assert(after.lines.take(base) =~= log.lines.drop_last());
        assert(wrapped_line(log, data, 0, width) =~= log.lines.last());
    } else {
        let shorter = data.drop_last();
        let b = data.last();
        let before = log.feed_all(shorter, cols);
        assert(is_plain(b));
        law_plain_text_wraps(log, shorter, cols);
        let q = (n - 1) as nat / width;
        let r = (n - 1) as nat % width;
        assert(before.lines[base + q] == wrapped_line(log, shorter, q, width));
        assert(n - 1 == q * width + r && 0 <= r < width && q >= 0) by (nonlinear_arith)
            requires
                width > 0,
                n >= 1,
                q == (n - 1) as nat / width,
                r == (n - 1) as nat % width,
        ;
        if r + 1 == width {
            assert(n == (q + 1) * width) by (nonlinear_arith)
                requires
                    n - 1 == q * width + r,
                    r + 1 == width,
            ;
            assert(n / width == q + 1 && n % width == 0) by (nonlinear_arith)
                requires
                    n == (q + 1) * width,
                    width > 0,
            ;
        } else {
            assert(n / width == q && n % width == r + 1) by (nonlinear_arith)
                requires
                    n == q * width + (r + 1),
                    r + 1 < width,
                    width > 0,
            ;
        }
        assert forall|k: nat| k <= n / width implies #[trigger] after.lines[base + k]
            == wrapped_line(log, data, k, width) by {
            if k < q {
                assert(before.lines[base + k] == wrapped_line(log, shorter, k, width));
                assert(0 <= k * width && k * width + width <= q * width) by (nonlinear_arith)
                    requires
                        k + 1 <= q,
                ;
                assert(chunk(data, k, width) =~= chunk(shorter, k, width));
            } else if k == q {
                assert(chunk(data, k, width) =~= chunk(shorter, k, width).push(b));
                assert(wrapped_line(log, data, k, width) =~= wrapped_line(
                    log,
                    shorter,
                    k,
                    width,
                ).push(b));
            } else {
                assert(chunk(data, k, width) =~= Seq::<u8>::empty());
            }
        }
        assert(after.lines.take(base) =~= before.lines.take(base));
    }
}

/// A control sequence takes no column: whatever it holds up to the letter that
/// ends it goes on the line, and the cursor stays.
pub proof fn law_control_sequence_takes_no_column(log: Log, params: Seq<u8>, end: u8, cols: nat)
    requires
        log.lines.len() > 0,
        forall|i: int|
            0 <= i < params.len() ==> params[i] != CR && params[i] != LF && !is_letter(params[i]),
        is_letter(end),
    ensures
        log.feed_all(seq![ESC] + params + seq![end], cols) == (Log {
            lines: log.lines.update(
                log.lines.len() - 1,
                log.lines.last() + (seq![ESC] + params + seq![end]),
            ),
            col: log.col,
            esc: false,
        }),
{
    lemma_open_sequence(log, params, cols);
    let data = seq![ESC] + params + seq![end];
    assert(data.drop_last() =~= seq![ESC] + params);
    let before = log.feed_all(seq![ESC] + params, cols);
    let after = log.feed_all(data, cols);
    assert(after.lines =~= log.lines.update(
        log.lines.len() - 1,
        log.lines.last() + data,
    )) by {
        assert((log.lines.last() + (seq![ESC] + params)).push(end) =~= log.lines.last() + data);
    }
}

/// The bytes of `data` that move the cursor, and whether a control sequence is open
/// after it: carriage returns, line feeds, and what stands outside of control
/// sequences. `esc` says whether one is open before.
pub open spec fn moving_bytes(data: Seq<u8>, esc: bool) -> (Seq<u8>, bool)
    decreases data.len(),
{
    if data.len() == 0 {
        (seq![], esc)
    } else {
        let (before, open) = moving_bytes(data.drop_last(), esc);
        let b = data.last();
        if b == CR || b == LF {
            (before.push(b), open)
        } else if b == ESC {
            (before, true)
        } else if open {
            (before, !is_letter(b))
        } else {
            (before.push(b), false)
        }
    }
}

/// Control sequences do not advance the visible cursor: without them the log has
/// as many lines, and stands in the same column.
pub proof fn law_control_sequences_do_not_move_cursor(log: Log, data: Seq<u8>, cols: nat)
    requires
        log.lines.len() > 0,
    ensures
        ({
            let after = log.feed_all(data, cols);
            let (moving, open) = moving_bytes(data, log.esc);
            let without = Log { esc: false, ..log }.feed_all(moving, cols);
            &&& after.col == without.col
            &&& after.lines.len() == without.lines.len()
            &&& after.esc == open
            &&& !without.esc
        }),
    decreases data.len(),
{
    if data.len() > 0 {
        law_control_sequences_do_not_move_cursor(log, data.drop_last(), cols);
        let (before, open) = moving_bytes(data.drop_last(), log.esc);
        let b = data.last();
        let start = Log { esc: false, ..log };
        assert(before.push(b).drop_last() =~= before);
        assert(before.push(b).last() == b);
        assert(start.feed_all(before.push(b), cols) == start.feed_all(before, cols).feed(b, cols));
        assert(log.feed_all(data, cols) == log.feed_all(data.drop_last(), cols).feed(b, cols));
        law_lines_only_grow(log, data.drop_last(), cols);
        law_lines_only_grow(start, before, cols);
    }
}

/// The cursor stays on its line: once it is left of the last column's end, it
/// stays there whatever comes.
pub proof fn law_column_stays_on_line(log: Log, data: Seq<u8>, cols: nat)
    requires
        log.col < line_width(cols),
    ensures
        log.feed_all(data, cols).col < line_width(cols),
    decreases data.len(),
{
    if data.len() > 0 {
        law_column_stays_on_line(log, data.drop_last(), cols);
    }
}

/// What the start of a control sequence does.
proof fn lemma_open_sequence(log: Log, params: Seq<u8>, cols: nat)
    requires
        log.lines.len() > 0,
        forall|i: int|
            0 <= i < params.len() ==> params[i] != CR && params[i] != LF && !is_letter(params[i]),
    ensures
        log.feed_all(seq![ESC] + params, cols) == (Log {
            lines: log.lines.update(
                log.lines.len() - 1,
                log.lines.last() + (seq![ESC] + params),
            ),
            col: log.col,
            esc: true,
        }),
    decreases params.len(),
{
    let data = seq![ESC] + params;
    let last = log.lines.len() - 1;
    if params.len() == 0 {
        assert(data =~= seq![ESC]);
        assert(data.drop_last() =~= Seq::<u8>::empty());
        assert(log.feed_all(Seq::<u8>::empty(), cols) == log);
        assert(log.lines.last().push(ESC) =~= log.lines.last() + data);
    } else {
        lemma_open_sequence(log, params.drop_last(), cols);
        assert(data.drop_last() =~= seq![ESC] + params.drop_last());
        assert((log.lines.last() + (seq![ESC] + params.drop_last())).push(params.last())
            =~= log.lines.last() + data);
        assert(log.feed_all(data, cols).lines =~= log.lines.update(
            last,
            log.lines.last() + data,
        ));
    }
}

} // verus!
