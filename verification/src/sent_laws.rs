//! What is sent to the terminal, byte for byte.

use crate::ctl::{Ctl, CtlWriter};
use crate::layout::{pane_rows_for_height, SplitConfig};
use crate::pane::{PaneState, SplitPane};
use crate::{ctl, decimal, layout, pane};
use vstd::prelude::*;

verus! {

/// `ESC [ row ; 1 H`: the cursor goes to the start of a row.
pub open spec fn address(row: int) -> Seq<u8> {
    seq![0x1bu8, 0x5b] + decimal::decimal(row as nat) + seq![0x3bu8, 0x31, 0x48]
}

/// `ESC [ 1 ; bottom r`: the rows from the first to this one scroll.
pub open spec fn region(bottom: int) -> Seq<u8> {
    seq![0x1bu8, 0x5b, 0x31, 0x3b] + decimal::decimal(bottom as nat) + seq![0x72u8]
}

/// `ESC [ 2 K`: the cursor's line is blanked.
pub open spec fn erasure() -> Seq<u8> {
    seq![0x1bu8, 0x5b, 0x32, 0x4b]
}

/// `ESC [ n`, and the letter that ends it.
pub open spec fn counted(n: int, letter: u8) -> Seq<u8> {
    seq![0x1bu8, 0x5b] + decimal::decimal(n as nat) + seq![letter]
}

/// The rows from `from` to `to` are blanked, one after the other.
pub open spec fn blanking(from: int, to: int) -> Seq<u8> {
    Seq::new((to + 1 - from) as nat, |k: int| address(from + k) + erasure()).flatten()
}

/// Texts are put on the rows from `from` on, each on a line that was blanked.
pub open spec fn painting(from: int, rows: Seq<Seq<u8>>) -> Seq<u8> {
    Seq::new(rows.len(), |k: int| address(from + k) + erasure() + rows[k]).flatten()
}

/// Printing sends the text itself, byte for byte, behind what there was before.
pub proof fn law_print_sends_the_text(
    w: &mut CtlWriter,
    text: &Vec<u8>,
    before: Vec<u8>,
    after: Vec<u8>,
)
    requires
        call_ensures(CtlWriter::print, (w, text), ()),
        call_ensures(CtlWriter::finish, (*old(w),), before),
        call_ensures(CtlWriter::finish, (*final(w),), after),
    ensures
        after@ == before@ + text@,
        (Ctl::Print { text: text@ }).encode() == text@,
{
    let list = old(w)@.push(Ctl::Print { text: text@ });
    assert(list.drop_last() =~= old(w)@);
}

proof fn lemma_one_bytes(a: Ctl)
    ensures
        ctl::encode(seq![a]) == a.encode(),
{
    assert(seq![a].drop_last() =~= Seq::<Ctl>::empty());
    assert(ctl::encode(Seq::<Ctl>::empty()) =~= Seq::<u8>::empty());
    assert(ctl::encode(seq![a]) =~= a.encode());
}

proof fn lemma_two_bytes(a: Ctl, b: Ctl)
    ensures
        ctl::encode(seq![a, b]) == a.encode() + b.encode(),
{
    assert(seq![a, b].drop_last() =~= seq![a]);
    lemma_one_bytes(a);
}

proof fn lemma_three_bytes(a: Ctl, b: Ctl, c: Ctl)
    ensures
        ctl::encode(seq![a, b, c]) == a.encode() + b.encode() + c.encode(),
{
    assert(seq![a, b, c].drop_last() =~= seq![a, b]);
    lemma_two_bytes(a, b);
}

/// The bytes of each request.
proof fn lemma_request_bytes(n: nat)
    ensures
        Ctl::SaveCursor.encode() == seq![0x1bu8, 0x37],
        Ctl::RestoreCursor.encode() == seq![0x1bu8, 0x38],
        (Ctl::ScrollRegion { bottom: n }).encode() == region(n as int),
        (Ctl::Goto { row: n }).encode() == address(n as int),
        Ctl::EraseLine.encode() == erasure(),
        (Ctl::DeleteLines { n }).encode() == counted(n as int, 0x4d),
        (Ctl::InsertLines { n }).encode() == counted(n as int, 0x4c),
        (Ctl::Up { n }).encode() == counted(n as int, 0x41),
        (Ctl::Down { n }).encode() == counted(n as int, 0x42),
{
    assert(decimal::decimal(1) =~= seq![0x31u8]);
    assert(decimal::decimal(2) =~= seq![0x32u8]);
    assert((Ctl::ScrollRegion { bottom: n }).encode() =~= region(n as int));
    assert((Ctl::Goto { row: n }).encode() =~= address(n as int));
    assert(Ctl::EraseLine.encode() =~= erasure());
    assert((Ctl::DeleteLines { n }).encode() =~= counted(n as int, 0x4d));
    assert((Ctl::InsertLines { n }).encode() =~= counted(n as int, 0x4c));
    assert((Ctl::Up { n }).encode() =~= counted(n as int, 0x41));
    assert((Ctl::Down { n }).encode() =~= counted(n as int, 0x42));
}

proof fn lemma_clear_bytes(from: nat, n: nat)
    ensures
        ctl::encode(pane::clear_ctls(from, n)) == blanking(from as int, from + n - 1),
    decreases n,
{
    let lines = Seq::new(n, |k: int| address(from + k) + erasure());
    assert(lines =~= Seq::new(
        (from + n - 1 + 1 - from) as nat,
        |k: int| address(from as int + k) + erasure(),
    ));
    if n == 0 {
        assert(lines.flatten() =~= Seq::<u8>::empty());
    } else {
        let m = (n - 1) as nat;
        let row = (from + n - 1) as nat;
        lemma_clear_bytes(from, m);
        let fewer = Seq::new(m, |k: int| address(from + k) + erasure());
        assert(fewer =~= Seq::new(
            (from + m - 1 + 1 - from) as nat,
            |k: int| address(from as int + k) + erasure(),
        ));
        assert(lines =~= fewer.push(address(row as int) + erasure()));
        fewer.lemma_flatten_push(address(row as int) + erasure());
        let pair = seq![Ctl::Goto { row }, Ctl::EraseLine];
        ctl::law_encode_concat(pane::clear_ctls(from, m), pair);
        lemma_two_bytes(Ctl::Goto { row }, Ctl::EraseLine);
        lemma_request_bytes(row);
    }
}

proof fn lemma_paint_bytes(from: nat, rows: Seq<Seq<u8>>)
    ensures
        ctl::encode(pane::paint_ctls(from, rows)) == painting(from as int, rows),
    decreases rows.len(),
{
    let lines = Seq::new(rows.len(), |k: int| address(from as int + k) + erasure() + rows[k]);
    if rows.len() == 0 {
        assert(lines.flatten() =~= Seq::<u8>::empty());
    } else {
        let before = rows.drop_last();
        let row = (from + rows.len() - 1) as nat;
        let text = rows.last();
        lemma_paint_bytes(from, before);
        let fewer = Seq::new(
            before.len(),
            |k: int| address(from as int + k) + erasure() + before[k],
        );
        assert(lines =~= fewer.push(address(row as int) + erasure() + text));
        fewer.lemma_flatten_push(address(row as int) + erasure() + text);
        let three = seq![Ctl::Goto { row }, Ctl::EraseLine, Ctl::Print { text }];
        ctl::law_encode_concat(pane::paint_ctls(from, before), three);
        lemma_three_bytes(Ctl::Goto { row }, Ctl::EraseLine, Ctl::Print { text });
        lemma_request_bytes(row);
    }
}

/// The bytes that confine the shell and draw the separator.
proof fn lemma_separator_bytes(p: PaneState)
    requires
        p.pane_rows < p.total_rows,
    ensures
        ctl::encode(p.resize_ctls()) == region(p.total_rows - p.pane_rows - 1) + address(
            p.total_rows - p.pane_rows,
        ) + erasure() + p.separator,
{
    let bottom = (p.total_rows - p.pane_rows - 1) as nat;
    let row = (p.total_rows - p.pane_rows) as nat;
    let a = Ctl::ScrollRegion { bottom };
    let b = Ctl::Goto { row };
    let c = Ctl::Print { text: p.separator };
    assert(p.resize_ctls().drop_last() =~= seq![a, b, Ctl::EraseLine]);
    lemma_three_bytes(a, b, Ctl::EraseLine);
    lemma_request_bytes(bottom);
    lemma_request_bytes(row);
    assert(p.resize_ctls().last() == c);
}

/// Drawing the pane sends, between remembering the cursor's place and going back to
/// it: the shell's rows, the separator on its row, and then, for each of the pane's
/// rows, its address, the erasure and the bytes of the row as they are.
pub proof fn law_redraw_sends_the_rows(pane: &SplitPane, bytes: Vec<u8>)
    requires
        pane@.wf(),
        pane@.pane_rows < pane@.total_rows,
        call_ensures(SplitPane::redraw, (pane,), bytes),
    ensures
        ({
            let separator_row = pane@.total_rows - pane@.pane_rows;
            bytes@ == seq![0x1bu8, 0x37] + region(separator_row - 1) + address(separator_row)
                + erasure() + pane@.separator + painting(separator_row + 1, pane@.rows)
                + seq![0x1bu8, 0x38]
        }),
{
    let p = pane@;
    let a = seq![Ctl::SaveCursor];
    let b = p.resize_ctls();
    let c = pane::paint_ctls(p.pane_start(), p.rows);
    let d = seq![Ctl::RestoreCursor];
    ctl::law_encode_concat(a + b + c, d);
    ctl::law_encode_concat(a + b, c);
    ctl::law_encode_concat(a, b);
    lemma_one_bytes(Ctl::SaveCursor);
    lemma_one_bytes(Ctl::RestoreCursor);
    lemma_separator_bytes(p);
    lemma_paint_bytes(p.pane_start(), p.rows);
    lemma_request_bytes(0);
    let separator_row = p.total_rows - p.pane_rows;
    assert(bytes@ =~= seq![0x1bu8, 0x37] + region(separator_row - 1) + address(separator_row)
        + erasure() + p.separator + painting(separator_row + 1, p.rows) + seq![0x1bu8, 0x38]);
}

/// Setting up makes room for the pane and the separator below the shell's cursor.
/// The cursor is on the row that is given, or else on the terminal's last one; the
/// rows that it would be too low are taken out from under it, and it goes up by as
/// many. Nothing else of the pane changes.
pub proof fn law_setup_makes_room(pane: &mut SplitPane, bytes: Vec<u8>)
    requires
        old(pane)@.wf(),
        old(pane)@.pane_rows < old(pane)@.total_rows,
        call_ensures(SplitPane::setup, (pane,), bytes),
    ensures
        ({
            let p = old(pane)@;
            let q = final(pane)@;
            let cursor = match p.config.cursor_row {
                Some(row) => row as int,
                None => p.total_rows as int,
            };
            let room = p.total_rows - p.pane_rows - 1;
            &&& cursor <= room ==> q.overflow == 0
            &&& cursor > room ==> q.overflow == cursor - room
            &&& p.config.cursor_row is None ==> q.overflow == p.pane_rows + 1
            &&& q == (PaneState { overflow: q.overflow, ..p })
        }),
        ({
            let q = final(pane)@;
            let separator_row = q.total_rows - q.pane_rows;
            bytes@ == seq![0x1bu8, 0x37] + (if q.overflow > 0 {
                address(separator_row - 1) + counted(q.overflow as int, 0x4d)
            } else {
                seq![]
            }) + region(separator_row - 1) + address(separator_row) + q.separator + blanking(
                separator_row + 1,
                q.total_rows as int,
            ) + seq![0x1bu8, 0x38] + (if q.overflow > 0 {
                counted(q.overflow as int, 0x41)
            } else {
                seq![]
            })
        }),
{
    let q = final(pane)@;
    let o = q.overflow;
    let sb = Ctl::Goto { row: q.shell_bottom() };
    let del = Ctl::DeleteLines { n: o };
    let take = if o > 0 {
        seq![sb, del]
    } else {
        seq![]
    };
    let reg = Ctl::ScrollRegion { bottom: q.shell_bottom() };
    let sep = Ctl::Goto { row: q.separator_row() };
    let print = Ctl::Print { text: q.separator };
    let save = seq![Ctl::SaveCursor];
    let draw = seq![reg, sep, print];
    let clear = pane::clear_ctls(q.pane_start(), q.pane_rows);
    let restore = seq![Ctl::RestoreCursor];
    let up = if o > 0 {
        seq![Ctl::Up { n: o }]
    } else {
        seq![]
    };
    ctl::law_encode_concat(save + take + draw + clear + restore, up);
    ctl::law_encode_concat(save + take + draw + clear, restore);
    ctl::law_encode_concat(save + take + draw, clear);
    ctl::law_encode_concat(save + take, draw);
    ctl::law_encode_concat(save, take);
    lemma_one_bytes(Ctl::SaveCursor);
    lemma_one_bytes(Ctl::RestoreCursor);
    lemma_three_bytes(reg, sep, print);
    lemma_clear_bytes(q.pane_start(), q.pane_rows);
    lemma_request_bytes(q.shell_bottom());
    lemma_request_bytes(q.separator_row());
    lemma_request_bytes(o);
    assert(ctl::encode(Seq::<Ctl>::empty()) =~= Seq::<u8>::empty());
    if o > 0 {
        lemma_two_bytes(sb, del);
        lemma_one_bytes(Ctl::Up { n: o });
    }
    let separator_row = q.total_rows - q.pane_rows;
    assert(bytes@ =~= seq![0x1bu8, 0x37] + (if o > 0 {
        address(separator_row - 1) + counted(o as int, 0x4d)
    } else {
        seq![]
    }) + region(separator_row - 1) + address(separator_row) + q.separator + blanking(
        separator_row + 1,
        q.total_rows as int,
    ) + seq![0x1bu8, 0x38] + (if o > 0 {
        counted(o as int, 0x41)
    } else {
        seq![]
    }));
}

/// Undoing the split sends, between remembering the cursor's place and going back to
/// it: all rows scroll again, the separator and the pane are blanked, and as many
/// lines as were taken are put in again. Then the cursor goes down by as many.
pub proof fn law_teardown_gives_rows_back(pane: &SplitPane, bytes: Vec<u8>)
    requires
        pane@.wf(),
        pane@.pane_rows <= pane@.total_rows,
        pane@.overflow > 0 ==> pane@.pane_rows < pane@.total_rows,
        call_ensures(SplitPane::teardown, (pane,), bytes),
    ensures
        ({
            let p = pane@;
            let separator_row = p.total_rows - p.pane_rows;
            bytes@ == seq![0x1bu8, 0x37] + region(p.total_rows as int) + blanking(
                separator_row,
                p.total_rows as int,
            ) + (if p.overflow > 0 {
                address(separator_row - 1) + counted(p.overflow as int, 0x4c)
            } else {
                seq![]
            }) + seq![0x1bu8, 0x38] + (if p.overflow > 0 {
                counted(p.overflow as int, 0x42)
            } else {
                seq![]
            })
        }),
{
    let p = pane@;
    let o = p.overflow;
    let reg = Ctl::ScrollRegion { bottom: p.total_rows };
    let start = seq![Ctl::SaveCursor, reg];
    let clear = pane::clear_ctls(p.separator_row(), p.pane_rows + 1);
    let sb = Ctl::Goto { row: p.shell_bottom() };
    let ins = Ctl::InsertLines { n: o };
    let put = if o > 0 {
        seq![sb, ins]
    } else {
        seq![]
    };
    let restore = seq![Ctl::RestoreCursor];
    let down = if o > 0 {
        seq![Ctl::Down { n: o }]
    } else {
        seq![]
    };
    ctl::law_encode_concat(start + clear + put + restore, down);
    ctl::law_encode_concat(start + clear + put, restore);
    ctl::law_encode_concat(start + clear, put);
    ctl::law_encode_concat(start, clear);
    lemma_two_bytes(Ctl::SaveCursor, reg);
    lemma_one_bytes(Ctl::RestoreCursor);
    lemma_clear_bytes(p.separator_row(), p.pane_rows + 1);
    lemma_request_bytes(p.total_rows);
    lemma_request_bytes(p.shell_bottom());
    lemma_request_bytes(o);
    assert(ctl::encode(Seq::<Ctl>::empty()) =~= Seq::<u8>::empty());
    if o > 0 {
        lemma_two_bytes(sb, ins);
        lemma_one_bytes(Ctl::Down { n: o });
    }
    let separator_row = p.total_rows - p.pane_rows;
    assert(bytes@ =~= seq![0x1bu8, 0x37] + region(p.total_rows as int) + blanking(
        separator_row,
        p.total_rows as int,
    ) + (if o > 0 {
        address(separator_row - 1) + counted(o as int, 0x4c)
    } else {
        seq![]
    }) + seq![0x1bu8, 0x38] + (if o > 0 {
        counted(o as int, 0x42)
    } else {
        seq![]
    }));
}

/// A size that is known is taken over, whatever the pane had before; and something
/// is sent exactly if it is another size. Then the shell is confined to its rows, and
/// the separator is drawn on its row, as wide as the terminal. A size that is not
/// known changes nothing.
pub proof fn law_resize_follows_the_terminal(
    pane: &mut SplitPane,
    size: Option<(u16, u16)>,
    bytes: Option<Vec<u8>>,
)
    requires
        old(pane)@.wf(),
        call_ensures(SplitPane::handle_resize, (pane, size), bytes),
    ensures
        size is None ==> bytes is None && final(pane)@ == old(pane)@,
        size matches Some((rows, cols)) ==> {
            let p = old(pane)@;
            let q = final(pane)@;
            &&& q.total_rows == rows
            &&& q.cols == cols
            &&& q.config == p.config
            &&& q.overflow == p.overflow
            &&& bytes is Some <==> rows != p.total_rows || cols != p.cols
            &&& bytes is None ==> q == p
        },
        bytes matches Some(sent) ==> final(pane)@.pane_rows < final(pane)@.total_rows ==> {
            let q = final(pane)@;
            let separator_row = q.total_rows - q.pane_rows;
            sent@ == region(separator_row - 1) + address(separator_row) + erasure() + q.separator
        },
{
    let q = final(pane)@;
    if q.pane_rows < q.total_rows {
        lemma_separator_bytes(q);
    }
}

/// The pane is laid out anew for a size as it would be for a new pane: it has the
/// height that is chosen for the terminal, and the separator that is built for it.
pub proof fn law_resize_lays_out_anew(
    pane: &mut SplitPane,
    size: (u16, u16),
    bytes: Option<Vec<u8>>,
    height: u16,
    separator: Vec<u8>,
)
    requires
        old(pane)@.wf(),
        call_ensures(SplitPane::handle_resize, (pane, Some(size)), bytes),
        call_ensures(pane_rows_for_height, (size.0, old(pane)@.config), height),
        call_ensures(layout::build_separator, (size.1,), separator),
    ensures
        final(pane)@.pane_rows == height,
        final(pane)@.separator == separator@,
{
}

/// Another size keeps the end of what was shown: of the rows down to the one that is
/// written in, the last ones, as many as the pane now has room for, are on top, and
/// the rows below them are empty. The log goes on where it stood.
pub proof fn law_resize_keeps_the_last_rows(
    pane: &mut SplitPane,
    size: Option<(u16, u16)>,
    bytes: Option<Vec<u8>>,
)
    requires
        old(pane)@.wf(),
        call_ensures(SplitPane::handle_resize, (pane, size), bytes),
    ensures
        ({
            let p = old(pane)@;
            let q = final(pane)@;
            let had = if p.pane_rows > 0 {
                p.cursor_row + 1
            } else {
                0
            };
            let kept = if had <= q.pane_rows {
                had
            } else {
                q.pane_rows as int
            };
            &&& q.rows.len() == q.pane_rows
            &&& q.rows.take(kept) == p.rows.subrange(had - kept, had)
            &&& forall|i: int|
                kept <= i < q.pane_rows ==> #[trigger] q.rows[i] == Seq::<u8>::empty()
            &&& q.cursor_row == (if kept > 0 {
                kept - 1
            } else {
                0
            })
            &&& q.cursor_col == p.cursor_col
            &&& q.in_esc == p.in_esc
        }),
{
    let p = old(pane)@;
    let q = final(pane)@;
    let had = if p.pane_rows > 0 {
        p.cursor_row + 1
    } else {
        0
    };
    let kept = if had <= q.pane_rows {
        had
    } else {
        q.pane_rows as int
    };
    assert(q.rows.take(kept) =~= p.rows.subrange(had - kept, had));
}

/// A new pane has the terminal's size, or twenty-four rows of eighty columns where
/// that is not known; it has the height that is chosen for it and the separator that
/// is built for it, and shows nothing.
pub proof fn law_new_pane_is_empty(
    size: Option<(u16, u16)>,
    config: SplitConfig,
    fresh: SplitPane,
    rows: u16,
    cols: u16,
    height: u16,
    separator: Vec<u8>,
)
    requires
        config.min_pane_rows <= config.max_pane_rows,
        call_ensures(SplitPane::new, (size, config), fresh),
        size == Some((rows, cols)) || size is None && rows == 24 && cols == 80,
        call_ensures(pane_rows_for_height, (rows, config), height),
        call_ensures(layout::build_separator, (cols,), separator),
    ensures
        fresh@.total_rows == rows,
        fresh@.cols == cols,
        fresh@.config == config,
        fresh@.pane_rows == height,
        fresh@.rows.len() == height,
        forall|i: int| 0 <= i < height ==> #[trigger] fresh@.rows[i] == Seq::<u8>::empty(),
        fresh@.cursor_row == 0,
        fresh@.cursor_col == 0,
        !fresh@.in_esc,
        fresh@.separator == separator@,
        fresh@.overflow == 0,
{
}

/// What is asked before a split, a change of size or the end of a split: there is
/// room if a row is left for the separator, and the rows can be counted.
pub proof fn law_room_is_judged_by_rows(
    pane: &SplitPane,
    size: Option<(u16, u16)>,
    fits: bool,
    can_setup: bool,
    can_teardown: bool,
    can_resize: bool,
    pane_size: (u16, u16),
)
    requires
        pane@.wf(),
        call_ensures(SplitPane::fits, (pane,), fits),
        call_ensures(SplitPane::can_setup, (pane,), can_setup),
        call_ensures(SplitPane::can_teardown, (pane,), can_teardown),
        call_ensures(SplitPane::can_resize, (pane, size), can_resize),
        call_ensures(SplitPane::pane_size, (pane,), pane_size),
    ensures
        ({
            let p = pane@;
            let cursor = match p.config.cursor_row {
                Some(row) => row as int,
                None => p.total_rows as int,
            };
            &&& fits == (p.pane_rows < p.total_rows)
            &&& can_setup == (fits && cursor + p.pane_rows + 1 <= 0xffff)
            &&& can_teardown == (p.pane_rows <= p.total_rows && (p.overflow == 0 || fits))
            &&& pane_size.0 == p.pane_rows
            &&& pane_size.1 == p.cols
        }),
        size is None ==> can_resize,
        size matches Some((rows, cols)) ==> forall|height: u16|
            #[trigger] call_ensures(pane_rows_for_height, (rows, pane@.config), height)
                ==> can_resize == (rows == pane@.total_rows && cols == pane@.cols || height < rows),
{
}

/// What can be read off a pane are its rows, byte for byte and from the top, and the
/// row and the column at which the log goes on.
pub proof fn law_rows_are_read_as_they_are(
    pane: &SplitPane,
    i: usize,
    row: &Vec<u8>,
    cursor: (usize, usize),
)
    requires
        call_ensures(SplitPane::row, (pane, i), row),
        call_ensures(SplitPane::cursor, (pane,), cursor),
    ensures
        row@ == pane@.rows[i as int],
        cursor.0 == pane@.cursor_row,
        cursor.1 == pane@.cursor_col,
{
}

/// Whatever proportions leave a choice of heights make a pane on any terminal. Every
/// pane that has rows takes in whatever comes and can be read row by row. It can be
/// split off, drawn, resized and undone wherever there is said to be room for it.
pub proof fn law_what_is_judged_possible_is(
    size: Option<(u16, u16)>,
    config: SplitConfig,
    pane: &mut SplitPane,
    data: &[u8],
    i: usize,
)
    requires
        old(pane)@.wf(),
    ensures
        config.min_pane_rows <= config.max_pane_rows ==> call_requires(
            SplitPane::new,
            (size, config),
        ),
        old(pane)@.pane_rows > 0 ==> call_requires(SplitPane::ingest, (pane, data)),
        i < old(pane)@.pane_rows ==> call_requires(SplitPane::row, (old(pane), i)),
        call_requires(SplitPane::can_resize, (old(pane), size)),
        call_ensures(SplitPane::can_setup, (old(pane),), true) ==> call_requires(
            SplitPane::setup,
            (pane,),
        ),
        call_ensures(SplitPane::can_teardown, (old(pane),), true) ==> call_requires(
            SplitPane::teardown,
            (old(pane),),
        ),
        call_ensures(SplitPane::can_resize, (old(pane), size), true) ==> call_requires(
            SplitPane::handle_resize,
            (pane, size),
        ),
        call_ensures(SplitPane::fits, (old(pane),), true) ==> call_requires(
            SplitPane::redraw,
            (old(pane),),
        ),
{
}

/// A pane stays one that all of this holds of, from the start and whatever is done
/// with it.
pub proof fn law_pane_stays_well_formed(
    size: Option<(u16, u16)>,
    config: SplitConfig,
    fresh: SplitPane,
    fed: &mut SplitPane,
    data: &[u8],
    split: &mut SplitPane,
    sent: Vec<u8>,
    moved: &mut SplitPane,
    bytes: Option<Vec<u8>>,
)
    requires
        call_ensures(SplitPane::new, (size, config), fresh),
        call_ensures(SplitPane::ingest, (fed, data), ()),
        call_ensures(SplitPane::setup, (split,), sent),
        call_ensures(SplitPane::handle_resize, (moved, size), bytes),
    ensures
        fresh@.wf(),
        final(fed)@.wf(),
        final(split)@.wf(),
        final(moved)@.wf(),
{
}

} // verus!
