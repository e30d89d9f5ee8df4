//! The terminal control sequences that the pane writes.

use crate::decimal;
use vstd::prelude::*;

verus! {

/// The byte that starts a control sequence.
pub const ESC: u8 = 0x1b;

/// `[`, which follows `ESC` where the sequence takes parameters.
pub const BRACKET: u8 = 0x5b;

/// `;`, which stands between two parameters.
pub const SEMICOLON: u8 = 0x3b;

/// `7`
pub const SAVE: u8 = 0x37;

/// `8`
pub const RESTORE: u8 = 0x38;

/// `r`
pub const SET_REGION: u8 = 0x72;

/// `H`
pub const SET_POSITION: u8 = 0x48;

/// `K`
pub const ERASE: u8 = 0x4b;

/// `M`
pub const DELETE: u8 = 0x4d;

/// `L`
pub const INSERT: u8 = 0x4c;

/// `A`
pub const MOVE_UP: u8 = 0x41;

/// `B`
pub const MOVE_DOWN: u8 = 0x42;

/// One thing that is asked of the terminal. Rows count from one.
pub enum Ctl {
    /// Remember the cursor's place.
    SaveCursor,
    /// Go back to the place that was remembered last.
    RestoreCursor,
    /// Let only the rows from the first one to `bottom` scroll.
    ScrollRegion { bottom: nat },
    /// Go to the first column of a row.
    Goto { row: nat },
    /// Blank the line that the cursor is on.
    EraseLine,
    /// Take out `n` lines, from the cursor's line down.
    DeleteLines { n: nat },
    /// Put in `n` blank lines above the cursor's line.
    InsertLines { n: nat },
    /// Go up `n` rows.
    Up { n: nat },
    /// Go down `n` rows.
    Down { n: nat },
    /// Print text where the cursor is.
    Print { text: Seq<u8> },
}

/// `ESC [`, the parameters, and the byte that ends the sequence.
pub open spec fn csi(params: Seq<u8>, end: u8) -> Seq<u8> {
    seq![ESC, BRACKET] + params + seq![end]
}

impl Ctl {
    /// The bytes that ask for it.
    pub open spec fn encode(self) -> Seq<u8> {
        match self {
            Ctl::SaveCursor => seq![ESC, SAVE],
            Ctl::RestoreCursor => seq![ESC, RESTORE],
            Ctl::ScrollRegion { bottom } => csi(
                decimal::decimal(1) + seq![SEMICOLON] + decimal::decimal(bottom),
                SET_REGION,
            ),
            Ctl::Goto { row } => csi(decimal::decimal(row) + seq![SEMICOLON] + decimal::decimal(1), SET_POSITION),
            Ctl::EraseLine => csi(decimal::decimal(2), ERASE),
            Ctl::DeleteLines { n } => csi(decimal::decimal(n), DELETE),
            Ctl::InsertLines { n } => csi(decimal::decimal(n), INSERT),
            Ctl::Up { n } => csi(decimal::decimal(n), MOVE_UP),
            Ctl::Down { n } => csi(decimal::decimal(n), MOVE_DOWN),
            Ctl::Print { text } => text,
        }
    }
}

/// The bytes that ask for all of `ctls`, in order.
pub open spec fn encode(ctls: Seq<Ctl>) -> Seq<u8>
    decreases ctls.len(),
{
    if ctls.len() == 0 {
        seq![]
    } else {
        encode(ctls.drop_last()) + ctls.last().encode()
    }
}

/// The bytes of two lists of requests, one after the other, are those of the
/// joined list: what two writes send is what one write of both would send.
pub proof fn law_encode_concat(a: Seq<Ctl>, b: Seq<Ctl>)
    ensures
        encode(a + b) == encode(a) + encode(b),
    decreases b.len(),
{
    if b.len() == 0 {
        assert(a + b =~= a);
    } else {
        law_encode_concat(a, b.drop_last());
        assert((a + b).drop_last() =~= a + b.drop_last());
        assert((a + b).last() == b.last());
        assert(encode(a + b) =~= encode(a) + encode(b));
    }
}

/// Collects control sequences. Its view is the list of what was asked for.
pub struct CtlWriter {
    bytes: Vec<u8>,
    ctls: Ghost<Seq<Ctl>>,
}

impl View for CtlWriter {
    type V = Seq<Ctl>;

    closed spec fn view(&self) -> Seq<Ctl> {
        self.ctls@
    }
}

impl CtlWriter {
    /// The collected bytes are those of the list.
    pub closed spec fn wf(&self) -> bool {
        self.bytes@ == encode(self.ctls@)
    }

    /// An empty writer.
    pub fn new() -> (w: Self)
        ensures
            w.wf(),
            w@ == Seq::<Ctl>::empty(),
    {
        CtlWriter { bytes: Vec::with_capacity(1024), ctls: Ghost(Seq::empty()) }
    }

    /// Records that the bytes appended since `before` ask for `ctl`.
    proof fn record(before: Seq<Ctl>, ctl: Ctl)
        ensures
            encode(before.push(ctl)) == encode(before) + ctl.encode(),
    {
        assert(before.push(ctl).drop_last() =~= before);
    }

    /// Appends `ESC last`.
    fn push_esc(&mut self, last: u8)
        ensures
            final(self).bytes@ == old(self).bytes@ + seq![ESC, last],
            final(self).ctls == old(self).ctls,
    {
        self.bytes.push(ESC);
        self.bytes.push(last);
        assert(self.bytes@ =~= old(self).bytes@ + seq![ESC, last]);
    }

    /// Appends `ESC [ n end`.
    fn push_csi(&mut self, n: usize, end: u8)
        ensures
            final(self).bytes@ == old(self).bytes@ + csi(decimal::decimal(n as nat), end),
            final(self).ctls == old(self).ctls,
    {
        self.bytes.push(ESC);
        self.bytes.push(BRACKET);
        decimal::push_decimal(&mut self.bytes, n);
        self.bytes.push(end);
        assert(self.bytes@ =~= old(self).bytes@ + csi(decimal::decimal(n as nat), end));
    }

    /// Appends `ESC [ m ; n end`.
    fn push_csi_pair(&mut self, m: usize, n: usize, end: u8)
        ensures
            final(self).bytes@ == old(self).bytes@ + csi(
                decimal::decimal(m as nat) + seq![SEMICOLON] + decimal::decimal(n as nat),
                end,
            ),
            final(self).ctls == old(self).ctls,
    {
        self.bytes.push(ESC);
        self.bytes.push(BRACKET);
        decimal::push_decimal(&mut self.bytes, m);
        self.bytes.push(SEMICOLON);
        decimal::push_decimal(&mut self.bytes, n);
        self.bytes.push(end);
        assert(self.bytes@ =~= old(self).bytes@ + csi(
            decimal::decimal(m as nat) + seq![SEMICOLON] + decimal::decimal(n as nat),
            end,
        ));
    }

    /// Asks to remember the cursor's place.
    pub fn save_cursor(&mut self)
        requires
            old(self).wf(),
        ensures
            final(self).wf(),
            final(self)@ == old(self)@.push(Ctl::SaveCursor),
    {
        self.push_esc(SAVE);
        self.ctls = Ghost(self.ctls@.push(Ctl::SaveCursor));
        proof {
            Self::record(old(self).ctls@, Ctl::SaveCursor);
        }
    }

    /// Asks to go back to the remembered place.
    pub fn restore_cursor(&mut self)
        requires
            old(self).wf(),
        ensures
            final(self).wf(),
            final(self)@ == old(self)@.push(Ctl::RestoreCursor),
    {
        self.push_esc(RESTORE);
        self.ctls = Ghost(self.ctls@.push(Ctl::RestoreCursor));
        proof {
            Self::record(old(self).ctls@, Ctl::RestoreCursor);
        }
    }

    /// Asks to let only the rows down to `bottom` scroll.
    pub fn scroll_region(&mut self, bottom: u16)
        requires
            old(self).wf(),
        ensures
            final(self).wf(),
            final(self)@ == old(self)@.push(Ctl::ScrollRegion { bottom: bottom as nat }),
    {
        self.push_csi_pair(1, bottom as usize, SET_REGION);
        let ghost ctl = Ctl::ScrollRegion { bottom: bottom as nat };
        self.ctls = Ghost(self.ctls@.push(ctl));
        proof {
            Self::record(old(self).ctls@, ctl);
        }
    }

    /// Asks to go to the start of a row.
    pub fn goto(&mut self, row: usize)
        requires
            old(self).wf(),
        ensures
            final(self).wf(),
            final(self)@ == old(self)@.push(Ctl::Goto { row: row as nat }),
    {
        self.push_csi_pair(row, 1, SET_POSITION);
        let ghost ctl = Ctl::Goto { row: row as nat };
        self.ctls = Ghost(self.ctls@.push(ctl));
        proof {
            Self::record(old(self).ctls@, ctl);
        }
    }

    /// Asks to blank the cursor's line.
    pub fn erase_line(&mut self)
        requires
            old(self).wf(),
        ensures
            final(self).wf(),
            final(self)@ == old(self)@.push(Ctl::EraseLine),
    {
        self.push_csi(2, ERASE);
        self.ctls = Ghost(self.ctls@.push(Ctl::EraseLine));
        proof {
            Self::record(old(self).ctls@, Ctl::EraseLine);
        }
    }

    /// Asks to take out lines from the cursor's line down.
    pub fn delete_lines(&mut self, n: u16)
        requires
            old(self).wf(),
        ensures
            final(self).wf(),
            final(self)@ == old(self)@.push(Ctl::DeleteLines { n: n as nat }),
    {
        self.push_csi(n as usize, DELETE);
        let ghost ctl = Ctl::DeleteLines { n: n as nat };
        self.ctls = Ghost(self.ctls@.push(ctl));
        proof {
            Self::record(old(self).ctls@, ctl);
        }
    }

    /// Asks to put in blank lines above the cursor's line.
    pub fn insert_lines(&mut self, n: u16)
        requires
            old(self).wf(),
        ensures
            final(self).wf(),
            final(self)@ == old(self)@.push(Ctl::InsertLines { n: n as nat }),
    {
        self.push_csi(n as usize, INSERT);
        let ghost ctl = Ctl::InsertLines { n: n as nat };
        self.ctls = Ghost(self.ctls@.push(ctl));
        proof {
            Self::record(old(self).ctls@, ctl);
        }
    }

    /// Asks to go up.
    pub fn up(&mut self, n: u16)
        requires
            old(self).wf(),
        ensures
            final(self).wf(),
            final(self)@ == old(self)@.push(Ctl::Up { n: n as nat }),
    {
        self.push_csi(n as usize, MOVE_UP);
        let ghost ctl = Ctl::Up { n: n as nat };
        self.ctls = Ghost(self.ctls@.push(ctl));
        proof {
            Self::record(old(self).ctls@, ctl);
        }
    }

    /// Asks to go down.
    pub fn down(&mut self, n: u16)
        requires
            old(self).wf(),
        ensures
            final(self).wf(),
            final(self)@ == old(self)@.push(Ctl::Down { n: n as nat }),
    {
        self.push_csi(n as usize, MOVE_DOWN);
        let ghost ctl = Ctl::Down { n: n as nat };
        self.ctls = Ghost(self.ctls@.push(ctl));
        proof {
            Self::record(old(self).ctls@, ctl);
        }
    }

    /// Asks to print `text`.
    pub fn print(&mut self, text: &Vec<u8>)
        requires
            old(self).wf(),
        ensures
            final(self).wf(),
            final(self)@ == old(self)@.push(Ctl::Print { text: text@ }),
    {
        let ghost ctl = Ctl::Print { text: text@ };
        self.bytes.extend_from_slice(text.as_slice());
        assert(self.bytes@ =~= old(self).bytes@ + text@);
        self.ctls = Ghost(self.ctls@.push(ctl));
        proof {
            Self::record(old(self).ctls@, ctl);
        }
    }

    /// The bytes to send.
    pub fn finish(self) -> (bytes: Vec<u8>)
        requires
            self.wf(),
        ensures
            bytes@ == encode(self@),
    {
        self.bytes
    }
}

} // verus!
