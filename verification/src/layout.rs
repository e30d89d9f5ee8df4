//! How the terminal's rows are shared out between the shell and the pane.

use vstd::prelude::*;

verus! {

pub const DEFAULT_MIN_PANE_ROWS: u16 = 2;

pub const DEFAULT_MAX_PANE_ROWS: u16 = 10;

pub const DEFAULT_PANE_ROWS: u16 = 10;

pub const DEFAULT_MIN_TOP_ROWS: u16 = 22;

/// The rows a terminal is taken to have where it does not say.
pub const FALLBACK_ROWS: u16 = 24;

/// The columns a terminal is taken to have where it does not say.
pub const FALLBACK_COLS: u16 = 80;

/// What the pane's height is chosen by, and where the cursor was at the start.
#[derive(Debug, Clone, Copy)]
pub struct SplitConfig {
    pub min_pane_rows: u16,
    pub max_pane_rows: u16,
    pub preferred_pane_rows: u16,
    pub min_top_rows: u16,
    pub cursor_row: Option<u16>,
}

impl SplitConfig {
    /// The bounds on the pane's height leave a choice.
    pub open spec fn valid(self) -> bool {
        self.min_pane_rows <= self.max_pane_rows
    }

    /// The proportions of a tmux split, for a shell whose cursor is on `cursor_row`.
    pub fn tmux_like(cursor_row: u16) -> (config: Self)
        ensures
            config == (SplitConfig {
                min_pane_rows: DEFAULT_MIN_PANE_ROWS,
                max_pane_rows: DEFAULT_MAX_PANE_ROWS,
                preferred_pane_rows: DEFAULT_PANE_ROWS,
                min_top_rows: DEFAULT_MIN_TOP_ROWS,
                cursor_row: Some(cursor_row),
            }),
            config.valid(),
    {
        SplitConfig {
            min_pane_rows: DEFAULT_MIN_PANE_ROWS,
            max_pane_rows: DEFAULT_MAX_PANE_ROWS,
            preferred_pane_rows: DEFAULT_PANE_ROWS,
            min_top_rows: DEFAULT_MIN_TOP_ROWS,
            cursor_row: Some(cursor_row),
        }
    }

    /// The proportions of a tmux split, where the cursor's row is not known: the
    /// cursor is then taken to be on the terminal's last row.
    pub fn tmux_like_current_row() -> (config: Self)
        ensures
            config == (SplitConfig {
                min_pane_rows: DEFAULT_MIN_PANE_ROWS,
                max_pane_rows: DEFAULT_MAX_PANE_ROWS,
                preferred_pane_rows: DEFAULT_PANE_ROWS,
                min_top_rows: DEFAULT_MIN_TOP_ROWS,
                cursor_row: None,
            }),
            config.valid(),
    {
        SplitConfig {
            min_pane_rows: DEFAULT_MIN_PANE_ROWS,
            max_pane_rows: DEFAULT_MAX_PANE_ROWS,
            preferred_pane_rows: DEFAULT_PANE_ROWS,
            min_top_rows: DEFAULT_MIN_TOP_ROWS,
            cursor_row: None,
        }
    }
}

/// The smaller of two numbers.
pub open spec fn smaller(a: int, b: int) -> int {
    if a <= b {
        a
    } else {
        b
    }
}

/// The larger of two numbers.
pub open spec fn larger(a: int, b: int) -> int {
    if a >= b {
        a
    } else {
        b
    }
}

/// The pane's height: what the shell's share leaves, up to the preferred height,
/// brought between the two bounds.
pub open spec fn pane_height(total_rows: int, config: SplitConfig) -> int {
    let left = larger(total_rows - config.min_top_rows, 0);
    let wanted = smaller(left, config.preferred_pane_rows as int);
    larger(smaller(wanted, config.max_pane_rows as int), config.min_pane_rows as int)
}

/// Chooses the pane's height for a terminal of `total_rows` rows.
pub fn pane_rows_for_height(total_rows: u16, config: SplitConfig) -> (rows: u16)
    requires
        config.valid(),
    ensures
        rows == pane_height(total_rows as int, config),
        config.min_pane_rows <= rows <= config.max_pane_rows,
{
    let left: u16 = total_rows.saturating_sub(config.min_top_rows);
    let wanted: u16 = if left <= config.preferred_pane_rows {
        left
    } else {
        config.preferred_pane_rows
    };
    if wanted < config.min_pane_rows {
        config.min_pane_rows
    } else if wanted > config.max_pane_rows {
        config.max_pane_rows
    } else {
        wanted
    }
}

/// The shell keeps the rows that it is owed, and the separator with them, on every
/// terminal that has these and the least pane.
pub proof fn law_shell_keeps_its_rows(total_rows: int, config: SplitConfig)
    requires
        config.valid(),
        total_rows >= config.min_top_rows + config.min_pane_rows,
    ensures
        total_rows - pane_height(total_rows, config) >= config.min_top_rows,
{
}

/// A taller terminal has no lower pane, and the pane gets no more rows than the
/// terminal did.
pub proof fn law_pane_grows_with_terminal(a: int, b: int, config: SplitConfig)
    requires
        config.valid(),
        a <= b,
    ensures
        0 <= pane_height(b, config) - pane_height(a, config) <= b - a,
{
}

/// With the proportions of a tmux split the pane has ten rows where the shell then
/// keeps its own, and never less than two.
pub proof fn law_tmux_like_heights(total_rows: int, cursor_row: Option<u16>)
    requires
        total_rows >= 0,
    ensures
        ({
            let height = pane_height(
                total_rows,
                SplitConfig {
                    min_pane_rows: DEFAULT_MIN_PANE_ROWS,
                    max_pane_rows: DEFAULT_MAX_PANE_ROWS,
                    preferred_pane_rows: DEFAULT_PANE_ROWS,
                    min_top_rows: DEFAULT_MIN_TOP_ROWS,
                    cursor_row,
                },
            );
            &&& total_rows <= 24 ==> height == 2
            &&& 24 <= total_rows <= 32 ==> height == total_rows - 22
            &&& total_rows >= 32 ==> height == 10
        }),
{
}

/// `n` horizontal strokes (U+2500).
pub open spec fn strokes(n: nat) -> Seq<char> {
    Seq::new(n, |i: int| '\u{2500}')
}

/// The UTF-8 bytes of `cols` horizontal strokes.
pub open spec fn separator_bytes(cols: nat) -> Seq<u8> {
    vstd::utf8::encode_utf8(strokes(cols))
}

/// The three bytes of one stroke, and that they stand at either end of a longer line.
proof fn lemma_one_more_stroke(n: nat)
    ensures
        separator_bytes(n + 1) == separator_bytes(n) + seq![0xe2u8, 0x94u8, 0x80u8],
    decreases n,
{
    let stroke: u32 = 0x2500;
    assert(0xe0u8 | ((stroke >> 12) & 0x0f) as u8 == 0xe2u8) by (bit_vector)
        requires
            stroke == 0x2500,
    ;
    assert(0x80u8 | ((stroke >> 6) & 0x3f) as u8 == 0x94u8) by (bit_vector)
        requires
            stroke == 0x2500,
    ;
    assert(0x80u8 | (stroke & 0x3f) as u8 == 0x80u8) by (bit_vector)
        requires
            stroke == 0x2500,
    ;
    let bytes = seq![0xe2u8, 0x94u8, 0x80u8];
    assert(vstd::utf8::encode_scalar('\u{2500}' as u32) =~= bytes);
    assert(strokes(n + 1).drop_first() =~= strokes(n));
    assert(separator_bytes(n + 1) == bytes + separator_bytes(n));
    if n == 0 {
        assert(strokes(0) =~= Seq::<char>::empty());
        assert(bytes + separator_bytes(n) =~= separator_bytes(n) + bytes);
    } else {
        lemma_one_more_stroke((n - 1) as nat);
        assert(strokes(n).drop_first() =~= strokes((n - 1) as nat));
        assert(bytes + separator_bytes(n) =~= separator_bytes(n) + bytes);
    }
}

/// The line that is drawn between the shell and the pane.
pub fn build_separator(cols: u16) -> (line: Vec<u8>)
    ensures
        line@ == separator_bytes(cols as nat),
{
    let mut line: Vec<u8> = Vec::new();
    let mut i: u16 = 0;
    assert(strokes(0) =~= Seq::<char>::empty());
    while i < cols
        invariant
            i <= cols,
            line@ == separator_bytes(i as nat),
        decreases cols - i,
    {
        proof {
            lemma_one_more_stroke(i as nat);
        }
        line.push(0xe2);
        line.push(0x94);
        line.push(0x80);
        i = i + 1;
        assert(line@ =~= separator_bytes(i as nat));
    }
    line
}

/// The pane is as tall as it may be: its height is between the two bounds, and of
/// the heights between them that are no more than the preferred one and leave the
/// shell its rows it is the greatest. Where there is none, it is the least of all.
pub proof fn law_pane_is_as_tall_as_it_may_be(
    total_rows: u16,
    config: SplitConfig,
    rows: u16,
    other: int,
)
    requires
        config.min_pane_rows <= config.max_pane_rows,
        call_ensures(pane_rows_for_height, (total_rows, config), rows),
    ensures
        config.min_pane_rows <= rows <= config.max_pane_rows,
        rows > config.min_pane_rows ==> rows <= config.preferred_pane_rows,
        rows > config.min_pane_rows ==> rows + config.min_top_rows <= total_rows,
        config.min_pane_rows <= other <= config.max_pane_rows && other
            <= config.preferred_pane_rows && other + config.min_top_rows <= total_rows ==> other
            <= rows,
{
}

/// The proportions of a tmux split: ten rows for the pane, and no less than two of
/// them where the shell would not keep twenty-two. With a cursor row it is kept, and
/// without one none is made up.
pub proof fn law_tmux_like_proportions(cursor_row: u16, given: SplitConfig, current: SplitConfig)
    requires
        call_ensures(SplitConfig::tmux_like, (cursor_row,), given),
        call_ensures(SplitConfig::tmux_like_current_row, (), current),
    ensures
        given.min_pane_rows == 2 && current.min_pane_rows == 2,
        given.max_pane_rows == 10 && current.max_pane_rows == 10,
        given.preferred_pane_rows == 10 && current.preferred_pane_rows == 10,
        given.min_top_rows == 22 && current.min_top_rows == 22,
        given.cursor_row == Some(cursor_row),
        current.cursor_row is None,
{
}

/// The separator goes over the whole width: it is one stroke for each column, and a
/// stroke is these three bytes.
pub proof fn law_separator_has_a_stroke_for_each_column(cols: u16, line: Vec<u8>)
    requires
        call_ensures(build_separator, (cols,), line),
    ensures
        line@.len() == 3 * cols,
        forall|i: int|
            0 <= i < line@.len() ==> #[trigger] line@[i] == (if i % 3 == 0 {
                0xe2u8
            } else if i % 3 == 1 {
                0x94u8
            } else {
                0x80u8
            }),
{
    lemma_strokes_are_bytes(cols as nat);
}

/// The bytes of `n` strokes.
pub(crate) proof fn lemma_strokes_are_bytes(n: nat)
    ensures
        separator_bytes(n).len() == 3 * n,
        forall|i: int|
            0 <= i < 3 * n ==> #[trigger] separator_bytes(n)[i] == (if i % 3 == 0 {
                0xe2u8
            } else if i % 3 == 1 {
                0x94u8
            } else {
                0x80u8
            }),
    decreases n,
{
    if n == 0 {
        assert(strokes(0) =~= Seq::<char>::empty());
    } else {
        let m = (n - 1) as nat;
        lemma_strokes_are_bytes(m);
        lemma_one_more_stroke(m);
        assert forall|i: int| 0 <= i < 3 * n implies #[trigger] separator_bytes(n)[i] == (if i % 3
            == 0 {
            0xe2u8
        } else if i % 3 == 1 {
            0x94u8
        } else {
            0x80u8
        }) by {
            if i < 3 * m {
                assert(separator_bytes(n)[i] == separator_bytes(m)[i]);
            }
        }
    }
}

} // verus!
