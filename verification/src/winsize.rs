//! The size of a terminal, as it is asked of the terminal and told to it.

use vstd::prelude::*;

verus! {

/// A terminal's size, in characters and in pixels.
#[derive(Debug, Clone, Copy, PartialEq, Eq, Structural)]
pub struct WinSize {
    pub rows: u16,
    pub cols: u16,
    pub x_pixels: u16,
    pub y_pixels: u16,
}

/// What a terminal is told so that it has `rows` rows and `cols` columns: nothing
/// is said of pixels.
pub fn set_winsize(rows: u16, cols: u16) -> (request: WinSize)
    ensures
        request == (WinSize { rows, cols, x_pixels: 0, y_pixels: 0 }),
{
    WinSize { rows, cols, x_pixels: 0, y_pixels: 0 }
}

/// The rows and columns that a terminal has told, where the request for them gave
/// back zero.
pub fn get_winsize(status: i32, reply: WinSize) -> (size: Option<(u16, u16)>)
    ensures
        size == (if status == 0 {
            Some((reply.rows, reply.cols))
        } else {
            None
        }),
{
    if status == 0 {
        Some((reply.rows, reply.cols))
    } else {
        None
    }
}

/// A terminal that reports what it was told has the rows and columns that it was
/// told; one that cannot be asked has none. Nothing is said of pixels.
pub proof fn law_size_is_told_and_read(
    rows: u16,
    cols: u16,
    request: WinSize,
    status: i32,
    reply: WinSize,
    size: Option<(u16, u16)>,
)
    requires
        call_ensures(set_winsize, (rows, cols), request),
        call_ensures(get_winsize, (status, reply), size),
    ensures
        request.x_pixels == 0,
        request.y_pixels == 0,
        status == 0 && reply == request ==> size == Some((rows, cols)),
        status == 0 ==> size == Some((reply.rows, reply.cols)),
        status != 0 ==> size is None,
{
}

} // verus!
