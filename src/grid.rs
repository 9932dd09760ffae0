//! The 10×10 grid: coordinates and row-major cell indices.
use vstd::prelude::*;

verus! {

/// Row-major index of the zero-based cell `(x, y)`.
pub open spec fn index_of(x: int, y: int) -> int {
    x + y * 10
}

/// Whether `c` is a one-based wire coordinate.
pub open spec fn is_wire_coord(c: int) -> bool {
    1 <= c <= 10
}

/// Row-major index of the cell at one-based wire coordinates `(x, y)`.
pub open spec fn wire_index(x: int, y: int) -> int {
    index_of(x - 1, y - 1)
}

/// The `i`-th cell of a run that starts at `(x, y)` and goes down or right.
pub open spec fn line_cell(x: int, y: int, i: int, down: bool) -> int {
    if down {
        index_of(x, y + i)
    } else {
        index_of(x + i, y)
    }
}

/// Whether a run of `len` cells from `(x, y)` stays on the grid.
pub open spec fn fits(x: int, y: int, len: int, down: bool) -> bool {
    &&& 0 <= x < 10
    &&& 0 <= y < 10
    &&& 0 <= len
    &&& if down {
        y + len <= 10
    } else {
        x + len <= 10
    }
}

/// Row-major index of a one-based wire coordinate.
pub fn cell_index(x: u8, y: u8) -> (r: usize)
    requires
        is_wire_coord(x as int),
        is_wire_coord(y as int),
    ensures
        r == wire_index(x as int, y as int),
        r < 100,
{
    (x as usize - 1) + (y as usize - 1) * 10
}

} // verus!
