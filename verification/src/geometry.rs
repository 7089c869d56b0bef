//! Rectangles of terminal cells.
use vstd::prelude::*;

verus! {

/// A rectangle of terminal cells: left column, top row, width and height.
#[derive(Clone, Copy, Debug, PartialEq, Eq, Structural)]
pub struct Rect {
    pub x: u16,
    pub y: u16,
    pub width: u16,
    pub height: u16,
}

/// The cell at `col`, `row` lies inside `r`.
pub open spec fn contains(r: Rect, col: u16, row: u16) -> bool {
    &&& r.x <= col
    &&& col < r.x + r.width
    &&& r.y <= row
    &&& row < r.y + r.height
}

/// Whether the cell at `col`, `row` lies inside `r`.
pub fn in_rect(col: u16, row: u16, r: Rect) -> (b: bool)
    ensures
        b == contains(r, col, row),
{
    col >= r.x && (col as u32) < (r.x as u32) + (r.width as u32) && row >= r.y && (row as u32) < (
    r.y as u32) + (r.height as u32)
}

} // verus!
