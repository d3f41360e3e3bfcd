//! Reading the maze back out of the raster: the state of a cell, and where
//! the head is.

use vstd::prelude::*;
use crate::geometry::{head_pos, Point, Pos, CELL_DIM};
use crate::palette::{decode, decoded, CellType};
use crate::raster::{get_pixel, is_raster, pixel};

verus! {

/// Cells in the grid.
pub const CELL_COUNT: isize = 289;

/// The state of `cell`: `OutOfBounds` off the grid, else what the colour of
/// its sample pixel decodes to.
pub open spec fn cell_type_of(buf: Seq<u8>, cell: Point) -> CellType {
    if cell.in_grid() {
        decoded(pixel(buf, cell.sample_pixel()))
    } else {
        CellType::OutOfBounds
    }
}

/// The `k`-th cell in scan order: row by row, each row left to right.
pub open spec fn cell_number(k: int) -> Point {
    Point { x: k % (CELL_DIM as int), y: k / (CELL_DIM as int) }
}

/// The place of a cell in scan order.
pub open spec fn scan_index(cell: Point) -> int {
    cell.y * CELL_DIM + cell.x
}

/// The first head cell at or after place `k` of the scan, if there is one.
pub open spec fn first_head_from(buf: Seq<u8>, k: int) -> Option<Point>
    decreases CELL_COUNT - k,
{
    if k < 0 || k >= CELL_COUNT {
        None
    } else if cell_type_of(buf, cell_number(k)) == CellType::Head {
        Some(cell_number(k))
    } else {
        first_head_from(buf, k + 1)
    }
}

/// The head of the maze: the first head cell in scan order.
pub open spec fn head_of(buf: Seq<u8>) -> Option<Point> {
    first_head_from(buf, 0)
}

/// A `Pos`, if any, seen as a point.
pub open spec fn view_of(p: Option<Pos>) -> Option<Point> {
    match p {
        Some(q) => Some(q@),
        None => None,
    }
}

/// What the scan finds from place `k` on is a head cell of the grid with no
/// head cell between `k` and it; it finds nothing only where there is none.
pub proof fn first_head_is_first(buf: Seq<u8>, k: int)
    requires
        0 <= k <= CELL_COUNT,
    ensures
        match first_head_from(buf, k) {
            Some(h) => {
                &&& h.in_grid()
                &&& k <= scan_index(h)
                &&& cell_type_of(buf, h) == CellType::Head
                &&& forall|c: Point|
                    c.in_grid() && k <= scan_index(c) < scan_index(h) ==> cell_type_of(buf, c)
                        != CellType::Head
            },
            None => forall|c: Point|
                c.in_grid() && k <= scan_index(c) ==> cell_type_of(buf, c) != CellType::Head,
        },
    decreases CELL_COUNT - k,
{
    if k < CELL_COUNT {
        assert(scan_index(cell_number(k)) == k);
        assert forall|c: Point| c.in_grid() && scan_index(c) == k implies c == cell_number(k) by {}
        if cell_type_of(buf, cell_number(k)) != CellType::Head {
            first_head_is_first(buf, k + 1);
        }
    }
}

/// Classifies the cell at `coord`. Off the grid the answer is
/// `OutOfBounds` whatever the buffer is, of any length; only a cell of the
/// grid needs a buffer of the raster's size to be read from.
pub fn cell_type(frame_buffer: &[u8], coord: Pos) -> (t: CellType)
    requires
        coord@.in_grid() ==> is_raster(frame_buffer@),
    ensures
        !coord@.in_grid() ==> t == CellType::OutOfBounds,
        t == cell_type_of(frame_buffer@, coord@),
{
    if coord.x < 0 || coord.y < 0 || coord.x >= CELL_DIM || coord.y >= CELL_DIM {
        return CellType::OutOfBounds;
    }
    let head_pixel = get_pixel(frame_buffer, head_pos(coord));
    decode(head_pixel)
}

/// Scans the grid for the head.
pub fn find_head(frame_buffer: &[u8]) -> (head: Option<Pos>)
    requires
        is_raster(frame_buffer@),
    ensures
        view_of(head) == head_of(frame_buffer@),
        match head {
            Some(h) => {
                &&& h@.in_grid()
                &&& cell_type_of(frame_buffer@, h@) == CellType::Head
                &&& forall|c: Point|
                    c.in_grid() && scan_index(c) < scan_index(h@) ==> cell_type_of(
                        frame_buffer@,
                        c,
                    ) != CellType::Head
            },
            None => forall|c: Point|
                c.in_grid() ==> cell_type_of(frame_buffer@, c) != CellType::Head,
        },
{
    let mut y: isize = 0;
    while y < CELL_DIM
        invariant
            0 <= y <= CELL_DIM,
            is_raster(frame_buffer@),
            head_of(frame_buffer@) == first_head_from(frame_buffer@, y * CELL_DIM),
        decreases CELL_DIM - y,
    {
        let mut x: isize = 0;
        while x < CELL_DIM
            invariant
                0 <= y < CELL_DIM,
                0 <= x <= CELL_DIM,
                is_raster(frame_buffer@),
                head_of(frame_buffer@) == first_head_from(frame_buffer@, y * CELL_DIM + x),
            decreases CELL_DIM - x,
        {
            let coord = Pos::new(x, y);
            assert(cell_number(y * CELL_DIM + x) == coord@);
            if cell_type(frame_buffer, coord) == CellType::Head {
                proof {
                    first_head_is_first(frame_buffer@, 0);
                }
                return Some(coord);
            }
            x += 1;
        }
        y += 1;
    }
    proof {
        first_head_is_first(frame_buffer@, 0);
    }
    None
}

} // verus!
