//! Coordinates: grid cells, pixels, and the arithmetic between them.

use vstd::prelude::*;

verus! {

/// Raster width in pixels.
pub const WIDTH: isize = 256;

/// Raster height in pixels.
pub const HEIGHT: isize = 256;

/// Pixels from one grid line to the next.
pub const GRID: isize = 15;

/// Side of the square marker drawn inside a cell.
pub const DOT_SIZE: isize = 10;

/// Cells along each side of the grid.
pub const CELL_DIM: isize = 17;

/// A point with mathematical coordinates: the view of a `Pos`.
pub struct Point {
    pub x: int,
    pub y: int,
}

/// A pair of coordinates, used for cells, pixels and offsets alike.
#[derive(PartialEq, Eq, Structural, Copy, Clone, Debug)]
pub struct Pos {
    pub x: isize,
    pub y: isize,
}

impl View for Pos {
    type V = Point;

    open spec fn view(&self) -> Point {
        Point { x: self.x as int, y: self.y as int }
    }
}

impl Point {
    /// Inside the grid of cells.
    pub open spec fn in_grid(self) -> bool {
        0 <= self.x < CELL_DIM && 0 <= self.y < CELL_DIM
    }

    /// One step away along exactly one axis.
    pub open spec fn adjacent(self, other: Point) -> bool {
        vstd::math::abs(self.x - other.x) + vstd::math::abs(self.y - other.y) == 1
    }

    /// The pixel whose colour holds the cell's state: the top-left pixel of
    /// the cell's marker.
    pub open spec fn sample_pixel(self) -> Point {
        Point {
            x: self.x * GRID + (GRID - DOT_SIZE + 1) / 2,
            y: self.y * GRID + (GRID - DOT_SIZE + 1) / 2,
        }
    }

    /// The first pixel inside the cell's block, just past its grid lines.
    pub open spec fn fill_corner(self) -> Point {
        Point { x: self.x * GRID + 1, y: self.y * GRID + 1 }
    }

    /// The pixel in the middle of the wall between two adjacent cells.
    pub open spec fn midpoint(self, other: Point) -> Point {
        Point {
            x: ((self.x + other.x + 1) * GRID) / 2,
            y: ((self.y + other.y + 1) * GRID) / 2,
        }
    }
}

/// Whether `v` fits in an `isize`.
pub open spec fn fits(v: int) -> bool {
    isize::MIN <= v <= isize::MAX
}

impl core::ops::Add for Pos {
    type Output = Pos;

    fn add(self, other: Pos) -> (r: Pos) {
        Pos { x: self.x + other.x, y: self.y + other.y }
    }
}

impl vstd::std_specs::ops::AddSpecImpl for Pos {
    open spec fn obeys_add_spec() -> bool {
        true
    }

    open spec fn add_req(self, other: Pos) -> bool {
        fits(self.x + other.x) && fits(self.y + other.y)
    }

    open spec fn add_spec(self, other: Pos) -> Pos {
        Pos { x: (self.x + other.x) as isize, y: (self.y + other.y) as isize }
    }
}

impl core::ops::Add<isize> for Pos {
    type Output = Pos;

    fn add(self, other: isize) -> (r: Pos) {
        Pos { x: self.x + other, y: self.y + other }
    }
}

impl vstd::std_specs::ops::AddSpecImpl<isize> for Pos {
    open spec fn obeys_add_spec() -> bool {
        true
    }

    open spec fn add_req(self, other: isize) -> bool {
        fits(self.x + other) && fits(self.y + other)
    }

    open spec fn add_spec(self, other: isize) -> Pos {
        Pos { x: (self.x + other) as isize, y: (self.y + other) as isize }
    }
}

impl core::ops::Mul<isize> for Pos {
    type Output = Pos;

    fn mul(self, other: isize) -> (r: Pos) {
        Pos { x: self.x * other, y: self.y * other }
    }
}

impl vstd::std_specs::ops::MulSpecImpl<isize> for Pos {
    open spec fn obeys_mul_spec() -> bool {
        true
    }

    open spec fn mul_req(self, other: isize) -> bool {
        fits(self.x * other) && fits(self.y * other)
    }

    open spec fn mul_spec(self, other: isize) -> Pos {
        Pos { x: (self.x * other) as isize, y: (self.y * other) as isize }
    }
}

impl core::ops::Div<isize> for Pos {
    type Output = Pos;

    fn div(self, other: isize) -> (r: Pos) {
        Pos { x: self.x / other, y: self.y / other }
    }
}

impl vstd::std_specs::ops::DivSpecImpl<isize> for Pos {
    open spec fn obeys_div_spec() -> bool {
        true
    }

    open spec fn div_req(self, other: isize) -> bool {
        other > 0 && self.x >= 0 && self.y >= 0
    }

    open spec fn div_spec(self, other: isize) -> Pos {
        Pos { x: (self.x / other) as isize, y: (self.y / other) as isize }
    }
}

impl Pos {
    /// The pair of `x` and `y`.
    pub fn new(x: isize, y: isize) -> (p: Pos)
        ensures
            p == (Pos { x, y }),
    {
        Pos { x, y }
    }
}

/// The sample pixel of the cell at `coord`.
pub fn head_pos(coord: Pos) -> (p: Pos)
    requires
        fits(coord.x * GRID),
        fits(coord.y * GRID),
        fits(coord@.sample_pixel().x),
        fits(coord@.sample_pixel().y),
    ensures
        p@ == coord@.sample_pixel(),
{
    coord * GRID + (GRID - DOT_SIZE + 1) / 2
}

/// The pixel midway between two neighbouring cells of the grid, on the wall
/// that parts them.
pub fn mid(from: Pos, to: Pos) -> (p: Pos)
    requires
        from@.in_grid(),
        to@.in_grid(),
        from@.adjacent(to@),
    ensures
        p@ == from@.midpoint(to@),
{
    ((from + to + 1) * GRID) / 2
}

/// The midpoint of a wall does not depend on the side it is seen from.
pub proof fn midpoint_is_symmetric(a: Point, b: Point)
    ensures
        a.midpoint(b) == b.midpoint(a),
        a.adjacent(b) == b.adjacent(a),
{
}

} // verus!
