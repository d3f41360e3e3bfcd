//! Painting cells, markers and walls, and the freshly laid-out raster.

use vstd::prelude::*;
use crate::geometry::{head_pos, mid, Point, Pos, CELL_DIM, DOT_SIZE, GRID, HEIGHT, WIDTH};
use crate::palette::{
    border_color, connected, head_color, tail_color, unvisited_color, Color,
};
use crate::raster::{
    channel, get_pixel, is_raster, paint_rect, painted, pixel, pixel_of_byte, Rect, RASTER_LEN,
};

verus! {

impl Point {
    /// The cell's block of pixels between its grid lines.
    pub open spec fn fill_block(self) -> Rect {
        Rect { x: self.fill_corner().x, y: self.fill_corner().y, w: GRID - 1, h: GRID - 1 }
    }

    /// The smaller centred block that carries the cell's marker; its top-left
    /// pixel is the sample pixel.
    pub open spec fn marker_block(self) -> Rect {
        Rect {
            x: self.sample_pixel().x,
            y: self.sample_pixel().y,
            w: DOT_SIZE as int,
            h: DOT_SIZE as int,
        }
    }

    /// The strip of grid-line pixels between two adjacent cells: one pixel
    /// thick, as long as a cell's block, with the wall's midpoint on it.
    pub open spec fn wall_strip(self, other: Point) -> Rect {
        let m = self.midpoint(other);
        let across = vstd::math::abs(self.x - other.x) as int;
        let along = vstd::math::abs(self.y - other.y) as int;
        Rect {
            x: m.x - (GRID / 2 - 1) * along,
            y: m.y - (GRID / 2 - 1) * across,
            w: 1 + (GRID - 2) * along,
            h: 1 + (GRID - 2) * across,
        }
    }

    /// On a grid line, where borders and walls are drawn.
    pub open spec fn on_grid_line(self) -> bool {
        self.x % (GRID as int) == 0 || self.y % (GRID as int) == 0
    }

    /// The cell where carving starts: the middle of the grid.
    pub open spec fn center() -> Point {
        Point { x: CELL_DIM / 2, y: CELL_DIM / 2 }
    }
}

/// The buffer with the block of `cell` filled with `color`.
pub open spec fn with_full_square(buf: Seq<u8>, cell: Point, color: Color) -> Seq<u8> {
    painted(buf, cell.fill_block(), color)
}

/// The buffer with the marker of `cell` painted in `color`.
pub open spec fn with_middle_square(buf: Seq<u8>, cell: Point, color: Color) -> Seq<u8> {
    painted(buf, cell.marker_block(), color)
}

/// The buffer with the wall between `from` and `to` opened.
pub open spec fn with_connection(buf: Seq<u8>, from: Point, to: Point) -> Seq<u8> {
    painted(buf, from.wall_strip(to), connected())
}

/// Whether the wall between two adjacent cells has been opened: its midpoint
/// no longer has the border colour.
pub open spec fn wall_open(buf: Seq<u8>, from: Point, to: Point) -> bool {
    pixel(buf, from.midpoint(to)) != border_color()
}

/// A raster with every wall closed and every cell unvisited: grid lines in
/// the border colour, all else in the unvisited colour, every pixel opaque.
#[verifier::opaque]
pub open spec fn blank_raster() -> Seq<u8> {
    Seq::new(
        RASTER_LEN as nat,
        |i: int|
            if i % 4 == 3 {
                255u8
            } else if pixel_of_byte(i).on_grid_line() {
                channel(border_color(), i % 4)
            } else {
                channel(unvisited_color(), i % 4)
            },
    )
}

/// The raster a maze starts from: blank, with the head on the centre cell.
pub open spec fn initial_raster() -> Seq<u8> {
    with_middle_square(blank_raster(), Point::center(), head_color())
}

/// Fills the block of cell `coord` with `color`, grid lines left alone.
pub fn full_square(frame_buffer: &mut [u8], coord: Pos, color: Color)
    requires
        is_raster(old(frame_buffer)@),
        coord@.in_grid(),
    ensures
        final(frame_buffer)@ == with_full_square(old(frame_buffer)@, coord@, color),
        is_raster(final(frame_buffer)@),
{
    let corner = coord * GRID + 1;
    paint_rect(frame_buffer, corner, GRID - 1, GRID - 1, color);
}

/// Paints the marker of cell `coord` in `color`.
pub fn middle_square(frame_buffer: &mut [u8], coord: Pos, color: Color)
    requires
        is_raster(old(frame_buffer)@),
        coord@.in_grid(),
    ensures
        final(frame_buffer)@ == with_middle_square(old(frame_buffer)@, coord@, color),
        is_raster(final(frame_buffer)@),
{
    let pos = head_pos(coord);
    paint_rect(frame_buffer, pos, DOT_SIZE, DOT_SIZE, color);
}

/// Marks cell `coord` as the head.
pub fn set_head(frame_buffer: &mut [u8], coord: Pos)
    requires
        is_raster(old(frame_buffer)@),
        coord@.in_grid(),
    ensures
        final(frame_buffer)@ == with_middle_square(old(frame_buffer)@, coord@, head_color()),
        is_raster(final(frame_buffer)@),
{
    middle_square(frame_buffer, coord, head_color());
}

/// Marks cell `coord` as a tail.
pub fn set_tail(frame_buffer: &mut [u8], coord: Pos)
    requires
        is_raster(old(frame_buffer)@),
        coord@.in_grid(),
    ensures
        final(frame_buffer)@ == with_middle_square(old(frame_buffer)@, coord@, tail_color()),
        is_raster(final(frame_buffer)@),
{
    middle_square(frame_buffer, coord, tail_color());
}

/// The size of `v` without its sign.
pub fn magnitude(v: isize) -> (m: isize)
    requires
        v > isize::MIN,
    ensures
        m == vstd::math::abs(v as int),
{
    if v < 0 {
        -v
    } else {
        v
    }
}

/// Opens the wall between two adjacent cells along its whole length.
pub fn connect(frame_buffer: &mut [u8], from: Pos, to: Pos)
    requires
        is_raster(old(frame_buffer)@),
        from@.in_grid(),
        to@.in_grid(),
        from@.adjacent(to@),
    ensures
        final(frame_buffer)@ == with_connection(old(frame_buffer)@, from@, to@),
        is_raster(final(frame_buffer)@),
{
    let dx = from.x - to.x;
    let dy = from.y - to.y;
    let wall_dir = Pos::new(magnitude(dy), magnitude(dx));
    let mid = mid(from, to);
    let first = mid + wall_dir * (1 - GRID / 2);
    let w = 1 + wall_dir.x * (GRID - 2);
    let h = 1 + wall_dir.y * (GRID - 2);
    paint_rect(frame_buffer, first, w, h, connected());
}

/// Whether the wall between two adjacent cells is open.
pub fn is_connected(frame_buffer: &[u8], from: Pos, to: Pos) -> (open: bool)
    requires
        is_raster(frame_buffer@),
        from@.in_grid(),
        to@.in_grid(),
        from@.adjacent(to@),
    ensures
        open == wall_open(frame_buffer@, from@, to@),
{
    let mid = mid(from, to);
    get_pixel(frame_buffer, mid) != border_color()
}

/// Lays out a fresh maze over whatever the buffer held.
pub fn init_buffer(frame_buffer: &mut [u8])
    requires
        is_raster(old(frame_buffer)@),
    ensures
        final(frame_buffer)@ == initial_raster(),
{
    let mut y: isize = 0;
    while y < HEIGHT
        invariant
            0 <= y <= HEIGHT,
            is_raster(frame_buffer@),
            forall|k: int| 0 <= k < y * WIDTH * 4 ==> frame_buffer@[k] == blank_raster()[k],
        decreases HEIGHT - y,
    {
        let mut x: isize = 0;
        while x < WIDTH
            invariant
                0 <= y < HEIGHT,
                0 <= x <= WIDTH,
                is_raster(frame_buffer@),
                forall|k: int|
                    0 <= k < (y * WIDTH + x) * 4 ==> frame_buffer@[k] == blank_raster()[k],
            decreases WIDTH - x,
        {
            let is_edge = x % GRID == 0 || y % GRID == 0;
            let color = if is_edge {
                border_color()
            } else {
                unvisited_color()
            };
            let idx = (x + y * WIDTH) as usize * 4;
            proof {
                reveal(blank_raster);
                let p = Point { x: x as int, y: y as int };
                assert(pixel_of_byte(idx as int) == p);
                assert(pixel_of_byte(idx + 1) == p);
                assert(pixel_of_byte(idx + 2) == p);
            }
            frame_buffer[idx + 0] = color.r;
            frame_buffer[idx + 1] = color.g;
            frame_buffer[idx + 2] = color.b;
            frame_buffer[idx + 3] = 255;
            x += 1;
        }
        y += 1;
    }
    proof {
        reveal(blank_raster);
        assert(frame_buffer@ =~= blank_raster());
    }
    let mid = CELL_DIM / 2;
    set_head(frame_buffer, Pos::new(mid, mid));
}

} // verus!
