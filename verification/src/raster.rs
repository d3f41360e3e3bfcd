//! The raster: a flat row-major byte buffer, four bytes to a pixel, read and
//! painted through pixel coordinates.

use vstd::prelude::*;
use crate::geometry::{Point, Pos, HEIGHT, WIDTH};
use crate::palette::Color;

verus! {

/// Bytes in a raster: width times height times four channels.
pub const RASTER_LEN: usize = 262144;

/// A buffer of exactly the raster's size.
pub open spec fn is_raster(buf: Seq<u8>) -> bool {
    buf.len() == RASTER_LEN
}

impl Point {
    /// Inside the raster.
    pub open spec fn on_raster(self) -> bool {
        0 <= self.x < WIDTH && 0 <= self.y < HEIGHT
    }

    /// Where the pixel's first byte lies in the buffer.
    pub open spec fn byte_index(self) -> int {
        (self.x + self.y * WIDTH) * 4
    }
}

/// An axis-aligned block of pixels: `w` columns from `x`, `h` rows from `y`.
pub struct Rect {
    pub x: int,
    pub y: int,
    pub w: int,
    pub h: int,
}

impl Rect {
    /// Whether pixel `p` lies in the block.
    pub open spec fn contains(self, p: Point) -> bool {
        self.x <= p.x < self.x + self.w && self.y <= p.y < self.y + self.h
    }

    /// Lies wholly inside the raster.
    pub open spec fn on_raster(self) -> bool {
        &&& 0 <= self.x
        &&& 0 <= self.y
        &&& 0 <= self.w
        &&& 0 <= self.h
        &&& self.x + self.w <= WIDTH
        &&& self.y + self.h <= HEIGHT
    }
}

/// The pixel that byte `i` of the buffer belongs to.
pub open spec fn pixel_of_byte(i: int) -> Point {
    Point { x: (i / 4) % (WIDTH as int), y: (i / 4) / (WIDTH as int) }
}

/// The colour of pixel `p`.
pub open spec fn pixel(buf: Seq<u8>, p: Point) -> Color {
    let i = p.byte_index();
    Color { r: buf[i], g: buf[i + 1], b: buf[i + 2] }
}

/// The byte that `color` puts in channel `ch` of a pixel; the fourth channel
/// is not a colour channel.
pub open spec fn channel(color: Color, ch: int) -> u8 {
    if ch == 0 {
        color.r
    } else if ch == 1 {
        color.g
    } else {
        color.b
    }
}

/// The buffer with pixel `p` set to `color`; the pixel's fourth byte stays.
pub open spec fn with_pixel(buf: Seq<u8>, p: Point, color: Color) -> Seq<u8> {
    let i = p.byte_index();
    buf.update(i, color.r).update(i + 1, color.g).update(i + 2, color.b)
}

/// The buffer with every pixel of `rect` set to `color`: the three colour
/// bytes of those pixels change, every other byte stays.
#[verifier::opaque]
pub open spec fn painted(buf: Seq<u8>, rect: Rect, color: Color) -> Seq<u8> {
    Seq::new(
        buf.len(),
        |i: int|
            if rect.contains(pixel_of_byte(i)) && i % 4 < 3 {
                channel(color, i % 4)
            } else {
                buf[i]
            },
    )
}

/// Sets pixel `pos` to `color`.
pub fn set_pixel(frame_buffer: &mut [u8], pos: Pos, color: Color)
    requires
        is_raster(old(frame_buffer)@),
        pos@.on_raster(),
    ensures
        final(frame_buffer)@ == with_pixel(old(frame_buffer)@, pos@, color),
{
    let idx = (pos.x + pos.y * WIDTH) as usize * 4;
    frame_buffer[idx + 0] = color.r;
    frame_buffer[idx + 1] = color.g;
    frame_buffer[idx + 2] = color.b;
}

/// Reads the colour of pixel `pos`.
pub fn get_pixel(frame_buffer: &[u8], pos: Pos) -> (color: Color)
    requires
        is_raster(frame_buffer@),
        pos@.on_raster(),
    ensures
        color == pixel(frame_buffer@, pos@),
{
    let idx = (pos.x + pos.y * WIDTH) as usize * 4;
    Color { r: frame_buffer[idx + 0], g: frame_buffer[idx + 1], b: frame_buffer[idx + 2] }
}

/// Painting a block sets exactly the pixels inside it.
pub proof fn pixel_of_painted(buf: Seq<u8>, rect: Rect, color: Color, p: Point)
    requires
        is_raster(buf),
        p.on_raster(),
    ensures
        pixel(painted(buf, rect, color), p) == if rect.contains(p) {
            color
        } else {
            pixel(buf, p)
        },
{
    reveal(painted);
    let i = p.byte_index();
    assert(pixel_of_byte(i) == p);
    assert(pixel_of_byte(i + 1) == p);
    assert(pixel_of_byte(i + 2) == p);
}

/// Painting never touches a pixel's fourth byte, nor the buffer's length.
pub proof fn painted_keeps_fourth_bytes(buf: Seq<u8>, rect: Rect, color: Color, p: Point)
    requires
        is_raster(buf),
        p.on_raster(),
    ensures
        is_raster(painted(buf, rect, color)),
        painted(buf, rect, color)[p.byte_index() + 3] == buf[p.byte_index() + 3],
{
    reveal(painted);
}

/// Painting a block a second time in the same colour changes nothing.
pub proof fn painting_is_idempotent(buf: Seq<u8>, rect: Rect, color: Color)
    ensures
        painted(painted(buf, rect, color), rect, color) == painted(buf, rect, color),
{
    reveal(painted);
    assert(painted(painted(buf, rect, color), rect, color) =~= painted(buf, rect, color));
}

/// Fills the block of `w` by `h` pixels whose top-left pixel is `corner`.
pub fn paint_rect(frame_buffer: &mut [u8], corner: Pos, w: isize, h: isize, color: Color)
    requires
        is_raster(old(frame_buffer)@),
        (Rect { x: corner.x as int, y: corner.y as int, w: w as int, h: h as int }).on_raster(),
    ensures
        final(frame_buffer)@ == painted(
            old(frame_buffer)@,
            Rect { x: corner.x as int, y: corner.y as int, w: w as int, h: h as int },
            color,
        ),
        is_raster(final(frame_buffer)@),
{
    let ghost start = frame_buffer@;
    let ghost cx = corner.x as int;
    let ghost cy = corner.y as int;
    proof {
        reveal(painted);
        assert(frame_buffer@ =~= painted(start, Rect { x: cx, y: cy, w: 0, h: h as int }, color));
    }
    let mut dx: isize = 0;
    while dx < w
        invariant
            is_raster(start),
            (Rect { x: cx, y: cy, w: w as int, h: h as int }).on_raster(),
            cx == corner.x,
            cy == corner.y,
            0 <= dx <= w,
            is_raster(frame_buffer@),
            frame_buffer@ == painted(start, Rect { x: cx, y: cy, w: dx as int, h: h as int }, color),
        decreases w - dx,
    {
        let ghost done = frame_buffer@;
        proof {
            reveal(painted);
            assert(frame_buffer@ =~= painted(
                done,
                Rect { x: cx + dx, y: cy, w: 1, h: 0 },
                color,
            ));
        }
        let mut dy: isize = 0;
        while dy < h
            invariant
                is_raster(start),
                (Rect { x: cx, y: cy, w: w as int, h: h as int }).on_raster(),
                cx == corner.x,
                cy == corner.y,
                0 <= dx < w,
                0 <= dy <= h,
                is_raster(frame_buffer@),
                done == painted(start, Rect { x: cx, y: cy, w: dx as int, h: h as int }, color),
                frame_buffer@ == painted(
                    done,
                    Rect { x: cx + dx, y: cy, w: 1, h: dy as int },
                    color,
                ),
            decreases h - dy,
        {
            let pos = corner + Pos::new(dx, dy);
            set_pixel(frame_buffer, pos, color);
            proof {
                reveal(painted);
                let i = pos@.byte_index();
                assert(pixel_of_byte(i) == pos@);
                assert(pixel_of_byte(i + 1) == pos@);
                assert(pixel_of_byte(i + 2) == pos@);
                assert forall|k: int| 0 <= k < RASTER_LEN && pixel_of_byte(k) == pos@ && k % 4
                    < 3 implies k == i || k == i + 1 || k == i + 2 by {}
                assert(frame_buffer@ =~= painted(
                    done,
                    Rect { x: cx + dx, y: cy, w: 1, h: dy + 1 },
                    color,
                ));
            }
            dy += 1;
        }
        proof {
            reveal(painted);
            assert(frame_buffer@ =~= painted(
                start,
                Rect { x: cx, y: cy, w: dx + 1, h: h as int },
                color,
            ));
        }
        dx += 1;
    }
}

} // verus!
