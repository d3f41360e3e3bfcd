//! The colours that encode the maze, and the cell states they decode to.

use vstd::prelude::*;

verus! {

/// An RGB colour as stored in three consecutive raster bytes.
#[derive(PartialEq, Eq, Structural, Copy, Clone, Debug)]
pub struct Color {
    pub r: u8,
    pub g: u8,
    pub b: u8,
}

/// What a grid coordinate decodes to.
#[derive(PartialEq, Eq, Structural, Copy, Clone, Debug)]
pub enum CellType {
    /// Off the grid, or a sample pixel holding no palette colour.
    OutOfBounds,
    /// The cell being carved from.
    Head,
    /// A cell on the path back to the start.
    Tail,
    /// A cell the carver has left for good.
    Visited,
    /// A cell not reached yet.
    Unvisited,
}

/// The colour of the head marker.
pub open spec fn spec_head_color() -> Color {
    Color { r: 143, g: 59, b: 27 }
}

/// The colour of the head marker.
#[verifier::when_used_as_spec(spec_head_color)]
pub fn head_color() -> (c: Color)
    ensures
        c == spec_head_color(),
{
    Color { r: 143, g: 59, b: 27 }
}

/// The colour of the tail marker.
pub open spec fn spec_tail_color() -> Color {
    Color { r: 185, g: 156, b: 107 }
}

/// The colour of the tail marker.
#[verifier::when_used_as_spec(spec_tail_color)]
pub fn tail_color() -> (c: Color)
    ensures
        c == spec_tail_color(),
{
    Color { r: 185, g: 156, b: 107 }
}

/// The colour of grid lines and closed walls.
pub open spec fn spec_border_color() -> Color {
    Color { r: 73, g: 56, b: 41 }
}

/// The colour of grid lines and closed walls.
#[verifier::when_used_as_spec(spec_border_color)]
pub fn border_color() -> (c: Color)
    ensures
        c == spec_border_color(),
{
    Color { r: 73, g: 56, b: 41 }
}

/// The fill of a cell the carver has been through.
pub open spec fn spec_visited_color() -> Color {
    Color { r: 189, g: 208, b: 156 }
}

/// The fill of a cell the carver has been through.
#[verifier::when_used_as_spec(spec_visited_color)]
pub fn visited_color() -> (c: Color)
    ensures
        c == spec_visited_color(),
{
    Color { r: 189, g: 208, b: 156 }
}

/// The fill of a cell not reached yet.
pub open spec fn spec_unvisited_color() -> Color {
    Color { r: 102, g: 141, b: 60 }
}

/// The fill of a cell not reached yet.
#[verifier::when_used_as_spec(spec_unvisited_color)]
pub fn unvisited_color() -> (c: Color)
    ensures
        c == spec_unvisited_color(),
{
    Color { r: 102, g: 141, b: 60 }
}

/// The colour of an opened wall: a colour of its own, so that neither a
/// closed wall nor any cell state is mistaken for it.
pub open spec fn spec_connected() -> Color {
    Color { r: 222, g: 184, b: 135 }
}

/// The colour of an opened wall: a colour of its own, so that neither a
/// closed wall nor any cell state is mistaken for it.
#[verifier::when_used_as_spec(spec_connected)]
pub fn connected() -> (c: Color)
    ensures
        c == spec_connected(),
{
    Color { r: 222, g: 184, b: 135 }
}

/// The state that a sample pixel of colour `c` stands for.
pub open spec fn decoded(c: Color) -> CellType {
    if c == head_color() {
        CellType::Head
    } else if c == tail_color() {
        CellType::Tail
    } else if c == visited_color() {
        CellType::Visited
    } else if c == unvisited_color() {
        CellType::Unvisited
    } else {
        CellType::OutOfBounds
    }
}

/// Decodes the colour of a sample pixel; a colour outside the palette reads
/// as `OutOfBounds`.
pub fn decode(c: Color) -> (t: CellType)
    ensures
        t == decoded(c),
{
    if c == head_color() {
        CellType::Head
    } else if c == tail_color() {
        CellType::Tail
    } else if c == visited_color() {
        CellType::Visited
    } else if c == unvisited_color() {
        CellType::Unvisited
    } else {
        CellType::OutOfBounds
    }
}

/// The six colours are pairwise distinct: each state colour decodes to its
/// own state, the border colour and the colour of an open wall decode to
/// none, and an open wall is mistaken neither for a closed one nor for a
/// cell state.
pub proof fn palette_is_distinct()
    ensures
        decoded(head_color()) == CellType::Head,
        decoded(tail_color()) == CellType::Tail,
        decoded(visited_color()) == CellType::Visited,
        decoded(unvisited_color()) == CellType::Unvisited,
        decoded(border_color()) == CellType::OutOfBounds,
        decoded(connected()) == CellType::OutOfBounds,
        connected() != head_color(),
        connected() != tail_color(),
        connected() != border_color(),
        connected() != visited_color(),
        connected() != unvisited_color(),
{
}

} // verus!
