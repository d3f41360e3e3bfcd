//! What holds of the maze from frame to frame.

use vstd::prelude::*;
use crate::decode::{cell_type_of, first_head_is_first, head_of};
use crate::geometry::{midpoint_is_symmetric, Point, GRID};
use crate::palette::{
    connected, decoded, head_color, tail_color, visited_color, CellType, Color,
};
use crate::raster::{
    is_raster, painted, painted_keeps_fourth_bytes, pixel_of_byte, pixel_of_painted, Rect,
};
use crate::render::{
    blank_raster, initial_raster, wall_open, with_connection, with_full_square,
    with_middle_square,
};
use crate::stepper::{
    advance_target, backtrack_target, carved, first_tail_is_neighbor,
    first_unvisited_is_neighbor, frame_result, retired, starts_over, step_result, Direction,
};

verus! {

/// Painting a block changes the state of exactly the cells whose sample
/// pixel lies in it.
pub proof fn painted_cell_type(buf: Seq<u8>, rect: Rect, color: Color, cell: Point)
    requires
        is_raster(buf),
    ensures
        is_raster(painted(buf, rect, color)),
        painted(buf, rect, color)[3] == buf[3],
        cell_type_of(painted(buf, rect, color), cell) == if cell.in_grid() && rect.contains(
            cell.sample_pixel(),
        ) {
            decoded(color)
        } else {
            cell_type_of(buf, cell)
        },
{
    painted_keeps_fourth_bytes(buf, rect, color, Point { x: 0, y: 0 });
    if cell.in_grid() {
        pixel_of_painted(buf, rect, color, cell.sample_pixel());
    }
}

/// Filling a cell's block gives that cell the state of the fill colour and
/// leaves every other cell's state alone.
pub proof fn full_square_cell_type(buf: Seq<u8>, at: Point, color: Color, cell: Point)
    requires
        is_raster(buf),
        at.in_grid(),
    ensures
        is_raster(with_full_square(buf, at, color)),
        with_full_square(buf, at, color)[3] == buf[3],
        cell_type_of(with_full_square(buf, at, color), cell) == if cell == at {
            decoded(color)
        } else {
            cell_type_of(buf, cell)
        },
{
    painted_cell_type(buf, at.fill_block(), color, cell);
}

/// Painting a cell's marker gives that cell the state of the marker colour
/// and leaves every other cell's state alone.
pub proof fn middle_square_cell_type(buf: Seq<u8>, at: Point, color: Color, cell: Point)
    requires
        is_raster(buf),
        at.in_grid(),
    ensures
        is_raster(with_middle_square(buf, at, color)),
        with_middle_square(buf, at, color)[3] == buf[3],
        cell_type_of(with_middle_square(buf, at, color), cell) == if cell == at {
            decoded(color)
        } else {
            cell_type_of(buf, cell)
        },
{
    painted_cell_type(buf, at.marker_block(), color, cell);
}

/// Opening a wall changes no cell's state.
pub proof fn connection_cell_type(buf: Seq<u8>, from: Point, to: Point, cell: Point)
    requires
        is_raster(buf),
        from.in_grid(),
        to.in_grid(),
        from.adjacent(to),
    ensures
        is_raster(with_connection(buf, from, to)),
        with_connection(buf, from, to)[3] == buf[3],
        cell_type_of(with_connection(buf, from, to), cell) == cell_type_of(buf, cell),
{
    assert(GRID / 2 - 1 == 6 && GRID - 2 == 13);
    painted_cell_type(buf, from.wall_strip(to), connected(), cell);
}

/// After carving from `head` into `target`, `target` is the head, `head` is
/// a tail, and every other cell is what it was.
pub proof fn carved_cell_type(buf: Seq<u8>, head: Point, target: Point, cell: Point)
    requires
        is_raster(buf),
        head.in_grid(),
        target.in_grid(),
        head.adjacent(target),
    ensures
        is_raster(carved(buf, head, target)),
        carved(buf, head, target)[3] == buf[3],
        cell_type_of(carved(buf, head, target), cell) == if cell == target {
            CellType::Head
        } else if cell == head {
            CellType::Tail
        } else {
            cell_type_of(buf, cell)
        },
{
    let a = with_full_square(buf, head, visited_color());
    let b = with_middle_square(a, head, tail_color());
    let c = with_middle_square(b, target, head_color());
    full_square_cell_type(buf, head, visited_color(), cell);
    middle_square_cell_type(a, head, tail_color(), cell);
    middle_square_cell_type(b, target, head_color(), cell);
    connection_cell_type(c, head, target, cell);
}

/// How one step changes the state of a cell, when the raster has a head:
/// the cell the carver moves to becomes the head; the old head becomes a
/// tail when the carver advanced and visited when it did not; every other
/// cell is what it was.
pub proof fn step_cell_type(buf: Seq<u8>, order: Seq<Direction>, cell: Point)
    requires
        is_raster(buf),
        head_of(buf) is Some,
    ensures
        is_raster(step_result(buf, order)),
        step_result(buf, order)[3] == buf[3],
        cell_type_of(step_result(buf, order), cell) == (match advance_target(
            buf,
            head_of(buf).unwrap(),
            order,
        ) {
            Some(target) => if cell == target {
                CellType::Head
            } else if cell == head_of(buf).unwrap() {
                CellType::Tail
            } else {
                cell_type_of(buf, cell)
            },
            None => match backtrack_target(
                retired(buf, head_of(buf).unwrap()),
                head_of(buf).unwrap(),
                order,
            ) {
                Some(target) => if cell == target {
                    CellType::Head
                } else if cell == head_of(buf).unwrap() {
                    CellType::Visited
                } else {
                    cell_type_of(buf, cell)
                },
                None => if cell == head_of(buf).unwrap() {
                    CellType::Visited
                } else {
                    cell_type_of(buf, cell)
                },
            },
        }),
{
    let head = head_of(buf).unwrap();
    first_head_is_first(buf, 0);
    first_unvisited_is_neighbor(buf, head, order, 0);
    match advance_target(buf, head, order) {
        Some(target) => {
            carved_cell_type(buf, head, target, cell);
        },
        None => {
            let left = retired(buf, head);
            full_square_cell_type(buf, head, visited_color(), cell);
            first_tail_is_neighbor(left, head, order, 0);
            match backtrack_target(left, head, order) {
                Some(target) => {
                    middle_square_cell_type(left, target, head_color(), cell);
                },
                None => {},
            }
        },
    }
}

/// The cell that one step moves the head to, if it moves it anywhere.
pub open spec fn next_head(buf: Seq<u8>, order: Seq<Direction>) -> Option<Point> {
    match head_of(buf) {
        None => None,
        Some(head) => match advance_target(buf, head, order) {
            Some(target) => Some(target),
            None => backtrack_target(retired(buf, head), head, order),
        },
    }
}

/// No two cells are the head.
pub open spec fn at_most_one_head(buf: Seq<u8>) -> bool {
    forall|a: Point, b: Point|
        cell_type_of(buf, a) == CellType::Head && cell_type_of(buf, b) == CellType::Head ==> a
            == b
}

/// `head` is the head and no other cell is.
pub open spec fn only_head(buf: Seq<u8>, head: Point) -> bool {
    forall|c: Point| cell_type_of(buf, c) == CellType::Head <==> c == head
}

/// No cell is the head.
pub open spec fn no_head(buf: Seq<u8>) -> bool {
    forall|c: Point| cell_type_of(buf, c) != CellType::Head
}

/// In a blank raster every cell of the grid is unvisited.
pub proof fn blank_cell_type(cell: Point)
    ensures
        is_raster(blank_raster()),
        blank_raster()[3] == 255,
        cell_type_of(blank_raster(), cell) == if cell.in_grid() {
            CellType::Unvisited
        } else {
            CellType::OutOfBounds
        },
{
    reveal(blank_raster);
    if cell.in_grid() {
        let p = cell.sample_pixel();
        let i = p.byte_index();
        assert(pixel_of_byte(i) == p);
        assert(pixel_of_byte(i + 1) == p);
        assert(pixel_of_byte(i + 2) == p);
        assert(!p.on_grid_line());
    }
}

/// A freshly laid-out maze has its head on the centre cell and every other
/// cell of the grid unvisited.
pub proof fn initial_cell_type(cell: Point)
    ensures
        is_raster(initial_raster()),
        initial_raster()[3] == 255,
        cell_type_of(initial_raster(), cell) == if cell == Point::center() {
            CellType::Head
        } else if cell.in_grid() {
            CellType::Unvisited
        } else {
            CellType::OutOfBounds
        },
{
    blank_cell_type(cell);
    middle_square_cell_type(blank_raster(), Point::center(), head_color(), cell);
}

/// After a frame that lays out a new maze, and after a frame that moves the
/// head of a raster with no second head, exactly one cell is the head. After
/// a frame that finds a single head and nowhere to move it, no cell is.
pub proof fn single_head(buf: Seq<u8>, key_down: bool, order: Seq<Direction>)
    requires
        is_raster(buf),
        at_most_one_head(buf),
    ensures
        at_most_one_head(frame_result(buf, key_down, order)),
        starts_over(buf, key_down) ==> only_head(
            frame_result(buf, key_down, order),
            Point::center(),
        ),
        !starts_over(buf, key_down) && next_head(buf, order) is Some ==> only_head(
            frame_result(buf, key_down, order),
            next_head(buf, order).unwrap(),
        ),
        !starts_over(buf, key_down) && next_head(buf, order) is None ==> no_head(
            frame_result(buf, key_down, order),
        ),
{
    let after = frame_result(buf, key_down, order);
    if starts_over(buf, key_down) {
        assert forall|c: Point| cell_type_of(after, c) == CellType::Head <==> c
            == Point::center() by {
            initial_cell_type(c);
        }
    } else {
        first_head_is_first(buf, 0);
        match head_of(buf) {
            None => {},
            Some(head) => {
                assert forall|c: Point| cell_type_of(after, c) == CellType::Head <==> Some(c)
                    == next_head(buf, order) by {
                    step_cell_type(buf, order, c);
                    first_unvisited_is_neighbor(buf, head, order, 0);
                    first_tail_is_neighbor(retired(buf, head), head, order, 0);
                    full_square_cell_type(buf, head, visited_color(), c);
                }
            },
        }
    }
}

/// A visited cell stays visited through every frame that does not lay out a
/// new maze.
pub proof fn visited_stays_visited(
    buf: Seq<u8>,
    key_down: bool,
    order: Seq<Direction>,
    cell: Point,
)
    requires
        is_raster(buf),
        !starts_over(buf, key_down),
        cell_type_of(buf, cell) == CellType::Visited,
    ensures
        cell_type_of(frame_result(buf, key_down, order), cell) == CellType::Visited,
{
    first_head_is_first(buf, 0);
    match head_of(buf) {
        None => {},
        Some(head) => {
            step_cell_type(buf, order, cell);
            first_unvisited_is_neighbor(buf, head, order, 0);
            first_tail_is_neighbor(retired(buf, head), head, order, 0);
            full_square_cell_type(buf, head, visited_color(), cell);
        },
    }
}

/// A frame that starts over, and a frame on a raster without a head, give
/// the same raster whatever the order of directions.
pub proof fn order_matters_only_with_a_head(
    buf: Seq<u8>,
    key_down: bool,
    first: Seq<Direction>,
    second: Seq<Direction>,
)
    requires
        starts_over(buf, key_down) || head_of(buf) is None,
    ensures
        frame_result(buf, key_down, first) == frame_result(buf, key_down, second),
        !starts_over(buf, key_down) ==> frame_result(buf, key_down, first) == buf,
{
}

/// A wall is open from one side exactly when it is open from the other.
pub proof fn wall_open_is_symmetric(buf: Seq<u8>, a: Point, b: Point)
    ensures
        wall_open(buf, a, b) == wall_open(buf, b, a),
{
    midpoint_is_symmetric(a, b);
}

/// Painting inside a cell, its block or its marker, leaves every wall as
/// it was.
pub proof fn cell_paint_keeps_walls(buf: Seq<u8>, at: Point, color: Color, a: Point, b: Point)
    requires
        is_raster(buf),
        at.in_grid(),
        a.in_grid(),
        b.in_grid(),
        a.adjacent(b),
    ensures
        wall_open(with_full_square(buf, at, color), a, b) == wall_open(buf, a, b),
        wall_open(with_middle_square(buf, at, color), a, b) == wall_open(buf, a, b),
{
    pixel_of_painted(buf, at.fill_block(), color, a.midpoint(b));
    pixel_of_painted(buf, at.marker_block(), color, a.midpoint(b));
}

/// Opening the wall between two cells opens that wall and no other.
pub proof fn connection_opens_one_wall(buf: Seq<u8>, from: Point, to: Point, a: Point, b: Point)
    requires
        is_raster(buf),
        from.in_grid(),
        to.in_grid(),
        from.adjacent(to),
        a.in_grid(),
        b.in_grid(),
        a.adjacent(b),
    ensures
        wall_open(with_connection(buf, from, to), a, b) == (wall_open(buf, a, b) || (a == from
            && b == to) || (a == to && b == from)),
{
    assert(GRID / 2 - 1 == 6 && GRID - 2 == 13);
    pixel_of_painted(buf, from.wall_strip(to), connected(), a.midpoint(b));
}

/// One step opens the wall it carves through and no other; a step that
/// goes back, or has no head to move, opens none. No step closes a wall.
pub proof fn step_opens_one_wall(buf: Seq<u8>, order: Seq<Direction>, a: Point, b: Point)
    requires
        is_raster(buf),
        a.in_grid(),
        b.in_grid(),
        a.adjacent(b),
    ensures
        wall_open(step_result(buf, order), a, b) == (wall_open(buf, a, b) || match head_of(buf) {
            Some(head) => match advance_target(buf, head, order) {
                Some(target) => (a == head && b == target) || (a == target && b == head),
                None => false,
            },
            None => false,
        }),
{
    first_head_is_first(buf, 0);
    match head_of(buf) {
        None => {},
        Some(head) => {
            first_unvisited_is_neighbor(buf, head, order, 0);
            let left = retired(buf, head);
            full_square_cell_type(buf, head, visited_color(), a);
            cell_paint_keeps_walls(buf, head, visited_color(), a, b);
            match advance_target(buf, head, order) {
                Some(target) => {
                    let marked = with_middle_square(left, head, tail_color());
                    let moved = with_middle_square(marked, target, head_color());
                    middle_square_cell_type(left, head, tail_color(), a);
                    middle_square_cell_type(marked, target, head_color(), a);
                    cell_paint_keeps_walls(left, head, tail_color(), a, b);
                    cell_paint_keeps_walls(marked, target, head_color(), a, b);
                    connection_opens_one_wall(moved, head, target, a, b);
                },
                None => {
                    first_tail_is_neighbor(left, head, order, 0);
                    match backtrack_target(left, head, order) {
                        Some(target) => {
                            cell_paint_keeps_walls(left, target, head_color(), a, b);
                        },
                        None => {},
                    }
                },
            }
        },
    }
}

/// Laying out a new maze gives the same raster whatever was there before,
/// so doing it twice in a row changes nothing the second time.
pub proof fn starting_over_is_idempotent(
    buf: Seq<u8>,
    first: Seq<Direction>,
    second: Seq<Direction>,
)
    ensures
        frame_result(buf, true, first) == initial_raster(),
        frame_result(frame_result(buf, true, first), true, second) == frame_result(
            buf,
            true,
            first,
        ),
{
}

/// `after` differs from `buf` as a raster does after carving from `head`
/// into `target`: `target` is the head, `head` a tail, the wall between
/// them open, and all else as it was.
pub open spec fn carved_from(buf: Seq<u8>, after: Seq<u8>, head: Point, target: Point) -> bool {
    &&& forall|c: Point|
        #[trigger] cell_type_of(after, c) == if c == target {
            CellType::Head
        } else if c == head {
            CellType::Tail
        } else {
            cell_type_of(buf, c)
        }
    &&& forall|a: Point, b: Point|
        a.in_grid() && b.in_grid() && a.adjacent(b) ==> #[trigger] wall_open(after, a, b) == (
        wall_open(buf, a, b) || (a == head && b == target) || (a == target && b == head))
}

/// `after` differs from `buf` as a raster does after going back from
/// `head` to `back`: `back` is the head, `head` is visited, and all else,
/// every wall too, is as it was.
pub open spec fn gone_back_from(buf: Seq<u8>, after: Seq<u8>, head: Point, back: Point) -> bool {
    &&& forall|c: Point|
        #[trigger] cell_type_of(after, c) == if c == back {
            CellType::Head
        } else if c == head {
            CellType::Visited
        } else {
            cell_type_of(buf, c)
        }
    &&& forall|a: Point, b: Point|
        a.in_grid() && b.in_grid() && a.adjacent(b) ==> #[trigger] wall_open(after, a, b)
            == wall_open(buf, a, b)
}

/// `after` has the same walls open and the same cells unvisited as `buf`.
pub open spec fn same_walls_and_reach(buf: Seq<u8>, after: Seq<u8>) -> bool {
    &&& forall|c: Point|
        (#[trigger] cell_type_of(after, c) == CellType::Unvisited) == (cell_type_of(buf, c)
            == CellType::Unvisited)
    &&& forall|a: Point, b: Point|
        a.in_grid() && b.in_grid() && a.adjacent(b) ==> #[trigger] wall_open(after, a, b)
            == wall_open(buf, a, b)
}

/// What a step that carves does to the raster.
pub proof fn carving_step_carves(buf: Seq<u8>, order: Seq<Direction>)
    requires
        is_raster(buf),
        head_of(buf) is Some,
        advance_target(buf, head_of(buf).unwrap(), order) is Some,
    ensures
        carved_from(
            buf,
            step_result(buf, order),
            head_of(buf).unwrap(),
            advance_target(buf, head_of(buf).unwrap(), order).unwrap(),
        ),
        head_of(buf).unwrap().in_grid(),
        cell_type_of(buf, head_of(buf).unwrap()) == CellType::Head,
        advance_target(buf, head_of(buf).unwrap(), order).unwrap().in_grid(),
        head_of(buf).unwrap().adjacent(advance_target(buf, head_of(buf).unwrap(), order).unwrap()),
        cell_type_of(buf, advance_target(buf, head_of(buf).unwrap(), order).unwrap())
            == CellType::Unvisited,
{
    let after = step_result(buf, order);
    let head = head_of(buf).unwrap();
    let target = advance_target(buf, head, order).unwrap();
    first_head_is_first(buf, 0);
    first_unvisited_is_neighbor(buf, head, order, 0);
    assert forall|c: Point|
        #[trigger] cell_type_of(after, c) == if c == target {
            CellType::Head
        } else if c == head {
            CellType::Tail
        } else {
            cell_type_of(buf, c)
        } by {
        step_cell_type(buf, order, c);
    }
    assert forall|a: Point, b: Point|
        a.in_grid() && b.in_grid() && a.adjacent(b) implies #[trigger] wall_open(after, a, b) == (
        wall_open(buf, a, b) || (a == head && b == target) || (a == target && b == head)) by {
        step_opens_one_wall(buf, order, a, b);
    }
}

/// A step that does not carve opens no wall and reaches no cell.
pub proof fn other_step_keeps_walls_and_reach(buf: Seq<u8>, order: Seq<Direction>)
    requires
        is_raster(buf),
        head_of(buf) is Some ==> advance_target(buf, head_of(buf).unwrap(), order) is None,
    ensures
        same_walls_and_reach(buf, step_result(buf, order)),
{
    let after = step_result(buf, order);
    first_head_is_first(buf, 0);
    if let Some(head) = head_of(buf) {
        first_tail_is_neighbor(retired(buf, head), head, order, 0);
        assert forall|c: Point|
            (#[trigger] cell_type_of(after, c) == CellType::Unvisited) == (cell_type_of(buf, c)
                == CellType::Unvisited) by {
            step_cell_type(buf, order, c);
            full_square_cell_type(buf, head, visited_color(), c);
        }
        assert forall|a: Point, b: Point|
            a.in_grid() && b.in_grid() && a.adjacent(b) implies #[trigger] wall_open(after, a, b)
            == wall_open(buf, a, b) by {
            step_opens_one_wall(buf, order, a, b);
        }
    }
}

/// What a step that goes back does to the raster.
pub proof fn going_back_step_goes_back(buf: Seq<u8>, order: Seq<Direction>)
    requires
        is_raster(buf),
        head_of(buf) is Some,
        advance_target(buf, head_of(buf).unwrap(), order) is None,
        backtrack_target(retired(buf, head_of(buf).unwrap()), head_of(buf).unwrap(), order)
            is Some,
    ensures
        gone_back_from(
            buf,
            step_result(buf, order),
            head_of(buf).unwrap(),
            backtrack_target(
                retired(buf, head_of(buf).unwrap()),
                head_of(buf).unwrap(),
                order,
            ).unwrap(),
        ),
{
    let after = step_result(buf, order);
    let head = head_of(buf).unwrap();
    let back = backtrack_target(retired(buf, head), head, order).unwrap();
    assert forall|c: Point|
        #[trigger] cell_type_of(after, c) == if c == back {
            CellType::Head
        } else if c == head {
            CellType::Visited
        } else {
            cell_type_of(buf, c)
        } by {
        step_cell_type(buf, order, c);
    }
    assert forall|a: Point, b: Point|
        a.in_grid() && b.in_grid() && a.adjacent(b) implies #[trigger] wall_open(after, a, b)
        == wall_open(buf, a, b) by {
        step_opens_one_wall(buf, order, a, b);
    }
}

} // verus!
