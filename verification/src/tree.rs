//! Why the open walls of a maze form a tree over the cells reached: every
//! wall that opens takes one cell out of the unvisited ones.

use vstd::prelude::*;
use crate::decode::{cell_number, cell_type_of, first_head_is_first, head_of, scan_index, CELL_COUNT};
use crate::geometry::Point;
use crate::laws::{
    blank_cell_type, carved_from, carving_step_carves, cell_paint_keeps_walls,
    full_square_cell_type, initial_cell_type, step_cell_type, step_opens_one_wall,
    wall_open_is_symmetric,
};
use crate::palette::{head_color, visited_color, CellType};
use crate::progress::{after_frames, runs_keep_the_raster};
use crate::raster::{is_raster, pixel_of_byte};
use crate::render::{blank_raster, initial_raster, wall_open};
use crate::stepper::{
    advance_target, first_tail_is_neighbor, first_unvisited_is_neighbor, frame_result, retired,
    step_result, Direction,
};

verus! {

/// The cell to the right of `c`.
pub open spec fn right_of(c: Point) -> Point {
    Point { x: c.x + 1, y: c.y }
}

/// The cell below `c`.
pub open spec fn below(c: Point) -> Point {
    Point { x: c.x, y: c.y + 1 }
}

/// One if `a` and `b` are cells of the grid with an open wall between them,
/// else nought.
pub open spec fn opened(buf: Seq<u8>, a: Point, b: Point) -> int {
    if a.in_grid() && b.in_grid() && wall_open(buf, a, b) {
        1
    } else {
        0
    }
}

/// The open walls among the two that are counted with cell `c`: the one to
/// its right and the one below it. Every wall of the grid is counted with
/// exactly one cell.
pub open spec fn owned_open(buf: Seq<u8>, c: Point) -> int {
    opened(buf, c, right_of(c)) + opened(buf, c, below(c))
}

/// The open walls counted with the first `k` cells of the scan.
pub open spec fn walls_upto(buf: Seq<u8>, k: int) -> int
    decreases k,
{
    if k <= 0 {
        0
    } else {
        walls_upto(buf, k - 1) + owned_open(buf, cell_number(k - 1))
    }
}

/// The number of open walls in the grid.
pub open spec fn open_walls(buf: Seq<u8>) -> int {
    walls_upto(buf, CELL_COUNT as int)
}

/// One for an unvisited cell, nought for any other.
pub open spec fn unvisited(t: CellType) -> int {
    if t == CellType::Unvisited {
        1
    } else {
        0
    }
}

/// The unvisited cells among the first `k` cells of the scan.
pub open spec fn unvisited_upto(buf: Seq<u8>, k: int) -> int
    decreases k,
{
    if k <= 0 {
        0
    } else {
        unvisited_upto(buf, k - 1) + unvisited(cell_type_of(buf, cell_number(k - 1)))
    }
}

/// The number of unvisited cells in the grid.
pub open spec fn unvisited_cells(buf: Seq<u8>) -> int {
    unvisited_upto(buf, CELL_COUNT as int)
}

/// Every wall of an unvisited cell is closed.
pub open spec fn unvisited_cells_are_walled_in(buf: Seq<u8>) -> bool {
    forall|a: Point, b: Point|
        a.in_grid() && b.in_grid() && a.adjacent(b) && cell_type_of(buf, a)
            == CellType::Unvisited ==> !#[trigger] wall_open(buf, a, b)
}

/// Where two rasters agree on the walls counted with every cell but `o`,
/// their numbers of open walls differ by what differs at `o`.
pub proof fn walls_differ_at_one_cell(a: Seq<u8>, b: Seq<u8>, o: Point, k: int)
    requires
        0 <= k <= CELL_COUNT,
        o.in_grid(),
        forall|c: Point| c.in_grid() && c != o ==> owned_open(a, c) == owned_open(b, c),
    ensures
        walls_upto(b, k) - walls_upto(a, k) == if scan_index(o) < k {
            owned_open(b, o) - owned_open(a, o)
        } else {
            0
        },
    decreases k,
{
    if k > 0 {
        walls_differ_at_one_cell(a, b, o, k - 1);
        let c = cell_number(k - 1);
        assert(c.in_grid());
        assert(scan_index(c) == k - 1);
        assert(scan_index(o) == k - 1 ==> o == c);
    }
}

/// Where two rasters agree on the state of every cell but `p` and `q`,
/// their numbers of unvisited cells differ by what differs at `p` and `q`.
pub proof fn unvisited_differ_in_two(a: Seq<u8>, b: Seq<u8>, p: Point, q: Point, k: int)
    requires
        0 <= k <= CELL_COUNT,
        p.in_grid(),
        q.in_grid(),
        p != q,
        forall|c: Point| c != p && c != q ==> cell_type_of(a, c) == cell_type_of(b, c),
    ensures
        unvisited_upto(b, k) - unvisited_upto(a, k) == (if scan_index(p) < k {
            unvisited(cell_type_of(b, p)) - unvisited(cell_type_of(a, p))
        } else {
            0
        }) + (if scan_index(q) < k {
            unvisited(cell_type_of(b, q)) - unvisited(cell_type_of(a, q))
        } else {
            0
        }),
    decreases k,
{
    if k > 0 {
        unvisited_differ_in_two(a, b, p, q, k - 1);
        let c = cell_number(k - 1);
        assert(scan_index(c) == k - 1);
        assert(scan_index(p) == k - 1 ==> p == c);
        assert(scan_index(q) == k - 1 ==> q == c);
    }
}

/// The cell that the wall between two adjacent cells is counted with.
pub open spec fn owner(a: Point, b: Point) -> Point {
    if b == right_of(a) || b == below(a) {
        a
    } else {
        b
    }
}

/// A step keeps unvisited cells walled in.
pub proof fn step_keeps_walled_in(buf: Seq<u8>, order: Seq<Direction>)
    requires
        is_raster(buf),
        unvisited_cells_are_walled_in(buf),
    ensures
        unvisited_cells_are_walled_in(step_result(buf, order)),
{
    let after = step_result(buf, order);
    first_head_is_first(buf, 0);
    if let Some(head) = head_of(buf) {
        first_unvisited_is_neighbor(buf, head, order, 0);
        assert forall|a: Point, b: Point|
            a.in_grid() && b.in_grid() && a.adjacent(b) && cell_type_of(after, a)
                == CellType::Unvisited implies !#[trigger] wall_open(after, a, b) by {
            step_cell_type(buf, order, a);
            step_opens_one_wall(buf, order, a, b);
            assert(cell_type_of(buf, a) == CellType::Unvisited);
            assert(!wall_open(buf, a, b));
        }
    }
}

/// What carving from `head` into `target` does to the walls counted with
/// cell `c`: one more is open if the new wall is counted with `c`, else as
/// many as before.
pub proof fn owned_after(buf: Seq<u8>, after: Seq<u8>, head: Point, target: Point, c: Point)
    requires
        unvisited_cells_are_walled_in(buf),
        carved_from(buf, after, head, target),
        head.in_grid(),
        target.in_grid(),
        head.adjacent(target),
        cell_type_of(buf, target) == CellType::Unvisited,
        c.in_grid(),
    ensures
        owned_open(after, c) == owned_open(buf, c) + if c == owner(head, target) {
            1int
        } else {
            0int
        },
{
    assert(target.adjacent(head));
    assert(!wall_open(buf, target, head));
    wall_open_is_symmetric(buf, head, target);
    if right_of(c).in_grid() {
        assert(c.adjacent(right_of(c)));
        assert(wall_open(after, c, right_of(c)) == (wall_open(buf, c, right_of(c)) || (c == head
            && right_of(c) == target) || (c == target && right_of(c) == head)));
    }
    if below(c).in_grid() {
        assert(c.adjacent(below(c)));
        assert(wall_open(after, c, below(c)) == (wall_open(buf, c, below(c)) || (c == head
            && below(c) == target) || (c == target && below(c) == head)));
    }
}

/// What a step that carves does to the walls counted with cell `c`: one
/// more is open if the new wall is counted with `c`, else as many as
/// before.
pub proof fn owned_after_carving(buf: Seq<u8>, order: Seq<Direction>, c: Point)
    requires
        is_raster(buf),
        unvisited_cells_are_walled_in(buf),
        head_of(buf) is Some,
        advance_target(buf, head_of(buf).unwrap(), order) is Some,
        c.in_grid(),
    ensures
        owned_open(step_result(buf, order), c) == owned_open(buf, c) + if c == owner(
            head_of(buf).unwrap(),
            advance_target(buf, head_of(buf).unwrap(), order).unwrap(),
        ) {
            1int
        } else {
            0int
        },
{
    let head = head_of(buf).unwrap();
    let target = advance_target(buf, head, order).unwrap();
    carving_step_carves(buf, order);
    owned_after(buf, step_result(buf, order), head, target, c);
}

/// A step that does not carve leaves the walls counted with cell `c` as
/// they were.
pub proof fn owned_without_carving(buf: Seq<u8>, order: Seq<Direction>, c: Point)
    requires
        is_raster(buf),
        head_of(buf) is Some ==> advance_target(buf, head_of(buf).unwrap(), order) is None,
        c.in_grid(),
    ensures
        owned_open(step_result(buf, order), c) == owned_open(buf, c),
{
    if right_of(c).in_grid() {
        step_opens_one_wall(buf, order, c, right_of(c));
    }
    if below(c).in_grid() {
        step_opens_one_wall(buf, order, c, below(c));
    }
}

/// A step that carves opens one wall and enters one unvisited cell.
pub proof fn carving_counts(buf: Seq<u8>, order: Seq<Direction>)
    requires
        is_raster(buf),
        unvisited_cells_are_walled_in(buf),
        head_of(buf) is Some,
        advance_target(buf, head_of(buf).unwrap(), order) is Some,
    ensures
        open_walls(step_result(buf, order)) == open_walls(buf) + 1,
        unvisited_cells(step_result(buf, order)) == unvisited_cells(buf) - 1,
{
    let after = step_result(buf, order);
    let head = head_of(buf).unwrap();
    let target = advance_target(buf, head, order).unwrap();
    first_head_is_first(buf, 0);
    first_unvisited_is_neighbor(buf, head, order, 0);
    assert forall|c: Point| c.in_grid() && c != owner(head, target) implies owned_open(buf, c)
        == owned_open(after, c) by {
        owned_after_carving(buf, order, c);
    }
    owned_after_carving(buf, order, owner(head, target));
    walls_differ_at_one_cell(buf, after, owner(head, target), CELL_COUNT as int);
    assert forall|c: Point| c != head && c != target implies cell_type_of(buf, c)
        == cell_type_of(after, c) by {
        step_cell_type(buf, order, c);
    }
    step_cell_type(buf, order, head);
    step_cell_type(buf, order, target);
    unvisited_differ_in_two(buf, after, head, target, CELL_COUNT as int);
}

/// A step that does not carve opens no wall and enters no unvisited cell.
pub proof fn going_back_counts(buf: Seq<u8>, order: Seq<Direction>)
    requires
        is_raster(buf),
        head_of(buf) is Some ==> advance_target(buf, head_of(buf).unwrap(), order) is None,
    ensures
        open_walls(step_result(buf, order)) == open_walls(buf),
        unvisited_cells(step_result(buf, order)) == unvisited_cells(buf),
{
    let after = step_result(buf, order);
    first_head_is_first(buf, 0);
    if let Some(head) = head_of(buf) {
        assert forall|c: Point| c.in_grid() && c != head implies owned_open(buf, c)
            == owned_open(after, c) by {
            owned_without_carving(buf, order, c);
        }
        owned_without_carving(buf, order, head);
        walls_differ_at_one_cell(buf, after, head, CELL_COUNT as int);
        first_tail_is_neighbor(retired(buf, head), head, order, 0);
        assert forall|c: Point|
            unvisited(cell_type_of(buf, c)) == unvisited(#[trigger] cell_type_of(after, c)) by {
            step_cell_type(buf, order, c);
            full_square_cell_type(buf, head, visited_color(), c);
        }
        unvisited_stay(buf, after, CELL_COUNT as int);
    }
}

/// A step on a raster whose unvisited cells are walled in keeps them walled
/// in, and keeps the sum of open walls and unvisited cells: carving opens
/// one wall and enters one unvisited cell, any other step does neither.
pub proof fn step_keeps_the_balance(buf: Seq<u8>, order: Seq<Direction>)
    requires
        is_raster(buf),
        unvisited_cells_are_walled_in(buf),
    ensures
        unvisited_cells_are_walled_in(step_result(buf, order)),
        open_walls(step_result(buf, order)) + unvisited_cells(step_result(buf, order))
            == open_walls(buf) + unvisited_cells(buf),
{
    step_keeps_walled_in(buf, order);
    if head_of(buf) is Some && advance_target(buf, head_of(buf).unwrap(), order) is Some {
        carving_counts(buf, order);
    } else {
        going_back_counts(buf, order);
    }
}

/// Rasters with the same cells unvisited have as many of them.
pub proof fn unvisited_stay(a: Seq<u8>, b: Seq<u8>, k: int)
    requires
        0 <= k <= CELL_COUNT,
        forall|c: Point| unvisited(cell_type_of(a, c)) == unvisited(#[trigger] cell_type_of(b, c)),
    ensures
        unvisited_upto(a, k) == unvisited_upto(b, k),
    decreases k,
{
    if k > 0 {
        unvisited_stay(a, b, k - 1);
    }
}

/// In a freshly laid-out maze every wall is closed.
pub proof fn initial_walls_are_closed(a: Point, b: Point)
    requires
        a.in_grid(),
        b.in_grid(),
        a.adjacent(b),
    ensures
        !wall_open(initial_raster(), a, b),
{
    reveal(blank_raster);
    let p = a.midpoint(b);
    let i = p.byte_index();
    assert(pixel_of_byte(i) == p);
    assert(pixel_of_byte(i + 1) == p);
    assert(pixel_of_byte(i + 2) == p);
    assert(p.on_grid_line());
    blank_cell_type(a);
    cell_paint_keeps_walls(blank_raster(), Point::center(), head_color(), a, b);
}

/// The first frame of a fresh maze carves from the centre into the
/// neighbour that the order names first: that neighbour becomes the head,
/// the centre a tail, every other cell stays unvisited, and the wall
/// between the two is the only open one.
pub proof fn first_frame_carves(order: Seq<Direction>, c: Point, a: Point, b: Point)
    requires
        order.len() >= 1,
        a.in_grid(),
        b.in_grid(),
        a.adjacent(b),
    ensures
        cell_type_of(frame_result(initial_raster(), false, order), c) == if c
            == Point::center().neighbor(order[0]) {
            CellType::Head
        } else if c == Point::center() {
            CellType::Tail
        } else if c.in_grid() {
            CellType::Unvisited
        } else {
            CellType::OutOfBounds
        },
        wall_open(frame_result(initial_raster(), false, order), a, b) == ((a == Point::center()
            && b == Point::center().neighbor(order[0])) || (b == Point::center() && a
            == Point::center().neighbor(order[0]))),
{
    let start = initial_raster();
    let target = Point::center().neighbor(order[0]);
    initial_cell_type(Point::center());
    initial_cell_type(target);
    initial_cell_type(c);
    initial_walls_are_closed(a, b);
    first_head_is_first(start, 0);
    if let Some(head) = head_of(start) {
        initial_cell_type(head);
    }
    assert(Point::center().in_grid());
    assert(head_of(start) == Some(Point::center()));
    assert(advance_target(start, Point::center(), order) == Some(target));
    step_cell_type(start, order, c);
    step_opens_one_wall(start, order, a, b);
}

/// The counts of a freshly laid-out maze over the first `k` cells: no open
/// wall, and every cell but the centre unvisited.
pub proof fn initial_counts(k: int)
    requires
        0 <= k <= CELL_COUNT,
    ensures
        walls_upto(initial_raster(), k) == 0,
        unvisited_upto(initial_raster(), k) == if scan_index(Point::center()) < k {
            k - 1
        } else {
            k
        },
    decreases k,
{
    if k > 0 {
        initial_counts(k - 1);
        let c = cell_number(k - 1);
        initial_cell_type(c);
        assert(scan_index(c) == k - 1);
        assert(c.in_grid());
        if right_of(c).in_grid() {
            initial_walls_are_closed(c, right_of(c));
        }
        if below(c).in_grid() {
            initial_walls_are_closed(c, below(c));
        }
    }
}

/// Through any run of frames from a freshly laid-out maze, the open walls
/// are one fewer than the cells that are no longer unvisited: as many as
/// the edges of a tree over those cells.
pub proof fn walls_count_as_a_tree(orders: Seq<Seq<Direction>>)
    ensures
        unvisited_cells_are_walled_in(after_frames(initial_raster(), orders)),
        open_walls(after_frames(initial_raster(), orders)) == CELL_COUNT - unvisited_cells(
            after_frames(initial_raster(), orders),
        ) - 1,
    decreases orders.len(),
{
    initial_cell_type(Point::center());
    if orders.len() == 0 {
        initial_counts(CELL_COUNT as int);
        assert forall|a: Point, b: Point|
            a.in_grid() && b.in_grid() && a.adjacent(b) implies !#[trigger] wall_open(
            initial_raster(),
            a,
            b,
        ) by {
            initial_walls_are_closed(a, b);
        }
    } else {
        walls_count_as_a_tree(orders.drop_last());
        runs_keep_the_raster(initial_raster(), orders.drop_last());
        step_keeps_the_balance(after_frames(initial_raster(), orders.drop_last()), orders.last());
    }
}

} // verus!
