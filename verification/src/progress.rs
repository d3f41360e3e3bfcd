//! Why carving ends: a measure of the work left that every step lowers.

use vstd::prelude::*;
use crate::decode::{
    cell_number, cell_type_of, first_head_is_first, head_of, scan_index, CELL_COUNT,
};
use crate::geometry::Point;
use crate::laws::{
    at_most_one_head, full_square_cell_type, initial_cell_type, no_head, only_head,
    single_head, step_cell_type, visited_stays_visited,
};
use crate::palette::{visited_color, CellType};
use crate::raster::is_raster;
use crate::render::initial_raster;
use crate::stepper::{
    advance_target, backtrack_target, first_tail_is_neighbor, first_unvisited_is_neighbor,
    frame_result, retired, step_result, Direction,
};

verus! {

/// The steps a cell in state `t` still has before it: an unvisited cell is
/// entered once and left once, a head or tail is left once.
pub open spec fn weight(t: CellType) -> int {
    match t {
        CellType::Unvisited => 2,
        CellType::Head => 1,
        CellType::Tail => 1,
        _ => 0,
    }
}

/// The work left in the first `k` cells of the scan.
pub open spec fn work_upto(buf: Seq<u8>, k: int) -> int
    decreases k,
{
    if k <= 0 {
        0
    } else {
        work_upto(buf, k - 1) + weight(cell_type_of(buf, cell_number(k - 1)))
    }
}

/// The work left in the whole grid.
pub open spec fn work_left(buf: Seq<u8>) -> int {
    work_upto(buf, CELL_COUNT as int)
}

/// The work left in `cell` if it is among the first `k` cells of the scan.
pub open spec fn share(buf: Seq<u8>, cell: Point, k: int) -> int {
    if scan_index(cell) < k {
        weight(cell_type_of(buf, cell))
    } else {
        0
    }
}

/// Where two rasters agree on every cell but `p` and `q`, the work left in
/// them differs by what differs in `p` and `q`.
pub proof fn work_differs_in_two(a: Seq<u8>, b: Seq<u8>, p: Point, q: Point, k: int)
    requires
        0 <= k <= CELL_COUNT,
        p.in_grid(),
        q.in_grid(),
        p != q,
        forall|c: Point| c != p && c != q ==> cell_type_of(a, c) == cell_type_of(b, c),
    ensures
        work_upto(b, k) - work_upto(a, k) == share(b, p, k) - share(a, p, k) + share(b, q, k)
            - share(a, q, k),
    decreases k,
{
    if k > 0 {
        work_differs_in_two(a, b, p, q, k - 1);
        let c = cell_number(k - 1);
        assert(scan_index(c) == k - 1);
        assert(scan_index(p) == k - 1 ==> p == c);
        assert(scan_index(q) == k - 1 ==> q == c);
    }
}

/// The work left is never negative, and at least one where a head is among
/// the cells counted.
pub proof fn head_is_work(buf: Seq<u8>, head: Point, k: int)
    requires
        0 <= k <= CELL_COUNT,
    ensures
        work_upto(buf, k) >= 0,
        head.in_grid() && scan_index(head) < k && cell_type_of(buf, head) == CellType::Head
            ==> work_upto(buf, k) >= 1,
    decreases k,
{
    if k > 0 {
        head_is_work(buf, head, k - 1);
        let c = cell_number(k - 1);
        assert(head.in_grid() && scan_index(head) == k - 1 ==> head == c);
    }
}

/// The work left in the first `k` cells of a freshly laid-out maze: two
/// steps for each but the centre, one for the centre.
pub proof fn initial_work(k: int)
    requires
        0 <= k <= CELL_COUNT,
    ensures
        work_upto(initial_raster(), k) == if scan_index(Point::center()) < k {
            2 * k - 1
        } else {
            2 * k
        },
    decreases k,
{
    if k > 0 {
        initial_work(k - 1);
        let c = cell_number(k - 1);
        initial_cell_type(c);
        assert(scan_index(c) == k - 1);
        assert(c.in_grid());
    }
}

/// A cell of the grid other than `p`.
pub open spec fn another_cell(p: Point) -> Point {
    if p.x == 0 && p.y == 0 {
        Point { x: 1, y: 0 }
    } else {
        Point { x: 0, y: 0 }
    }
}

/// Every step taken with a head on the raster lowers the work left by one.
pub proof fn step_lowers_work(buf: Seq<u8>, order: Seq<Direction>)
    requires
        is_raster(buf),
        head_of(buf) is Some,
    ensures
        work_left(step_result(buf, order)) == work_left(buf) - 1,
{
    let head = head_of(buf).unwrap();
    let after = step_result(buf, order);
    let left = retired(buf, head);
    first_head_is_first(buf, 0);
    first_unvisited_is_neighbor(buf, head, order, 0);
    first_tail_is_neighbor(left, head, order, 0);
    let moved = match advance_target(buf, head, order) {
        Some(target) => Some(target),
        None => backtrack_target(left, head, order),
    };
    let other = match moved {
        Some(target) => target,
        None => another_cell(head),
    };
    assert(other.in_grid() && other != head);
    assert forall|c: Point| c != head && c != other implies cell_type_of(buf, c)
        == cell_type_of(after, c) by {
        step_cell_type(buf, order, c);
    }
    step_cell_type(buf, order, head);
    step_cell_type(buf, order, other);
    full_square_cell_type(buf, head, visited_color(), other);
    work_differs_in_two(buf, after, head, other, CELL_COUNT as int);
}

/// The raster after a run of frames, none of them asked to start over, each
/// with its own order of directions.
pub open spec fn after_frames(buf: Seq<u8>, orders: Seq<Seq<Direction>>) -> Seq<u8>
    decreases orders.len(),
{
    if orders.len() == 0 {
        buf
    } else {
        frame_result(after_frames(buf, orders.drop_last()), false, orders.last())
    }
}

/// A run of frames on an opaque raster never starts over, and keeps the
/// raster's size and opacity.
pub proof fn runs_keep_the_raster(buf: Seq<u8>, orders: Seq<Seq<Direction>>)
    requires
        is_raster(buf),
        buf[3] == 255,
    ensures
        is_raster(after_frames(buf, orders)),
        after_frames(buf, orders)[3] == 255,
    decreases orders.len(),
{
    if orders.len() > 0 {
        let before = after_frames(buf, orders.drop_last());
        runs_keep_the_raster(buf, orders.drop_last());
        if head_of(before) is Some {
            step_cell_type(before, orders.last(), Point::center());
        }
    }
}

/// Through any run of frames, a raster with at most one head keeps at most
/// one head.
pub proof fn runs_keep_a_single_head(buf: Seq<u8>, orders: Seq<Seq<Direction>>)
    requires
        is_raster(buf),
        buf[3] == 255,
        at_most_one_head(buf),
    ensures
        at_most_one_head(after_frames(buf, orders)),
    decreases orders.len(),
{
    if orders.len() > 0 {
        runs_keep_the_raster(buf, orders.drop_last());
        runs_keep_a_single_head(buf, orders.drop_last());
        single_head(after_frames(buf, orders.drop_last()), false, orders.last());
    }
}

/// Through any run of frames from a freshly laid-out maze, exactly one
/// cell is the head, until carving is over and none is.
pub proof fn a_maze_has_a_single_head(orders: Seq<Seq<Direction>>)
    ensures
        at_most_one_head(after_frames(initial_raster(), orders)),
        match head_of(after_frames(initial_raster(), orders)) {
            Some(head) => only_head(after_frames(initial_raster(), orders), head),
            None => no_head(after_frames(initial_raster(), orders)),
        },
{
    first_head_is_first(after_frames(initial_raster(), orders), 0);
    assert forall|a: Point, b: Point|
        cell_type_of(initial_raster(), a) == CellType::Head && cell_type_of(initial_raster(), b)
            == CellType::Head implies a == b by {
        initial_cell_type(a);
        initial_cell_type(b);
    }
    initial_cell_type(Point::center());
    runs_keep_a_single_head(initial_raster(), orders);
}

/// A visited cell stays visited through any run of frames that does not
/// start over.
pub proof fn visited_for_good(buf: Seq<u8>, orders: Seq<Seq<Direction>>, cell: Point)
    requires
        is_raster(buf),
        buf[3] == 255,
        cell_type_of(buf, cell) == CellType::Visited,
    ensures
        cell_type_of(after_frames(buf, orders), cell) == CellType::Visited,
    decreases orders.len(),
{
    if orders.len() > 0 {
        runs_keep_the_raster(buf, orders.drop_last());
        visited_for_good(buf, orders.drop_last(), cell);
        visited_stays_visited(after_frames(buf, orders.drop_last()), false, orders.last(), cell);
    }
}

/// Through any run of frames from a freshly laid-out maze, either the head
/// is gone, or the work left and the frames taken add up to what the fresh
/// maze started with.
pub proof fn work_runs_down(orders: Seq<Seq<Direction>>)
    ensures
        is_raster(after_frames(initial_raster(), orders)),
        after_frames(initial_raster(), orders)[3] == 255,
        head_of(after_frames(initial_raster(), orders)) is None || work_left(
            after_frames(initial_raster(), orders),
        ) + orders.len() == 2 * CELL_COUNT - 1,
    decreases orders.len(),
{
    if orders.len() == 0 {
        initial_cell_type(Point::center());
        initial_work(CELL_COUNT as int);
    } else {
        let before = after_frames(initial_raster(), orders.drop_last());
        work_runs_down(orders.drop_last());
        if head_of(before) is Some {
            step_lowers_work(before, orders.last());
            step_cell_type(before, orders.last(), Point::center());
        }
    }
}

/// Carving ends: from a freshly laid-out maze, after twice as many frames
/// as the grid has cells, whatever the orders of directions, no cell is the
/// head any more.
pub proof fn carving_ends(orders: Seq<Seq<Direction>>)
    requires
        orders.len() >= 2 * CELL_COUNT,
    ensures
        head_of(after_frames(initial_raster(), orders)) is None,
        no_head(after_frames(initial_raster(), orders)),
{
    let last = after_frames(initial_raster(), orders);
    work_runs_down(orders);
    first_head_is_first(last, 0);
    if head_of(last) is Some {
        let head = head_of(last).unwrap();
        head_is_work(last, head, CELL_COUNT as int);
    }
    assert forall|c: Point| cell_type_of(last, c) != CellType::Head by {
        if !c.in_grid() {
        }
    }
}

} // verus!
