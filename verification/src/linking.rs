//! Why the open walls of a maze are a tree: every cell reached is linked to
//! the start through open walls, and no way through open walls comes back to
//! where it began.

use vstd::prelude::*;
use crate::completion::{every_cell_visited, finished_maze_spans_the_grid, joined};
use crate::decode::{cell_type_of, first_head_is_first, head_of, CELL_COUNT};
use crate::geometry::Point;
use crate::laws::{
    carved_from, carving_step_carves, initial_cell_type, other_step_keeps_walls_and_reach,
    step_opens_one_wall, wall_open_is_symmetric,
};
use crate::palette::CellType;
use crate::progress::{after_frames, runs_keep_the_raster};
use crate::raster::is_raster;
use crate::render::{initial_raster, wall_open};
use crate::stepper::{advance_target, is_ordering, step_result, Direction};
use crate::tree::{
    initial_walls_are_closed, open_walls, step_keeps_walled_in, unvisited_cells_are_walled_in,
};

verus! {

/// `way` leads through the grid from cell to neighbouring cell, each time
/// through an open wall.
pub open spec fn is_way(buf: Seq<u8>, way: Seq<Point>) -> bool {
    &&& way.len() >= 1
    &&& forall|i: int| 0 <= i < way.len() ==> (#[trigger] way[i]).in_grid()
    &&& forall|i: int| 0 <= i < way.len() - 1 ==> #[trigger] joined(buf, way, i)
}

/// There is a way through open walls from `a` to `b`.
pub open spec fn linked(buf: Seq<u8>, a: Point, b: Point) -> bool {
    exists|way: Seq<Point>| is_way(buf, way) && way[0] == a && way.last() == b
}

/// Every cell that is no longer unvisited is linked to the start.
pub open spec fn reached_are_linked(buf: Seq<u8>) -> bool {
    forall|c: Point|
        c.in_grid() && cell_type_of(buf, c) != CellType::Unvisited ==> #[trigger] linked(
            buf,
            Point::center(),
            c,
        )
}

/// A way of three cells or more, all different, whose last cell has an open
/// wall to its first.
pub open spec fn is_cycle(buf: Seq<u8>, cycle: Seq<Point>) -> bool {
    &&& cycle.len() >= 3
    &&& is_way(buf, cycle)
    &&& cycle.last().adjacent(cycle[0])
    &&& wall_open(buf, cycle.last(), cycle[0])
    &&& forall|i: int, j: int| 0 <= i < j < cycle.len() ==> cycle[i] != cycle[j]
}

/// `rank` numbers the cells reached in the order in which they were
/// reached, all below `top`: no two alike, and every cell with at most one
/// open wall to a cell reached no later than itself.
pub open spec fn ranked(buf: Seq<u8>, rank: spec_fn(Point) -> int, top: int) -> bool {
    &&& unvisited_cells_are_walled_in(buf)
    &&& forall|c: Point|
        c.in_grid() && #[trigger] cell_type_of(buf, c) != CellType::Unvisited ==> rank(c) < top
    &&& forall|a: Point, b: Point|
        #![trigger cell_type_of(buf, a), cell_type_of(buf, b)]
        a.in_grid() && b.in_grid() && cell_type_of(buf, a) != CellType::Unvisited
            && cell_type_of(buf, b) != CellType::Unvisited && rank(a) == rank(b) ==> a == b
    &&& forall|a: Point, b: Point, c: Point|
        a.in_grid() && b.in_grid() && c.in_grid() && a.adjacent(b) && a.adjacent(c)
            && #[trigger] wall_open(buf, a, b) && #[trigger] wall_open(buf, a, c) && rank(b)
            <= rank(a) && rank(c) <= rank(a) ==> b == c
}

/// The cells reached can be numbered in the order in which they were
/// reached.
pub open spec fn has_ranks(buf: Seq<u8>) -> bool {
    exists|rank: spec_fn(Point) -> int, top: int| ranked(buf, rank, top)
}

/// A way stays a way where no wall closes.
pub proof fn way_stays(buf: Seq<u8>, after: Seq<u8>, way: Seq<Point>)
    requires
        is_way(buf, way),
        forall|a: Point, b: Point|
            a.in_grid() && b.in_grid() && a.adjacent(b) && wall_open(buf, a, b)
                ==> #[trigger] wall_open(after, a, b),
    ensures
        is_way(after, way),
{
    assert forall|i: int| 0 <= i < way.len() - 1 implies #[trigger] joined(after, way, i) by {
        assert(joined(buf, way, i));
        assert(way[i].in_grid() && way[i + 1].in_grid());
        assert(way[i + 1].adjacent(way[i]));
    }
}

/// A step keeps every cell reached linked to the start, and links the cell
/// it carves into.
pub proof fn step_keeps_linked(buf: Seq<u8>, order: Seq<Direction>)
    requires
        is_raster(buf),
        reached_are_linked(buf),
    ensures
        reached_are_linked(step_result(buf, order)),
{
    let after = step_result(buf, order);
    let start = Point::center();
    first_head_is_first(buf, 0);
    if let Some(head) = head_of(buf) {
        assert forall|a: Point, b: Point|
            a.in_grid() && b.in_grid() && a.adjacent(b) && wall_open(buf, a, b)
                implies #[trigger] wall_open(after, a, b) by {
            step_opens_one_wall(buf, order, a, b);
        }
        if advance_target(buf, head, order) is Some {
            carving_step_carves(buf, order);
        } else {
            other_step_keeps_walls_and_reach(buf, order);
        }
        assert forall|c: Point|
            c.in_grid() && cell_type_of(after, c) != CellType::Unvisited implies #[trigger] linked(
            after,
            start,
            c,
        ) by {
            if cell_type_of(buf, c) != CellType::Unvisited {
                assert(linked(buf, start, c));
                let way = choose|way: Seq<Point>|
                    is_way(buf, way) && way[0] == start && way.last() == c;
                way_stays(buf, after, way);
            } else {
                let target = advance_target(buf, head, order).unwrap();
                assert(c == target);
                assert(linked(buf, start, head));
                let way = choose|way: Seq<Point>|
                    is_way(buf, way) && way[0] == start && way.last() == head;
                way_stays(buf, after, way);
                let longer = way.push(c);
                assert forall|i: int| 0 <= i < longer.len() implies (
                #[trigger] longer[i]).in_grid() by {
                    if i < way.len() {
                        assert(way[i].in_grid());
                    }
                }
                assert forall|i: int| 0 <= i < longer.len() - 1 implies #[trigger] joined(
                    after,
                    longer,
                    i,
                ) by {
                    if i + 1 < way.len() {
                        assert(joined(after, way, i));
                    } else {
                        assert(wall_open(after, target, head));
                    }
                }
                assert(is_way(after, longer) && longer[0] == start && longer.last() == c);
            }
        }
    }
}

/// Through any run of frames from a freshly laid-out maze, every cell
/// reached is linked to the start through open walls.
pub proof fn reached_cells_are_linked(orders: Seq<Seq<Direction>>)
    ensures
        reached_are_linked(after_frames(initial_raster(), orders)),
    decreases orders.len(),
{
    initial_cell_type(Point::center());
    if orders.len() == 0 {
        let buf = initial_raster();
        let way = seq![Point::center()];
        assert(is_way(buf, way) && way[0] == Point::center() && way.last() == Point::center());
        assert forall|c: Point|
            c.in_grid() && cell_type_of(buf, c) != CellType::Unvisited implies #[trigger] linked(
            buf,
            Point::center(),
            c,
        ) by {
            initial_cell_type(c);
        }
    } else {
        reached_cells_are_linked(orders.drop_last());
        runs_keep_the_raster(initial_raster(), orders.drop_last());
        step_keeps_linked(after_frames(initial_raster(), orders.drop_last()), orders.last());
    }
}

/// Carving keeps the numbering, with the cell carved into numbered last.
pub proof fn carving_keeps_ranks(
    buf: Seq<u8>,
    after: Seq<u8>,
    head: Point,
    target: Point,
    rank: spec_fn(Point) -> int,
    top: int,
)
    requires
        ranked(buf, rank, top),
        carved_from(buf, after, head, target),
        head.in_grid(),
        target.in_grid(),
        head.adjacent(target),
        cell_type_of(buf, head) == CellType::Head,
        cell_type_of(buf, target) == CellType::Unvisited,
    ensures
        ranked(
            after,
            |c: Point|
                if c == target {
                    top
                } else {
                    rank(c)
                },
            top + 1,
        ),
{
    let later = |c: Point|
        if c == target {
            top
        } else {
            rank(c)
        };
    assert forall|a: Point, b: Point|
        a.in_grid() && b.in_grid() && a.adjacent(b) && cell_type_of(after, a)
            == CellType::Unvisited implies !#[trigger] wall_open(after, a, b) by {
        assert(cell_type_of(buf, a) == CellType::Unvisited);
        assert(!wall_open(buf, a, b));
    }
    assert forall|c: Point|
        c.in_grid() && #[trigger] cell_type_of(after, c) != CellType::Unvisited implies later(c)
        < top + 1 by {
        if c != target {
            assert(cell_type_of(buf, c) != CellType::Unvisited);
        }
    }
    assert forall|a: Point, b: Point|
        #![trigger cell_type_of(after, a), cell_type_of(after, b)]
        a.in_grid() && b.in_grid() && cell_type_of(after, a) != CellType::Unvisited
            && cell_type_of(after, b) != CellType::Unvisited && later(a) == later(b) implies a
        == b by {
        if a != target {
            assert(cell_type_of(buf, a) != CellType::Unvisited);
        }
        if b != target {
            assert(cell_type_of(buf, b) != CellType::Unvisited);
        }
    }
    assert forall|a: Point, b: Point, c: Point|
        a.in_grid() && b.in_grid() && c.in_grid() && a.adjacent(b) && a.adjacent(c)
            && #[trigger] wall_open(after, a, b) && #[trigger] wall_open(after, a, c) && later(b)
            <= later(a) && later(c) <= later(a) implies b == c by {
        if a == target {
            assert(!wall_open(buf, target, b));
            assert(!wall_open(buf, target, c));
        } else {
            wall_open_is_symmetric(buf, a, b);
            wall_open_is_symmetric(buf, a, c);
            if b == target {
                assert(b.adjacent(a));
                assert(!wall_open(buf, b, a));
                assert(a == head);
            }
            if c == target {
                assert(c.adjacent(a));
                assert(!wall_open(buf, c, a));
                assert(a == head);
            }
            assert(cell_type_of(buf, head) != CellType::Unvisited);
            assert(wall_open(buf, a, b) && wall_open(buf, a, c));
        }
    }
}

/// A step keeps the cells reached numbered.
pub proof fn step_keeps_ranks(buf: Seq<u8>, order: Seq<Direction>)
    requires
        is_raster(buf),
        has_ranks(buf),
    ensures
        has_ranks(step_result(buf, order)),
{
    let after = step_result(buf, order);
    let (rank, top) = choose|rank: spec_fn(Point) -> int, top: int| ranked(buf, rank, top);
    if head_of(buf) is Some && advance_target(buf, head_of(buf).unwrap(), order) is Some {
        let head = head_of(buf).unwrap();
        let target = advance_target(buf, head, order).unwrap();
        carving_step_carves(buf, order);
        carving_keeps_ranks(buf, after, head, target, rank, top);
        let later = |c: Point|
            if c == target {
                top
            } else {
                rank(c)
            };
        assert(ranked(after, later, top + 1));
    } else {
        other_step_keeps_walls_and_reach(buf, order);
        step_keeps_walled_in(buf, order);
        assert(ranked(after, rank, top));
    }
}

/// Through any run of frames from a freshly laid-out maze, the cells
/// reached can be numbered in the order in which they were reached.
pub proof fn reached_cells_are_ranked(orders: Seq<Seq<Direction>>)
    ensures
        has_ranks(after_frames(initial_raster(), orders)),
    decreases orders.len(),
{
    initial_cell_type(Point::center());
    if orders.len() == 0 {
        let buf = initial_raster();
        let rank = |c: Point| 0int;
        assert forall|a: Point, b: Point|
            a.in_grid() && b.in_grid() && a.adjacent(b) implies !#[trigger] wall_open(
            buf,
            a,
            b,
        ) by {
            initial_walls_are_closed(a, b);
        }
        assert forall|c: Point|
            c.in_grid() && #[trigger] cell_type_of(buf, c) != CellType::Unvisited implies c
            == Point::center() by {
            initial_cell_type(c);
        }
        assert(ranked(buf, rank, 1));
    } else {
        reached_cells_are_ranked(orders.drop_last());
        runs_keep_the_raster(initial_raster(), orders.drop_last());
        step_keeps_ranks(after_frames(initial_raster(), orders.drop_last()), orders.last());
    }
}

/// Among the first `k` cells of a sequence, one is numbered highest.
pub proof fn highest_of(rank: spec_fn(Point) -> int, cells: Seq<Point>, k: int) -> (m: int)
    requires
        1 <= k <= cells.len(),
    ensures
        0 <= m < k,
        forall|i: int| 0 <= i < k ==> rank(#[trigger] cells[i]) <= rank(cells[m]),
    decreases k,
{
    if k == 1 {
        0
    } else {
        let m = highest_of(rank, cells, k - 1);
        if rank(cells[k - 1]) > rank(cells[m]) {
            k - 1
        } else {
            m
        }
    }
}

/// Where the cells reached are numbered, the open walls hold no cycle: the
/// cell of a cycle that was reached last would have two open walls to cells
/// reached before it.
pub proof fn ranks_leave_no_cycle(
    buf: Seq<u8>,
    rank: spec_fn(Point) -> int,
    top: int,
    cycle: Seq<Point>,
)
    requires
        ranked(buf, rank, top),
    ensures
        !is_cycle(buf, cycle),
{
    if is_cycle(buf, cycle) {
        let len = cycle.len() as int;
        let m = highest_of(rank, cycle, len);
        let at = cycle[m];
        let before = if m == 0 {
            len - 1
        } else {
            m - 1
        };
        let next = if m == len - 1 {
            0
        } else {
            m + 1
        };
        assert(cycle[before].in_grid() && cycle[next].in_grid() && at.in_grid());
        assert(cycle[before] != cycle[next]);
        if m > 0 {
            assert(joined(buf, cycle, m - 1));
        }
        if m < len - 1 {
            assert(joined(buf, cycle, m));
        }
        wall_open_is_symmetric(buf, at, cycle[before]);
        wall_open_is_symmetric(buf, at, cycle[next]);
        assert(at.adjacent(cycle[before]) && wall_open(buf, at, cycle[before]));
        assert(at.adjacent(cycle[next]) && wall_open(buf, at, cycle[next]));
        assert(rank(cycle[before]) <= rank(at) && rank(cycle[next]) <= rank(at));
        assert(false);
    }
}

/// Through any run of frames from a freshly laid-out maze, no way through
/// open walls comes back to where it began.
pub proof fn a_maze_has_no_cycle(orders: Seq<Seq<Direction>>, cycle: Seq<Point>)
    ensures
        !is_cycle(after_frames(initial_raster(), orders), cycle),
{
    let buf = after_frames(initial_raster(), orders);
    reached_cells_are_ranked(orders);
    let (rank, top) = choose|rank: spec_fn(Point) -> int, top: int| ranked(buf, rank, top);
    ranks_leave_no_cycle(buf, rank, top, cycle);
}

/// A finished maze is a spanning tree: when a run of frames from a freshly
/// laid-out maze, with a full order of directions for each frame, has left
/// no head, every cell is visited, every cell is linked to the start
/// through open walls, the open walls hold no cycle, and they are one
/// fewer than the cells.
pub proof fn finished_maze_is_a_spanning_tree(orders: Seq<Seq<Direction>>)
    requires
        forall|i: int| 0 <= i < orders.len() ==> is_ordering(#[trigger] orders[i]),
        head_of(after_frames(initial_raster(), orders)) is None,
    ensures
        every_cell_visited(after_frames(initial_raster(), orders)),
        forall|c: Point|
            c.in_grid() ==> #[trigger] linked(
                after_frames(initial_raster(), orders),
                Point::center(),
                c,
            ),
        forall|cycle: Seq<Point>|
            !#[trigger] is_cycle(after_frames(initial_raster(), orders), cycle),
        open_walls(after_frames(initial_raster(), orders)) == CELL_COUNT - 1,
{
    let buf = after_frames(initial_raster(), orders);
    finished_maze_spans_the_grid(orders);
    reached_cells_are_linked(orders);
    assert forall|cycle: Seq<Point>| !#[trigger] is_cycle(buf, cycle) by {
        a_maze_has_no_cycle(orders, cycle);
    }
}

} // verus!
