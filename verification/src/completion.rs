//! Why a maze gets finished: the tails always form one trail from the start
//! to the head, so the carver finds its way back until every cell is visited.

use vstd::prelude::*;
use crate::decode::{cell_number, cell_type_of, first_head_is_first, head_of, CELL_COUNT};
use crate::geometry::Point;
use crate::laws::{
    carved_from, cell_paint_keeps_walls, full_square_cell_type, going_back_step_goes_back,
    gone_back_from, initial_cell_type, step_cell_type, step_opens_one_wall,
};
use crate::palette::{visited_color, CellType};
use crate::progress::{after_frames, runs_keep_the_raster};
use crate::raster::is_raster;
use crate::render::{initial_raster, wall_open};
use crate::stepper::{
    advance_target, backtrack_target, first_tail_is_neighbor, first_unvisited_is_neighbor,
    is_ordering, retired, step_result, Direction,
};
use crate::tree::{
    initial_walls_are_closed, open_walls, unvisited_cells,
    unvisited_cells_are_walled_in, unvisited_upto, walls_count_as_a_tree,
};

verus! {

/// Every cell of the grid decodes to a state of its own.
pub open spec fn every_cell_decodes(buf: Seq<u8>) -> bool {
    forall|c: Point| c.in_grid() ==> cell_type_of(buf, c) != CellType::OutOfBounds
}

/// No visited cell has an unvisited neighbour.
pub open spec fn visited_are_closed_off(buf: Seq<u8>) -> bool {
    forall|a: Point, b: Point|
        #![trigger cell_type_of(buf, a), cell_type_of(buf, b)]
        a.in_grid() && b.in_grid() && a.adjacent(b) && cell_type_of(buf, a) == CellType::Visited
            ==> cell_type_of(buf, b) != CellType::Unvisited
}

/// Every cell of the grid is visited.
pub open spec fn every_cell_visited(buf: Seq<u8>) -> bool {
    forall|c: Point| c.in_grid() ==> cell_type_of(buf, c) == CellType::Visited
}

/// Where an open wall of the `i`-th cell of the trail may lead: to a
/// visited cell, or to the cell before or after it on the trail.
pub open spec fn leads_along(buf: Seq<u8>, trail: Seq<Point>, i: int, n: Point) -> bool {
    ||| cell_type_of(buf, n) == CellType::Visited
    ||| (i > 0 && n == trail[i - 1])
    ||| (i + 1 < trail.len() && n == trail[i + 1])
}

/// The `i`-th cell of the trail is next to the one after it, with an open
/// wall between them.
pub open spec fn joined(buf: Seq<u8>, trail: Seq<Point>, i: int) -> bool {
    trail[i].adjacent(trail[i + 1]) && wall_open(buf, trail[i + 1], trail[i])
}

/// `trail` is the way from the start to the head: its last cell is the
/// only head, the cells before it are the tails, each is joined to the next
/// by an open wall, and no open wall leads off the trail but to a visited
/// cell.
pub open spec fn on_trail(buf: Seq<u8>, trail: Seq<Point>) -> bool {
    &&& trail.len() >= 1
    &&& every_cell_decodes(buf)
    &&& unvisited_cells_are_walled_in(buf)
    &&& visited_are_closed_off(buf)
    &&& forall|i: int| 0 <= i < trail.len() ==> (#[trigger] trail[i]).in_grid()
    &&& forall|i: int, j: int| 0 <= i < j < trail.len() ==> trail[i] != trail[j]
    &&& forall|c: Point| cell_type_of(buf, c) == CellType::Head <==> c == trail.last()
    &&& forall|i: int|
        0 <= i < trail.len() - 1 ==> cell_type_of(buf, #[trigger] trail[i]) == CellType::Tail
    &&& forall|c: Point| cell_type_of(buf, c) == CellType::Tail ==> trail.contains(c)
    &&& forall|i: int| 0 <= i < trail.len() - 1 ==> #[trigger] joined(buf, trail, i)
    &&& forall|i: int, n: Point|
        0 <= i < trail.len() && n.in_grid() && trail[i].adjacent(n) && #[trigger] wall_open(
            buf,
            trail[i],
            n,
        ) ==> leads_along(buf, trail, i, n)
}

/// The maze is either being carved, with a trail from the start to the
/// head, or finished, with every cell visited.
pub open spec fn on_course(buf: Seq<u8>) -> bool {
    every_cell_visited(buf) || exists|trail: Seq<Point>| on_trail(buf, trail)
}

/// The head of a raster with a trail is the trail's last cell.
pub proof fn head_ends_the_trail(buf: Seq<u8>, trail: Seq<Point>)
    requires
        on_trail(buf, trail),
    ensures
        head_of(buf) == Some(trail.last()),
        trail.last().in_grid(),
{
    first_head_is_first(buf, 0);
    assert(trail[trail.len() - 1].in_grid());
}

/// Every neighbour of a cell lies in one of the four directions from it,
/// and an order of the directions holds that one.
pub proof fn order_reaches_every_neighbor(order: Seq<Direction>, c: Point, n: Point)
    requires
        is_ordering(order),
        c.adjacent(n),
    ensures
        exists|k: int| 0 <= k < 4 && n == c.neighbor(#[trigger] order[k]),
{
    let d = if n.y == c.y - 1 {
        Direction::Up
    } else if n.x == c.x - 1 {
        Direction::Left
    } else if n.y == c.y + 1 {
        Direction::Down
    } else {
        Direction::Right
    };
    assert(n == c.neighbor(d));
    let k = if order[0] == d {
        0int
    } else if order[1] == d {
        1int
    } else if order[2] == d {
        2int
    } else {
        3int
    };
    assert(order[k] == d);
}

/// After carving, an open wall of a cell on the lengthened trail leads to
/// a visited cell or along the trail.
proof fn carved_walls_lead_along(
    buf: Seq<u8>,
    after: Seq<u8>,
    trail: Seq<Point>,
    target: Point,
    i: int,
    n: Point,
)
    requires
        on_trail(buf, trail),
        carved_from(buf, after, trail.last(), target),
        target.in_grid(),
        trail.last().adjacent(target),
        cell_type_of(buf, target) == CellType::Unvisited,
        0 <= i <= trail.len(),
        n.in_grid(),
        trail.push(target)[i].adjacent(n),
        wall_open(after, trail.push(target)[i], n),
    ensures
        leads_along(after, trail.push(target), i, n),
{
    let head = trail.last();
    let longer = trail.push(target);
    let len = trail.len() as int;
    if i < len {
        assert(trail[i].in_grid());
    }
    assert(cell_type_of(after, n) == if n == target {
        CellType::Head
    } else if n == head {
        CellType::Tail
    } else {
        cell_type_of(buf, n)
    });
    if i == len {
        assert(!wall_open(buf, target, n));
        assert(n == longer[i - 1]);
    } else if wall_open(buf, trail[i], n) {
        assert(leads_along(buf, trail, i, n));
        if i > 0 && n == trail[i - 1] {
            assert(n == longer[i - 1]);
        } else if i + 1 < len && n == trail[i + 1] {
            assert(n == longer[i + 1]);
        } else {
            assert(cell_type_of(buf, n) == CellType::Visited);
        }
    } else {
        assert(cell_type_of(buf, trail[i]) != CellType::Unvisited);
        assert(trail[i] == head && n == target);
        assert(i == len - 1) by {
            if i < len - 1 {
                assert(trail[i] != trail[len - 1]);
            }
        }
        assert(n == longer[i + 1]);
    }
}

/// Carving from the end of the trail lengthens the trail by the cell
/// carved into.
pub proof fn carving_lengthens_the_trail(
    buf: Seq<u8>,
    after: Seq<u8>,
    trail: Seq<Point>,
    target: Point,
)
    requires
        on_trail(buf, trail),
        carved_from(buf, after, trail.last(), target),
        target.in_grid(),
        trail.last().adjacent(target),
        cell_type_of(buf, target) == CellType::Unvisited,
    ensures
        on_trail(after, trail.push(target)),
{
    let head = trail.last();
    let longer = trail.push(target);
    let len = trail.len() as int;
    assert(trail[len - 1].in_grid());
    assert forall|a: Point, b: Point|
        a.in_grid() && b.in_grid() && a.adjacent(b) && cell_type_of(after, a)
            == CellType::Unvisited implies !#[trigger] wall_open(after, a, b) by {
        assert(cell_type_of(buf, a) == CellType::Unvisited);
        assert(!wall_open(buf, a, b));
    }
    assert forall|i: int| 0 <= i < longer.len() implies (#[trigger] longer[i]).in_grid() by {
        if i < len {
            assert(trail[i].in_grid());
        }
    }
    assert forall|i: int, j: int| 0 <= i < j < longer.len() implies longer[i] != longer[j] by {
        if j == len {
            assert(cell_type_of(buf, trail[i]) != CellType::Unvisited);
        } else {
            assert(trail[i] != trail[j]);
        }
    }
    assert forall|i: int| 0 <= i < longer.len() - 1 implies cell_type_of(
        after,
        #[trigger] longer[i],
    ) == CellType::Tail by {
        assert(cell_type_of(buf, trail[i]) != CellType::Unvisited);
        if i < len - 1 {
            assert(cell_type_of(buf, trail[i]) == CellType::Tail);
        }
    }
    assert forall|c: Point| cell_type_of(after, c) == CellType::Tail implies longer.contains(
        c,
    ) by {
        if c == head {
            assert(longer[len - 1] == c);
        } else {
            assert(trail.contains(c));
            let i = choose|i: int| 0 <= i < trail.len() && trail[i] == c;
            assert(longer[i] == c);
        }
    }
    assert forall|i: int| 0 <= i < longer.len() - 1 implies #[trigger] joined(
        after,
        longer,
        i,
    ) by {
        if i + 1 < len {
            assert(joined(buf, trail, i));
            assert(trail[i].in_grid() && trail[i + 1].in_grid());
            assert(trail[i + 1].adjacent(trail[i]));
        } else {
            assert(target.adjacent(head));
        }
    }
    assert forall|i: int, n: Point|
        0 <= i < longer.len() && n.in_grid() && longer[i].adjacent(n) && #[trigger] wall_open(
            after,
            longer[i],
            n,
        ) implies leads_along(after, longer, i, n) by {
        carved_walls_lead_along(buf, after, trail, target, i, n);
    }
}

/// A step that carves lengthens the trail by the cell carved into.
pub proof fn carving_extends_the_trail(buf: Seq<u8>, order: Seq<Direction>, trail: Seq<Point>)
    requires
        is_raster(buf),
        on_trail(buf, trail),
        advance_target(buf, trail.last(), order) is Some,
    ensures
        on_trail(
            step_result(buf, order),
            trail.push(advance_target(buf, trail.last(), order).unwrap()),
        ),
{
    let after = step_result(buf, order);
    let head = trail.last();
    let target = advance_target(buf, head, order).unwrap();
    head_ends_the_trail(buf, trail);
    first_unvisited_is_neighbor(buf, head, order, 0);
    assert forall|c: Point|
        #[trigger] cell_type_of(after, c) == if c == target {
            CellType::Head
        } else if c == head {
            CellType::Tail
        } else {
            cell_type_of(buf, c)
        } by {
        step_cell_type(buf, order, c);
    }
    assert forall|a: Point, b: Point|
        a.in_grid() && b.in_grid() && a.adjacent(b) implies #[trigger] wall_open(after, a, b) == (
        wall_open(buf, a, b) || (a == head && b == target) || (a == target && b == head)) by {
        step_opens_one_wall(buf, order, a, b);
    }
    carving_lengthens_the_trail(buf, after, trail, target);
}

/// The cell before the head on the trail is where a step that cannot carve
/// goes back to.
pub proof fn way_back_is_along_the_trail(buf: Seq<u8>, order: Seq<Direction>, trail: Seq<Point>)
    requires
        is_raster(buf),
        on_trail(buf, trail),
        is_ordering(order),
    ensures
        backtrack_target(retired(buf, trail.last()), trail.last(), order) == if trail.len()
            >= 2 {
            Some(trail[trail.len() - 2])
        } else {
            None
        },
{
    let head = trail.last();
    let len = trail.len() as int;
    let left = retired(buf, head);
    head_ends_the_trail(buf, trail);
    first_tail_is_neighbor(left, head, order, 0);
    match backtrack_target(left, head, order) {
        Some(found) => {
            full_square_cell_type(buf, head, visited_color(), found);
            cell_paint_keeps_walls(buf, head, visited_color(), head, found);
            assert(wall_open(buf, trail[len - 1], found));
            assert(leads_along(buf, trail, len - 1, found));
        },
        None => {
            if len >= 2 {
                let back = trail[len - 2];
                assert(back.in_grid());
                assert(joined(buf, trail, len - 2));
                assert(cell_type_of(buf, back) == CellType::Tail);
                assert(back != trail[len - 1]);
                full_square_cell_type(buf, head, visited_color(), back);
                cell_paint_keeps_walls(buf, head, visited_color(), head, back);
                order_reaches_every_neighbor(order, head, back);
                let k = choose|k: int| 0 <= k < 4 && back == head.neighbor(#[trigger] order[k]);
                assert(cell_type_of(left, head.neighbor(order[k])) == CellType::Tail);
                assert(false);
            }
        },
    }
}

/// A head that cannot carve has no unvisited neighbour.
pub proof fn stuck_head_is_closed_off(buf: Seq<u8>, order: Seq<Direction>, head: Point, n: Point)
    requires
        is_ordering(order),
        advance_target(buf, head, order) is None,
        head.adjacent(n),
    ensures
        cell_type_of(buf, n) != CellType::Unvisited,
{
    first_unvisited_is_neighbor(buf, head, order, 0);
    order_reaches_every_neighbor(order, head, n);
    let k = choose|k: int| 0 <= k < 4 && n == head.neighbor(#[trigger] order[k]);
    assert(cell_type_of(buf, head.neighbor(order[k])) != CellType::Unvisited);
}

/// Going back from the end of the trail, which has no unvisited neighbour,
/// to the cell before it shortens the trail by the cell left.
pub proof fn going_back_shortens(buf: Seq<u8>, after: Seq<u8>, trail: Seq<Point>)
    requires
        on_trail(buf, trail),
        trail.len() >= 2,
        gone_back_from(buf, after, trail.last(), trail[trail.len() - 2]),
        forall|n: Point|
            n.in_grid() && trail.last().adjacent(n) ==> #[trigger] cell_type_of(buf, n)
                != CellType::Unvisited,
    ensures
        on_trail(after, trail.drop_last()),
{
    let head = trail.last();
    let len = trail.len() as int;
    let back = trail[len - 2];
    let shorter = trail.drop_last();
    assert(trail[len - 1].in_grid() && trail[len - 2].in_grid());
    assert(back != head) by {
        assert(trail[len - 2] != trail[len - 1]);
    }
    assert(cell_type_of(buf, trail[len - 2]) == CellType::Tail);
    assert forall|a: Point, b: Point|
        a.in_grid() && b.in_grid() && a.adjacent(b) && cell_type_of(after, a)
            == CellType::Unvisited implies !#[trigger] wall_open(after, a, b) by {
        assert(cell_type_of(buf, a) == CellType::Unvisited);
        assert(!wall_open(buf, a, b));
    }
    assert forall|c: Point| c.in_grid() implies cell_type_of(after, c)
        != CellType::OutOfBounds by {
    }
    assert forall|a: Point, b: Point|
        #![trigger cell_type_of(after, a), cell_type_of(after, b)]
        a.in_grid() && b.in_grid() && a.adjacent(b) && cell_type_of(after, a)
            == CellType::Visited implies cell_type_of(after, b) != CellType::Unvisited by {
        if a == head {
            assert(cell_type_of(buf, b) != CellType::Unvisited);
        }
    }
    assert forall|i: int| 0 <= i < shorter.len() implies (#[trigger] shorter[i]).in_grid() by {
        assert(trail[i].in_grid());
    }
    assert forall|i: int, j: int| 0 <= i < j < shorter.len() implies shorter[i]
        != shorter[j] by {
        assert(trail[i] != trail[j]);
    }
    assert forall|c: Point| cell_type_of(after, c) == CellType::Head <==> c
        == shorter.last() by {
    }
    assert forall|i: int| 0 <= i < shorter.len() - 1 implies cell_type_of(
        after,
        #[trigger] shorter[i],
    ) == CellType::Tail by {
        assert(cell_type_of(buf, trail[i]) == CellType::Tail);
        assert(trail[i] != trail[len - 2]);
    }
    assert forall|c: Point| cell_type_of(after, c) == CellType::Tail implies shorter.contains(
        c,
    ) by {
        assert(trail.contains(c));
        let i = choose|i: int| 0 <= i < trail.len() && trail[i] == c;
        assert(i < len - 1);
        assert(shorter[i] == c);
    }
    assert forall|i: int| 0 <= i < shorter.len() - 1 implies #[trigger] joined(
        after,
        shorter,
        i,
    ) by {
        assert(joined(buf, trail, i));
        assert(trail[i].in_grid() && trail[i + 1].in_grid());
        assert(trail[i + 1].adjacent(trail[i]));
    }
    assert forall|i: int, n: Point|
        0 <= i < shorter.len() && n.in_grid() && shorter[i].adjacent(n) && #[trigger] wall_open(
            after,
            shorter[i],
            n,
        ) implies leads_along(after, shorter, i, n) by {
        assert(trail[i].in_grid());
        assert(wall_open(buf, trail[i], n));
        assert(leads_along(buf, trail, i, n));
        if i > 0 && n == trail[i - 1] {
            assert(n == shorter[i - 1]);
        } else if i + 1 < len && n == trail[i + 1] {
            if i + 1 < len - 1 {
                assert(n == shorter[i + 1]);
            }
        } else {
            assert(cell_type_of(buf, n) == CellType::Visited);
            assert(n != trail[len - 2]);
        }
    }
}

/// A step that goes back shortens the trail by the cell it leaves.
pub proof fn going_back_shortens_the_trail(
    buf: Seq<u8>,
    order: Seq<Direction>,
    trail: Seq<Point>,
)
    requires
        is_raster(buf),
        on_trail(buf, trail),
        is_ordering(order),
        advance_target(buf, trail.last(), order) is None,
        trail.len() >= 2,
    ensures
        on_trail(step_result(buf, order), trail.drop_last()),
{
    let head = trail.last();
    head_ends_the_trail(buf, trail);
    way_back_is_along_the_trail(buf, order, trail);
    going_back_step_goes_back(buf, order);
    assert forall|n: Point| n.in_grid() && head.adjacent(n) implies #[trigger] cell_type_of(
        buf,
        n,
    ) != CellType::Unvisited by {
        stuck_head_is_closed_off(buf, order, head, n);
    }
    going_back_shortens(buf, step_result(buf, order), trail);
}

/// From a visited cell, being closed off spreads over the whole grid: where
/// no cell is head or tail and no visited cell has an unvisited neighbour,
/// every cell is visited.
pub proof fn visited_spreads(buf: Seq<u8>, root: Point, c: Point)
    requires
        root.in_grid(),
        c.in_grid(),
        cell_type_of(buf, root) == CellType::Visited,
        visited_are_closed_off(buf),
        forall|p: Point|
            p.in_grid() ==> cell_type_of(buf, p) == CellType::Visited || cell_type_of(buf, p)
                == CellType::Unvisited,
    ensures
        cell_type_of(buf, c) == CellType::Visited,
    decreases vstd::math::abs(c.x - root.x) + vstd::math::abs(c.y - root.y),
{
    if c != root {
        let nearer = if c.x > root.x {
            Point { x: c.x - 1, y: c.y }
        } else if c.x < root.x {
            Point { x: c.x + 1, y: c.y }
        } else if c.y > root.y {
            Point { x: c.x, y: c.y - 1 }
        } else {
            Point { x: c.x, y: c.y + 1 }
        };
        visited_spreads(buf, root, nearer);
        assert(nearer.adjacent(c));
        assert(cell_type_of(buf, nearer) == CellType::Visited && cell_type_of(buf, c)
            != CellType::Unvisited);
    }
}

/// A step from the start of the trail with nowhere to carve to finishes the
/// maze: every cell is visited.
pub proof fn last_step_finishes(buf: Seq<u8>, order: Seq<Direction>, trail: Seq<Point>)
    requires
        is_raster(buf),
        on_trail(buf, trail),
        is_ordering(order),
        advance_target(buf, trail.last(), order) is None,
        trail.len() == 1,
    ensures
        every_cell_visited(step_result(buf, order)),
{
    let after = step_result(buf, order);
    let head = trail.last();
    head_ends_the_trail(buf, trail);
    way_back_is_along_the_trail(buf, order, trail);
    step_cell_type(buf, order, head);
    assert forall|a: Point, b: Point|
        #![trigger cell_type_of(after, a), cell_type_of(after, b)]
        a.in_grid() && b.in_grid() && a.adjacent(b) && cell_type_of(after, a)
            == CellType::Visited implies cell_type_of(after, b) != CellType::Unvisited by {
        step_cell_type(buf, order, a);
        step_cell_type(buf, order, b);
        if a == head {
            stuck_head_is_closed_off(buf, order, head, b);
        }
    }
    assert forall|p: Point| p.in_grid() implies cell_type_of(after, p) == CellType::Visited
        || cell_type_of(after, p) == CellType::Unvisited by {
        step_cell_type(buf, order, p);
        if cell_type_of(buf, p) == CellType::Tail {
            assert(trail.contains(p));
            let i = choose|i: int| 0 <= i < trail.len() && trail[i] == p;
            assert(p == head);
        }
    }
    assert forall|c: Point| c.in_grid() implies cell_type_of(after, c)
        == CellType::Visited by {
        visited_spreads(after, head, c);
    }
}

/// A step with a full order of directions keeps the maze on course.
pub proof fn step_stays_on_course(buf: Seq<u8>, order: Seq<Direction>)
    requires
        is_raster(buf),
        on_course(buf),
        is_ordering(order),
    ensures
        on_course(step_result(buf, order)),
{
    if every_cell_visited(buf) {
        first_head_is_first(buf, 0);
    } else {
        let trail = choose|trail: Seq<Point>| on_trail(buf, trail);
        head_ends_the_trail(buf, trail);
        if advance_target(buf, trail.last(), order) is Some {
            carving_extends_the_trail(buf, order, trail);
        } else if trail.len() >= 2 {
            going_back_shortens_the_trail(buf, order, trail);
        } else {
            last_step_finishes(buf, order, trail);
        }
    }
}

/// A freshly laid-out maze has a trail: the centre cell alone.
pub proof fn initial_trail()
    ensures
        on_trail(initial_raster(), seq![Point::center()]),
{
    let buf = initial_raster();
    let trail = seq![Point::center()];
    assert forall|c: Point| c.in_grid() implies cell_type_of(buf, c)
        != CellType::OutOfBounds by {
        initial_cell_type(c);
    }
    assert forall|a: Point, b: Point|
        a.in_grid() && b.in_grid() && a.adjacent(b) && cell_type_of(buf, a)
            == CellType::Unvisited implies !#[trigger] wall_open(buf, a, b) by {
        initial_walls_are_closed(a, b);
    }
    assert forall|a: Point, b: Point|
        #![trigger cell_type_of(buf, a), cell_type_of(buf, b)]
        a.in_grid() && b.in_grid() && a.adjacent(b) && cell_type_of(buf, a)
            == CellType::Visited implies cell_type_of(buf, b) != CellType::Unvisited by {
        initial_cell_type(a);
    }
    assert forall|c: Point| cell_type_of(buf, c) == CellType::Head <==> c == trail.last() by {
        initial_cell_type(c);
    }
    assert forall|c: Point| cell_type_of(buf, c) == CellType::Tail implies trail.contains(
        c,
    ) by {
        initial_cell_type(c);
    }
    assert forall|i: int, n: Point|
        0 <= i < trail.len() && n.in_grid() && trail[i].adjacent(n) && #[trigger] wall_open(
            buf,
            trail[i],
            n,
        ) implies leads_along(buf, trail, i, n) by {
        initial_walls_are_closed(trail[i], n);
    }
}

/// Through any run of frames from a freshly laid-out maze, with a full
/// order of directions for each frame, the maze stays on course.
pub proof fn runs_stay_on_course(orders: Seq<Seq<Direction>>)
    requires
        forall|i: int| 0 <= i < orders.len() ==> is_ordering(#[trigger] orders[i]),
    ensures
        on_course(after_frames(initial_raster(), orders)),
    decreases orders.len(),
{
    initial_cell_type(Point::center());
    if orders.len() == 0 {
        initial_trail();
    } else {
        let earlier = orders.drop_last();
        assert forall|i: int| 0 <= i < earlier.len() implies is_ordering(
            #[trigger] earlier[i],
        ) by {
            assert(earlier[i] == orders[i]);
        }
        runs_stay_on_course(earlier);
        runs_keep_the_raster(initial_raster(), earlier);
        step_stays_on_course(after_frames(initial_raster(), earlier), orders.last());
    }
}

/// Where every cell is visited, none is counted as unvisited.
pub proof fn none_left_unvisited(buf: Seq<u8>, k: int)
    requires
        0 <= k <= CELL_COUNT,
        every_cell_visited(buf),
    ensures
        unvisited_upto(buf, k) == 0,
    decreases k,
{
    if k > 0 {
        none_left_unvisited(buf, k - 1);
        assert(cell_number(k - 1).in_grid());
    }
}

/// A finished maze is a spanning tree: when a run of frames from a freshly
/// laid-out maze, with a full order of directions for each frame, has left
/// no head, every cell is visited and the open walls are one fewer than the
/// cells.
pub proof fn finished_maze_spans_the_grid(orders: Seq<Seq<Direction>>)
    requires
        forall|i: int| 0 <= i < orders.len() ==> is_ordering(#[trigger] orders[i]),
        head_of(after_frames(initial_raster(), orders)) is None,
    ensures
        every_cell_visited(after_frames(initial_raster(), orders)),
        unvisited_cells(after_frames(initial_raster(), orders)) == 0,
        open_walls(after_frames(initial_raster(), orders)) == CELL_COUNT - 1,
{
    let last = after_frames(initial_raster(), orders);
    runs_stay_on_course(orders);
    if !every_cell_visited(last) {
        let trail = choose|trail: Seq<Point>| on_trail(last, trail);
        head_ends_the_trail(last, trail);
    }
    none_left_unvisited(last, CELL_COUNT as int);
    walls_count_as_a_tree(orders);
}

} // verus!
