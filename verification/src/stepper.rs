//! The carver: one step of depth-first carving or backtracking per frame.

use vstd::prelude::*;
use crate::decode::{cell_type, cell_type_of, find_head, head_of, view_of};
use crate::geometry::{Point, Pos};
use crate::palette::{head_color, tail_color, visited_color, CellType};
use crate::raster::is_raster;
use crate::render::{
    connect, full_square, init_buffer, initial_raster, is_connected, set_head, set_tail,
    wall_open, with_connection, with_full_square, with_middle_square,
};

verus! {

/// The four ways from a cell to a neighbour.
#[derive(PartialEq, Eq, Structural, Copy, Clone, Debug)]
pub enum Direction {
    Up,
    Left,
    Down,
    Right,
}

impl Direction {
    /// The step this direction takes, as a change of coordinates; `y` grows
    /// downwards.
    pub open spec fn delta(self) -> Point {
        match self {
            Direction::Up => Point { x: 0, y: -1 },
            Direction::Left => Point { x: -1, y: 0 },
            Direction::Down => Point { x: 0, y: 1 },
            Direction::Right => Point { x: 1, y: 0 },
        }
    }

    /// The step this direction takes, to be added to a cell's coordinates.
    pub fn offset(self) -> (p: Pos)
        ensures
            p@ == self.delta(),
    {
        match self {
            Direction::Up => Pos::new(0, -1),
            Direction::Left => Pos::new(-1, 0),
            Direction::Down => Pos::new(0, 1),
            Direction::Right => Pos::new(1, 0),
        }
    }
}

impl Point {
    /// The neighbouring coordinate in direction `d`, on the grid or not.
    pub open spec fn neighbor(self, d: Direction) -> Point {
        Point { x: self.x + d.delta().x, y: self.y + d.delta().y }
    }
}

/// The directions before any shuffling.
pub open spec fn unshuffled() -> Seq<Direction> {
    seq![Direction::Up, Direction::Left, Direction::Down, Direction::Right]
}

/// `s` with the entries at `i` and `j` exchanged.
pub open spec fn swapped(s: Seq<Direction>, i: int, j: int) -> Seq<Direction> {
    s.update(i, s[j]).update(j, s[i])
}

/// Picks for a shuffle of four: the `i`-th says how many places past `i`
/// the entry for place `i` is taken from, and stays within the four.
pub open spec fn are_picks(picks: Seq<usize>) -> bool {
    &&& picks.len() == 4
    &&& forall|i: int| 0 <= i < 4 ==> i + #[trigger] picks[i] < 4
}

/// `s` after exchanging, for each place from `i` on in turn, the entry at
/// that place with the entry as many places further on as was picked for
/// it.
pub open spec fn shuffled_from(s: Seq<Direction>, picks: Seq<usize>, i: int) -> Seq<Direction>
    decreases picks.len() - i,
{
    if i < 0 || i >= picks.len() {
        s
    } else {
        shuffled_from(swapped(s, i, i + picks[i]), picks, i + 1)
    }
}

/// The order that a shuffle with `picks` gives.
pub open spec fn shuffled(picks: Seq<usize>) -> Seq<Direction> {
    shuffled_from(unshuffled(), picks, 0)
}

/// Whether `d` is among the first four entries of `s`.
pub open spec fn holds(s: Seq<Direction>, d: Direction) -> bool {
    s[0] == d || s[1] == d || s[2] == d || s[3] == d
}

/// Four entries that hold every direction, hence each exactly once.
pub open spec fn is_ordering(s: Seq<Direction>) -> bool {
    &&& s.len() == 4
    &&& holds(s, Direction::Up)
    &&& holds(s, Direction::Left)
    &&& holds(s, Direction::Down)
    &&& holds(s, Direction::Right)
}

/// Turns four picks into an order of the four directions: for `i` from 0
/// to 3, place `i` is exchanged with the place `picks[i]` further on. Each
/// order comes from exactly one choice of picks, so picks drawn evenly give
/// every order as often as any other.
pub fn shuffle(picks: [usize; 4]) -> (order: [Direction; 4])
    requires
        are_picks(picks@),
    ensures
        order@ == shuffled(picks@),
        is_ordering(order@),
{
    let mut directions: [Direction; 4] = [
        Direction::Up,
        Direction::Left,
        Direction::Down,
        Direction::Right,
    ];
    assert(directions@ =~= unshuffled());
    let mut i: usize = 0;
    while i < 4
        invariant
            0 <= i <= 4,
            are_picks(picks@),
            is_ordering(directions@),
            shuffled(picks@) == shuffled_from(directions@, picks@, i as int),
        decreases 4 - i,
    {
        let j = i + picks[i];
        let a = directions[i];
        let b = directions[j];
        let ghost before = directions@;
        directions[i] = b;
        directions[j] = a;
        assert(directions@ =~= swapped(before, i as int, j as int));
        i += 1;
    }
    directions
}

/// How many places past `i` the direction `d` stands in `s`.
pub open spec fn places_on(s: Seq<Direction>, d: Direction, i: int) -> usize {
    if s[i] == d {
        0
    } else if s[i + 1] == d {
        1
    } else if s[i + 2] == d {
        2
    } else {
        3
    }
}

/// The picks that shuffle into `order`.
pub open spec fn picks_for(order: Seq<Direction>) -> Seq<usize> {
    let first = places_on(unshuffled(), order[0], 0);
    let once = swapped(unshuffled(), 0, first as int);
    let second = places_on(once, order[1], 1);
    let twice = swapped(once, 1, 1 + second);
    let third = places_on(twice, order[2], 2);
    seq![first, second, third, 0usize]
}

/// Every order of the four directions is what some picks shuffle into.
pub proof fn every_order_is_shuffled_into(order: Seq<Direction>)
    requires
        is_ordering(order),
    ensures
        are_picks(picks_for(order)),
        shuffled(picks_for(order)) == order,
{
    let picks = picks_for(order);
    let once = swapped(unshuffled(), 0, picks[0] as int);
    let twice = swapped(once, 1, 1 + picks[1]);
    let thrice = swapped(twice, 2, 2 + picks[2]);
    let all = swapped(thrice, 3, 3 + picks[3]);
    assert(all =~= order);
    reveal_with_fuel(shuffled_from, 5);
    assert(shuffled(picks) == all);
}

/// Different picks shuffle into different orders.
pub proof fn picks_shuffle_apart(p: Seq<usize>, q: Seq<usize>)
    requires
        are_picks(p),
        are_picks(q),
        shuffled(p) == shuffled(q),
    ensures
        p == q,
{
    reveal_with_fuel(shuffled_from, 5);
    let p1 = swapped(unshuffled(), 0, p[0] as int);
    let p2 = swapped(p1, 1, 1 + p[1]);
    let p3 = swapped(p2, 2, 2 + p[2]);
    let p4 = swapped(p3, 3, 3 + p[3]);
    let q1 = swapped(unshuffled(), 0, q[0] as int);
    let q2 = swapped(q1, 1, 1 + q[1]);
    let q3 = swapped(q2, 2, 2 + q[2]);
    let q4 = swapped(q3, 3, 3 + q[3]);
    assert(shuffled(p) == p4);
    assert(shuffled(q) == q4);
    assert(p4[0] == q4[0] && p4[1] == q4[1] && p4[2] == q4[2]);
    assert(p[0] == q[0]);
    assert(p[1] == q[1]);
    assert(p[2] == q[2]);
    assert(p[3] == q[3]);
    assert(p =~= q);
}

/// The first neighbour of `head`, from place `i` of `order` on, that is
/// unvisited.
pub open spec fn first_unvisited(buf: Seq<u8>, head: Point, order: Seq<Direction>, i: int)
    -> Option<Point>
    decreases order.len() - i,
{
    if i < 0 || i >= order.len() {
        None
    } else if cell_type_of(buf, head.neighbor(order[i])) == CellType::Unvisited {
        Some(head.neighbor(order[i]))
    } else {
        first_unvisited(buf, head, order, i + 1)
    }
}

/// The first neighbour of `head`, from place `i` of `order` on, that is a
/// tail and has an open wall to `head`.
pub open spec fn first_tail(buf: Seq<u8>, head: Point, order: Seq<Direction>, i: int) -> Option<
    Point,
>
    decreases order.len() - i,
{
    if i < 0 || i >= order.len() {
        None
    } else if cell_type_of(buf, head.neighbor(order[i])) == CellType::Tail && wall_open(
        buf,
        head,
        head.neighbor(order[i]),
    ) {
        Some(head.neighbor(order[i]))
    } else {
        first_tail(buf, head, order, i + 1)
    }
}

/// The cell to carve into from `head`, if one is left.
pub open spec fn advance_target(buf: Seq<u8>, head: Point, order: Seq<Direction>) -> Option<
    Point,
> {
    first_unvisited(buf, head, order, 0)
}

/// The cell to go back to from `head`, if there is a way back.
pub open spec fn backtrack_target(buf: Seq<u8>, head: Point, order: Seq<Direction>) -> Option<
    Point,
> {
    first_tail(buf, head, order, 0)
}

/// The raster after carving from `head` into `target`: the old head filled
/// as visited and marked as tail, the target marked as head, the wall
/// between them opened.
pub open spec fn carved(buf: Seq<u8>, head: Point, target: Point) -> Seq<u8> {
    with_connection(
        with_middle_square(
            with_middle_square(
                with_full_square(buf, head, visited_color()),
                head,
                tail_color(),
            ),
            target,
            head_color(),
        ),
        head,
        target,
    )
}

/// The raster after the head has left `head` for good.
pub open spec fn retired(buf: Seq<u8>, head: Point) -> Seq<u8> {
    with_full_square(buf, head, visited_color())
}

/// The raster after one step: nothing changes without a head; with one, the
/// carver advances if it can, else retires the head and goes back if it can.
pub open spec fn step_result(buf: Seq<u8>, order: Seq<Direction>) -> Seq<u8> {
    match head_of(buf) {
        None => buf,
        Some(head) => match advance_target(buf, head, order) {
            Some(target) => carved(buf, head, target),
            None => match backtrack_target(retired(buf, head), head, order) {
                Some(target) => with_middle_square(retired(buf, head), target, head_color()),
                None => retired(buf, head),
            },
        },
    }
}

/// Whether a frame lays out a new maze instead of stepping: on request, or
/// when the first pixel is not opaque.
pub open spec fn starts_over(buf: Seq<u8>, key_down: bool) -> bool {
    buf[3] != 255 || key_down
}

/// The raster after one frame.
pub open spec fn frame_result(buf: Seq<u8>, key_down: bool, order: Seq<Direction>) -> Seq<u8> {
    if starts_over(buf, key_down) {
        initial_raster()
    } else {
        step_result(buf, order)
    }
}

/// What the search for a cell to carve into finds is a neighbour of `head`
/// on the grid that is unvisited.
pub proof fn first_unvisited_is_neighbor(
    buf: Seq<u8>,
    head: Point,
    order: Seq<Direction>,
    i: int,
)
    ensures
        match first_unvisited(buf, head, order, i) {
            Some(t) => {
                &&& t.in_grid()
                &&& head.adjacent(t)
                &&& cell_type_of(buf, t) == CellType::Unvisited
            },
            None => forall|k: int|
                0 <= i <= k < order.len() ==> cell_type_of(buf, head.neighbor(#[trigger] order[k]))
                    != CellType::Unvisited,
        },
    decreases order.len() - i,
{
    if 0 <= i < order.len() {
        if cell_type_of(buf, head.neighbor(order[i])) != CellType::Unvisited {
            first_unvisited_is_neighbor(buf, head, order, i + 1);
        }
    }
}

/// What the search for a way back finds is a neighbour of `head` on the
/// grid that is a tail with an open wall to `head`.
pub proof fn first_tail_is_neighbor(buf: Seq<u8>, head: Point, order: Seq<Direction>, i: int)
    ensures
        match first_tail(buf, head, order, i) {
            Some(t) => {
                &&& t.in_grid()
                &&& head.adjacent(t)
                &&& cell_type_of(buf, t) == CellType::Tail
                &&& wall_open(buf, head, t)
            },
            None => forall|k: int|
                0 <= i <= k < order.len() ==> !(cell_type_of(
                    buf,
                    head.neighbor(#[trigger] order[k]),
                ) == CellType::Tail && wall_open(buf, head, head.neighbor(order[k]))),
        },
    decreases order.len() - i,
{
    if 0 <= i < order.len() {
        if !(cell_type_of(buf, head.neighbor(order[i])) == CellType::Tail && wall_open(
            buf,
            head,
            head.neighbor(order[i]),
        )) {
            first_tail_is_neighbor(buf, head, order, i + 1);
        }
    }
}

/// Looks for the cell to carve into: the first unvisited neighbour of
/// `head_coord` in the given order.
pub fn find_unvisited(frame_buffer: &[u8], head_coord: Pos, order: &[Direction; 4]) -> (target:
    Option<Pos>)
    requires
        is_raster(frame_buffer@),
        head_coord@.in_grid(),
    ensures
        view_of(target) == advance_target(frame_buffer@, head_coord@, order@),
{
    let mut i: usize = 0;
    while i < 4
        invariant
            0 <= i <= 4,
            is_raster(frame_buffer@),
            head_coord@.in_grid(),
            advance_target(frame_buffer@, head_coord@, order@) == first_unvisited(
                frame_buffer@,
                head_coord@,
                order@,
                i as int,
            ),
        decreases 4 - i,
    {
        let new_coord = head_coord + order[i].offset();
        assert(new_coord@ == head_coord@.neighbor(order@[i as int]));
        if cell_type(frame_buffer, new_coord) == CellType::Unvisited {
            return Some(new_coord);
        }
        i += 1;
    }
    None
}

/// Looks for the way back: the first neighbour of `head_coord` in the given
/// order that is a tail and has an open wall to `head_coord`.
pub fn find_tail(frame_buffer: &[u8], head_coord: Pos, order: &[Direction; 4]) -> (target:
    Option<Pos>)
    requires
        is_raster(frame_buffer@),
        head_coord@.in_grid(),
    ensures
        view_of(target) == backtrack_target(frame_buffer@, head_coord@, order@),
{
    let mut i: usize = 0;
    while i < 4
        invariant
            0 <= i <= 4,
            is_raster(frame_buffer@),
            head_coord@.in_grid(),
            backtrack_target(frame_buffer@, head_coord@, order@) == first_tail(
                frame_buffer@,
                head_coord@,
                order@,
                i as int,
            ),
        decreases 4 - i,
    {
        let backtrack_coord = head_coord + order[i].offset();
        assert(backtrack_coord@ == head_coord@.neighbor(order@[i as int]));
        if cell_type(frame_buffer, backtrack_coord) == CellType::Tail && is_connected(
            frame_buffer,
            head_coord,
            backtrack_coord,
        ) {
            return Some(backtrack_coord);
        }
        i += 1;
    }
    None
}

/// Takes one step of the carver, trying the neighbours of the head in the
/// given order.
pub fn step(frame_buffer: &mut [u8], order: &[Direction; 4])
    requires
        is_raster(old(frame_buffer)@),
    ensures
        final(frame_buffer)@ == step_result(old(frame_buffer)@, order@),
{
    if let Some(head_coord) = find_head(frame_buffer) {
        let advance = find_unvisited(frame_buffer, head_coord, order);
        proof {
            first_unvisited_is_neighbor(frame_buffer@, head_coord@, order@, 0);
        }
        full_square(frame_buffer, head_coord, visited_color());
        if let Some(new_coord) = advance {
            set_tail(frame_buffer, head_coord);
            set_head(frame_buffer, new_coord);
            connect(frame_buffer, head_coord, new_coord);
        } else {
            let back = find_tail(frame_buffer, head_coord, order);
            proof {
                first_tail_is_neighbor(frame_buffer@, head_coord@, order@, 0);
            }
            if let Some(backtrack_coord) = back {
                set_head(frame_buffer, backtrack_coord);
            }
        }
    }
}

/// Whether the next frame will look at the order of directions at all: it
/// does when it takes a step and there is a head to step from.
pub fn needs_order(frame_buffer: &[u8], key_down: bool) -> (needed: bool)
    requires
        is_raster(frame_buffer@),
    ensures
        needed == (!starts_over(frame_buffer@, key_down) && head_of(frame_buffer@) is Some),
{
    if frame_buffer[3] != 255 || key_down {
        false
    } else {
        find_head(frame_buffer).is_some()
    }
}

/// One frame of the animation: lays out a new maze when asked to or when the
/// raster has never been laid out, else takes one step.
pub fn frame(frame_buffer: &mut [u8], key_down: bool, order: [Direction; 4])
    requires
        is_raster(old(frame_buffer)@),
    ensures
        final(frame_buffer)@ == frame_result(old(frame_buffer)@, key_down, order@),
{
    if frame_buffer[3] != 255 || key_down {
        init_buffer(frame_buffer);
    } else {
        step(frame_buffer, &order);
    }
}

} // verus!
