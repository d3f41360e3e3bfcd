use a_maze::decode::{cell_type, find_head};
use a_maze::geometry::{head_pos, mid, Pos, CELL_DIM, DOT_SIZE, GRID, HEIGHT, WIDTH};
use a_maze::palette::{
    border_color, connected, decode, head_color, tail_color, unvisited_color, visited_color,
    CellType, Color,
};
use a_maze::raster::{get_pixel, paint_rect, set_pixel, RASTER_LEN};
use a_maze::render::{
    connect, full_square, init_buffer, is_connected, magnitude, middle_square, set_head, set_tail,
};
use a_maze::stepper::{
    find_tail, find_unvisited, frame, needs_order, shuffle, step, Direction,
};

const UP: Direction = Direction::Up;
const LEFT: Direction = Direction::Left;
const DOWN: Direction = Direction::Down;
const RIGHT: Direction = Direction::Right;

const FORCED: [Direction; 4] =
    [Direction::Up, Direction::Left, Direction::Down, Direction::Right];

fn fresh() -> Vec<u8> {
    let mut buf = vec![0u8; RASTER_LEN];
    init_buffer(&mut buf);
    buf
}

fn cells() -> Vec<Pos> {
    let mut all = Vec::new();
    for y in 0..CELL_DIM {
        for x in 0..CELL_DIM {
            all.push(Pos::new(x, y));
        }
    }
    all
}

fn count(buf: &Vec<u8>, t: CellType) -> usize {
    cells().into_iter().filter(|c| cell_type(buf, *c) == t).count()
}

/// Each wall of the grid once, as the pair of cells it parts.
fn walls() -> Vec<(Pos, Pos)> {
    let mut all = Vec::new();
    for c in cells() {
        if c.x + 1 < CELL_DIM {
            all.push((c, Pos::new(c.x + 1, c.y)));
        }
        if c.y + 1 < CELL_DIM {
            all.push((c, Pos::new(c.x, c.y + 1)));
        }
    }
    all
}

fn open_walls(buf: &Vec<u8>) -> usize {
    walls().into_iter().filter(|(a, b)| is_connected(buf, *a, *b)).count()
}

struct Dice(u64);

impl Dice {
    fn below(&mut self, n: usize) -> usize {
        self.0 = self.0.wrapping_mul(6364136223846793005).wrapping_add(1442695040888963407);
        ((self.0 >> 33) % n as u64) as usize
    }

    fn order(&mut self) -> [Direction; 4] {
        shuffle([self.below(4), self.below(3), self.below(2), self.below(1)])
    }
}

#[test]
fn palette_decodes_each_state() {
    assert_eq!(decode(Color { r: 143, g: 59, b: 27 }), CellType::Head);
    assert_eq!(decode(Color { r: 185, g: 156, b: 107 }), CellType::Tail);
    assert_eq!(decode(Color { r: 189, g: 208, b: 156 }), CellType::Visited);
    assert_eq!(decode(Color { r: 102, g: 141, b: 60 }), CellType::Unvisited);
    assert_eq!(decode(Color { r: 73, g: 56, b: 41 }), CellType::OutOfBounds);
    assert_eq!(decode(Color { r: 143, g: 59, b: 28 }), CellType::OutOfBounds);
    assert_eq!(decode(Color { r: 0, g: 0, b: 0 }), CellType::OutOfBounds);
}

#[test]
fn palette_colors_are_distinct() {
    let all = [
        head_color(),
        tail_color(),
        border_color(),
        visited_color(),
        unvisited_color(),
        connected(),
    ];
    for i in 0..all.len() {
        for j in 0..all.len() {
            assert_eq!(all[i] == all[j], i == j);
        }
    }
    assert_eq!(decode(connected()), CellType::OutOfBounds);
}

#[test]
fn open_wall_has_a_colour_of_its_own() {
    let mut buf = fresh();
    let a = Pos::new(3, 4);
    let b = Pos::new(4, 4);
    connect(&mut buf, a, b);
    let wall = get_pixel(&buf, mid(a, b));
    assert_eq!(wall, connected());
    for other in [head_color(), tail_color(), border_color(), visited_color(), unvisited_color()]
    {
        assert_ne!(wall, other);
    }
}

#[test]
fn cell_type_off_the_grid_needs_no_raster() {
    let empty: Vec<u8> = Vec::new();
    for c in [Pos::new(-1, 0), Pos::new(0, -1), Pos::new(17, 3), Pos::new(3, 17)] {
        assert_eq!(cell_type(&empty, c), CellType::OutOfBounds);
        assert_eq!(cell_type(&[1u8, 2, 3], c), CellType::OutOfBounds);
    }
}

#[test]
fn geometry_constants() {
    assert_eq!(WIDTH, 256);
    assert_eq!(HEIGHT, 256);
    assert_eq!(GRID, 15);
    assert_eq!(DOT_SIZE, 10);
    assert_eq!(CELL_DIM, WIDTH / GRID);
    assert_eq!(CELL_DIM % 2, 1);
    assert_eq!(RASTER_LEN, (WIDTH * HEIGHT * 4) as usize);
}

#[test]
fn pos_arithmetic() {
    assert_eq!(Pos::new(2, 3) + Pos::new(-1, 4), Pos::new(1, 7));
    assert_eq!(Pos::new(2, 3) + 5, Pos::new(7, 8));
    assert_eq!(Pos::new(2, -3) * 15, Pos::new(30, -45));
    assert_eq!(Pos::new(31, 45) / 2, Pos::new(15, 22));
}

#[test]
fn sample_pixel_of_a_cell() {
    assert_eq!(head_pos(Pos::new(0, 0)), Pos::new(3, 3));
    assert_eq!(head_pos(Pos::new(2, 3)), Pos::new(33, 48));
    assert_eq!(head_pos(Pos::new(16, 16)), Pos::new(243, 243));
}

#[test]
fn wall_midpoints() {
    assert_eq!(mid(Pos::new(0, 0), Pos::new(1, 0)), Pos::new(15, 7));
    assert_eq!(mid(Pos::new(1, 0), Pos::new(0, 0)), Pos::new(15, 7));
    assert_eq!(mid(Pos::new(0, 0), Pos::new(0, 1)), Pos::new(7, 15));
    assert_eq!(mid(Pos::new(8, 8), Pos::new(8, 7)), Pos::new(127, 120));
    assert_eq!(mid(Pos::new(15, 16), Pos::new(16, 16)), Pos::new(240, 247));
}

#[test]
fn magnitude_drops_the_sign() {
    assert_eq!(magnitude(-1), 1);
    assert_eq!(magnitude(0), 0);
    assert_eq!(magnitude(7), 7);
}

#[test]
fn set_pixel_writes_three_bytes() {
    let mut buf = vec![9u8; RASTER_LEN];
    set_pixel(&mut buf, Pos::new(2, 1), Color { r: 1, g: 2, b: 3 });
    let idx = (2 + 256) * 4;
    assert_eq!(&buf[idx..idx + 4], &[1, 2, 3, 9]);
    assert_eq!(buf.iter().filter(|b| **b != 9).count(), 3);
    assert_eq!(get_pixel(&buf, Pos::new(2, 1)), Color { r: 1, g: 2, b: 3 });
    assert_eq!(get_pixel(&buf, Pos::new(1, 2)), Color { r: 9, g: 9, b: 9 });
}

#[test]
fn set_pixel_reaches_the_last_pixel() {
    let mut buf = vec![0u8; RASTER_LEN];
    set_pixel(&mut buf, Pos::new(255, 255), Color { r: 4, g: 5, b: 6 });
    assert_eq!(&buf[RASTER_LEN - 4..], &[4, 5, 6, 0]);
}

#[test]
fn paint_rect_fills_exactly_the_block() {
    let mut buf = vec![0u8; RASTER_LEN];
    let c = Color { r: 10, g: 20, b: 30 };
    paint_rect(&mut buf, Pos::new(5, 7), 3, 2, c);
    for y in 0..HEIGHT {
        for x in 0..WIDTH {
            let inside = (5..8).contains(&x) && (7..9).contains(&y);
            let want = if inside { c } else { Color { r: 0, g: 0, b: 0 } };
            assert_eq!(get_pixel(&buf, Pos::new(x, y)), want);
        }
    }
    assert!(buf.iter().skip(3).step_by(4).all(|a| *a == 0));
}

#[test]
fn paint_rect_of_no_size_paints_nothing() {
    let mut buf = vec![0u8; RASTER_LEN];
    paint_rect(&mut buf, Pos::new(5, 7), 0, 4, Color { r: 1, g: 1, b: 1 });
    paint_rect(&mut buf, Pos::new(256, 256), 0, 0, Color { r: 1, g: 1, b: 1 });
    assert!(buf.iter().all(|b| *b == 0));
}

#[test]
fn full_square_leaves_grid_lines() {
    let mut buf = fresh();
    let c = Pos::new(2, 3);
    full_square(&mut buf, c, visited_color());
    for y in 0..HEIGHT {
        for x in 0..WIDTH {
            let inside = (31..45).contains(&x) && (46..60).contains(&y);
            let p = get_pixel(&buf, Pos::new(x, y));
            assert_eq!(p == visited_color(), inside);
        }
    }
    assert_eq!(cell_type(&buf, c), CellType::Visited);
}

#[test]
fn middle_square_is_the_marker() {
    let mut buf = fresh();
    let c = Pos::new(0, 16);
    middle_square(&mut buf, c, tail_color());
    for y in 0..HEIGHT {
        for x in 0..WIDTH {
            let inside = (3..13).contains(&x) && (243..253).contains(&y);
            let p = get_pixel(&buf, Pos::new(x, y));
            assert_eq!(p == tail_color(), inside);
        }
    }
    assert_eq!(cell_type(&buf, c), CellType::Tail);
}

#[test]
fn painting_is_idempotent() {
    let mut once = fresh();
    full_square(&mut once, Pos::new(4, 4), visited_color());
    set_tail(&mut once, Pos::new(4, 4));
    set_head(&mut once, Pos::new(5, 4));
    connect(&mut once, Pos::new(4, 4), Pos::new(5, 4));
    let mut twice = once.clone();
    full_square(&mut twice, Pos::new(4, 4), visited_color());
    set_tail(&mut twice, Pos::new(4, 4));
    set_head(&mut twice, Pos::new(5, 4));
    connect(&mut twice, Pos::new(4, 4), Pos::new(5, 4));
    assert_eq!(once, twice);
}

#[test]
fn connect_opens_the_whole_wall_and_nothing_else() {
    let before = fresh();
    let mut buf = before.clone();
    connect(&mut buf, Pos::new(1, 2), Pos::new(2, 2));
    for y in 0..HEIGHT {
        for x in 0..WIDTH {
            let p = Pos::new(x, y);
            if x == 30 && (31..45).contains(&y) {
                assert_eq!(get_pixel(&buf, p), connected());
            } else {
                assert_eq!(get_pixel(&buf, p), get_pixel(&before, p));
            }
        }
    }
    let mut down = before.clone();
    connect(&mut down, Pos::new(1, 3), Pos::new(1, 2));
    for y in 0..HEIGHT {
        for x in 0..WIDTH {
            let p = Pos::new(x, y);
            if y == 45 && (16..30).contains(&x) {
                assert_eq!(get_pixel(&down, p), connected());
            } else {
                assert_eq!(get_pixel(&down, p), get_pixel(&before, p));
            }
        }
    }
}

#[test]
fn connect_makes_the_wall_open_from_both_sides() {
    let mut buf = fresh();
    let a = Pos::new(6, 6);
    let b = Pos::new(6, 7);
    assert!(!is_connected(&buf, a, b));
    assert!(!is_connected(&buf, b, a));
    connect(&mut buf, a, b);
    assert!(is_connected(&buf, a, b));
    assert!(is_connected(&buf, b, a));
    assert!(!is_connected(&buf, a, Pos::new(6, 5)));
    assert!(!is_connected(&buf, a, Pos::new(5, 6)));
    assert!(!is_connected(&buf, a, Pos::new(7, 6)));
}

#[test]
fn init_buffer_lays_out_the_grid() {
    let mut buf = vec![7u8; RASTER_LEN];
    init_buffer(&mut buf);
    for y in 0..HEIGHT {
        for x in 0..WIDTH {
            let idx = ((x + y * WIDTH) * 4) as usize;
            assert_eq!(buf[idx + 3], 255);
            let want = if (123..133).contains(&x) && (123..133).contains(&y) {
                head_color()
            } else if x % 15 == 0 || y % 15 == 0 {
                border_color()
            } else {
                unvisited_color()
            };
            assert_eq!(get_pixel(&buf, Pos::new(x, y)), want);
        }
    }
}

#[test]
fn reinitialize_twice_gives_the_same_raster() {
    let mut a = vec![0u8; RASTER_LEN];
    frame(&mut a, true, FORCED);
    let first = a.clone();
    frame(&mut a, true, [Direction::Right, Direction::Down, Direction::Left, Direction::Up]);
    assert_eq!(a, first);
    let mut b = vec![200u8; RASTER_LEN];
    frame(&mut b, true, FORCED);
    assert_eq!(b, first);
}

#[test]
fn cell_type_off_the_grid_is_out_of_bounds() {
    let buf = fresh();
    for c in [Pos::new(-1, 0), Pos::new(0, -1), Pos::new(17, 0), Pos::new(0, 17), Pos::new(-5, 40)]
    {
        assert_eq!(cell_type(&buf, c), CellType::OutOfBounds);
    }
    assert_eq!(cell_type(&buf, Pos::new(isize::MAX, isize::MIN)), CellType::OutOfBounds);
    assert_eq!(cell_type(&buf, Pos::new(16, 16)), CellType::Unvisited);
}

#[test]
fn cell_type_of_a_foreign_colour_is_out_of_bounds() {
    let mut buf = fresh();
    set_pixel(&mut buf, head_pos(Pos::new(3, 3)), Color { r: 1, g: 2, b: 3 });
    assert_eq!(cell_type(&buf, Pos::new(3, 3)), CellType::OutOfBounds);
    assert_eq!(cell_type(&buf, Pos::new(3, 4)), CellType::Unvisited);
}

#[test]
fn cell_type_reads_only_the_sample_pixel() {
    let mut buf = fresh();
    let c = Pos::new(3, 3);
    full_square(&mut buf, c, visited_color());
    set_pixel(&mut buf, head_pos(c), head_color());
    assert_eq!(cell_type(&buf, c), CellType::Head);
    set_pixel(&mut buf, head_pos(c) + 1, unvisited_color());
    assert_eq!(cell_type(&buf, c), CellType::Head);
}

#[test]
fn find_head_takes_the_first_in_scan_order() {
    let mut buf = fresh();
    assert_eq!(find_head(&buf), Some(Pos::new(8, 8)));
    set_head(&mut buf, Pos::new(12, 8));
    assert_eq!(find_head(&buf), Some(Pos::new(8, 8)));
    set_head(&mut buf, Pos::new(16, 7));
    assert_eq!(find_head(&buf), Some(Pos::new(16, 7)));
    set_head(&mut buf, Pos::new(0, 0));
    assert_eq!(find_head(&buf), Some(Pos::new(0, 0)));
}

#[test]
fn find_head_on_a_raster_without_head() {
    let mut buf = fresh();
    full_square(&mut buf, Pos::new(8, 8), visited_color());
    assert_eq!(find_head(&buf), None);
    assert_eq!(find_head(&vec![0u8; RASTER_LEN]), None);
}

#[test]
fn shuffle_exchanges_in_turn() {
    assert_eq!(shuffle([0, 0, 0, 0]), [UP, LEFT, DOWN, RIGHT]);
    assert_eq!(shuffle([3, 2, 1, 0]), [RIGHT, UP, LEFT, DOWN]);
    assert_eq!(shuffle([1, 0, 1, 0]), [LEFT, UP, RIGHT, DOWN]);
    assert_eq!(shuffle([2, 1, 0, 0]), [DOWN, UP, LEFT, RIGHT]);
    assert_eq!(shuffle([3, 0, 0, 0]), [RIGHT, LEFT, DOWN, UP]);
    assert_eq!(shuffle([0, 2, 1, 0]), [UP, RIGHT, LEFT, DOWN]);
}

#[test]
fn shuffle_reaches_every_order_once() {
    let mut seen: Vec<[Direction; 4]> = Vec::new();
    for a in 0..4 {
        for b in 0..3 {
            for c in 0..2 {
                let order = shuffle([a, b, c, 0]);
                assert!(!seen.contains(&order));
                seen.push(order);
            }
        }
    }
    assert_eq!(seen.len(), 24);
}

#[test]
fn shuffle_gives_every_direction_once() {
    for a in 0..4 {
        for b in 0..3 {
            for c in 0..2 {
                let order = shuffle([a, b, c, 0]);
                for d in FORCED {
                    assert_eq!(order.iter().filter(|o| **o == d).count(), 1);
                }
            }
        }
    }
}

#[test]
fn direction_offsets() {
    assert_eq!(Direction::Up.offset(), Pos::new(0, -1));
    assert_eq!(Direction::Left.offset(), Pos::new(-1, 0));
    assert_eq!(Direction::Down.offset(), Pos::new(0, 1));
    assert_eq!(Direction::Right.offset(), Pos::new(1, 0));
}

#[test]
fn fresh_maze_has_head_in_the_center() {
    let mut buf = vec![0u8; RASTER_LEN];
    frame(&mut buf, false, FORCED);
    for c in cells() {
        let want = if c == Pos::new(8, 8) { CellType::Head } else { CellType::Unvisited };
        assert_eq!(cell_type(&buf, c), want);
    }
    assert_eq!(open_walls(&buf), 0);
}

#[test]
fn first_step_carves_upwards() {
    let mut buf = fresh();
    let center = Pos::new(8, 8);
    let up = Pos::new(8, 7);
    assert_eq!(cell_type(&buf, up), CellType::Unvisited);
    frame(&mut buf, false, FORCED);
    assert_eq!(cell_type(&buf, up), CellType::Head);
    assert_eq!(cell_type(&buf, center), CellType::Tail);
    assert_ne!(cell_type(&buf, center), CellType::Unvisited);
    assert_ne!(cell_type(&buf, center), CellType::Head);
    assert_eq!(get_pixel(&buf, center * GRID + 1), visited_color());
    assert!(is_connected(&buf, center, up));
    assert_ne!(get_pixel(&buf, mid(center, up)), border_color());
    assert_eq!(get_pixel(&buf, mid(center, up)), connected());
    assert!(!is_connected(&buf, center, Pos::new(8, 9)));
    assert!(!is_connected(&buf, center, Pos::new(7, 8)));
    assert!(!is_connected(&buf, center, Pos::new(9, 8)));
    for c in cells() {
        if c != center && c != up {
            assert_eq!(cell_type(&buf, c), CellType::Unvisited);
        }
    }
    assert_eq!(open_walls(&buf), 1);
}

#[test]
fn step_takes_the_first_unvisited_neighbor_in_order() {
    let mut buf = fresh();
    full_square(&mut buf, Pos::new(8, 7), visited_color());
    full_square(&mut buf, Pos::new(7, 8), visited_color());
    let order = [Direction::Up, Direction::Left, Direction::Right, Direction::Down];
    assert_eq!(find_unvisited(&buf, Pos::new(8, 8), &order), Some(Pos::new(9, 8)));
    step(&mut buf, &order);
    assert_eq!(cell_type(&buf, Pos::new(9, 8)), CellType::Head);
    assert_eq!(cell_type(&buf, Pos::new(8, 9)), CellType::Unvisited);
    assert!(is_connected(&buf, Pos::new(8, 8), Pos::new(9, 8)));
}

#[test]
fn step_at_the_edge_skips_what_is_off_the_grid() {
    let mut buf = fresh();
    full_square(&mut buf, Pos::new(8, 8), unvisited_color());
    set_head(&mut buf, Pos::new(0, 0));
    assert_eq!(find_unvisited(&buf, Pos::new(0, 0), &FORCED), Some(Pos::new(0, 1)));
    frame(&mut buf, false, FORCED);
    assert_eq!(cell_type(&buf, Pos::new(0, 1)), CellType::Head);
    assert_eq!(cell_type(&buf, Pos::new(0, 0)), CellType::Tail);
}

#[test]
fn step_backtracks_along_an_open_wall() {
    let mut buf = fresh();
    let dead_end = Pos::new(8, 8);
    let back = Pos::new(8, 9);
    for c in [Pos::new(8, 7), Pos::new(7, 8), Pos::new(9, 8), back] {
        full_square(&mut buf, c, visited_color());
        set_tail(&mut buf, c);
    }
    connect(&mut buf, back, dead_end);
    assert_eq!(find_unvisited(&buf, dead_end, &FORCED), None);
    assert_eq!(find_tail(&buf, dead_end, &FORCED), Some(back));
    frame(&mut buf, false, FORCED);
    assert_eq!(cell_type(&buf, dead_end), CellType::Visited);
    assert_eq!(cell_type(&buf, back), CellType::Head);
    assert_eq!(cell_type(&buf, Pos::new(8, 7)), CellType::Tail);
    assert_eq!(find_head(&buf), Some(back));
}

#[test]
fn step_with_nowhere_to_go_retires_the_head() {
    let mut buf = fresh();
    for c in [Pos::new(8, 7), Pos::new(7, 8), Pos::new(9, 8), Pos::new(8, 9)] {
        full_square(&mut buf, c, visited_color());
        set_tail(&mut buf, c);
    }
    frame(&mut buf, false, FORCED);
    assert_eq!(cell_type(&buf, Pos::new(8, 8)), CellType::Visited);
    assert_eq!(find_head(&buf), None);
    assert_eq!(count(&buf, CellType::Head), 0);
    let stopped = buf.clone();
    frame(&mut buf, false, FORCED);
    assert_eq!(buf, stopped);
}

#[test]
fn key_down_starts_over_in_the_middle_of_a_maze() {
    let mut buf = fresh();
    let start = buf.clone();
    let mut dice = Dice(7);
    for _ in 0..40 {
        frame(&mut buf, false, dice.order());
    }
    assert_ne!(buf, start);
    frame(&mut buf, true, dice.order());
    assert_eq!(buf, start);
}

#[test]
fn a_raster_that_is_not_opaque_is_laid_out_anew() {
    let mut buf = fresh();
    let start = buf.clone();
    frame(&mut buf, false, FORCED);
    buf[3] = 254;
    frame(&mut buf, false, FORCED);
    assert_eq!(buf, start);
}

#[test]
fn exactly_one_head_until_the_maze_is_done() {
    let mut buf = fresh();
    let mut dice = Dice(1);
    assert_eq!(count(&buf, CellType::Head), 1);
    let mut frames = 0;
    loop {
        frame(&mut buf, false, dice.order());
        frames += 1;
        let heads = count(&buf, CellType::Head);
        if heads == 0 {
            break;
        }
        assert_eq!(heads, 1);
        assert!(frames < 2 * 289);
    }
    assert_eq!(frames, 2 * 289 - 1);
}

#[test]
fn carving_ends_within_twice_the_cells() {
    for seed in 0..5 {
        let mut buf = fresh();
        let mut dice = Dice(seed);
        for _ in 0..2 * 289 {
            frame(&mut buf, false, dice.order());
        }
        assert_eq!(find_head(&buf), None);
        assert_eq!(count(&buf, CellType::Head), 0);
    }
}

#[test]
fn visited_cells_stay_visited() {
    let mut buf = fresh();
    let mut dice = Dice(3);
    let mut visited: Vec<Pos> = Vec::new();
    for _ in 0..2 * 289 {
        frame(&mut buf, false, dice.order());
        for c in &visited {
            assert_eq!(cell_type(&buf, *c), CellType::Visited);
        }
        visited = cells().into_iter().filter(|c| cell_type(&buf, *c) == CellType::Visited).collect();
    }
    assert_eq!(visited.len(), 289);
}

#[test]
fn walls_are_open_from_both_sides_throughout() {
    let mut buf = fresh();
    let mut dice = Dice(11);
    for _ in 0..120 {
        frame(&mut buf, false, dice.order());
        for (a, b) in walls() {
            assert_eq!(is_connected(&buf, a, b), is_connected(&buf, b, a));
        }
    }
}

#[test]
fn finished_maze_is_a_spanning_tree() {
    let mut buf = fresh();
    let mut dice = Dice(2024);
    let mut frames = 0;
    while find_head(&buf).is_some() {
        frame(&mut buf, false, dice.order());
        frames += 1;
        assert!(frames <= 2 * 289);
    }
    assert_eq!(count(&buf, CellType::Unvisited), 0);
    assert_eq!(count(&buf, CellType::Visited), 289);
    assert_eq!(open_walls(&buf), 289 - 1);
    let mut reached = vec![false; 289];
    let mut stack = vec![Pos::new(8, 8)];
    reached[8 * 17 + 8] = true;
    let mut seen = 1;
    while let Some(c) = stack.pop() {
        for d in FORCED {
            let n = c + d.offset();
            if cell_type(&buf, n) != CellType::OutOfBounds
                && is_connected(&buf, c, n)
                && !reached[(n.y * 17 + n.x) as usize]
            {
                reached[(n.y * 17 + n.x) as usize] = true;
                seen += 1;
                stack.push(n);
            }
        }
    }
    assert_eq!(seen, 289);
}

#[test]
fn each_advance_opens_one_wall() {
    let mut buf = fresh();
    let mut dice = Dice(5);
    for _ in 0..200 {
        let walls_before = open_walls(&buf);
        let unvisited_before = count(&buf, CellType::Unvisited);
        frame(&mut buf, false, dice.order());
        let carved = unvisited_before - count(&buf, CellType::Unvisited);
        assert!(carved <= 1);
        assert_eq!(open_walls(&buf), walls_before + carved);
    }
}

#[test]
fn order_is_needed_only_to_step_from_a_head() {
    let mut buf = vec![0u8; RASTER_LEN];
    assert!(!needs_order(&buf, false));
    assert!(!needs_order(&buf, true));
    init_buffer(&mut buf);
    assert!(needs_order(&buf, false));
    assert!(!needs_order(&buf, true));
    full_square(&mut buf, Pos::new(8, 8), visited_color());
    assert!(!needs_order(&buf, false));
}

#[test]
fn frame_without_a_head_changes_nothing() {
    let mut buf = fresh();
    full_square(&mut buf, Pos::new(8, 8), unvisited_color());
    let before = buf.clone();
    frame(&mut buf, false, FORCED);
    assert_eq!(buf, before);
    frame(&mut buf, false, [RIGHT, DOWN, LEFT, UP]);
    assert_eq!(buf, before);
}

#[test]
fn open_walls_are_one_fewer_than_the_cells_reached() {
    let mut buf = fresh();
    let mut dice = Dice(99);
    for _ in 0..2 * 289 {
        frame(&mut buf, false, dice.order());
        assert_eq!(open_walls(&buf) + count(&buf, CellType::Unvisited), 289 - 1);
    }
}

#[test]
fn tails_lead_from_the_start_to_the_head() {
    let mut buf = fresh();
    let mut dice = Dice(42);
    for _ in 0..150 {
        frame(&mut buf, false, dice.order());
        let mut at = find_head(&buf).unwrap();
        let mut came_from = at;
        let mut tails = 0;
        loop {
            let mut next = None;
            for d in FORCED {
                let n = at + d.offset();
                if n != came_from
                    && cell_type(&buf, n) == CellType::Tail
                    && is_connected(&buf, at, n)
                {
                    assert_eq!(next, None);
                    next = Some(n);
                }
            }
            match next {
                Some(n) => {
                    came_from = at;
                    at = n;
                    tails += 1;
                }
                None => break,
            }
        }
        assert_eq!(tails, count(&buf, CellType::Tail));
        assert!(at == Pos::new(8, 8));
    }
}
