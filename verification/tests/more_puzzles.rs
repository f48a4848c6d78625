use intcode::puzzle::arcade::{final_score, num_blocks, ArcadeError, Screen, ScreenAdapter};
use intcode::puzzle::hull::{num_squares_painted, paint_hull, HullError, Robot};
use intcode::puzzle::moons::{
    repeat_time, repeat_time_coord, simulate, time_step, Axis, Moon, LIMIT,
};
use intcode::puzzle::number::checked_lcm;
use intcode::puzzle::plane::PointMap;
use intcode::puzzle::{arcade, fuel, hull, moons, password};
use intcode::Fault;

fn moon(x: i64, y: i64, z: i64) -> Moon {
    Moon::new(moons::Point { x, y, z })
}

fn first_example() -> Vec<Moon> {
    vec![moon(-1, 0, 2), moon(2, -10, -7), moon(4, -8, 8), moon(3, 5, -1)]
}

fn second_example() -> Vec<Moon> {
    vec![moon(-8, -10, 0), moon(5, 5, 10), moon(2, -7, 3), moon(9, -8, -3)]
}

#[test]
fn test_example1() {
    let moons = first_example();
    assert_eq!(Some(179), simulate(moons.clone(), 10));
    assert_eq!(Some(2772), repeat_time(moons));
}

#[test]
fn test_example2() {
    let moons = second_example();
    assert_eq!(Some(1940), simulate(moons.clone(), 100));
    assert_eq!(Some(4686774924), repeat_time(moons));
}

#[test]
fn moons_step_by_step() {
    let mut moons = first_example();
    time_step(&mut moons);
    let pos: Vec<(i64, i64, i64)> = moons.iter().map(|m| (m.pos.x, m.pos.y, m.pos.z)).collect();
    let vel: Vec<(i64, i64, i64)> = moons.iter().map(|m| (m.vel.x, m.vel.y, m.vel.z)).collect();
    assert_eq!(vec![(2, -1, 1), (3, -7, -4), (1, -7, 5), (2, 2, 0)], pos);
    assert_eq!(vec![(3, -1, -1), (1, 3, 3), (-3, 1, -3), (-1, -3, 1)], vel);
    assert_eq!(Some(0), simulate(first_example(), 0));
    assert_eq!(Some(293), simulate(first_example(), 100));
    assert_eq!(Some(706), simulate(second_example(), 10));
    assert_eq!(Some(32), simulate(vec![moon(0, 0, 0), moon(5, 0, -3)], 2));
    assert_eq!(Some(0), simulate(vec![], 7));
}

#[test]
fn moons_repeat_along_each_axis() {
    let moons = first_example();
    assert_eq!(Some(18), repeat_time_coord(&moons, Axis::X));
    assert_eq!(Some(28), repeat_time_coord(&moons, Axis::Y));
    assert_eq!(Some(44), repeat_time_coord(&moons, Axis::Z));
    let moons = second_example();
    assert_eq!(Some(2028), repeat_time_coord(&moons, Axis::X));
    assert_eq!(Some(5898), repeat_time_coord(&moons, Axis::Y));
    assert_eq!(Some(4702), repeat_time_coord(&moons, Axis::Z));
    let pair = vec![moon(0, 0, 0), moon(5, 0, -3)];
    assert_eq!(Some(1), repeat_time_coord(&pair, Axis::Y));
    assert_eq!(Some(8), repeat_time(pair));
}

#[test]
fn moons_out_of_range() {
    let far = vec![moon(LIMIT + 1, 0, 0), moon(0, 0, 0)];
    assert_eq!(None, simulate(far.clone(), 1));
    assert_eq!(None, simulate(far.clone(), 0));
    assert_eq!(None, repeat_time(far));
    // The energy of two moons that are far apart and fast does not fit.
    let mut fast = vec![moon(LIMIT, LIMIT, LIMIT), moon(-LIMIT, -LIMIT, -LIMIT)];
    fast[0].vel = moons::Point { x: LIMIT, y: LIMIT, z: LIMIT };
    assert_eq!(None, simulate(fast, 0));
}

#[test]
fn least_common_multiples() {
    assert_eq!(Some(21), checked_lcm(7, 3));
    assert_eq!(Some(4), checked_lcm(2, 4));
    assert_eq!(Some(36), checked_lcm(12, 18));
    assert_eq!(Some(2772), checked_lcm(18, checked_lcm(28, 44).unwrap()));
    assert_eq!(Some(i64::MAX), checked_lcm(i64::MAX, 1));
    assert_eq!(Some(i64::MAX), checked_lcm(i64::MAX, i64::MAX));
    assert_eq!(None, checked_lcm(i64::MAX, 2));
    assert_eq!(None, checked_lcm(1 << 40, (1 << 40) + 1));
}

#[test]
fn fuel_for_modules() {
    assert_eq!(2, fuel::fuel_required(12));
    assert_eq!(2, fuel::fuel_required(14));
    assert_eq!(654, fuel::fuel_required(1969));
    assert_eq!(33583, fuel::fuel_required(100756));
    assert_eq!(0, fuel::fuel_required(0));
    assert_eq!(0, fuel::fuel_required(8));
    assert_eq!(1, fuel::fuel_required(9));
    assert_eq!(715827880, fuel::fuel_required(i32::MAX as u32));
    assert_eq!(0, fuel::fuel_required(1 << 31));
    assert_eq!(0, fuel::fuel_required(u32::MAX));
}

#[test]
fn fuel_for_fuel() {
    assert_eq!(2, fuel::fuel_required_recursive(12));
    assert_eq!(2, fuel::fuel_required_recursive(14));
    assert_eq!(966, fuel::fuel_required_recursive(1969));
    assert_eq!(50346, fuel::fuel_required_recursive(100756));
    assert_eq!(1073741757, fuel::fuel_required_recursive(i32::MAX as u32));
    assert_eq!(0, fuel::fuel_required_recursive(u32::MAX));
    for mass in [0, 8, 9, 12, 14, 1969, 100756, i32::MAX as u32, u32::MAX] {
        assert_eq!(
            fuel::fuel_required_recursive(mass),
            fuel::_fuel_required_recursive(mass)
        );
    }
}

#[test]
fn fuel_in_total() {
    let masses = [12, 14, 1969, 100756];
    assert_eq!(Some(2 + 2 + 654 + 33583), fuel::total_fuel(&masses, fuel::fuel_required));
    assert_eq!(
        Some(2 + 2 + 966 + 50346),
        fuel::total_fuel(&masses, fuel::fuel_required_recursive)
    );
    assert_eq!(Some(0), fuel::total_fuel(&[], fuel::fuel_required));
    assert_eq!(Some(u32::MAX), fuel::total_fuel(&[u32::MAX], |mass| mass));
    assert_eq!(None, fuel::total_fuel(&[u32::MAX, 1], |mass| mass));
    assert_eq!(None, fuel::total_fuel(&[u32::MAX, u32::MAX, u32::MAX], |mass| mass));
}

#[test]
fn passwords() {
    let both = [0, 11, 112233, 111122, 1122334455];
    let first_only = [111111, 123444, 1111111111, 3999999999];
    let neither = [1, 12, 21, 223450, 123789, 4294967295, 100, 110, 1000000000];
    for n in both {
        assert!(password::is_valid(n), "{}", n);
        assert!(password::is_valid_2(n), "{}", n);
    }
    for n in first_only {
        assert!(password::is_valid(n), "{}", n);
        assert!(!password::is_valid_2(n), "{}", n);
    }
    for n in neither {
        assert!(!password::is_valid(n), "{}", n);
        assert!(!password::is_valid_2(n), "{}", n);
    }
}

#[test]
fn passwords_in_a_range() {
    assert_eq!(81, password::part1(100, 1000));
    assert_eq!(72, password::part2(100, 1000));
    assert_eq!(2, password::part1(0, 12));
    assert_eq!(2, password::part2(0, 12));
    assert_eq!(0, password::part1(172851, 175000));
    assert_eq!(0, password::part1(1000, 1000));
    assert_eq!(0, password::part2(1000, 100));
    assert_eq!(1, password::part1(11, 12));
}

#[test]
fn point_map_keeps_values_and_order() {
    let mut map: PointMap<i64> = PointMap::new();
    assert_eq!(0, map.len());
    assert_eq!(None, map.get((0, 0)));
    map.insert((3, -4), 7);
    map.insert((-4, 3), 8);
    map.insert((i64::MAX, i64::MIN), 9);
    map.insert((i64::MIN, i64::MAX), 10);
    map.insert((3, -4), 11);
    assert_eq!(4, map.len());
    assert_eq!(Some(&11), map.get((3, -4)));
    assert_eq!(Some(&8), map.get((-4, 3)));
    assert_eq!(Some(&9), map.get((i64::MAX, i64::MIN)));
    assert_eq!(Some(&10), map.get((i64::MIN, i64::MAX)));
    assert_eq!(None, map.get((-4, -4)));
    assert!(map.contains_key((-4, 3)));
    assert!(!map.contains_key((3, 3)));
    let points: Vec<(i64, i64)> = (0..map.len()).map(|i| map.point(i)).collect();
    assert_eq!(
        vec![(3, -4), (-4, 3), (i64::MAX, i64::MIN), (i64::MIN, i64::MAX)],
        points
    );
}

/// Reads the colour and answers with the next of seven pairs of colour and turn.
fn painter() -> Vec<i64> {
    vec![
        109, 20, 3, 19, 204, 0, 204, 1, 109, 2, 1001, 18, -1, 18, 1005, 18, 2, 99, 7, 0, 1, 0, 0,
        0, 1, 0, 1, 0, 0, 1, 1, 0, 1, 0,
    ]
}

fn panels(map: &PointMap<i64>) -> Vec<((i64, i64), i64)> {
    (0..map.len())
        .map(|i| (map.point(i), *map.get(map.point(i)).unwrap()))
        .collect()
}

#[test]
fn hull_is_painted() {
    let map = paint_hull(painter(), 0).unwrap();
    let expected = vec![
        ((0, 0), 0),
        ((-1, 0), 0),
        ((-1, -1), 1),
        ((0, -1), 1),
        ((1, 0), 1),
        ((1, 1), 1),
    ];
    assert_eq!(expected, panels(&map));
    assert_eq!(expected, panels(&paint_hull(painter(), 1).unwrap()));
    assert_eq!(Ok(6), num_squares_painted(painter()));
    // From (-1, 1) at the top left to (1, -1) at the bottom right.
    let rows: Vec<String> = hull::render(&map)
        .unwrap()
        .into_iter()
        .map(|row| row.into_iter().collect())
        .collect();
    assert_eq!(vec!["  #", "  #", "## "], rows);
    let bounds = map.bounds().unwrap();
    assert_eq!((-1, 1, -1, 1), (bounds.min_x, bounds.max_x, bounds.min_y, bounds.max_y));
    let empty: PointMap<i64> = PointMap::new();
    assert!(hull::render(&empty).is_none());
    assert!(empty.bounds().is_none());
    let mut one: PointMap<i64> = PointMap::new();
    one.insert((7, -7), 1);
    assert_eq!(Some(vec![vec!['#']]), hull::render(&one));
}

#[test]
fn hull_painter_sees_its_own_paint() {
    // Paints white what it sees black and black what it sees white, and turns
    // right where it saw white.
    let program = vec![
        3, 19, 1008, 19, 0, 20, 4, 20, 4, 19, 1001, 18, -1, 18, 1005, 18, 0, 99, 10, 0, 0,
    ];
    let map = paint_hull(program.clone(), 1).unwrap();
    assert_eq!(7, map.len());
    assert!((0..map.len()).all(|i| map.get(map.point(i)) == Some(&1)));
    for place in [(0, 0), (1, 0), (1, 1), (0, 1), (1, -1), (2, -1), (2, 0)] {
        assert!(map.contains_key(place), "{:?}", place);
    }
}

#[test]
fn hull_errors() {
    assert_eq!(Some(HullError::BadOutput), paint_hull(vec![104, 2, 99], 0).err());
    assert_eq!(Some(HullError::BadOutput), paint_hull(vec![104, 1, 104, -1, 99], 0).err());
    assert_eq!(
        Some(HullError::Machine(Fault::UnknownOperation)),
        paint_hull(vec![104, 1, 0], 0).err()
    );
    assert_eq!(Ok(1), num_squares_painted(vec![99]));
    assert_eq!(Ok(1), num_squares_painted(vec![104, 1, 99]));
    assert_eq!(Ok(2), num_squares_painted(vec![104, 1, 104, 0, 104, 1, 99]));
}

#[test]
fn hull_robot_moves() {
    let mut robot = Robot::new();
    assert_eq!(hull::Point { x: 0, y: 0 }, robot.pos);
    assert_eq!(hull::Dir::N, robot.dir);
    robot.step_forward();
    robot.turn_left();
    assert_eq!(hull::Dir::W, robot.dir);
    robot.step_forward();
    robot.turn_left();
    robot.step_forward();
    robot.step_forward();
    assert_eq!(hull::Point { x: -1, y: -1 }, robot.pos);
    robot.turn_right();
    robot.turn_right();
    robot.turn_right();
    assert_eq!(hull::Dir::E, robot.dir);
    assert!(robot.has_room());
    robot.step_forward();
    assert_eq!(hull::Point { x: 0, y: -1 }, robot.pos);
    let mut edge = Robot { pos: hull::Point { x: i32::MAX, y: i32::MIN }, dir: hull::Dir::E };
    assert!(!edge.has_room());
    edge.turn_right();
    assert!(!edge.has_room());
    edge.turn_right();
    assert!(edge.has_room());
    for d in [hull::Dir::N, hull::Dir::E, hull::Dir::S, hull::Dir::W] {
        assert_eq!(d, d.rotate_clockwise().rotate_counterclockwise());
        assert_eq!(
            d,
            d.rotate_clockwise().rotate_clockwise().rotate_clockwise().rotate_clockwise()
        );
    }
}

/// Draws ten messages from a table.
fn drawing() -> Vec<i64> {
    vec![
        109, 19, 204, 0, 204, 1, 204, 2, 109, 3, 1001, 18, -1, 18, 1005, 18, 2, 99, 10, 0, 0, 1, 1,
        0, 1, 2, 0, 2, 3, 0, 2, 1, 1, 4, 1, 2, 3, 2, 0, 0, 3, 0, 2, -1, 0, 77, 4, 4, 2,
    ]
}

#[test]
fn arcade_counts_blocks() {
    assert_eq!(Ok(2), num_blocks(drawing()));
    assert_eq!(Ok(0), num_blocks(vec![99]));
    // A message that is not complete draws nothing.
    assert_eq!(Ok(0), num_blocks(vec![104, 1, 104, 1, 99]));
    assert_eq!(Ok(1), num_blocks(vec![104, 1, 104, 1, 104, 2, 104, 5, 99]));
    assert_eq!(Err(ArcadeError::BadMessage), num_blocks(vec![104, 1, 104, 1, 104, 5, 99]));
    assert_eq!(Err(ArcadeError::BadMessage), num_blocks(vec![104, -2, 104, 0, 104, 1, 99]));
    assert_eq!(Err(ArcadeError::BadMessage), num_blocks(vec![104, 0, 104, -1, 104, 1, 99]));
    assert_eq!(
        Err(ArcadeError::Machine(Fault::NoInput)),
        num_blocks(vec![3, 0, 99])
    );
}

#[test]
fn arcade_screen_follows_ball_and_paddle() {
    let mut adapter = ScreenAdapter::new(Screen::new());
    assert_eq!(None, adapter.screen().follow());
    assert_eq!(Ok(()), adapter.receive_all(&vec![5, 1, 4, 3, 2, 3, -1, 0, 12]));
    assert_eq!(Some(1), adapter.screen().follow());
    assert_eq!(Some(12), adapter.screen().score());
    assert_eq!(Ok(()), adapter.receive_all(&vec![3, 2, 0, 5, 7]));
    assert_eq!(None, adapter.screen().follow());
    assert_eq!(Ok(()), adapter.receive(3));
    assert_eq!(Some(0), adapter.screen().follow());
    assert_eq!(Ok(()), adapter.receive_all(&vec![6, 0, 3, 9, 9, 2]));
    assert_eq!(Some(-1), adapter.screen().follow());
    let screen = adapter.into_screen();
    assert_eq!(1, screen.count(arcade::Tile::Ball));
    assert_eq!(2, screen.count(arcade::Tile::Paddle));
    assert_eq!(1, screen.count(arcade::Tile::Block));
    assert_eq!(1, screen.count(arcade::Tile::Empty));
    assert_eq!(0, screen.count(arcade::Tile::Wall));
    assert_eq!(Some(12), screen.score());
}

#[test]
fn arcade_tiles() {
    let all = [
        (0, arcade::Tile::Empty, ' '),
        (1, arcade::Tile::Wall, '#'),
        (2, arcade::Tile::Block, '+'),
        (3, arcade::Tile::Paddle, '='),
        (4, arcade::Tile::Ball, '*'),
    ];
    for (id, tile, c) in all {
        assert_eq!(tile, arcade::Tile::new(id));
        assert_eq!(c, tile.to_char());
    }
    assert_eq!('?', arcade::Tile::Unknown.to_char());
}

#[test]
fn arcade_plays_to_the_end() {
    // The paddle starts at x = 3 under a ball at x = 5, and moves three times by
    // the joystick: the score is a hundred times where it ends, and the coins.
    let game = vec![
        1, 54, 54, 55, 104, 5, 104, 1, 104, 4, 4, 50, 104, 2, 104, 3, 3, 51, 4, 50, 104, 2, 104,
        0, 1, 50, 51, 50, 1001, 52, -1, 52, 1005, 52, 10, 1002, 50, 100, 53, 1, 53, 0, 53, 104,
        -1, 104, 0, 4, 53, 99, 3, 0, 3, 0, 2, 0,
    ];
    assert_eq!(Ok(502), final_score(game));
    assert_eq!(
        Err(ArcadeError::NothingToFollow),
        final_score(vec![1, 7, 7, 8, 3, 9, 99, 0, 0, 0])
    );
    assert_eq!(Err(ArcadeError::NoScore), final_score(vec![1, 5, 5, 6, 99, 0, 0]));
    assert_eq!(
        Err(ArcadeError::BadMessage),
        final_score(vec![1, 11, 11, 12, 104, 1, 104, 1, 104, 9, 99, 0, 0])
    );
    assert_eq!(
        Err(ArcadeError::Machine(Fault::UnknownOperation)),
        final_score(vec![1, 5, 5, 6, 0, 0, 0])
    );
}
