use intcode::puzzle::droid::{explore_grid, explore_within, DroidError, Tile};
use intcode::puzzle::maze::{greatest_distance, is_enclosed, shortest_path_len, Search};
use intcode::puzzle::plane::PointMap;
use intcode::Fault;

/// Keeps a droid in this area, where the droid starts at S and north is up:
///
/// ```text
/// #######
/// #S..#.#
/// #.#.#.#
/// #.#...#
/// #.###.#
/// #...#T#
/// #######
/// ```
fn area() -> Vec<i64> {
    vec![
        3, 101, 1001, 97, 0, 99, 1001, 98, 0, 100, 1008, 101, 1, 102, 1006, 102, 24, 1001, 98, -1,
        100, 1105, 1, 56, 1008, 101, 2, 102, 1006, 102, 38, 1001, 98, 1, 100, 1105, 1, 56, 1008,
        101, 3, 102, 1006, 102, 52, 1001, 97, -1, 99, 1105, 1, 56, 1001, 97, 1, 99, 1002, 100, 7,
        103, 1, 103, 99, 103, 1001, 103, 105, 103, 1001, 103, 0, 73, 1001, 0, 0, 104, 1005, 104,
        84, 104, 0, 1105, 1, 0, 1001, 99, 0, 97, 1001, 100, 0, 98, 4, 104, 1105, 1, 0, 1, 1, 0, 0,
        0, 0, 0, 0, 0, 0, 0, 0, 0, 0, 0, 0, 1, 1, 1, 0, 1, 0, 0, 1, 0, 1, 0, 1, 0, 0, 1, 0, 1, 1,
        1, 0, 0, 1, 0, 0, 0, 1, 0, 0, 1, 1, 1, 0, 2, 0, 0, 0, 0, 0, 0, 0, 0,
    ]
}

fn grid_of(rows: &[&str]) -> PointMap<Tile> {
    let mut grid = PointMap::new();
    for (y, row) in rows.iter().enumerate() {
        for (x, c) in row.chars().enumerate() {
            let tile = match c {
                '#' => Tile::Wall,
                '.' => Tile::Floor,
                'T' => Tile::Target,
                _ => panic!("no tile"),
            };
            grid.insert((x as i64 - 1, y as i64 - 1), tile);
        }
    }
    grid
}

#[test]
fn droid_maps_the_area() {
    let (grid, target) = explore_grid(area()).unwrap();
    assert_eq!((4, -4), target);
    assert_eq!(43, grid.len());
    assert_eq!(Some(&Tile::Target), grid.get((4, -4)));
    assert_eq!(Some(&Tile::Floor), grid.get((0, 0)));
    assert_eq!(Some(&Tile::Floor), grid.get((4, 0)));
    assert_eq!(Some(&Tile::Wall), grid.get((3, 0)));
    assert_eq!(Some(&Tile::Wall), grid.get((0, 1)));
    assert_eq!(Some(&Tile::Wall), grid.get((5, -4)));
    assert_eq!(None, grid.get((-1, 1)));
    let walls = (0..grid.len())
        .filter(|&i| grid.get(grid.point(i)) == Some(&Tile::Wall))
        .count();
    assert_eq!(26, walls);
    let first: Vec<(i64, i64)> = (0..7).map(|i| grid.point(i)).collect();
    assert_eq!(vec![(0, 0), (0, 1), (1, 0), (1, 1), (2, 0), (2, 1), (3, 0)], first);

    assert!(is_enclosed(&grid, (0, 0)));
    assert_eq!(Some(8), shortest_path_len(&grid));
    assert_eq!(14, greatest_distance(&grid, (4, -4)));
    assert_eq!(8, greatest_distance(&grid, (0, 0)));
}

#[test]
fn droid_on_a_short_leash() {
    // The farthest place of the way is sixteen steps from the start.
    assert_eq!(Some(DroidError::TooDeep), explore_within(area(), 0).err());
    assert_eq!(Some(DroidError::TooDeep), explore_within(area(), 7).err());
    let (grid, target) = explore_within(area(), 16).unwrap();
    assert_eq!((4, -4), target);
    assert_eq!(43, grid.len());
}

#[test]
fn droid_that_finds_no_oxygen() {
    // Every place around the start is a wall.
    assert_eq!(Some(DroidError::NoTarget), explore_grid(vec![3, 9, 104, 0, 1105, 1, 0, 0, 0, 0]).err());
    assert_eq!(Some(DroidError::NoReport), explore_grid(vec![3, 0, 99]).err());
    assert_eq!(
        Some(DroidError::Machine(Fault::UnknownOperation)),
        explore_grid(vec![0]).err()
    );
    // The oxygen system is in every direction: the second one is one too many.
    assert_eq!(
        Some(DroidError::TwoTargets),
        explore_grid(vec![3, 9, 104, 2, 1105, 1, 0, 0, 0, 0]).err()
    );
}

#[test]
fn distances_in_a_room() {
    let grid = grid_of(&["#####", "#...#", "#.#.#", "#..T#", "#####"]);
    assert!(is_enclosed(&grid, (0, 0)));
    assert_eq!(Some(4), shortest_path_len(&grid));
    assert_eq!(4, greatest_distance(&grid, (0, 0)));
    assert_eq!(4, greatest_distance(&grid, (2, 2)));
    assert_eq!(4, greatest_distance(&grid, (2, 0)));
    // From inside a wall one step leads out.
    assert!(is_enclosed(&grid, (1, 1)));
    assert_eq!(2, greatest_distance(&grid, (1, 1)));

    let no_target = grid_of(&["####", "#..#", "####"]);
    assert_eq!(None, shortest_path_len(&no_target));
    assert_eq!(1, greatest_distance(&no_target, (0, 0)));
    let behind_wall = grid_of(&["#####", "#.#T#", "#####"]);
    assert!(is_enclosed(&behind_wall, (0, 0)));
    assert_eq!(None, shortest_path_len(&behind_wall));
    assert_eq!(0, greatest_distance(&behind_wall, (0, 0)));
    let at_start = grid_of(&["###", "#T#", "###"]);
    assert_eq!(Some(0), shortest_path_len(&at_start));
}

#[test]
fn areas_that_are_not_enclosed() {
    let open = grid_of(&["###", "#..", "###"]);
    assert!(!is_enclosed(&open, (0, 0)));
    let empty: PointMap<Tile> = PointMap::new();
    assert!(!is_enclosed(&empty, (0, 0)));
    let mut edge: PointMap<Tile> = PointMap::new();
    edge.insert((i64::MAX, 0), Tile::Floor);
    assert!(!is_enclosed(&edge, (i64::MAX, 0)));
    let room = grid_of(&["###", "#.#", "###"]);
    assert!(is_enclosed(&room, (0, 0)));
    assert!(!is_enclosed(&room, (-1, -1)));
    assert!(!is_enclosed(&room, (5, 5)));
}

#[test]
fn search_goes_step_by_step() {
    let grid = grid_of(&["#####", "#...#", "#####"]);
    let mut search = Search::new(&grid, (0, 0));
    assert_eq!(0, search.d);
    assert_eq!(vec![(0, 0)], search.frontier);
    assert!(search.advance(&grid, (0, 0)));
    assert_eq!(vec![(1, 0)], search.frontier);
    assert!(search.advance(&grid, (0, 0)));
    assert_eq!(vec![(2, 0)], search.frontier);
    assert_eq!(Some(&2), search.seen.get((2, 0)));
    assert!(!search.advance(&grid, (0, 0)));
    assert_eq!(2, search.d);
    assert_eq!(3, search.seen.len());
}
