use intcode::puzzle::asteroid::{
    asteroid_n, asteroids, best_station, contains, interference, is_visible, max_visibility,
    num_visible, subtract_points, Angle, Point, Tile,
};
use std::cmp::Ordering;

fn grid(rows: &[&str]) -> Vec<Vec<Tile>> {
    rows.iter()
        .map(|row| row.chars().map(Tile::new).collect())
        .collect()
}

fn small() -> Vec<Vec<Tile>> {
    grid(&[".#..#", ".....", "#####", "....#", "...##"])
}

fn large() -> Vec<Vec<Tile>> {
    grid(&[
        ".#..##.###...#######",
        "##.############..##.",
        ".#.######.########.#",
        ".###.#######.####.#.",
        "#####.##.#.##.###.##",
        "..#####..#.#########",
        "####################",
        "#.####....###.#.#.##",
        "##.#################",
        "#####.##.###..####..",
        "..######..##.#######",
        "####.##.####...##..#",
        ".#####..#.######.###",
        "##...#.##########...",
        "#.##########.#######",
        ".####.#.###.###.#.##",
        "....##.##.###..#####",
        ".#.#.###########.###",
        "#.#.#.#####.####.###",
        "###.##.####.##.#..##",
    ])
}

#[test]
fn subtract() {
    let a = (5, 7);
    let b = (2, 3);

    assert_eq!((3, 4), subtract_points(a, b));
}

#[test]
fn angle_sort() {
    let origin = (0, 0);

    let n = (0, -1);
    let ne = (1, -1);
    let e = (1, 0);
    let se = (1, 1);
    let s = (0, 1);
    let sw = (-1, 1);
    let w = (-1, 0);
    let nw = (-1, -1);

    let dirs = vec![n, ne, e, se, s, sw, w, nw];
    let angs: Vec<_> = dirs.into_iter().map(|d| Angle::new(origin, d)).collect();

    let mut sorted = angs.clone();
    sorted.reverse();
    sorted.sort_by(|a, b| {
        if a.precedes(*b) {
            Ordering::Less
        } else if b.precedes(*a) {
            Ordering::Greater
        } else {
            Ordering::Equal
        }
    });

    assert_eq!(angs, sorted);
}

#[test]
fn angles_in_one_direction_are_level() {
    let near = Angle::new((0, 0), (2, -3));
    let far = Angle::new((0, 0), (4, -6));
    assert!(!near.precedes(far));
    assert!(!far.precedes(near));
    assert!(!near.precedes(near));
    // Slopes that differ by little are told apart.
    let a = Angle::new((0, 0), (1_000_000, 999_999));
    let b = Angle::new((0, 0), (1_000_001, 1_000_000));
    assert!(a.precedes(b));
    assert!(!b.precedes(a));
    // Up comes first, down leads the left half.
    let up = Angle::new((5, 5), (5, 0));
    let down = Angle::new((5, 5), (5, 9));
    let left = Angle::new((5, 5), (0, 5));
    let right = Angle::new((5, 5), (9, 5));
    assert!(up.precedes(right) && right.precedes(down) && down.precedes(left));
    assert!(!left.precedes(up));
}

#[test]
fn tiles_of_the_map() {
    assert_eq!(Tile::Empty, Tile::new('.'));
    assert_eq!(Tile::Asteroid, Tile::new('#'));
}

#[test]
fn asteroids_are_listed_row_by_row() {
    let points = asteroids(&small());
    let expected: Vec<Point> = vec![
        (1, 0),
        (4, 0),
        (0, 2),
        (1, 2),
        (2, 2),
        (3, 2),
        (4, 2),
        (4, 3),
        (3, 4),
        (4, 4),
    ];
    assert_eq!(expected, points);
    assert!(contains(&points, (4, 3)));
    assert!(!contains(&points, (3, 4 - 1)));
    assert!(asteroids(&grid(&[])).is_empty());
    assert!(asteroids(&grid(&["...", "..."])).is_empty());
}

#[test]
fn asteroids_between_two_points() {
    let points = asteroids(&small());
    assert_eq!(0, interference(&points, (3, 4), (4, 4)));
    assert_eq!(0, interference(&points, (3, 4), (1, 2)));
    // (3, 2) hides what lies straight behind it.
    assert_eq!(0, interference(&points, (3, 4), (3, 2)));
    assert_eq!(1, interference(&points, (4, 4), (4, 2)));
    assert_eq!(2, interference(&points, (4, 4), (4, 0)));
    assert_eq!(3, interference(&points, (0, 2), (4, 2)));
    assert_eq!(3, interference(&points, (4, 2), (0, 2)));
    assert_eq!(0, interference(&points, (4, 0), (0, 2)));
    assert_eq!(1, interference(&points, (1, 0), (3, 4)));
    assert!(is_visible(&points, (3, 4), (4, 0)));
    assert!(!is_visible(&points, (3, 4), (1, 0)));
    assert!(!is_visible(&points, (4, 4), (4, 0)));
}

#[test]
fn asteroids_on_a_slanted_line() {
    // From (0, 0) to (4, 6) the line passes one grid point: (2, 3).
    let points: Vec<Point> = vec![(0, 0), (2, 3), (4, 6), (1, 1), (2, 2), (3, 3), (1, 2), (3, 5)];
    assert_eq!(1, interference(&points, (0, 0), (4, 6)));
    assert_eq!(1, interference(&points, (4, 6), (0, 0)));
    assert_eq!(0, interference(&points, (0, 0), (2, 3)));
    assert_eq!(2, interference(&points, (0, 0), (3, 3)));
    // From (0, 0) to (6, 9) it passes two, and both hold an asteroid.
    assert_eq!(2, interference(&points, (0, 0), (6, 9)));
    assert_eq!(0, interference(&points, (0, 0), (7, 9)));
    assert!(!is_visible(&points, (0, 0), (4, 6)));
    assert!(is_visible(&points, (1, 2), (3, 5)));
}

#[test]
fn visibility_counts() {
    let points = asteroids(&small());
    let counts: Vec<usize> = points.iter().map(|&p| num_visible(&points, p)).collect();
    assert_eq!(vec![7, 7, 6, 7, 7, 7, 5, 7, 8, 7], counts);
    assert_eq!(((3, 4), 8), best_station(&points));
    assert_eq!(8, max_visibility(&points));
}

#[test]
fn best_station_of_the_large_map() {
    let points = asteroids(&large());
    assert_eq!(300, points.len());
    assert_eq!(((11, 13), 210), best_station(&points));
}

#[test]
fn best_station_takes_the_last_of_equals() {
    let points = asteroids(&grid(&["#.#"]));
    assert_eq!(((2, 0), 1), best_station(&points));
    let alone = asteroids(&grid(&["#"]));
    assert_eq!(((0, 0), 0), best_station(&alone));
}

#[test]
fn laser_order_of_the_large_map() {
    let points = asteroids(&large());
    let station = (11, 13);
    assert_eq!(Some((11, 12)), asteroid_n(&points, station, 1));
    assert_eq!(Some((12, 1)), asteroid_n(&points, station, 2));
    assert_eq!(Some((12, 2)), asteroid_n(&points, station, 3));
    assert_eq!(Some((12, 8)), asteroid_n(&points, station, 10));
    assert_eq!(Some((16, 0)), asteroid_n(&points, station, 20));
    assert_eq!(Some((16, 9)), asteroid_n(&points, station, 50));
    assert_eq!(Some((10, 16)), asteroid_n(&points, station, 100));
    assert_eq!(Some((9, 6)), asteroid_n(&points, station, 199));
    assert_eq!(Some((8, 2)), asteroid_n(&points, station, 200));
    assert_eq!(Some((10, 9)), asteroid_n(&points, station, 201));
    assert_eq!(Some((11, 1)), asteroid_n(&points, station, 299));
    assert_eq!(None, asteroid_n(&points, station, 300));
}

#[test]
fn laser_order_of_the_small_map() {
    let points = asteroids(&small());
    let order: Vec<Option<Point>> = (1..=10).map(|n| asteroid_n(&points, (3, 4), n)).collect();
    let expected = vec![
        Some((3, 2)),
        Some((4, 0)),
        Some((4, 2)),
        Some((4, 3)),
        Some((4, 4)),
        Some((0, 2)),
        Some((1, 2)),
        Some((2, 2)),
        Some((1, 0)),
        None,
    ];
    assert_eq!(expected, order);
}
