use intcode::amplifier::{best_signal, num_permutations, part1, part2, permutations};
use intcode::program::lines;
use intcode::puzzle::asteroid::{self, Tile};
use intcode::puzzle::image::{self, Pixel};
use intcode::puzzle::moons::{self, read_moon, Moon, Point};
use intcode::{get_line, parse_bytes, read_mem, AmpError, Fault, ParseError};

#[test]
fn first_line_of_input() {
    assert_eq!(Some(&b"1,2,3"[..]), get_line(b"1,2,3\n4,5\n"));
    assert_eq!(Some(&b"1,2,3"[..]), get_line(b"1,2,3\r\n4,5\n"));
    assert_eq!(Some(&b"1,2,3"[..]), get_line(b"1,2,3"));
    assert_eq!(Some(&b"1,2,3\r"[..]), get_line(b"1,2,3\r"));
    assert_eq!(Some(&b""[..]), get_line(b"\n1,2,3"));
    assert_eq!(Some(&b""[..]), get_line(b"\r\n"));
    assert_eq!(Some(&b"\r"[..]), get_line(b"\r\r\n"));
    assert_eq!(None, get_line(b""));
}

#[test]
fn all_lines_of_input() {
    let expected: Vec<&[u8]> = vec![b"ab", b"", b"c", b"d\r"];
    assert_eq!(expected, lines(b"ab\n\nc\r\nd\r"));
    let stripped: Vec<&[u8]> = vec![b"ab", b"", b"c", b"d"];
    assert_eq!(stripped, lines(b"ab\r\n\r\nc\nd\r\n"));
    let none: Vec<&[u8]> = vec![];
    assert_eq!(none, lines(b""));
    let one: Vec<&[u8]> = vec![b""];
    assert_eq!(one, lines(b"\n"));
    let two: Vec<&[u8]> = vec![b"", b""];
    assert_eq!(two, lines(b"\n\n"));
    let single: Vec<&[u8]> = vec![b"x"];
    assert_eq!(single, lines(b"x"));
    assert_eq!(single, lines(b"x\n"));
}

#[test]
fn program_from_input() {
    assert_eq!(Ok(vec![1, 0, 0, 0, 99]), read_mem(b"1,0,0,0,99\n"));
    assert_eq!(Ok(vec![1, 0, 0, 0, 99]), read_mem(b"1,0,0,0,99\r\nignored"));
    assert_eq!(Ok(vec![-7]), read_mem(b"-7"));
    assert_eq!(Err(ParseError::EndOfInput), read_mem(b""));
    assert_eq!(Err(ParseError::Empty), read_mem(b"\n1,2"));
    assert_eq!(Err(ParseError::InvalidToken), read_mem(b"1,2,\n"));
    assert_eq!(Err(ParseError::InvalidToken), read_mem(b"1,2\r"));
    assert_eq!(Ok(vec![3, 4]), parse_bytes(b"3,4"));
    assert_eq!(Err(ParseError::TrailingNewline), parse_bytes(b"3,4\n"));
    assert_eq!(Err(ParseError::Empty), parse_bytes(b""));
}

#[test]
fn arrangements_in_order() {
    assert_eq!(vec![Vec::<i64>::new()], permutations(&[]));
    assert_eq!(vec![vec![7]], permutations(&[7]));
    assert_eq!(vec![vec![2, 3], vec![3, 2]], permutations(&[2, 3]));
    let expected = vec![
        vec![1, 2, 3],
        vec![2, 1, 3],
        vec![2, 3, 1],
        vec![1, 3, 2],
        vec![3, 1, 2],
        vec![3, 2, 1],
    ];
    assert_eq!(expected, permutations(&[1, 2, 3]));
    let five = permutations(&[5, 6, 7, 8, 9]);
    assert_eq!(120, five.len());
    for (i, p) in five.iter().enumerate() {
        let mut sorted = p.clone();
        sorted.sort();
        assert_eq!(vec![5, 6, 7, 8, 9], sorted);
        assert!(five[..i].iter().all(|q| q != p));
    }
    assert_eq!(24, permutations(&[1, 1, 2, 2]).len());
    assert_eq!(1, num_permutations(&[]));
    assert_eq!(1, num_permutations(&[9]));
    assert_eq!(6, num_permutations(&[1, 2, 3]));
    assert_eq!(120, num_permutations(&[5, 6, 7, 8, 9]));
    assert_eq!(479001600, num_permutations(&[0; 12]));
    assert_eq!(3628800, permutations(&[0, 1, 2, 3, 4, 5, 6, 7, 8, 9]).len());
}

#[test]
fn best_signals() {
    let first = vec![3, 15, 3, 16, 1002, 16, 10, 16, 1, 16, 15, 15, 4, 15, 99, 0, 0];
    assert_eq!(Ok(43210), part1(&first));
    let second = vec![
        3, 23, 3, 24, 1002, 24, 10, 24, 1002, 23, -1, 23, 101, 5, 23, 23, 1, 24, 23, 23, 4, 23,
        99, 0, 0,
    ];
    assert_eq!(Ok(54321), part1(&second));
    let third = vec![
        3, 31, 3, 32, 1002, 32, 10, 32, 1001, 31, -2, 31, 1007, 31, 0, 33, 1002, 33, 7, 33, 1,
        33, 31, 31, 1, 32, 31, 31, 4, 31, 99, 0, 0, 0,
    ];
    assert_eq!(Ok(65210), part1(&third));
    assert_eq!(Ok(43210), best_signal(&first, &[4, 3, 2, 1, 0], false));
    assert_eq!(Ok(10), best_signal(&first, &[0, 1], false));

    let doubling = vec![
        3, 26, 1001, 26, -4, 26, 3, 27, 1002, 27, 2, 27, 1, 27, 26, 27, 4, 27, 1001, 28, -1, 28,
        1005, 28, 6, 99, 0, 0, 5,
    ];
    assert_eq!(Ok(139629729), part2(&doubling));
    let branching = vec![
        3, 52, 1001, 52, -5, 52, 3, 53, 1, 52, 56, 54, 1007, 54, 5, 55, 1005, 55, 26, 1001, 54,
        -5, 54, 1105, 1, 12, 1, 53, 54, 53, 1008, 54, 0, 55, 1001, 55, 1, 55, 2, 53, 55, 53, 4,
        53, 1001, 56, -1, 56, 1005, 56, 6, 99, 0, 0, 0, 0, 10,
    ];
    assert_eq!(Ok(18216), part2(&branching));
    assert_eq!(Err(AmpError::NoSignal), part1(&[99]));
    assert_eq!(Err(AmpError::Machine(Fault::UnknownOperation)), part2(&[0]));
}

#[test]
fn asteroid_maps_are_read() {
    let grid = asteroid::read_input(b".#..#\n.....\n#####\n....#\n...##\n").unwrap();
    assert_eq!(5, grid.len());
    assert_eq!(
        vec![Tile::Empty, Tile::Asteroid, Tile::Empty, Tile::Empty, Tile::Asteroid],
        grid[0]
    );
    assert_eq!(vec![Tile::Asteroid; 5], grid[2]);
    let points = asteroid::asteroids(&grid);
    assert_eq!(((3, 4), 8), asteroid::best_station(&points));
    assert_eq!(Some(vec![]), asteroid::read_input(b""));
    assert_eq!(Some(vec![vec![], vec![Tile::Asteroid]]), asteroid::read_input(b"\r\n#"));
    assert_eq!(None, asteroid::read_input(b".#\n.x\n"));
    assert_eq!(None, asteroid::read_input(b".# \n"));
    assert_eq!(Some(vec![Tile::Asteroid, Tile::Empty]), asteroid::read_row(b"#."));
    assert_eq!(None, asteroid::read_row(b"#.\r"));
    assert_eq!(None, asteroid::read_row("#é".as_bytes()));
}

#[test]
fn moons_are_read() {
    let at = |x, y, z| Some(Moon::new(Point { x, y, z }));
    assert_eq!(at(-1, 0, 2), read_moon(b"<x=-1, y=0, z=2>"));
    assert_eq!(at(2, -10, -7), read_moon(b"<x=2, y=-10, z=-7>"));
    assert_eq!(
        at(i64::MAX, i64::MIN, 0),
        read_moon(b"<x=9223372036854775807, y=-9223372036854775808, z=000>")
    );
    for line in [
        "", "<x=1, y=2, z=3", "x=1, y=2, z=3>", "<x=1,y=2,z=3>", "<x=1, y=2, z=3> ",
        " <x=1, y=2, z=3>", "<x=+1, y=2, z=3>", "<x=, y=2, z=3>", "<x=1, y=2, z=>",
        "<x=1, y=2, z=3>>", "<x=1, z=2, y=3>", "<x=1, y=2>", "<x=a, y=2, z=3>",
        "<x=1, y=2, z=9223372036854775808>", "<x=1, y=2, z=3, w=4>", "<x=1, y=2, z=-->",
        "<X=1, y=2, z=3>", "<x=1, y=2, z=3\r",
    ] {
        assert_eq!(None, read_moon(line.as_bytes()), "{:?}", line);
    }
    let text = b"<x=-1, y=0, z=2>\n<x=2, y=-10, z=-7>\n<x=4, y=-8, z=8>\n<x=3, y=5, z=-1>\n";
    let system = moons::read_input(text).unwrap();
    assert_eq!(4, system.len());
    assert_eq!(at(4, -8, 8), Some(system[2]));
    assert_eq!(Some(179), moons::simulate(system.clone(), 10));
    assert_eq!(Some(2772), moons::repeat_time(system));
    assert_eq!(None, moons::read_input(b"<x=-1, y=0, z=2>\n<x=2, y=-10, z=-7>\n<x=4, y=-8, z=8>"));
    assert_eq!(None, moons::read_input(b""));
    assert_eq!(
        None,
        moons::read_input(b"<x=1, y=0, z=2>\n<x=2, y=1, z=7>\n<x=4, y=8, z=8>\n<x=3, y=5, z=1>\n\n")
    );
    assert_eq!(
        None,
        moons::read_input(b"<x=1, y=0, z=2>\n<x=2, y=1, z=7>\nmoon\n<x=3, y=5, z=1>\n")
    );
}

#[test]
fn image_checksum() {
    // Three layers of two rows of three pixels: the second has the fewest 0.
    let text: Vec<char> = "000112".chars().chain("011222".chars()).chain("001122".chars()).collect();
    let img = image::read_input(&text, 2, 3).unwrap();
    assert_eq!(2 * 3, image::part1(&img, 2, 3));
    // Of layers with as few 0, the one with fewer 1 counts; then the first.
    let text: Vec<char> = "011122".chars().chain("011222".chars()).chain("012122".chars()).collect();
    let img = image::read_input(&text, 2, 3).unwrap();
    assert_eq!(2 * 3, image::part1(&img, 2, 3));
    let single = vec![vec![vec![Pixel::White, Pixel::White, Pixel::Transparent]]];
    assert_eq!(2, image::part1(&single, 1, 3));
    let blank = vec![vec![vec![Pixel::Black]], vec![vec![Pixel::White]]];
    assert_eq!(0, image::part1(&blank, 1, 1));
}
