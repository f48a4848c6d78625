use intcode::puzzle::plane::PointMap;
use intcode::puzzle::wire::{
    l1_distance, l1_norm, part1, part2, read_moves, read_wire, unit, wire_points, Direction,
    WireMove,
};

fn wire(text: &str) -> PointMap<u32> {
    read_wire(text.as_bytes()).unwrap()
}

#[test]
fn wires_cross() {
    let first = wire("R8,U5,L5,D3");
    let second = wire("U7,R6,D4,L4");
    assert_eq!(Some(6), part1(&first, &second));
    assert_eq!(Some(30), part2(&first, &second));
    assert_eq!(Some(6), part1(&second, &first));
    assert_eq!(Some(30), part2(&second, &first));

    let first = wire("R75,D30,R83,U83,L12,D49,R71,U7,L72");
    let second = wire("U62,R66,U55,R34,D71,R55,D58,R83");
    assert_eq!(Some(159), part1(&first, &second));
    assert_eq!(Some(610), part2(&first, &second));

    let first = wire("R98,U47,R26,D63,R33,U87,L62,D20,R33,U53,R51");
    let second = wire("U98,R91,D20,R16,D67,R40,U7,L15,U6,R7");
    assert_eq!(Some(135), part1(&first, &second));
    assert_eq!(Some(410), part2(&first, &second));
}

#[test]
fn wires_that_do_not_cross() {
    let first = wire("R8,U5");
    let second = wire("L3,D2");
    assert_eq!(None, part1(&first, &second));
    assert_eq!(None, part2(&first, &second));
    let still = wire("R0");
    assert_eq!(0, still.len());
    assert_eq!(None, part1(&still, &first));
}

#[test]
fn wire_covers_its_points() {
    let map = wire("R2,U1,L+3");
    assert_eq!(6, map.len());
    assert_eq!(Some(&1), map.get((1, 0)));
    assert_eq!(Some(&2), map.get((2, 0)));
    assert_eq!(Some(&3), map.get((2, 1)));
    assert_eq!(Some(&4), map.get((1, 1)));
    assert_eq!(Some(&5), map.get((0, 1)));
    assert_eq!(Some(&6), map.get((-1, 1)));
    assert_eq!(None, map.get((0, 0)));
    // A point that the wire covers twice keeps the greater length; the start is
    // covered where the wire returns to it.
    let looped = wire("R1,U1,L1,D1,R1");
    assert_eq!(4, looped.len());
    assert_eq!(Some(&4), looped.get((0, 0)));
    assert_eq!(Some(&5), looped.get((1, 0)));
    let down = wire("D2,L1");
    assert_eq!(Some(&3), down.get((-1, -2)));
}

#[test]
fn wire_sections_are_parsed() {
    let moves = read_moves(b"U7,R6,D4,L04").unwrap();
    let expected = vec![
        WireMove { direction: Direction::U, amount: 7 },
        WireMove { direction: Direction::R, amount: 6 },
        WireMove { direction: Direction::D, amount: 4 },
        WireMove { direction: Direction::L, amount: 4 },
    ];
    assert_eq!(expected, moves);
    assert_eq!(
        Some(vec![WireMove { direction: Direction::R, amount: u32::MAX }]),
        read_moves(b"R4294967295")
    );
    for text in [
        "", "R", "8", "R8,", ",R8", "R8,,U5", "X8", "r8", "R-8", "R-0", "R8 ", " R8", "R8\n",
        "R4294967296", "R8.5", "RR8", "R8,U",
    ] {
        assert_eq!(None, read_moves(text.as_bytes()), "{:?}", text);
        assert!(read_wire(text.as_bytes()).is_none(), "{:?}", text);
    }
    assert_eq!(Some(Direction::L), Direction::from_byte(b'L'));
    assert_eq!(Some(Direction::D), Direction::from_byte(b'D'));
    assert_eq!(None, Direction::from_byte(b'l'));
    assert_eq!(
        Some(WireMove { direction: Direction::U, amount: 12 }),
        WireMove::new(b"R1,U12,L3", 3, 6)
    );
    assert_eq!(None, WireMove::new(b"R1,U12,L3", 2, 6));
}

#[test]
fn wire_that_goes_back() {
    let short = vec![
        WireMove { direction: Direction::R, amount: 3 },
        WireMove { direction: Direction::L, amount: 3 },
    ];
    let map = wire_points(&short).unwrap();
    assert_eq!(4, map.len());
    assert_eq!(Some(&6), map.get((0, 0)));
    assert_eq!(Some(&5), map.get((1, 0)));
    assert_eq!(Some(&3), map.get((3, 0)));
}

#[test]
fn distances_on_the_grid() {
    assert_eq!(7, l1_norm((3, -4)));
    assert_eq!(0, l1_norm((0, 0)));
    assert_eq!(5, l1_distance((1, 1), (-2, 3)));
    assert_eq!(5, l1_distance((-2, 3), (1, 1)));
    assert_eq!(
        2 * (u64::MAX as i128),
        l1_distance((i64::MIN, i64::MAX), (i64::MAX, i64::MIN))
    );
    assert_eq!((-1, 0), unit(Direction::L));
    assert_eq!((1, 0), unit(Direction::R));
    assert_eq!((0, 1), unit(Direction::U));
    assert_eq!((0, -1), unit(Direction::D));
}
