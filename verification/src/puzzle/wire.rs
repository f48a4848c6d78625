//! Two wires that start at one place and run along the lines of a grid: where
//! they cross, and how far that is.

use vstd::prelude::*;
use crate::program::{find, parse_int, position, token_value, COMMA, MINUS};
use crate::puzzle::plane::{Point, PointMap};

verus! {

/// The way in which a section of a wire runs.
#[derive(Debug, Clone, Copy, PartialEq, Eq, Structural)]
pub enum Direction {
    L,
    R,
    U,
    D,
}

/// A straight section of a wire.
#[derive(Debug, Clone, Copy, PartialEq, Eq, Structural)]
pub struct WireMove {
    pub direction: Direction,
    pub amount: u32,
}

/// The points that a wire covers, each with the length of the wire up to it.
/// The start is not among them unless the wire returns to it.
pub type Wire = PointMap<u32>;

impl Direction {
    /// The direction that the letter `b` stands for, if it stands for one.
    pub open spec fn of_byte(b: u8) -> Option<Direction> {
        if b == 76 {
            Some(Direction::L)
        } else if b == 82 {
            Some(Direction::R)
        } else if b == 85 {
            Some(Direction::U)
        } else if b == 68 {
            Some(Direction::D)
        } else {
            None
        }
    }

    /// One step in this direction.
    pub open spec fn unit(self) -> (int, int) {
        match self {
            Direction::L => (-1, 0),
            Direction::R => (1, 0),
            Direction::U => (0, 1),
            Direction::D => (0, -1),
        }
    }

    /// The direction that one of the letters `L`, `R`, `U` and `D` stands for.
    pub fn from_byte(b: u8) -> (d: Option<Self>)
        ensures
            d == Direction::of_byte(b),
    {
        if b == 76 {
            Some(Direction::L)
        } else if b == 82 {
            Some(Direction::R)
        } else if b == 85 {
            Some(Direction::U)
        } else if b == 68 {
            Some(Direction::D)
        } else {
            None
        }
    }
}

/// The section that `token` denotes: a letter for the direction, then the
/// length as a decimal number of 32 bits, which may have a `+` before it.
pub open spec fn move_of(token: Seq<u8>) -> Option<WireMove> {
    if token.len() < 2 || token[1] == MINUS {
        None
    } else {
        match (Direction::of_byte(token[0]), token_value(token.skip(1))) {
            (Some(direction), Some(amount)) => if 0 <= amount <= u32::MAX {
                Some(WireMove { direction, amount: amount as u32 })
            } else {
                None
            },
            _ => None,
        }
    }
}

/// The sections that `text` denotes, which commas separate; none where a field
/// denotes no section.
pub open spec fn moves_of(text: Seq<u8>) -> Option<Seq<WireMove>>
    decreases text.len(),
{
    let n: int = position(text, COMMA);
    match move_of(text.take(n)) {
        None => None,
        Some(section) => if 0 <= n < text.len() {
            match moves_of(text.skip(n + 1)) {
                None => None,
                Some(rest) => Some(seq![section] + rest),
            }
        } else {
            Some(seq![section])
        },
    }
}

impl WireMove {
    /// The section that the bytes from `from` up to `to` denote.
    pub fn new(bytes: &[u8], from: usize, to: usize) -> (section: Option<Self>)
        requires
            from <= to <= bytes@.len(),
        ensures
            section == move_of(bytes@.subrange(from as int, to as int)),
    {
        let ghost token = bytes@.subrange(from as int, to as int);
        if to - from < 2 || bytes[from + 1] == MINUS {
            return None;
        }
        assert(token.skip(1) =~= bytes@.subrange(from + 1, to as int));
        let direction: Direction = match Direction::from_byte(bytes[from]) {
            Some(direction) => direction,
            None => {
                return None;
            },
        };
        match parse_int(bytes, from + 1, to) {
            Some(amount) => {
                if 0 <= amount && amount <= u32::MAX as i64 {
                    Some(WireMove { direction, amount: amount as u32 })
                } else {
                    None
                }
            },
            None => None,
        }
    }
}

/// Parses the sections of a wire, such as `R8,U5,L5,D3`.
pub fn read_moves(line: &[u8]) -> (r: Option<Vec<WireMove>>)
    ensures
        match r {
            Some(moves) => moves_of(line@) == Some(moves@),
            None => moves_of(line@) is None,
        },
{
    let n: usize = line.len();
    let mut moves: Vec<WireMove> = Vec::new();
    let mut start: usize = 0;
    assert(line@.skip(0) =~= line@);
    assert(forall|rest: Seq<WireMove>| #[trigger] (moves@ + rest) =~= rest);
    loop
        invariant
            n == line@.len(),
            start <= n,
            moves_of(line@) == match moves_of(line@.skip(start as int)) {
                None => None::<Seq<WireMove>>,
                Some(rest) => Some(moves@ + rest),
            },
        decreases n - start,
    {
        let ghost text: Seq<u8> = line@.skip(start as int);
        let end: usize = find(line, start, COMMA);
        proof {
            assert(text.take(end - start) =~= line@.subrange(start as int, end as int));
            if end < n {
                assert(text.skip(end - start + 1) =~= line@.skip(end + 1));
            }
        }
        match WireMove::new(line, start, end) {
            None => {
                return None;
            },
            Some(section) => {
                assert((moves@ + seq![section]) =~= moves@.push(section));
                assert(forall|rest: Seq<WireMove>|
                    moves@ + (seq![section] + rest) =~= #[trigger] (moves@.push(section) + rest));
                moves.push(section);
            },
        }
        if end == n {
            return Some(moves);
        }
        start = end + 1;
    }
}

/// The length of a wire with the sections `moves`.
pub open spec fn length_of(moves: Seq<WireMove>) -> int
    decreases moves.len(),
{
    if moves.len() == 0 {
        0
    } else {
        length_of(moves.drop_last()) + moves.last().amount
    }
}

/// Where a wire with the sections `moves` ends.
pub open spec fn end_of(moves: Seq<WireMove>) -> (int, int)
    decreases moves.len(),
{
    if moves.len() == 0 {
        (0, 0)
    } else {
        let from = end_of(moves.drop_last());
        let step = moves.last().direction.unit();
        (from.0 + step.0 * moves.last().amount, from.1 + step.1 * moves.last().amount)
    }
}

/// The map of a wire after `k` more steps from `from` in the direction `d`,
/// where the wire has the length `length` at `from`: each step writes the
/// length of the wire at the point that it reaches, over what was there.
pub open spec fn walked(
    map: Map<Point, u32>,
    from: (int, int),
    d: Direction,
    length: int,
    k: nat,
) -> Map<Point, u32>
    decreases k,
{
    if k == 0 {
        map
    } else {
        walked(map, from, d, length, (k - 1) as nat).insert(
            ((from.0 + d.unit().0 * k) as i64, (from.1 + d.unit().1 * k) as i64),
            (length + k) as u32,
        )
    }
}

/// The map of a wire with the sections `moves`.
pub open spec fn traced(moves: Seq<WireMove>) -> Map<Point, u32>
    decreases moves.len(),
{
    if moves.len() == 0 {
        Map::empty()
    } else {
        walked(
            traced(moves.drop_last()),
            end_of(moves.drop_last()),
            moves.last().direction,
            length_of(moves.drop_last()),
            moves.last().amount as nat,
        )
    }
}

/// A wire is no further from its start than it is long.
proof fn lemma_end_of(moves: Seq<WireMove>)
    ensures
        0 <= length_of(moves),
        -length_of(moves) <= end_of(moves).0 <= length_of(moves),
        -length_of(moves) <= end_of(moves).1 <= length_of(moves),
    decreases moves.len(),
{
    if moves.len() > 0 {
        lemma_end_of(moves.drop_last());
        let amount = moves.last().amount as int;
        match moves.last().direction {
            Direction::L => {
                assert((-1) * amount == -amount && 0 * amount == 0);
            },
            Direction::R => {
                assert(1 * amount == amount && 0 * amount == 0);
            },
            Direction::U => {
                assert(1 * amount == amount && 0 * amount == 0);
            },
            Direction::D => {
                assert((-1) * amount == -amount && 0 * amount == 0);
            },
        }
    }
}

/// The length of the first sections is no more than the length of all.
proof fn lemma_length_of(moves: Seq<WireMove>, n: int)
    requires
        0 <= n <= moves.len(),
    ensures
        0 <= length_of(moves.take(n)) <= length_of(moves),
    decreases moves.len() - n,
{
    lemma_end_of(moves.take(n));
    if n < moves.len() {
        assert(moves.take(n + 1).drop_last() =~= moves.take(n));
        lemma_length_of(moves, n + 1);
    } else {
        assert(moves.take(n) =~= moves);
    }
}

/// Returns the points that a wire with the sections `moves` covers, each with
/// the length of the wire up to it; none where the wire is longer than 32 bits
/// can tell.
pub fn wire_points(moves: &Vec<WireMove>) -> (r: Option<PointMap<u32>>)
    ensures
        match r {
            Some(wire) => wire.wf() && length_of(moves@) <= u32::MAX && wire@ == traced(moves@),
            None => length_of(moves@) > u32::MAX,
        },
{
    let mut map: PointMap<u32> = PointMap::new();
    // Start at the origin.
    let mut x: i64 = 0;
    let mut y: i64 = 0;
    let mut total_dist: u32 = 0;
    let mut i: usize = 0;
    assert(moves@.take(0) =~= Seq::<WireMove>::empty());
    while i < moves.len()
        invariant
            i <= moves@.len(),
            map.wf(),
            map@ == traced(moves@.take(i as int)),
            (x as int, y as int) == end_of(moves@.take(i as int)),
            total_dist == length_of(moves@.take(i as int)),
        decreases moves@.len() - i,
    {
        let section: WireMove = moves[i];
        proof {
            assert(moves@.take(i + 1).drop_last() =~= moves@.take(i as int));
            lemma_length_of(moves@, i as int + 1);
            lemma_end_of(moves@.take(i as int));
        }
        if section.amount > u32::MAX - total_dist {
            return None;
        }
        let (dx, dy): (i64, i64) = unit(section.direction);
        let ghost from = (x as int, y as int);
        let ghost before = map@;
        let ghost length = total_dist as int;
        // Put all points along the wire section in the map.
        let mut k: u32 = 0;
        while k < section.amount
            invariant
                k <= section.amount,
                map.wf(),
                (dx as int, dy as int) == section.direction.unit(),
                -1 <= dx <= 1,
                -1 <= dy <= 1,
                -0x1_0000_0000 <= from.0 <= 0x1_0000_0000,
                -0x1_0000_0000 <= from.1 <= 0x1_0000_0000,
                length + section.amount <= u32::MAX,
                x == from.0 + dx * k,
                y == from.1 + dy * k,
                total_dist == length + k,
                map@ == walked(before, from, section.direction, length, k as nat),
            decreases section.amount - k,
        {
            assert(-k <= dx * k <= k && -k <= dy * k <= k) by (nonlinear_arith)
                requires
                    -1 <= dx <= 1,
                    -1 <= dy <= 1,
                    0 <= k,
            ;
            x = x + dx;
            y = y + dy;
            total_dist = total_dist + 1;
            k = k + 1;
            assert(x == from.0 + dx * k && y == from.1 + dy * k) by (nonlinear_arith)
                requires
                    x == from.0 + dx * (k - 1) + dx,
                    y == from.1 + dy * (k - 1) + dy,
            ;
            map.insert((x, y), total_dist);
        }
        i = i + 1;
    }
    assert(moves@.take(moves@.len() as int) =~= moves@);
    Some(map)
}

/// Returns the points that the wire of the text `line` covers, each with the
/// length of the wire up to it. None where the text denotes no wire, or a wire
/// that is longer than 32 bits can tell.
pub fn read_wire(line: &[u8]) -> (r: Option<PointMap<u32>>)
    ensures
        match r {
            Some(wire) => {
                &&& wire.wf()
                &&& moves_of(line@) is Some
                &&& length_of(moves_of(line@).unwrap()) <= u32::MAX
                &&& wire@ == traced(moves_of(line@).unwrap())
            },
            None => moves_of(line@) is Some ==> length_of(moves_of(line@).unwrap()) > u32::MAX,
        },
{
    match read_moves(line) {
        Some(moves) => wire_points(&moves),
        None => None,
    }
}

/// The distance of `p` from the start, along the lines of the grid.
pub open spec fn norm(p: Point) -> int {
    (if p.0 < 0 {
        -p.0
    } else {
        p.0 as int
    }) + (if p.1 < 0 {
        -p.1
    } else {
        p.1 as int
    })
}

/// The distance between `a` and `b`, along the lines of the grid.
pub open spec fn distance(a: Point, b: Point) -> int {
    (if a.0 < b.0 {
        b.0 - a.0
    } else {
        a.0 - b.0
    }) + (if a.1 < b.1 {
        b.1 - a.1
    } else {
        a.1 - b.1
    })
}

/// The distance between `a` and `b`, along the lines of the grid.
pub fn l1_distance(a: Point, b: Point) -> (d: i128)
    ensures
        d == distance(a, b),
{
    let dx: i128 = if a.0 < b.0 {
        b.0 as i128 - a.0 as i128
    } else {
        a.0 as i128 - b.0 as i128
    };
    let dy: i128 = if a.1 < b.1 {
        b.1 as i128 - a.1 as i128
    } else {
        a.1 as i128 - b.1 as i128
    };
    dx + dy
}

/// The distance of `p` from the start, along the lines of the grid.
pub fn l1_norm(p: Point) -> (d: i128)
    ensures
        d == norm(p),
{
    l1_distance(p, (0, 0))
}

/// One step in the direction `direction`.
pub fn unit(direction: Direction) -> (step: Point)
    ensures
        (step.0 as int, step.1 as int) == direction.unit(),
{
    match direction {
        Direction::L => (-1, 0),
        Direction::R => (1, 0),
        Direction::U => (0, 1),
        Direction::D => (0, -1),
    }
}

/// Whether both wires cover `p`.
pub open spec fn crossing(wire1: Map<Point, u32>, wire2: Map<Point, u32>, p: Point) -> bool {
    wire1.contains_key(p) && wire2.contains_key(p)
}

/// The distance from the start to the nearest point that both wires cover,
/// along the lines of the grid; none where the wires do not cross.
pub fn part1(wire1: &PointMap<u32>, wire2: &PointMap<u32>) -> (r: Option<i128>)
    requires
        wire1.wf(),
        wire2.wf(),
    ensures
        match r {
            Some(d) => {
                &&& exists|p: Point| crossing(wire1@, wire2@, p) && #[trigger] norm(p) == d
                &&& forall|p: Point| crossing(wire1@, wire2@, p) ==> d <= #[trigger] norm(p)
            },
            None => forall|p: Point| !#[trigger] crossing(wire1@, wire2@, p),
        },
{
    let n: usize = wire1.len();
    let mut best: Option<i128> = None;
    let mut k: usize = 0;
    while k < n
        invariant
            k <= n == wire1.points().len(),
            wire1.wf(),
            wire2.wf(),
            wire1.listed(),
            match best {
                Some(d) => {
                    &&& exists|p: Point| crossing(wire1@, wire2@, p) && #[trigger] norm(p) == d
                    &&& forall|i: int|
                        0 <= i < k && crossing(wire1@, wire2@, wire1.points()[i]) ==> d
                            <= #[trigger] norm(wire1.points()[i])
                },
                None => forall|i: int|
                    0 <= i < k ==> !crossing(wire1@, wire2@, #[trigger] wire1.points()[i]),
            },
        decreases n - k,
    {
        let p: Point = wire1.point(k);
        if wire2.contains_key(p) {
            let d: i128 = l1_norm(p);
            assert(crossing(wire1@, wire2@, p));
            best = match best {
                Some(least) => if d < least {
                    Some(d)
                } else {
                    Some(least)
                },
                None => Some(d),
            };
        }
        k = k + 1;
    }
    proof {
        assert forall|p: Point| crossing(wire1@, wire2@, p) implies exists|i: int|
            0 <= i < n && wire1.points()[i] == p by {
            assert(wire1.points().contains(p));
        }
    }
    best
}

/// The least sum of the lengths of the two wires up to a point that both
/// cover; none where the wires do not cross.
pub fn part2(wire1: &PointMap<u32>, wire2: &PointMap<u32>) -> (r: Option<u64>)
    requires
        wire1.wf(),
        wire2.wf(),
    ensures
        match r {
            Some(d) => {
                &&& exists|p: Point|
                    #[trigger] crossing(wire1@, wire2@, p) && wire1@[p] + wire2@[p] == d
                &&& forall|p: Point| #[trigger]
                    crossing(wire1@, wire2@, p) ==> d <= wire1@[p] + wire2@[p]
            },
            None => forall|p: Point| !#[trigger] crossing(wire1@, wire2@, p),
        },
{
    let n: usize = wire1.len();
    let mut best: Option<u64> = None;
    let mut k: usize = 0;
    while k < n
        invariant
            k <= n == wire1.points().len(),
            wire1.wf(),
            wire2.wf(),
            wire1.listed(),
            match best {
                Some(d) => {
                    &&& exists|p: Point|
                        #[trigger] crossing(wire1@, wire2@, p) && wire1@[p] + wire2@[p] == d
                    &&& forall|i: int|
                        0 <= i < k && #[trigger] crossing(wire1@, wire2@, wire1.points()[i]) ==> d
                            <= wire1@[wire1.points()[i]] + wire2@[wire1.points()[i]]
                },
                None => forall|i: int|
                    0 <= i < k ==> !crossing(wire1@, wire2@, #[trigger] wire1.points()[i]),
            },
        decreases n - k,
    {
        let p: Point = wire1.point(k);
        match (wire1.get(p), wire2.get(p)) {
            (Some(a), Some(b)) => {
                let d: u64 = *a as u64 + *b as u64;
                assert(crossing(wire1@, wire2@, p));
                best = match best {
                    Some(least) => if d < least {
                        Some(d)
                    } else {
                        Some(least)
                    },
                    None => Some(d),
                };
            },
            _ => {},
        }
        k = k + 1;
    }
    proof {
        assert forall|p: Point| crossing(wire1@, wire2@, p) implies exists|i: int|
            0 <= i < n && wire1.points()[i] == p by {
            assert(wire1.points().contains(p));
        }
    }
    best
}

} // verus!
