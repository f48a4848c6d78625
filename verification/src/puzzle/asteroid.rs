//! Asteroids on the points of a grid: which of them can see each other, from
//! where the most can be seen, and in which order a rotating laser meets them.

use vstd::prelude::*;
use crate::program::{each_line, lines, lines_of};
use crate::puzzle::number::{
    gcd,
    greatest_common_divisor,
    lemma_gcd_bounds,
    lemma_gcd_unique,
    magnitude,
};

verus! {

/// A point of the grid, as `(x, y)`: `x` counts the columns from the left, `y`
/// the rows from the top.
pub type Point = (i32, i32);

/// What a place of the map holds.
#[derive(Debug, Clone, Copy, PartialEq, Eq, Structural)]
pub enum Tile {
    Empty,
    Asteroid,
}

impl Tile {
    /// The tile that the character `c` of a map stands for, if it stands for
    /// one.
    pub open spec fn of_char(c: char) -> Option<Tile> {
        if c == '.' {
            Some(Tile::Empty)
        } else if c == '#' {
            Some(Tile::Asteroid)
        } else {
            None
        }
    }

    /// The tile that one of the characters `.` and `#` stands for.
    pub fn new(c: char) -> (tile: Self)
        requires
            Tile::of_char(c) is Some,
        ensures
            Tile::of_char(c) == Some(tile),
    {
        if c == '.' {
            Tile::Empty
        } else {
            Tile::Asteroid
        }
    }
}

/// The tiles that the bytes of `line` stand for; none where one stands for no
/// tile.
pub open spec fn row_of(line: Seq<u8>) -> Option<Seq<Tile>> {
    if forall|k: int| 0 <= k < line.len() ==> Tile::of_char(#[trigger] line[k] as char) is Some {
        Some(Seq::new(line.len(), |k: int| Tile::of_char(line[k] as char).unwrap()))
    } else {
        None
    }
}

/// Reads one row of a map.
pub fn read_row(line: &[u8]) -> (row: Option<Vec<Tile>>)
    ensures
        match row {
            Some(row) => row_of(line@) == Some(row@),
            None => row_of(line@) is None,
        },
{
    let mut row: Vec<Tile> = Vec::new();
    let mut k: usize = 0;
    while k < line.len()
        invariant
            k <= line@.len(),
            row@.len() == k,
            forall|i: int|
                0 <= i < k ==> Tile::of_char(#[trigger] line@[i] as char) == Some(row@[i]),
        decreases line@.len() - k,
    {
        let c: char = line[k] as char;
        if c == '.' || c == '#' {
            row.push(Tile::new(c));
        } else {
            assert(Tile::of_char(line@[k as int] as char) is None);
            return None;
        }
        k = k + 1;
    }
    assert(row@ =~= Seq::new(line@.len(), |k: int| Tile::of_char(line@[k] as char).unwrap()));
    Some(row)
}

/// Reads a map into a grid, which is indexed as `grid[y][x]`: each line of the
/// input is a row. None where a line holds a byte that stands for no tile.
pub fn read_input(input: &[u8]) -> (grid: Option<Vec<Vec<Tile>>>)
    ensures
        match grid {
            Some(grid) => {
                &&& grid@.len() == lines_of(input@).len()
                &&& forall|y: int|
                    0 <= y < grid@.len() ==> row_of(lines_of(input@)[y]) == Some(
                        (#[trigger] grid@[y])@,
                    )
            },
            None => exists|y: int|
                0 <= y < lines_of(input@).len() && row_of(#[trigger] lines_of(input@)[y]) is None,
        },
{
    let all: Vec<&[u8]> = lines(input);
    let mut grid: Vec<Vec<Tile>> = Vec::new();
    let mut y: usize = 0;
    while y < all.len()
        invariant
            y <= all@.len(),
            each_line(all@) == lines_of(input@),
            grid@.len() == y,
            forall|i: int|
                0 <= i < y ==> row_of(lines_of(input@)[i]) == Some((#[trigger] grid@[i])@),
        decreases all@.len() - y,
    {
        assert(each_line(all@)[y as int] == all@[y as int]@);
        match read_row(all[y]) {
            Some(row) => {
                let ghost before = grid@;
                let ghost last = row;
                grid.push(row);
                assert(grid@[y as int] == last);
                assert forall|i: int| 0 <= i < y + 1 implies row_of(lines_of(input@)[i]) == Some(
                    (#[trigger] grid@[i])@,
                ) by {
                    if i < y {
                        assert(grid@[i] == before[i]);
                    }
                }
            },
            None => {
                return None;
            },
        }
        y = y + 1;
    }
    Some(grid)
}

/// Whether the map holds an asteroid in column `x` of row `y`.
pub open spec fn asteroid_at(grid: Seq<Vec<Tile>>, x: int, y: int) -> bool {
    0 <= y < grid.len() && 0 <= x < grid[y]@.len() && grid[y]@[x] == Tile::Asteroid
}

/// Whether no point occurs twice in `points`.
pub open spec fn distinct(points: Seq<Point>) -> bool {
    forall|i: int, j: int| 0 <= i < j < points.len() ==> points[i] != points[j]
}

/// Whether every coordinate in `points` is at least 0.
pub open spec fn on_grid(points: Seq<Point>) -> bool {
    forall|i: int| 0 <= i < points.len() ==> (#[trigger] points[i]).0 >= 0 && points[i].1 >= 0
}

/// Whether `p` comes before column `x` of row `y` when the map is read row by
/// row.
pub open spec fn before(p: Point, x: int, y: int) -> bool {
    p.1 < y || (p.1 == y && p.0 < x)
}

/// The coordinates of all asteroids of the map, each of them once, in the
/// order in which the map is read.
pub fn asteroids(grid: &Vec<Vec<Tile>>) -> (points: Vec<Point>)
    requires
        grid@.len() <= i32::MAX,
        forall|y: int| 0 <= y < grid@.len() ==> (#[trigger] grid@[y])@.len() <= i32::MAX,
    ensures
        distinct(points@),
        on_grid(points@),
        forall|p: Point| points@.contains(p) <==> asteroid_at(grid@, p.0 as int, p.1 as int),
        forall|i: int, j: int|
            0 <= i < j < points@.len() ==> before(points@[i], points@[j].0 as int, points@[j].1 as int),
{
    let mut points: Vec<Point> = Vec::new();
    let mut y: usize = 0;
    while y < grid.len()
        invariant
            y <= grid@.len() <= i32::MAX,
            forall|k: int| 0 <= k < grid@.len() ==> (#[trigger] grid@[k])@.len() <= i32::MAX,
            on_grid(points@),
            forall|p: Point|
                points@.contains(p) <==> asteroid_at(grid@, p.0 as int, p.1 as int) && before(
                    p,
                    0,
                    y as int,
                ),
            forall|i: int, j: int|
                0 <= i < j < points@.len() ==> before(
                    points@[i],
                    points@[j].0 as int,
                    points@[j].1 as int,
                ),
        decreases grid@.len() - y,
    {
        let mut x: usize = 0;
        while x < grid[y].len()
            invariant
                y < grid@.len() <= i32::MAX,
                x <= grid@[y as int]@.len() <= i32::MAX,
                on_grid(points@),
                forall|p: Point|
                    points@.contains(p) <==> asteroid_at(grid@, p.0 as int, p.1 as int) && before(
                        p,
                        x as int,
                        y as int,
                    ),
                forall|i: int, j: int|
                    0 <= i < j < points@.len() ==> before(
                        points@[i],
                        points@[j].0 as int,
                        points@[j].1 as int,
                    ),
            decreases grid@[y as int]@.len() - x,
        {
            match grid[y][x] {
                Tile::Asteroid => {
                    let ghost old_points = points@;
                    let point: Point = (x as i32, y as i32);
                    points.push(point);
                    assert forall|p: Point| points@.contains(p) <==> asteroid_at(
                        grid@,
                        p.0 as int,
                        p.1 as int,
                    ) && before(p, x + 1, y as int) by {
                        if p == point {
                            assert(points@[old_points.len() as int] == p);
                        } else if old_points.contains(p) {
                            let i = choose|i: int| 0 <= i < old_points.len() && old_points[i] == p;
                            assert(points@[i] == p);
                        } else if points@.contains(p) {
                            let i = choose|i: int| 0 <= i < points@.len() && points@[i] == p;
                            assert(old_points[i] == p);
                        }
                    }
                    assert forall|i: int, j: int| 0 <= i < j < points@.len() implies before(
                        points@[i],
                        points@[j].0 as int,
                        points@[j].1 as int,
                    ) by {
                        if j == old_points.len() {
                            assert(old_points.contains(old_points[i]));
                        }
                    }
                },
                Tile::Empty => {},
            }
            x = x + 1;
        }
        y = y + 1;
    }
    assert(distinct(points@)) by {
        assert forall|i: int, j: int| 0 <= i < j < points@.len() implies points@[i]
            != points@[j] by {
            assert(before(points@[i], points@[j].0 as int, points@[j].1 as int));
        }
    }
    assert forall|p: Point| points@.contains(p) <==> asteroid_at(
        grid@,
        p.0 as int,
        p.1 as int,
    ) by {
        if asteroid_at(grid@, p.0 as int, p.1 as int) {
            assert(before(p, 0, grid@.len() as int));
        }
    }
    points
}

/// Whether `p` is one of `points`.
pub fn contains(points: &Vec<Point>, p: Point) -> (found: bool)
    ensures
        found == points@.contains(p),
{
    let mut k: usize = 0;
    while k < points.len()
        invariant
            k <= points@.len(),
            forall|i: int| 0 <= i < k ==> points@[i] != p,
        decreases points@.len() - k,
    {
        if points[k].0 == p.0 && points[k].1 == p.1 {
            return true;
        }
        k = k + 1;
    }
    false
}

/// The vector from `b` to `a`, as `(dx, dy)`.
pub fn subtract_points(a: Point, b: Point) -> (d: Point)
    requires
        i32::MIN <= a.0 - b.0 <= i32::MAX,
        i32::MIN <= a.1 - b.1 <= i32::MAX,
    ensures
        d.0 == a.0 - b.0,
        d.1 == a.1 - b.1,
{
    let (x1, y1) = a;
    let (x2, y2) = b;
    (x1 - x2, y1 - y2)
}

/// `a` divided by `b`, rounded towards 0.
pub open spec fn quotient(a: int, b: int) -> int {
    if a >= 0 {
        a / b
    } else {
        -((-a) / b)
    }
}

/// The `i`-th grid point on the line from `a` to `b`, which has one less than
/// `gcd(dx, dy)` grid points between its ends.
pub open spec fn on_line(a: Point, b: Point, i: int) -> (int, int) {
    let dx = b.0 - a.0;
    let dy = b.1 - a.1;
    let steps = gcd(dx, dy);
    (a.0 + i * quotient(dx, steps), a.1 + i * quotient(dy, steps))
}

/// How many of the first grid points between `a` and `b`, those before the
/// `n`-th, hold one of `points`.
pub open spec fn blocked(points: Seq<Point>, a: Point, b: Point, n: int) -> nat
    decreases n,
{
    if n <= 1 {
        0
    } else {
        let p = on_line(a, b, n - 1);
        blocked(points, a, b, n - 1) + if exists|k: int|
            0 <= k < points.len() && (#[trigger] points[k]).0 == p.0 && points[k].1 == p.1 {
            1nat
        } else {
            0nat
        }
    }
}

/// How many of `points` lie on the line between `a` and `b`.
pub open spec fn spec_interference(points: Seq<Point>, a: Point, b: Point) -> nat {
    blocked(points, a, b, gcd(b.0 - a.0, b.1 - a.1))
}

/// Whether both coordinates of `p` are at least 0.
pub open spec fn placed(p: Point) -> bool {
    p.0 >= 0 && p.1 >= 0
}

/// The steps of a line stay between its ends.
proof fn lemma_step_bound(d: int, g: int, i: int)
    requires
        g > 0,
        0 <= i <= g,
    ensures
        d >= 0 ==> 0 <= i * quotient(d, g) <= d,
        d < 0 ==> d <= i * quotient(d, g) <= 0,
{
    let m = magnitude(d);
    let s = m / g;
    assert(0 <= s * g <= m) by {
        vstd::arithmetic::div_mod::lemma_fundamental_div_mod(m, g);
        vstd::arithmetic::div_mod::lemma_mod_bound(m, g);
        assert(s * g == g * s) by (nonlinear_arith);
        assert(s >= 0) by (nonlinear_arith)
            requires
                m >= 0,
                g > 0,
                s == m / g,
        ;
    }
    assert(0 <= i * s <= s * g) by (nonlinear_arith)
        requires
            0 <= i <= g,
            s >= 0,
    ;
    if d < 0 {
        assert(i * (-s) == -(i * s)) by (nonlinear_arith);
    }
}

/// How many asteroids are there on the line between these two points?
pub fn interference(asteroids: &Vec<Point>, a: Point, b: Point) -> (count: usize)
    requires
        a != b,
        placed(a),
        placed(b),
    ensures
        count == spec_interference(asteroids@, a, b),
{
    let (x1, y1) = a;
    let (x2, y2) = b;
    let dx: i32 = x2 - x1;
    let dy: i32 = y2 - y1;
    let divisor: i64 = greatest_common_divisor(dx as i64, dy as i64);
    proof {
        lemma_gcd_unique(divisor as int, dx as int, dy as int);
        lemma_gcd_bounds(divisor as int, dx as int, dy as int);
    }
    let num_steps: i32 = divisor as i32;
    let x_step: i32 = dx / num_steps;
    let y_step: i32 = dy / num_steps;
    assert(x_step == quotient(dx as int, num_steps as int));
    assert(y_step == quotient(dy as int, num_steps as int));
    let mut count: usize = 0;
    let mut i: i32 = 1;
    while i < num_steps
        invariant
            1 <= i <= num_steps || (num_steps <= 1 && i == 1),
            1 <= num_steps,
            placed(a),
            placed(b),
            (x1, y1) == a,
            (x2, y2) == b,
            dx == x2 - x1,
            dy == y2 - y1,
            num_steps == gcd(dx as int, dy as int),
            x_step == quotient(dx as int, num_steps as int),
            y_step == quotient(dy as int, num_steps as int),
            count == blocked(asteroids@, a, b, i as int),
            count < i,
        decreases num_steps - i,
    {
        proof {
            lemma_step_bound(dx as int, num_steps as int, i as int);
            lemma_step_bound(dy as int, num_steps as int, i as int);
        }
        let x: i32 = x1 + i * x_step;
        let y: i32 = y1 + i * y_step;
        let found: bool = contains(asteroids, (x, y));
        proof {
            let p = on_line(a, b, i as int);
            assert(p == (x as int, y as int));
            if found {
                let k = choose|k: int| 0 <= k < asteroids@.len() && asteroids@[k] == (x, y);
                assert(asteroids@[k].0 == p.0 && asteroids@[k].1 == p.1);
            } else {
                assert forall|k: int| 0 <= k < asteroids@.len() implies !((
                #[trigger] asteroids@[k]).0 == p.0 && asteroids@[k].1 == p.1) by {
                    if asteroids@[k].0 == p.0 && asteroids@[k].1 == p.1 {
                        assert(asteroids@[k] == (x, y));
                    }
                }
            }
        }
        if found {
            count = count + 1;
        }
        i = i + 1;
    }
    count
}

/// Can these two points see each other? They can where no asteroid lies on the
/// line between them.
pub fn is_visible(asteroids: &Vec<Point>, a: Point, b: Point) -> (visible: bool)
    requires
        a != b,
        placed(a),
        placed(b),
    ensures
        visible == (spec_interference(asteroids@, a, b) == 0),
{
    interference(asteroids, a, b) == 0
}

/// Whether an observer at `base` sees the asteroid `other`.
pub open spec fn sees(points: Seq<Point>, base: Point, other: Point) -> bool {
    base != other && spec_interference(points, base, other) == 0
}

/// How many of the first `n` of `points` an observer at `base` sees.
pub open spec fn visible_among(points: Seq<Point>, base: Point, n: int) -> nat
    decreases n,
{
    if n <= 0 {
        0
    } else {
        visible_among(points, base, n - 1) + if sees(points, base, points[n - 1]) {
            1nat
        } else {
            0nat
        }
    }
}

/// How many other asteroids are visible from this location?
pub fn num_visible(asteroids: &Vec<Point>, base: Point) -> (count: usize)
    requires
        on_grid(asteroids@),
        placed(base),
    ensures
        count == visible_among(asteroids@, base, asteroids@.len() as int),
{
    let mut count: usize = 0;
    let mut k: usize = 0;
    while k < asteroids.len()
        invariant
            k <= asteroids@.len(),
            on_grid(asteroids@),
            placed(base),
            count == visible_among(asteroids@, base, k as int),
            count <= k,
        decreases asteroids@.len() - k,
    {
        let other: Point = asteroids[k];
        if !(base.0 == other.0 && base.1 == other.1) && is_visible(asteroids, base, other) {
            count = count + 1;
        }
        k = k + 1;
    }
    count
}

/// The last among the first `n` of `points` from which no fewer asteroids are
/// seen than from any other of them.
pub open spec fn best_among(points: Seq<Point>, n: int) -> int
    decreases n,
{
    if n <= 1 {
        0
    } else {
        let best = best_among(points, n - 1);
        if visible_among(points, points[n - 1], points.len() as int) >= visible_among(
            points,
            points[best],
            points.len() as int,
        ) {
            n - 1
        } else {
            best
        }
    }
}

/// The best among the first `n` is one of them, and from none of them more is
/// seen.
pub proof fn lemma_best_among(points: Seq<Point>, n: int)
    requires
        1 <= n <= points.len(),
    ensures
        0 <= best_among(points, n) < n,
        forall|i: int|
            0 <= i < n ==> #[trigger] visible_among(points, points[i], points.len() as int)
                <= visible_among(points, points[best_among(points, n)], points.len() as int),
    decreases n,
{
    if n > 1 {
        lemma_best_among(points, n - 1);
    }
}

/// What is the monitoring station with the best visibility? Also returns the
/// number of other asteroids visible from that station. Of several that are as
/// good, the last one is returned.
pub fn best_station(asteroids: &Vec<Point>) -> (r: (Point, usize))
    requires
        asteroids@.len() > 0,
        on_grid(asteroids@),
    ensures
        r.0 == asteroids@[best_among(asteroids@, asteroids@.len() as int)],
        r.1 == visible_among(asteroids@, r.0, asteroids@.len() as int),
{
    let mut best: Point = asteroids[0];
    let mut num_vis: usize = num_visible(asteroids, best);
    let mut k: usize = 1;
    while k < asteroids.len()
        invariant
            1 <= k <= asteroids@.len(),
            on_grid(asteroids@),
            best == asteroids@[best_among(asteroids@, k as int)],
            num_vis == visible_among(asteroids@, best, asteroids@.len() as int),
        decreases asteroids@.len() - k,
    {
        let candidate: Point = asteroids[k];
        let count: usize = num_visible(asteroids, candidate);
        if count >= num_vis {
            best = candidate;
            num_vis = count;
        }
        k = k + 1;
    }
    (best, num_vis)
}

/// What is the visibility of the best monitoring station?
pub fn max_visibility(asteroids: &Vec<Point>) -> (count: usize)
    requires
        asteroids@.len() > 0,
        on_grid(asteroids@),
    ensures
        count == visible_among(
            asteroids@,
            asteroids@[best_among(asteroids@, asteroids@.len() as int)],
            asteroids@.len() as int,
        ),
{
    best_station(asteroids).1
}

/// The direction from one point to another, kept as the vector between them. Directions are
/// ordered clockwise from noon, with `y` growing downward.
#[derive(Debug, Clone, Copy, PartialEq, Eq, Structural)]
pub struct Angle {
    pub dx: i32,
    pub dy: i32,
}

impl Angle {
    /// Whether the direction points into the left half of the clock, from six
    /// o'clock up to noon.
    pub open spec fn flipside(self) -> bool {
        self.dx < 0 || (self.dx == 0 && self.dy > 0)
    }

    /// Whether the direction is straight up or straight down.
    pub open spec fn vertical(self) -> bool {
        self.dx == 0
    }

    /// Whether this direction comes before `other`, clockwise from noon: the
    /// right half of the clock comes before the left half, within a half the
    /// vertical comes first, and then the lesser slope `dy / dx`.
    pub open spec fn spec_precedes(self, other: Angle) -> bool {
        if self.flipside() != other.flipside() {
            !self.flipside()
        } else if self.vertical() || other.vertical() {
            self.vertical() && !other.vertical()
        } else {
            self.dy * other.dx < other.dy * self.dx
        }
    }

    /// The direction from `a` to `b`. It is turned by half a circle where `a`
    /// and `b` are swapped.
    pub fn new(a: Point, b: Point) -> (angle: Self)
        requires
            a != b,
            i32::MIN <= b.0 - a.0 <= i32::MAX,
            i32::MIN <= b.1 - a.1 <= i32::MAX,
        ensures
            angle.dx == b.0 - a.0,
            angle.dy == b.1 - a.1,
    {
        let (dx, dy) = subtract_points(b, a);
        Angle { dx, dy }
    }

    /// Whether this direction comes before `other`, clockwise from noon.
    pub fn precedes(self, other: Angle) -> (before: bool)
        ensures
            before == self.spec_precedes(other),
    {
        let (dx1, dy1) = (self.dx, self.dy);
        let (dx2, dy2) = (other.dx, other.dy);
        let flip1: bool = dx1 < 0 || (dx1 == 0 && dy1 > 0);
        let flip2: bool = dx2 < 0 || (dx2 == 0 && dy2 > 0);
        if flip1 != flip2 {
            !flip1
        } else if dx1 == 0 || dx2 == 0 {
            dx1 == 0 && dx2 != 0
        } else {
            assert(-0x4000_0000_0000_0000 <= dy1 * dx2 <= 0x4000_0000_0000_0000) by (nonlinear_arith)
                requires
                    -0x8000_0000 <= dy1 <= 0x8000_0000,
                    -0x8000_0000 <= dx2 <= 0x8000_0000,
            ;
            assert(-0x4000_0000_0000_0000 <= dy2 * dx1 <= 0x4000_0000_0000_0000) by (nonlinear_arith)
                requires
                    -0x8000_0000 <= dy2 <= 0x8000_0000,
                    -0x8000_0000 <= dx1 <= 0x8000_0000,
            ;
            (dy1 as i64) * (dx2 as i64) < (dy2 as i64) * (dx1 as i64)
        }
    }
}

/// No direction comes before itself, and of two directions at most one comes
/// before the other.
pub proof fn lemma_precedes_strict(a: Angle, b: Angle)
    ensures
        !a.spec_precedes(a),
        !(a.spec_precedes(b) && b.spec_precedes(a)),
{
}

/// The direction in which the laser at `station` meets `p`.
pub open spec fn direction(station: Point, p: Point) -> Angle {
    Angle { dx: (p.0 - station.0) as i32, dy: (p.1 - station.1) as i32 }
}

/// Whether the laser at `station` destroys `p` before `q`: in an earlier turn,
/// because fewer asteroids lie before it, or in the same turn and earlier in it.
pub open spec fn zapped_before(points: Seq<Point>, station: Point, p: Point, q: Point) -> bool {
    let layer_p = spec_interference(points, station, p);
    let layer_q = spec_interference(points, station, q);
    layer_p < layer_q || (layer_p == layer_q && direction(station, p).spec_precedes(
        direction(station, q),
    ))
}

/// How many of the first `n` of `points`, the station not counted, are
/// destroyed before `q`.
pub open spec fn zapped_among(points: Seq<Point>, station: Point, q: Point, n: int) -> nat
    decreases n,
{
    if n <= 0 {
        0
    } else {
        zapped_among(points, station, q, n - 1) + if points[n - 1] != station && zapped_before(
            points,
            station,
            points[n - 1],
            q,
        ) {
            1nat
        } else {
            0nat
        }
    }
}

/// Whether `q` is the `n`-th asteroid that the laser at `station` destroys:
/// exactly `n - 1` others are destroyed before it.
pub open spec fn is_nth(points: Seq<Point>, station: Point, q: Point, n: int) -> bool {
    q != station && zapped_among(points, station, q, points.len() as int) == n - 1
}

/// How many asteroids lie between the station and each asteroid.
fn layers(asteroids: &Vec<Point>, station: Point) -> (layers: Vec<usize>)
    requires
        on_grid(asteroids@),
        placed(station),
    ensures
        layers@.len() == asteroids@.len(),
        forall|k: int|
            0 <= k < asteroids@.len() && asteroids@[k] != station ==> #[trigger] layers@[k]
                == spec_interference(asteroids@, station, asteroids@[k]),
{
    let mut layers: Vec<usize> = Vec::new();
    let mut k: usize = 0;
    while k < asteroids.len()
        invariant
            k <= asteroids@.len(),
            on_grid(asteroids@),
            placed(station),
            layers@.len() == k,
            forall|i: int|
                0 <= i < k && asteroids@[i] != station ==> #[trigger] layers@[i]
                    == spec_interference(asteroids@, station, asteroids@[i]),
        decreases asteroids@.len() - k,
    {
        let point: Point = asteroids[k];
        let layer: usize = if point.0 == station.0 && point.1 == station.1 {
            0
        } else {
            interference(asteroids, station, point)
        };
        layers.push(layer);
        k = k + 1;
    }
    layers
}

/// What is the `n`-th asteroid to be destroyed by the laser at `station`, which
/// starts at noon, turns clockwise, and destroys in each turn the nearest
/// asteroid of each direction? `None` where there are fewer than `n`
/// asteroids besides the station.
pub fn asteroid_n(asteroids: &Vec<Point>, station: Point, n: usize) -> (r: Option<Point>)
    requires
        n != 0,
        on_grid(asteroids@),
        placed(station),
    ensures
        match r {
            Some(point) => exists|k: int|
                {
                    &&& 0 <= k < asteroids@.len()
                    &&& #[trigger] asteroids@[k] == point
                    &&& is_nth(asteroids@, station, point, n as int)
                    &&& forall|i: int|
                        0 <= i < k ==> !is_nth(asteroids@, station, #[trigger] asteroids@[i], n as int)
                },
            None => forall|i: int|
                0 <= i < asteroids@.len() ==> !is_nth(
                    asteroids@,
                    station,
                    #[trigger] asteroids@[i],
                    n as int,
                ),
        },
{
    let layers: Vec<usize> = layers(asteroids, station);
    let mut k: usize = 0;
    while k < asteroids.len()
        invariant
            k <= asteroids@.len(),
            n != 0,
            on_grid(asteroids@),
            placed(station),
            layers@.len() == asteroids@.len(),
            forall|i: int|
                0 <= i < asteroids@.len() && asteroids@[i] != station ==> #[trigger] layers@[i]
                    == spec_interference(asteroids@, station, asteroids@[i]),
            forall|i: int|
                0 <= i < k ==> !is_nth(asteroids@, station, #[trigger] asteroids@[i], n as int),
        decreases asteroids@.len() - k,
    {
        let point: Point = asteroids[k];
        if !(point.0 == station.0 && point.1 == station.1) {
            let angle: Angle = Angle::new(station, point);
            let mut before: usize = 0;
            let mut j: usize = 0;
            while j < asteroids.len()
                invariant
                    j <= asteroids@.len(),
                    k < asteroids@.len(),
                    point == asteroids@[k as int],
                    point != station,
                    angle == direction(station, point),
                    on_grid(asteroids@),
                    placed(station),
                    layers@.len() == asteroids@.len(),
                    forall|i: int|
                        0 <= i < asteroids@.len() && asteroids@[i] != station
                            ==> #[trigger] layers@[i] == spec_interference(
                            asteroids@,
                            station,
                            asteroids@[i],
                        ),
                    before == zapped_among(asteroids@, station, point, j as int),
                    before <= j,
                decreases asteroids@.len() - j,
            {
                let other: Point = asteroids[j];
                if !(other.0 == station.0 && other.1 == station.1) {
                    let earlier: bool = layers[j] < layers[k] || (layers[j] == layers[k]
                        && Angle::new(station, other).precedes(angle));
                    if earlier {
                        before = before + 1;
                    }
                }
                j = j + 1;
            }
            if before == n - 1 {
                return Some(point);
            }
        }
        k = k + 1;
    }
    None
}

} // verus!
