//! A sparse map from the points of a plane to values, which also remembers the
//! order in which its points were first written.

use std::collections::HashMap;
use vstd::prelude::*;

verus! {

broadcast use vstd::std_specs::hash::group_hash_axioms;

/// A point of the plane, as `(x, y)`.
pub type Point = (i64, i64);

/// Half the range of a coordinate: 2 to the 63rd.
pub open spec fn half() -> int {
    0x8000_0000_0000_0000
}

/// The number under which the point `p` is kept: each point has its own.
pub open spec fn key_of(p: Point) -> u128 {
    ((p.0 + half()) * (2 * half()) + (p.1 + half())) as u128
}

/// Two points with one key are one point.
pub proof fn lemma_key_of(p: Point, q: Point)
    ensures
        key_of(p) == key_of(q) ==> p == q,
        key_of(p) == (p.0 + half()) * (2 * half()) + (p.1 + half()),
{
    let a = p.0 + half();
    let b = p.1 + half();
    let c = q.0 + half();
    let d = q.1 + half();
    assert(0 <= a * (2 * half()) + b < 0x1_0000_0000_0000_0000_0000_0000_0000_0000) by (nonlinear_arith)
        requires
            0 <= a < 2 * half(),
            0 <= b < 2 * half(),
            half() == 0x8000_0000_0000_0000,
    ;
    assert(0 <= c * (2 * half()) + d < 0x1_0000_0000_0000_0000_0000_0000_0000_0000) by (nonlinear_arith)
        requires
            0 <= c < 2 * half(),
            0 <= d < 2 * half(),
            half() == 0x8000_0000_0000_0000,
    ;
    if key_of(p) == key_of(q) {
        assert(a == c && b == d) by (nonlinear_arith)
            requires
                a * (2 * half()) + b == c * (2 * half()) + d,
                0 <= b < 2 * half(),
                0 <= d < 2 * half(),
                half() == 0x8000_0000_0000_0000,
        ;
    }
}

/// The number under which the point `p` is kept.
fn key(p: Point) -> (k: u128)
    ensures
        k == key_of(p),
{
    proof {
        lemma_key_of(p, p);
    }
    let a: u128 = (p.0 as i128 + 0x8000_0000_0000_0000) as u128;
    let b: u128 = (p.1 as i128 + 0x8000_0000_0000_0000) as u128;
    assert(a * 0x1_0000_0000_0000_0000 + b < 0x1_0000_0000_0000_0000_0000_0000_0000_0000)
        by (nonlinear_arith)
        requires
            0 <= a < 0x1_0000_0000_0000_0000,
            0 <= b < 0x1_0000_0000_0000_0000,
    ;
    a * 0x1_0000_0000_0000_0000 + b
}

/// A map from points to values.
pub struct PointMap<V> {
    cells: HashMap<u128, V>,
    points: Vec<Point>,
}

impl<V> View for PointMap<V> {
    type V = Map<Point, V>;

    /// The value of each point that was written.
    closed spec fn view(&self) -> Map<Point, V> {
        Map::new(
            |p: Point| self.cells@.contains_key(key_of(p)),
            |p: Point| self.cells@[key_of(p)],
        )
    }
}

impl<V> PointMap<V> {
    /// The points that were written, in the order in which they were first
    /// written.
    pub closed spec fn points(&self) -> Seq<Point> {
        self.points@
    }

    /// Whether the map is sound: the points that it remembers are those that were
    /// written, each once. Every map that this module hands out is.
    pub closed spec fn wf(&self) -> bool {
        &&& self.points@.no_duplicates()
        &&& forall|i: int|
            0 <= i < self.points@.len() ==> self.cells@.contains_key(
                key_of(#[trigger] self.points@[i]),
            )
        &&& forall|k: u128| #[trigger]
            self.cells@.contains_key(k) ==> exists|i: int|
                0 <= i < self.points@.len() && key_of(#[trigger] self.points@[i]) == k
    }

    /// Whether the points are those of the map, each of them once.
    pub open spec fn listed(&self) -> bool {
        &&& self.points().no_duplicates()
        &&& forall|p: Point| self@.contains_key(p) <==> self.points().contains(p)
    }

    /// A map without points.
    pub fn new() -> (map: Self)
        ensures
            map.wf(),
            map@ == Map::<Point, V>::empty(),
            map.points() == Seq::<Point>::empty(),
    {
        let map = PointMap { cells: HashMap::new(), points: Vec::new() };
        assert(map@ =~= Map::<Point, V>::empty());
        map
    }

    /// Whether a value was written at `p`.
    pub fn contains_key(&self, p: Point) -> (found: bool)
        ensures
            found == self@.contains_key(p),
    {
        let k: u128 = key(p);
        self.cells.contains_key(&k)
    }

    /// The value at `p`, where one was written.
    pub fn get(&self, p: Point) -> (value: Option<&V>)
        ensures
            match value {
                Some(v) => self@.contains_key(p) && self@[p] == *v,
                None => !self@.contains_key(p),
            },
    {
        let k: u128 = key(p);
        self.cells.get(&k)
    }

    /// Writes `value` at `p`.
    pub fn insert(&mut self, p: Point, value: V)
        requires
            old(self).wf(),
        ensures
            final(self).wf(),
            final(self)@ == old(self)@.insert(p, value),
            final(self).points() == if old(self)@.contains_key(p) {
                old(self).points()
            } else {
                old(self).points().push(p)
            },
    {
        let k: u128 = key(p);
        let known: bool = self.cells.contains_key(&k);
        let ghost before = self.cells@;
        let ghost listed = self.points@;
        self.cells.insert(k, value);
        if !known {
            self.points.push(p);
        }
        proof {
            assert forall|q: Point| key_of(q) == k implies q == p by {
                lemma_key_of(p, q);
            }
            assert(self@ =~= old(self)@.insert(p, value));
            if !known {
                assert forall|i: int, j: int|
                    0 <= i < j < self.points@.len() implies self.points@[i] != self.points@[j] by {
                    if j == listed.len() {
                        assert(before.contains_key(key_of(listed[i])));
                    }
                }
                assert forall|c: u128| #[trigger] self.cells@.contains_key(c) implies exists|i: int|
                    0 <= i < self.points@.len() && key_of(#[trigger] self.points@[i]) == c by {
                    if c == k {
                        assert(key_of(self.points@[listed.len() as int]) == c);
                    } else {
                        let i = choose|i: int| 0 <= i < listed.len() && key_of(#[trigger] listed[i]) == c;
                        assert(key_of(self.points@[i]) == c);
                    }
                }
            } else {
                assert forall|c: u128| #[trigger] self.cells@.contains_key(c) implies exists|i: int|
                    0 <= i < self.points@.len() && key_of(#[trigger] self.points@[i]) == c by {
                    if c == k {
                        let i = choose|i: int| 0 <= i < listed.len() && key_of(#[trigger] listed[i]) == k;
                        assert(key_of(self.points@[i]) == c);
                    } else {
                        let i = choose|i: int| 0 <= i < listed.len() && key_of(#[trigger] listed[i]) == c;
                        assert(key_of(self.points@[i]) == c);
                    }
                }
            }
        }
    }

    /// How many points were written.
    pub fn len(&self) -> (n: usize)
        requires
            self.wf(),
        ensures
            n == self.points().len(),
            self.listed(),
    {
        proof {
            assert forall|p: Point| self@.contains_key(p) <==> self.points().contains(p) by {
                if self@.contains_key(p) {
                    let i = choose|i: int|
                        0 <= i < self.points@.len() && key_of(#[trigger] self.points@[i]) == key_of(p);
                    lemma_key_of(p, self.points@[i]);
                }
            }
        }
        self.points.len()
    }

    /// The point that was the `i`-th to be written, counted from 0.
    pub fn point(&self, i: usize) -> (p: Point)
        requires
            self.wf(),
            i < self.points().len(),
        ensures
            p == self.points()[i as int],
            self@.contains_key(p),
    {
        self.points[i]
    }
}

/// The least rectangle that holds points: the least and the greatest `x`, and
/// the least and the greatest `y`.
pub struct Bounds {
    pub min_x: i64,
    pub max_x: i64,
    pub min_y: i64,
    pub max_y: i64,
}

/// Whether `b` is the least rectangle that holds the first `n` of `points`:
/// it holds them all, and each of its sides touches one of them.
pub open spec fn bounds_of(points: Seq<Point>, n: int, b: Bounds) -> bool {
    &&& forall|i: int|
        0 <= i < n ==> b.min_x <= (#[trigger] points[i]).0 <= b.max_x && b.min_y <= points[i].1
            <= b.max_y
    &&& exists|i: int| 0 <= i < n && (#[trigger] points[i]).0 == b.min_x
    &&& exists|i: int| 0 <= i < n && (#[trigger] points[i]).0 == b.max_x
    &&& exists|i: int| 0 <= i < n && (#[trigger] points[i]).1 == b.min_y
    &&& exists|i: int| 0 <= i < n && (#[trigger] points[i]).1 == b.max_y
}

impl<V> PointMap<V> {
    /// The least rectangle that holds the points of the map; none where the map
    /// holds no point.
    pub fn bounds(&self) -> (r: Option<Bounds>)
        requires
            self.wf(),
        ensures
            match r {
                Some(b) => bounds_of(self.points(), self.points().len() as int, b),
                None => self.points().len() == 0,
            },
    {
        let n: usize = self.points.len();
        if n == 0 {
            return None;
        }
        let first: Point = self.points[0];
        let mut b: Bounds = Bounds { min_x: first.0, max_x: first.0, min_y: first.1, max_y: first.1 };
        let mut k: usize = 1;
        assert(self.points@[0] == first);
        while k < n
            invariant
                1 <= k <= n == self.points@.len(),
                bounds_of(self.points@, k as int, b),
            decreases n - k,
        {
            let p: Point = self.points[k];
            let ghost old_b = b;
            let ghost at_min_x = choose|i: int| 0 <= i < k && (#[trigger] self.points@[i]).0 == old_b.min_x;
            let ghost at_max_x = choose|i: int| 0 <= i < k && (#[trigger] self.points@[i]).0 == old_b.max_x;
            let ghost at_min_y = choose|i: int| 0 <= i < k && (#[trigger] self.points@[i]).1 == old_b.min_y;
            let ghost at_max_y = choose|i: int| 0 <= i < k && (#[trigger] self.points@[i]).1 == old_b.max_y;
            if p.0 < b.min_x {
                b.min_x = p.0;
            }
            if p.0 > b.max_x {
                b.max_x = p.0;
            }
            if p.1 < b.min_y {
                b.min_y = p.1;
            }
            if p.1 > b.max_y {
                b.max_y = p.1;
            }
            proof {
                assert(self.points@[k as int] == p);
                assert(self.points@[at_min_x].0 == old_b.min_x);
                assert(self.points@[at_max_x].0 == old_b.max_x);
                assert(self.points@[at_min_y].1 == old_b.min_y);
                assert(self.points@[at_max_y].1 == old_b.max_y);
            }
            k = k + 1;
        }
        Some(b)
    }
}

} // verus!
