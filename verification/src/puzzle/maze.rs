//! Distances in an area of floor and walls: from the start to the oxygen
//! system, and from the oxygen system to the farthest place.

use vstd::prelude::*;
use crate::puzzle::droid::Tile;
use crate::puzzle::plane::{Point, PointMap};

verus! {

/// Whether `q` is one step from `p`, to the north, east, south or west.
pub open spec fn adjacent(p: Point, q: Point) -> bool {
    ||| q.0 == p.0 && q.1 == p.1 + 1
    ||| q.0 == p.0 + 1 && q.1 == p.1
    ||| q.0 == p.0 && q.1 == p.1 - 1
    ||| q.0 == p.0 - 1 && q.1 == p.1
}

/// Whether the area can be walked on at `p`: the place is known and no wall.
pub open spec fn open_at(grid: Map<Point, Tile>, p: Point) -> bool {
    grid.contains_key(p) && grid[p] != Tile::Wall
}

/// The places that are no more than `d` steps from `source`, on a way that
/// leads over no wall.
pub open spec fn reach(grid: Map<Point, Tile>, source: Point, d: nat) -> Set<Point>
    decreases d,
{
    if d == 0 {
        set![source]
    } else {
        let nearer = reach(grid, source, (d - 1) as nat);
        Set::new(
            |q: Point|
                nearer.contains(q) || (open_at(grid, q) && exists|p: Point|
                    nearer.contains(p) && adjacent(p, q)),
        )
    }
}

/// Whether one of `places` is the oxygen system.
pub open spec fn has_target(grid: Map<Point, Tile>, places: Set<Point>) -> bool {
    exists|q: Point| places.contains(q) && grid.contains_key(q) && #[trigger] grid[q] == Tile::Target
}

/// Whether every place that can be reached from `source` has all its
/// neighbours on the map, so that the map shows where the area ends; and
/// whether no such place lies at the end of the range of the coordinates.
pub open spec fn enclosed(grid: Map<Point, Tile>, source: Point) -> bool {
    &&& grid.contains_key(source)
    &&& forall|p: Point| #[trigger]
        grid.contains_key(p) && (p == source || grid[p] != Tile::Wall) ==> {
            &&& i64::MIN < p.0 < i64::MAX
            &&& i64::MIN < p.1 < i64::MAX
            &&& forall|q: Point| adjacent(p, q) ==> #[trigger] grid.contains_key(q)
        }
}

/// What is near is also less near.
pub proof fn lemma_reach_grows(grid: Map<Point, Tile>, source: Point, c: nat, d: nat)
    requires
        c <= d,
    ensures
        reach(grid, source, c).subset_of(reach(grid, source, d)),
    decreases d - c,
{
    if c < d {
        lemma_reach_grows(grid, source, c, (d - 1) as nat);
    }
}

/// Once a step more reaches nothing new, no number of steps does.
pub proof fn lemma_reach_ends(grid: Map<Point, Tile>, source: Point, d: nat, e: nat)
    requires
        reach(grid, source, d + 1) == reach(grid, source, d),
        d <= e,
    ensures
        reach(grid, source, e) == reach(grid, source, d),
    decreases e - d,
{
    if d < e {
        lemma_reach_ends(grid, source, d, (e - 1) as nat);
        assert(reach(grid, source, e) =~= reach(grid, source, d + 1));
    }
}

/// Every place that can be reached is on the map, where the source is.
proof fn lemma_reach_known(grid: Map<Point, Tile>, source: Point, d: nat)
    requires
        grid.contains_key(source),
    ensures
        forall|q: Point| #[trigger] reach(grid, source, d).contains(q) ==> grid.contains_key(q),
    decreases d,
{
    if d > 0 {
        lemma_reach_known(grid, source, (d - 1) as nat);
        assert forall|q: Point| #[trigger] reach(grid, source, d).contains(q) implies grid.contains_key(
            q,
        ) by {
            if !reach(grid, source, (d - 1) as nat).contains(q) {
                assert(open_at(grid, q));
            }
        }
    }
}

/// Checks whether the map shows where the area ends.
pub fn is_enclosed(grid: &PointMap<Tile>, source: Point) -> (ok: bool)
    requires
        grid.wf(),
    ensures
        ok == enclosed(grid@, source),
{
    if !grid.contains_key(source) {
        return false;
    }
    let n: usize = grid.len();
    let mut k: usize = 0;
    while k < n
        invariant
            k <= n == grid.points().len(),
            grid.wf(),
            grid.listed(),
            grid@.contains_key(source),
            forall|i: int| #![trigger grid.points()[i]]
                0 <= i < k ==> {
                    let p = grid.points()[i];
                    (p == source || grid@[p] != Tile::Wall) ==> {
                        &&& i64::MIN < p.0 < i64::MAX
                        &&& i64::MIN < p.1 < i64::MAX
                        &&& forall|q: Point| adjacent(p, q) ==> #[trigger] grid@.contains_key(q)
                    }
                },
        decreases n - k,
    {
        let p: Point = grid.point(k);
        let wall: bool = match grid.get(p) {
            Some(tile) => *tile == Tile::Wall,
            None => true,
        };
        if (p.0 == source.0 && p.1 == source.1) || !wall {
            if p.0 == i64::MIN || p.0 == i64::MAX || p.1 == i64::MIN || p.1 == i64::MAX {
                return false;
            }
            if !(grid.contains_key((p.0, p.1 + 1)) && grid.contains_key((p.0 + 1, p.1))
                && grid.contains_key((p.0, p.1 - 1)) && grid.contains_key((p.0 - 1, p.1))) {
                assert(adjacent(p, (p.0, (p.1 + 1) as i64)) && adjacent(p, ((p.0 + 1) as i64, p.1))
                    && adjacent(p, (p.0, (p.1 - 1) as i64)) && adjacent(
                    p,
                    ((p.0 - 1) as i64, p.1),
                ));
                return false;
            }
            assert forall|q: Point| adjacent(p, q) implies #[trigger] grid@.contains_key(q) by {
                assert(q == (p.0, (p.1 + 1) as i64) || q == ((p.0 + 1) as i64, p.1) || q == (
                    p.0,
                    (p.1 - 1) as i64,
                ) || q == ((p.0 - 1) as i64, p.1));
            }
        }
        k = k + 1;
    }
    proof {
        assert forall|p: Point| #[trigger]
            grid@.contains_key(p) && (p == source || grid@[p] != Tile::Wall) implies {
            &&& i64::MIN < p.0 < i64::MAX
            &&& i64::MIN < p.1 < i64::MAX
            &&& forall|q: Point| adjacent(p, q) ==> #[trigger] grid@.contains_key(q)
        } by {
            assert(grid.points().contains(p));
            let i = choose|i: int| 0 <= i < grid.points().len() && grid.points()[i] == p;
            assert(grid.points()[i] == p);
        }
    }
    true
}

/// The places that are new at `d` steps: those that are exactly `d` steps from
/// the source.
pub open spec fn newly(grid: Map<Point, Tile>, source: Point, d: nat) -> Set<Point> {
    if d == 0 {
        reach(grid, source, 0)
    } else {
        reach(grid, source, d).difference(reach(grid, source, (d - 1) as nat))
    }
}

/// The state of a search that has gone `d` steps from the source.
pub struct Search {
    /// The places that are no more than `d` steps away, each with its distance.
    pub seen: PointMap<usize>,
    /// The places that are exactly `d` steps away.
    pub frontier: Vec<Point>,
    /// How many steps the search has gone.
    pub d: usize,
}

impl Search {
    /// Whether the search has gone `d` steps on `grid` from `source`.
    pub open spec fn at(&self, grid: Map<Point, Tile>, source: Point) -> bool {
        &&& self.seen.wf()
        &&& forall|q: Point|
            self.seen@.contains_key(q) <==> #[trigger] reach(grid, source, self.d as nat).contains(q)
        &&& forall|q: Point| #[trigger]
            newly(grid, source, self.d as nat).contains(q) <==> self.frontier@.contains(q)
        &&& self.d < self.seen.points().len()
    }

    /// A search that has gone no step yet.
    pub fn new(grid: &PointMap<Tile>, source: Point) -> (search: Self)
        requires
            grid.wf(),
            enclosed(grid@, source),
        ensures
            search.at(grid@, source),
            search.d == 0,
    {
        let mut seen: PointMap<usize> = PointMap::new();
        seen.insert(source, 0);
        let mut frontier: Vec<Point> = Vec::new();
        frontier.push(source);
        let search = Search { seen, frontier, d: 0 };
        proof {
            assert(search.frontier@[0] == source);
            assert forall|q: Point| #[trigger]
                newly(grid@, source, 0).contains(q) <==> search.frontier@.contains(q) by {
                if search.frontier@.contains(q) {
                    let i = choose|i: int| 0 <= i < search.frontier@.len() && search.frontier@[i] == q;
                }
            }
        }
        search
    }

    /// Goes one step further. Returns whether any new place was reached; the
    /// search has gone a step more only where one was.
    pub fn advance(&mut self, grid: &PointMap<Tile>, source: Point) -> (more: bool)
        requires
            grid.wf(),
            enclosed(grid@, source),
            old(self).at(grid@, source),
        ensures
            more ==> final(self).at(grid@, source) && final(self).d == old(self).d + 1
                && final(self).frontier@.len() > 0 && final(self).seen.points().len() > old(
                self,
            ).seen.points().len(),
            !more ==> *final(self) == *old(self) && reach(grid@, source, (old(self).d + 1) as nat)
                == reach(grid@, source, old(self).d as nat),
            final(self).seen.wf(),
            forall|q: Point| #[trigger] final(self).seen@.contains_key(q) ==> grid@.contains_key(q),
    {
        let ghost g = grid@;
        let ghost d = self.d as nat;
        let ghost near = reach(g, source, d);
        let ghost start = *self;
        proof {
            lemma_reach_known(g, source, d);
            lemma_reach_known(g, source, d + 1);
            lemma_reach_grows(g, source, 0, d);
        }
        let total: usize = self.seen.len();
        let mut next: Vec<Point> = Vec::new();
        let m: usize = self.frontier.len();
        let mut i: usize = 0;
        while i < m
            invariant
                i <= m == self.frontier@.len(),
                self.frontier == start.frontier,
                self.d == start.d,
                next@.len() == 0 ==> *self == start,
                start.at(g, source),
                g == grid@,
                d == start.d,
                near == reach(g, source, d),
                grid.wf(),
                enclosed(g, source),
                self.seen.wf(),
                self.seen.points().len() == total + next@.len(),
                total == start.seen.points().len(),
                start.d < total,
                forall|q: Point| near.contains(q) ==> #[trigger] self.seen@.contains_key(q),
                forall|q: Point| #[trigger]
                    self.seen@.contains_key(q) ==> reach(g, source, d + 1).contains(q),
                forall|q: Point| #[trigger]
                    next@.contains(q) <==> self.seen@.contains_key(q) && !near.contains(q),
                forall|a: int, q: Point|
                    0 <= a < i && adjacent(#[trigger] self.frontier@[a], q) && open_at(g, q)
                        ==> #[trigger] self.seen@.contains_key(q),
            decreases m - i,
        {
            let p: Point = self.frontier[i];
            proof {
                assert(self.frontier@.contains(p));
                assert(newly(g, source, d).contains(p));
                assert(near.contains(p));
                assert(g.contains_key(p));
                lemma_open_or_source(g, source, d, p);
            }
            let around: [Point; 4] = [
                (p.0, p.1 + 1),
                (p.0 + 1, p.1),
                (p.0, p.1 - 1),
                (p.0 - 1, p.1),
            ];
            let mut j: usize = 0;
            while j < 4
                invariant
                    j <= 4,
                    i < m == self.frontier@.len(),
                    p == self.frontier@[i as int],
                    near.contains(p),
                    around@.len() == 4,
                    around@[0] == (p.0, (p.1 + 1) as i64),
                    around@[1] == ((p.0 + 1) as i64, p.1),
                    around@[2] == (p.0, (p.1 - 1) as i64),
                    around@[3] == ((p.0 - 1) as i64, p.1),
                    i64::MIN < p.0 < i64::MAX,
                    i64::MIN < p.1 < i64::MAX,
                    forall|q: Point| adjacent(p, q) ==> #[trigger] g.contains_key(q),
                    self.frontier == start.frontier,
                    self.d == start.d,
                    next@.len() == 0 ==> *self == start,
                    g == grid@,
                    d == start.d,
                    near == reach(g, source, d),
                    grid.wf(),
                    self.seen.wf(),
                    self.seen.points().len() == total + next@.len(),
                    start.d < total,
                    forall|q: Point| near.contains(q) ==> #[trigger] self.seen@.contains_key(q),
                    forall|q: Point| #[trigger]
                        self.seen@.contains_key(q) ==> reach(g, source, d + 1).contains(q),
                    forall|q: Point| #[trigger]
                        next@.contains(q) <==> self.seen@.contains_key(q) && !near.contains(q),
                    forall|a: int, q: Point|
                        0 <= a < i && adjacent(#[trigger] self.frontier@[a], q) && open_at(g, q)
                            ==> #[trigger] self.seen@.contains_key(q),
                    forall|b: int|
                        0 <= b < j && open_at(g, #[trigger] around@[b]) ==> self.seen@.contains_key(
                            around@[b],
                        ),
                decreases 4 - j,
            {
                let q: Point = around[j];
                assert(adjacent(p, q));
                let wall: bool = match grid.get(q) {
                    Some(tile) => *tile == Tile::Wall,
                    None => true,
                };
                if !wall && !self.seen.contains_key(q) {
                    let ghost before = self.seen@;
                    let ghost listed = next@;
                    self.seen.insert(q, self.d + 1);
                    next.push(q);
                    proof {
                        assert(reach(g, source, d + 1).contains(q));
                        assert forall|r: Point| #[trigger]
                            next@.contains(r) <==> self.seen@.contains_key(r) && !near.contains(r) by {
                            if next@.contains(r) {
                                let x = choose|x: int| 0 <= x < next@.len() && next@[x] == r;
                                if x < listed.len() {
                                    assert(listed[x] == r);
                                    assert(listed.contains(r));
                                }
                            }
                            if listed.contains(r) {
                                let x = choose|x: int| 0 <= x < listed.len() && listed[x] == r;
                                assert(next@[x] == r);
                            }
                            if r == q {
                                assert(next@[listed.len() as int] == r);
                            }
                        }
                    }
                }
                j = j + 1;
            }
            proof {
                assert forall|q: Point| adjacent(p, q) && open_at(g, q) implies #[trigger]
                    self.seen@.contains_key(q) by {
                    assert(q == around@[0] || q == around@[1] || q == around@[2] || q == around@[3]);
                }
            }
            i = i + 1;
        }
        if next.len() == 0 {
            proof {
                assert forall|q: Point| reach(g, source, d + 1).contains(q) implies near.contains(
                    q,
                ) by {
                    if !near.contains(q) {
                        let p = choose|p: Point| near.contains(p) && adjacent(p, q);
                        lemma_covered(g, source, d, p, q);
                        if newly(g, source, d).contains(p) {
                            assert(self.frontier@.contains(p));
                            let a = choose|a: int| 0 <= a < m && self.frontier@[a] == p;
                            assert(adjacent(self.frontier@[a], q));
                            assert(self.seen@.contains_key(q));
                            assert(next@.contains(q));
                        }
                    }
                }
                lemma_reach_grows(g, source, d, d + 1);
                assert(reach(g, source, d + 1) =~= near);
                assert forall|q: Point| #[trigger] self.seen@.contains_key(q) implies g.contains_key(
                    q,
                ) by {
                    assert(reach(g, source, d).contains(q));
                }
            }
            return false;
        }
        proof {
            assert forall|q: Point| #[trigger] reach(g, source, d + 1).contains(q) implies self.seen@.contains_key(
                q,
            ) by {
                if !near.contains(q) {
                    let p = choose|p: Point| near.contains(p) && adjacent(p, q);
                    lemma_covered(g, source, d, p, q);
                    assert(self.frontier@.contains(p));
                    let a = choose|a: int| 0 <= a < m && self.frontier@[a] == p;
                    assert(adjacent(self.frontier@[a], q));
                }
            }
            assert forall|q: Point| #[trigger]
                newly(g, source, d + 1).contains(q) <==> next@.contains(q) by {}
            assert forall|q: Point| #[trigger] self.seen@.contains_key(q) implies g.contains_key(q) by {
                assert(reach(g, source, d + 1).contains(q));
            }
        }
        self.frontier = next;
        self.d = self.d + 1;
        true
    }
}

/// A place that was reached is the source or open.
proof fn lemma_open_or_source(grid: Map<Point, Tile>, source: Point, d: nat, p: Point)
    requires
        reach(grid, source, d).contains(p),
    ensures
        p == source || open_at(grid, p),
    decreases d,
{
    if d > 0 && !open_at(grid, p) {
        lemma_open_or_source(grid, source, (d - 1) as nat, p);
    }
}

/// An open place next to one that was reached earlier than at `d` steps was
/// reached at `d` steps.
proof fn lemma_covered(grid: Map<Point, Tile>, source: Point, d: nat, p: Point, q: Point)
    requires
        reach(grid, source, d).contains(p),
        adjacent(p, q),
        open_at(grid, q),
        !reach(grid, source, d).contains(q),
    ensures
        newly(grid, source, d).contains(p),
{
    if d > 0 && reach(grid, source, (d - 1) as nat).contains(p) {
        assert(reach(grid, source, d).contains(q));
    }
}

/// A list without repetitions whose places are all in another such list is no
/// longer than that list.
proof fn lemma_shorter(a: Seq<Point>, b: Seq<Point>)
    requires
        a.no_duplicates(),
        b.no_duplicates(),
        forall|p: Point| a.contains(p) ==> b.contains(p),
    ensures
        a.len() <= b.len(),
{
    a.unique_seq_to_set();
    b.unique_seq_to_set();
    vstd::seq_lib::seq_to_set_is_finite(b);
    assert(a.to_set().subset_of(b.to_set()));
    vstd::set_lib::lemma_len_subset(a.to_set(), b.to_set());
}

/// Finds the length of the shortest way from the start at `(0, 0)` to the
/// oxygen system. None where no way leads there.
pub fn shortest_path_len(grid: &PointMap<Tile>) -> (r: Option<usize>)
    requires
        grid.wf(),
        enclosed(grid@, (0i64, 0i64)),
    ensures
        match r {
            Some(d) => has_target(grid@, reach(grid@, (0i64, 0i64), d as nat)) && forall|k: nat|
                k < d ==> !has_target(grid@, #[trigger] reach(grid@, (0i64, 0i64), k)),
            None => forall|k: nat| !has_target(grid@, #[trigger] reach(grid@, (0i64, 0i64), k)),
        },
{
    let source: Point = (0, 0);
    let size: usize = grid.len();
    let mut search: Search = Search::new(grid, source);
    proof {
        lemma_reach_known(grid@, source, 0);
        assert forall|q: Point| #[trigger] search.seen@.contains_key(q) implies grid@.contains_key(
            q,
        ) by {
            assert(reach(grid@, source, 0).contains(q));
        }
    }
    loop
        invariant
            grid.wf(),
            grid.listed(),
            size == grid.points().len(),
            source == (0i64, 0i64),
            enclosed(grid@, source),
            search.at(grid@, source),
            forall|q: Point| #[trigger] search.seen@.contains_key(q) ==> grid@.contains_key(q),
            forall|k: nat| k < search.d ==> !has_target(grid@, #[trigger] reach(grid@, source, k)),
        decreases size - search.seen.points().len(),
    {
        let ghost d = search.d as nat;
        let mut k: usize = 0;
        while k < search.frontier.len()
            invariant
                k <= search.frontier@.len(),
                grid.wf(),
                search.at(grid@, source),
                d == search.d,
                source == (0i64, 0i64),
                forall|k: nat|
                    k < search.d ==> !has_target(grid@, #[trigger] reach(grid@, source, k)),
                forall|i: int|
                    0 <= i < k ==> !(grid@.contains_key(#[trigger] search.frontier@[i])
                        && grid@[search.frontier@[i]] == Tile::Target),
            decreases search.frontier@.len() - k,
        {
            let p: Point = search.frontier[k];
            let found: bool = match grid.get(p) {
                Some(tile) => *tile == Tile::Target,
                None => false,
            };
            if found {
                proof {
                    assert(search.frontier@.contains(p));
                    assert(newly(grid@, source, d).contains(p));
                    assert(reach(grid@, source, d).contains(p));
                    assert(grid@[p] == Tile::Target);
                }
                return Some(search.d);
            }
            k = k + 1;
        }
        proof {
            // No place that is new at this distance is the target, and no nearer one is.
            if has_target(grid@, reach(grid@, source, d)) {
                let q = choose|q: Point|
                    reach(grid@, source, d).contains(q) && grid@.contains_key(q) && #[trigger] grid@[q]
                        == Tile::Target;
                if newly(grid@, source, d).contains(q) {
                    assert(search.frontier@.contains(q));
                    let i = choose|i: int| 0 <= i < search.frontier@.len() && search.frontier@[i] == q;
                    assert(grid@[search.frontier@[i]] == Tile::Target);
                } else {
                    assert(reach(grid@, source, (d - 1) as nat).contains(q));
                    assert(has_target(grid@, reach(grid@, source, (d - 1) as nat)));
                }
            }
        }
        let before: usize = search.seen.len();
        if !search.advance(grid, source) {
            proof {
                assert forall|k: nat| !has_target(grid@, #[trigger] reach(grid@, source, k)) by {
                    if k > d {
                        lemma_reach_ends(grid@, source, d, k);
                    }
                }
            }
            return None;
        }
        let after: usize = search.seen.len();
        proof {
            assert forall|p: Point| search.seen.points().contains(p) implies grid.points().contains(
                p,
            ) by {
                assert(search.seen@.contains_key(p));
                assert(grid@.contains_key(p));
            }
            lemma_shorter(search.seen.points(), grid.points());
        }
    }
}

/// Finds the greatest distance from `source` to a place that can be reached,
/// where the distance of a place is the length of the shortest way to it.
pub fn greatest_distance(grid: &PointMap<Tile>, source: Point) -> (d: usize)
    requires
        grid.wf(),
        enclosed(grid@, source),
    ensures
        reach(grid@, source, (d + 1) as nat) == reach(grid@, source, d as nat),
        forall|k: nat| k < d ==> #[trigger] reach(grid@, source, k + 1) != reach(grid@, source, k),
{
    let size: usize = grid.len();
    let mut search: Search = Search::new(grid, source);
    loop
        invariant
            grid.wf(),
            grid.listed(),
            size == grid.points().len(),
            enclosed(grid@, source),
            search.at(grid@, source),
            forall|k: nat|
                k < search.d ==> #[trigger] reach(grid@, source, k + 1) != reach(grid@, source, k),
        decreases size - search.seen.points().len(),
    {
        let ghost d = search.d as nat;
        let before: usize = search.seen.len();
        if !search.advance(grid, source) {
            return search.d;
        }
        let after: usize = search.seen.len();
        proof {
            let q = search.frontier@[0];
            assert(search.frontier@.contains(q));
            assert(newly(grid@, source, d + 1).contains(q));
            assert(reach(grid@, source, d + 1).contains(q) && !reach(grid@, source, d).contains(q));
            assert forall|p: Point| search.seen.points().contains(p) implies grid.points().contains(
                p,
            ) by {
                assert(search.seen@.contains_key(p));
                assert(grid@.contains_key(p));
            }
            lemma_shorter(search.seen.points(), grid.points());
        }
    }
}

} // verus!
