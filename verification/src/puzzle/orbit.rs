//! Objects in orbit around each other: all but one of them orbit one other
//! object directly, so that they form a tree.

use vstd::prelude::*;
use crate::program::{each_line, find, lines, lines_of, position};
use crate::puzzle::names::{distinct, index_of, intern, lookup, texts};

verus! {

/// The byte that stands between the object in the middle and the object in
/// orbit around it.
pub const PAREN: u8 = 41;

/// The objects, as the specifications see them.
pub struct Objects {
    /// The name of each object.
    pub labels: Seq<Seq<u8>>,
    /// For each object the one around which it is in orbit, where there is one.
    pub parents: Seq<Option<usize>>,
}

/// The objects by number, each with its name and with the number of the object
/// around which it is in orbit.
pub struct Tree {
    labels: Vec<Vec<u8>>,
    parents: Vec<Option<usize>>,
}

impl View for Tree {
    type V = Objects;

    closed spec fn view(&self) -> Objects {
        Objects { labels: texts(self.labels@), parents: self.parents@ }
    }
}

/// Whether every object has a name of its own, and is in orbit around an
/// object that there is, if around any.
pub open spec fn sound(t: Objects) -> bool {
    &&& t.labels.len() == t.parents.len()
    &&& forall|v: int| 0 <= v < t.parents.len() ==> ((#[trigger] t.parents[v]) matches Some(p) ==> p
        < t.parents.len())
    &&& distinct(t.labels)
}

/// The object that is `k` steps inward from `v`: the object around which `v`
/// is in orbit is one step inward. None where the way inward ends before.
pub open spec fn up(parents: Seq<Option<usize>>, v: int, k: nat) -> Option<int>
    decreases k,
{
    if k == 0 {
        Some(v)
    } else {
        match up(parents, v, (k - 1) as nat) {
            None => None,
            Some(u) => if 0 <= u < parents.len() {
                match parents[u] {
                    None => None,
                    Some(p) => Some(p as int),
                }
            } else {
                None
            },
        }
    }
}

/// Whether `v` is `k` steps from an object that is in orbit around nothing.
pub open spec fn depth_is(parents: Seq<Option<usize>>, v: int, k: nat) -> bool {
    up(parents, v, k) matches Some(r) && 0 <= r < parents.len() && parents[r] is None
}

/// Whether `v` is some number of steps from an object that is in orbit around
/// nothing, and no more steps than there are objects.
pub open spec fn anchored(parents: Seq<Option<usize>>, v: int) -> bool {
    exists|k: nat| k <= parents.len() && #[trigger] depth_is(parents, v, k)
}

/// Whether the objects form one tree: there are none, or exactly one of them is
/// in orbit around nothing, and every object is some number of steps from that
/// one, and no more steps than there are objects.
pub open spec fn is_tree(parents: Seq<Option<usize>>) -> bool {
    parents.len() == 0 || {
        &&& exists|r: int| 0 <= r < parents.len() && #[trigger] parents[r] is None
        &&& forall|r: int, s: int|
            0 <= r < parents.len() && 0 <= s < parents.len() && (#[trigger] parents[r]) is None && (
            #[trigger] parents[s]) is None ==> r == s
        &&& forall|v: int| 0 <= v < parents.len() ==> #[trigger] anchored(parents, v)
    }
}

/// Going `j` steps inward and then `k` more is going `j + k` steps inward.
pub proof fn lemma_up_adds(parents: Seq<Option<usize>>, v: int, j: nat, k: nat)
    ensures
        up(parents, v, j + k) == match up(parents, v, j) {
            None => None,
            Some(u) => up(parents, u, k),
        },
    decreases k,
{
    if k > 0 {
        lemma_up_adds(parents, v, j, (k - 1) as nat);
        assert(j + k - 1 == j + (k - 1) as nat);
    }
}

/// Where the way inward has ended, it does not go on.
pub proof fn lemma_up_ends(parents: Seq<Option<usize>>, v: int, j: nat, k: nat)
    requires
        j <= k,
        up(parents, v, j) is None,
    ensures
        up(parents, v, k) is None,
    decreases k,
{
    if j < k {
        lemma_up_ends(parents, v, j, (k - 1) as nat);
    }
}

/// An object is at one distance from the middle, if at any.
pub proof fn lemma_depth_unique(parents: Seq<Option<usize>>, v: int, j: nat, k: nat)
    requires
        depth_is(parents, v, j),
        depth_is(parents, v, k),
    ensures
        j == k,
{
    if j < k {
        assert(up(parents, v, j + 1) is None);
        lemma_up_ends(parents, v, j + 1, k);
    } else if k < j {
        assert(up(parents, v, k + 1) is None);
        lemma_up_ends(parents, v, k + 1, j);
    }
}

impl Tree {
    /// Whether the tree is sound, as every tree is that this module hands out.
    pub open spec fn wf(&self) -> bool {
        sound(self@)
    }

    /// No objects.
    pub fn new() -> (tree: Self)
        ensures
            tree.wf(),
            tree@.labels.len() == 0,
            tree@.parents.len() == 0,
    {
        Tree { labels: Vec::new(), parents: Vec::new() }
    }

    /// How many objects there are.
    pub fn len(&self) -> (n: usize)
        requires
            self.wf(),
        ensures
            n == self@.parents.len(),
    {
        self.parents.len()
    }

    /// The number of the object with the name `label`, where there is one.
    pub fn lookup(&self, label: &[u8]) -> (node: Option<usize>)
        requires
            self.wf(),
        ensures
            match node {
                Some(v) => v < self@.labels.len() && self@.labels[v as int] == label@,
                None => forall|v: int| 0 <= v < self@.labels.len() ==> self@.labels[v] != label@,
            },
    {
        let found: Option<usize> = lookup(&self.labels, label);
        proof {
            if found is None {
                assert forall|v: int| 0 <= v < self@.labels.len() implies self@.labels[v]
                    != label@ by {
                    assert(self.labels@[v]@ != label@);
                }
            }
        }
        found
    }

    /// The number of the object with the name `label`: a new object where there
    /// was none with that name.
    fn get_node(&mut self, label: &[u8]) -> (node: usize)
        requires
            old(self).wf(),
        ensures
            final(self).wf(),
            final(self)@ == named(old(self)@, label@).0,
            node == named(old(self)@, label@).1,
            node < final(self)@.parents.len(),
    {
        let (node, new) = intern(&mut self.labels, label);
        if new {
            self.parents.push(None);
        }
        node
    }

    /// How many steps inward lead from `node` to the object that is in orbit
    /// around nothing. None where more steps than there are objects lead there,
    /// or none.
    pub fn depth(&self, node: usize) -> (d: Option<usize>)
        requires
            self.wf(),
            node < self@.parents.len(),
        ensures
            match d {
                Some(d) => d <= self@.parents.len() && depth_is(self@.parents, node as int, d as nat),
                None => forall|k: nat|
                    k <= self@.parents.len() ==> !#[trigger] depth_is(self@.parents, node as int, k),
            },
    {
        let n: usize = self.parents.len();
        let mut at: usize = node;
        let mut d: usize = 0;
        while d <= n
            invariant
                d <= n + 1,
                n == self.parents@.len(),
                self.wf(),
                at < n,
                up(self@.parents, node as int, d as nat) == Some(at as int),
                forall|k: nat| k < d ==> !#[trigger] depth_is(self@.parents, node as int, k),
            decreases n + 1 - d,
        {
            match self.parents[at] {
                None => {
                    return Some(d);
                },
                Some(p) => {
                    if d == n {
                        return None;
                    }
                    at = p;
                    d = d + 1;
                },
            }
        }
        None
    }

    /// Checks that the objects form one tree.
    pub fn verify_tree(&self) -> (ok: bool)
        requires
            self.wf(),
        ensures
            ok == is_tree(self@.parents),
    {
        let n: usize = self.parents.len();
        if n == 0 {
            return true;
        }
        let mut root: Option<usize> = None;
        let mut v: usize = 0;
        while v < n
            invariant
                v <= n == self.parents@.len(),
                self.wf(),
                match root {
                    Some(r) => r < v && self@.parents[r as int] is None && forall|s: int|
                        0 <= s < v && (#[trigger] self@.parents[s]) is None ==> s == r,
                    None => forall|s: int| 0 <= s < v ==> (#[trigger] self@.parents[s]) is Some,
                },
                forall|w: int| 0 <= w < v ==> #[trigger] anchored(self@.parents, w),
            decreases n - v,
        {
            if self.parents[v].is_none() {
                if root.is_some() {
                    // Several roots: the objects fall apart.
                    assert(self@.parents[root.unwrap() as int] is None);
                    assert(self@.parents[v as int] is None);
                    return false;
                }
                root = Some(v);
            }
            match self.depth(v) {
                Some(d) => {
                    assert(depth_is(self@.parents, v as int, d as nat));
                    assert(anchored(self@.parents, v as int));
                },
                None => {
                    // The way inward from this object never ends.
                    assert(!anchored(self@.parents, v as int));
                    return false;
                },
            }
            v = v + 1;
        }
        match root {
            Some(r) => {
                assert(self@.parents[r as int] is None);
                true
            },
            None => false,
        }
    }
}

/// The objects with one of the name `label` among them, and the number of that
/// object: a new object, in orbit around nothing, where there was none with
/// that name.
pub open spec fn named(t: Objects, label: Seq<u8>) -> (Objects, int) {
    let v = index_of(t.labels, label);
    if v < t.labels.len() {
        (t, v)
    } else {
        (Objects { labels: t.labels.push(label), parents: t.parents.push(None) }, v)
    }
}

/// The objects after the line `line`, which names an object and, behind a
/// `)`, an object in orbit around it. None where the line holds no `)` or
/// more than one, or where the second object is in orbit already.
pub open spec fn linked(t: Objects, line: Seq<u8>) -> Option<Objects> {
    let at = position(line, PAREN);
    let inner = line.take(at);
    let outer = line.skip(at + 1);
    if at >= line.len() || position(outer, PAREN) < outer.len() {
        None
    } else {
        let (t1, parent) = named(t, inner);
        let (t2, child) = named(t1, outer);
        if t2.parents[child] is Some {
            None
        } else {
            Some(Objects { labels: t2.labels, parents: t2.parents.update(child, Some(parent as usize)) })
        }
    }
}

/// The objects after all of `lines`.
pub open spec fn linked_all(lines: Seq<Seq<u8>>) -> Option<Objects>
    decreases lines.len(),
{
    if lines.len() == 0 {
        Some(Objects { labels: Seq::empty(), parents: Seq::empty() })
    } else {
        match linked_all(lines.drop_last()) {
            None => None,
            Some(t) => linked(t, lines.last()),
        }
    }
}

/// What the text `input` describes: the objects of its lines, where they form
/// one tree.
pub open spec fn tree_of(input: Seq<u8>) -> Option<Objects> {
    match linked_all(lines_of(input)) {
        None => None,
        Some(t) => if is_tree(t.parents) {
            Some(t)
        } else {
            None
        },
    }
}

/// A failure among the first lines is a failure of all.
proof fn lemma_linked_all_fails(lines: Seq<Seq<u8>>, n: int)
    requires
        0 <= n <= lines.len(),
        linked_all(lines.take(n)) is None,
    ensures
        linked_all(lines) is None,
    decreases lines.len() - n,
{
    if n < lines.len() {
        assert(lines.take(n + 1).drop_last() =~= lines.take(n));
        lemma_linked_all_fails(lines, n + 1);
    } else {
        assert(lines.take(n) =~= lines);
    }
}

/// Reads the objects, one line for each object that is in orbit. None where a
/// line does not name two objects, where an object is in orbit around two, or
/// where the objects do not form one tree.
pub fn read_tree(input: &[u8]) -> (r: Option<Tree>)
    ensures
        match r {
            Some(tree) => tree.wf() && tree_of(input@) == Some(tree@),
            None => tree_of(input@) is None,
        },
{
    let all: Vec<&[u8]> = lines(input);
    let mut tree: Tree = Tree::new();
    let mut k: usize = 0;
    assert(lines_of(input@).take(0) =~= Seq::<Seq<u8>>::empty());
    assert(tree@.labels =~= Seq::<Seq<u8>>::empty());
    assert(tree@.parents =~= Seq::<Option<usize>>::empty());
    while k < all.len()
        invariant
            k <= all@.len(),
            each_line(all@) == lines_of(input@),
            tree.wf(),
            linked_all(lines_of(input@).take(k as int)) == Some(tree@),
        decreases all@.len() - k,
    {
        let line: &[u8] = all[k];
        let ghost before = tree@;
        proof {
            assert(each_line(all@)[k as int] == line@);
            assert(lines_of(input@).take(k + 1).drop_last() =~= lines_of(input@).take(k as int));
            if linked(before, line@) is None {
                lemma_linked_all_fails(lines_of(input@), k as int + 1);
            }
            assert(line@.skip(0) =~= line@);
        }
        let at: usize = find(line, 0, PAREN);
        if at >= line.len() {
            return None;
        }
        let next: usize = find(line, at + 1, PAREN);
        if next < line.len() {
            return None;
        }
        let inner: &[u8] = vstd::slice::slice_subrange(line, 0, at);
        let outer: &[u8] = vstd::slice::slice_subrange(line, at + 1, line.len());
        assert(inner@ =~= line@.take(at as int));
        assert(outer@ =~= line@.skip(at + 1));
        let parent: usize = tree.get_node(inner);
        let child: usize = tree.get_node(outer);
        // Each child should have only one parent.
        if tree.parents[child].is_some() {
            return None;
        }
        let ghost labels = tree@.labels;
        tree.parents.set(child, Some(parent));
        assert(tree@.labels =~= labels);
        k = k + 1;
    }
    assert(lines_of(input@).take(all@.len() as int) =~= lines_of(input@));
    if tree.verify_tree() {
        Some(tree)
    } else {
        None
    }
}

/// How many steps inward lead from `v` to the object that is in orbit around
/// nothing, where no more steps than there are objects lead there.
pub open spec fn depth_of(parents: Seq<Option<usize>>, v: int) -> Option<nat> {
    if anchored(parents, v) {
        Some(choose|k: nat| k <= parents.len() && #[trigger] depth_is(parents, v, k))
    } else {
        None
    }
}

/// The sum of the depths of the first `n` objects; none where one of them has
/// none.
pub open spec fn depths(parents: Seq<Option<usize>>, n: int) -> Option<nat>
    decreases n,
{
    if n <= 0 {
        Some(0)
    } else {
        match (depths(parents, n - 1), depth_of(parents, n - 1)) {
            (Some(sum), Some(d)) => Some(sum + d),
            _ => None,
        }
    }
}

/// Whether the ways inward from `a` and from `b` meet after `i` steps from `a`
/// and `j` steps from `b`.
pub open spec fn meets(parents: Seq<Option<usize>>, a: int, b: int, i: nat, j: nat) -> bool {
    up(parents, a, i) is Some && up(parents, a, i) == up(parents, b, j)
}

/// The object `k` steps inward from an object at depth `d` is at depth `d - k`.
proof fn lemma_depth_up(parents: Seq<Option<usize>>, v: int, d: nat, k: nat)
    requires
        depth_is(parents, v, d),
        k <= d,
    ensures
        up(parents, v, k) matches Some(u) && depth_is(parents, u, (d - k) as nat),
{
    lemma_up_adds(parents, v, k, (d - k) as nat);
    assert(k + (d - k) as nat == d);
    if up(parents, v, k) is None {
        lemma_up_ends(parents, v, k, d);
    }
}

/// Where the ways inward from two objects meet, both have as far to go from
/// there.
proof fn lemma_meets(parents: Seq<Option<usize>>, a: int, b: int, da: nat, db: nat, i: nat, j: nat)
    requires
        depth_is(parents, a, da),
        depth_is(parents, b, db),
        meets(parents, a, b, i, j),
    ensures
        i <= da,
        j <= db,
        da - i == db - j,
{
    if i > da {
        assert(up(parents, a, da + 1) is None);
        lemma_up_ends(parents, a, da + 1, i);
    }
    if j > db {
        assert(up(parents, b, db + 1) is None);
        lemma_up_ends(parents, b, db + 1, j);
    }
    lemma_depth_up(parents, a, da, i);
    lemma_depth_up(parents, b, db, j);
    let w = up(parents, a, i).unwrap();
    lemma_depth_unique(parents, w, (da - i) as nat, (db - j) as nat);
}

impl Tree {
    /// The object around which `node` is in orbit, where there is one.
    pub fn parent(&self, node: usize) -> (p: Option<usize>)
        requires
            self.wf(),
            node < self@.parents.len(),
        ensures
            p == self@.parents[node as int],
            p matches Some(q) ==> q < self@.parents.len(),
    {
        self.parents[node]
    }

    /// Computes the sum of the depths of all objects: the number of orbits,
    /// direct and indirect. None where an object has no depth.
    pub fn sum_of_depths(&self) -> (sum: Option<u128>)
        requires
            self.wf(),
        ensures
            match sum {
                Some(sum) => depths(self@.parents, self@.parents.len() as int) == Some(sum as nat),
                None => depths(self@.parents, self@.parents.len() as int) is None,
            },
    {
        let n: usize = self.parents.len();
        let mut depth_sum: u128 = 0;
        let mut v: usize = 0;
        while v < n
            invariant
                v <= n == self.parents@.len(),
                self.wf(),
                depths(self@.parents, v as int) == Some(depth_sum as nat),
                depth_sum <= v * n,
            decreases n - v,
        {
            proof {
                lemma_depths_fail(self@.parents, v as int + 1, n as int);
            }
            match self.depth(v) {
                Some(d) => {
                    proof {
                        assert(anchored(self@.parents, v as int));
                        lemma_depth_unique(
                            self@.parents,
                            v as int,
                            d as nat,
                            depth_of(self@.parents, v as int).unwrap(),
                        );
                        assert(v * n + n == (v + 1) * n) by (nonlinear_arith);
                        assert((v + 1) * n <= usize::MAX * usize::MAX) by (nonlinear_arith)
                            requires
                                v + 1 <= usize::MAX,
                                n <= usize::MAX,
                        ;
                    }
                    depth_sum = depth_sum + d as u128;
                },
                None => {
                    assert(!anchored(self@.parents, v as int));
                    return None;
                },
            }
            v = v + 1;
        }
        Some(depth_sum)
    }

    /// Computes the number of steps between two objects: inward from each of
    /// them to the first object that lies inward from both. None where an
    /// object has no depth, or where the ways inward never meet.
    pub fn distance(&self, node1: usize, node2: usize) -> (d: Option<u128>)
        requires
            self.wf(),
            node1 < self@.parents.len(),
            node2 < self@.parents.len(),
        ensures
            match d {
                Some(d) => exists|i: nat, j: nat|
                    {
                        &&& #[trigger] meets(self@.parents, node1 as int, node2 as int, i, j)
                        &&& i + j == d
                        &&& forall|i2: nat, j2: nat| #[trigger]
                            meets(self@.parents, node1 as int, node2 as int, i2, j2) ==> d <= i2
                                + j2
                    },
                None => !anchored(self@.parents, node1 as int) || !anchored(
                    self@.parents,
                    node2 as int,
                ) || forall|i: nat, j: nat|
                    !#[trigger] meets(self@.parents, node1 as int, node2 as int, i, j),
            },
    {
        let ghost parents = self@.parents;
        let d1: usize = match self.depth(node1) {
            Some(d) => d,
            None => {
                assert(!anchored(parents, node1 as int));
                return None;
            },
        };
        let d2: usize = match self.depth(node2) {
            Some(d) => d,
            None => {
                assert(!anchored(parents, node2 as int));
                return None;
            },
        };
        // Sort so that the first depth is no more than the second.
        let swapped: bool = d1 > d2;
        let (near, near_depth, far, far_depth): (usize, usize, usize, usize) = if swapped {
            (node2, d2, node1, d1)
        } else {
            (node1, d1, node2, d2)
        };
        let delta: usize = far_depth - near_depth;
        // Go up from the far object until both are at the same depth.
        let mut upper: usize = far;
        let mut s: usize = 0;
        while s < delta
            invariant
                s <= delta <= far_depth,
                self.wf(),
                parents == self@.parents,
                upper < parents.len(),
                depth_is(parents, far as int, far_depth as nat),
                up(parents, far as int, s as nat) == Some(upper as int),
            decreases delta - s,
        {
            proof {
                lemma_depth_up(parents, far as int, far_depth as nat, (s + 1) as nat);
            }
            match self.parent(upper) {
                Some(p) => {
                    upper = p;
                },
                None => {
                    return None;
                },
            }
            s = s + 1;
        }
        // Move both up until they meet.
        let mut lower: usize = near;
        let mut t: usize = 0;
        loop
            invariant
                t <= near_depth,
                delta == far_depth - near_depth,
                near_depth <= far_depth,
                self.wf(),
                parents == self@.parents,
                lower < parents.len(),
                upper < parents.len(),
                depth_is(parents, near as int, near_depth as nat),
                depth_is(parents, far as int, far_depth as nat),
                up(parents, near as int, t as nat) == Some(lower as int),
                up(parents, far as int, (delta + t) as nat) == Some(upper as int),
                forall|u: nat|
                    u < t ==> #[trigger] up(parents, near as int, u) != up(
                        parents,
                        far as int,
                        (delta + u) as nat,
                    ),
                (near, far) == if swapped {
                    (node2, node1)
                } else {
                    (node1, node2)
                },
            decreases near_depth - t,
        {
            if lower == upper {
                proof {
                    let i: nat = t as nat;
                    let j: nat = (delta + t) as nat;
                    assert(meets(parents, near as int, far as int, i, j));
                    assert forall|i2: nat, j2: nat| #[trigger]
                        meets(parents, near as int, far as int, i2, j2) implies i + j <= i2
                        + j2 by {
                        lemma_meets(
                            parents,
                            near as int,
                            far as int,
                            near_depth as nat,
                            far_depth as nat,
                            i2,
                            j2,
                        );
                        if i2 < t {
                            assert(up(parents, near as int, i2) != up(
                                parents,
                                far as int,
                                (delta + i2) as nat,
                            ));
                        }
                    }
                    if swapped {
                        assert(meets(parents, node1 as int, node2 as int, j, i));
                        assert forall|i2: nat, j2: nat| #[trigger]
                            meets(parents, node1 as int, node2 as int, i2, j2) implies i + j <= i2
                            + j2 by {
                            assert(meets(parents, near as int, far as int, j2, i2));
                        }
                    }
                }
                return Some(delta as u128 + 2 * (t as u128));
            }
            if t == near_depth {
                proof {
                    assert forall|i2: nat, j2: nat| !#[trigger] meets(
                        parents,
                        near as int,
                        far as int,
                        i2,
                        j2,
                    ) by {
                        if meets(parents, near as int, far as int, i2, j2) {
                            lemma_meets(
                                parents,
                                near as int,
                                far as int,
                                near_depth as nat,
                                far_depth as nat,
                                i2,
                                j2,
                            );
                            if i2 < t {
                                assert(up(parents, near as int, i2) != up(
                                    parents,
                                    far as int,
                                    (delta + i2) as nat,
                                ));
                            }
                        }
                    }
                    assert forall|i2: nat, j2: nat| !#[trigger] meets(
                        parents,
                        node1 as int,
                        node2 as int,
                        i2,
                        j2,
                    ) by {
                        if swapped {
                            assert(!meets(parents, near as int, far as int, j2, i2));
                        }
                    }
                }
                return None;
            }
            proof {
                lemma_depth_up(parents, near as int, near_depth as nat, (t + 1) as nat);
                lemma_depth_up(parents, far as int, far_depth as nat, (delta + t + 1) as nat);
            }
            match (self.parent(lower), self.parent(upper)) {
                (Some(p), Some(q)) => {
                    lower = p;
                    upper = q;
                },
                _ => {
                    return None;
                },
            }
            t = t + 1;
        }
    }
}

/// A sum that fails for the first objects fails for all.
proof fn lemma_depths_fail(parents: Seq<Option<usize>>, m: int, n: int)
    requires
        m <= n,
    ensures
        depths(parents, m) is None ==> depths(parents, n) is None,
    decreases n - m,
{
    if m < n {
        lemma_depths_fail(parents, m, n - 1);
    }
}

/// Whether `root` is `v` or lies inward from it, no more steps than there are
/// objects.
pub open spec fn under(parents: Seq<Option<usize>>, v: int, root: int) -> bool {
    exists|k: nat| k <= parents.len() && #[trigger] up(parents, v, k) == Some(root)
}

/// How many of the first `n` objects are `root` or in orbit around it, directly
/// or not.
pub open spec fn count_under(parents: Seq<Option<usize>>, root: int, n: int) -> nat
    decreases n,
{
    if n <= 0 {
        0
    } else {
        count_under(parents, root, n - 1) + if under(parents, n - 1, root) {
            1nat
        } else {
            0nat
        }
    }
}

impl Tree {
    /// Whether `root` is `node` or lies inward from it.
    pub fn is_under(&self, node: usize, root: usize) -> (is: bool)
        requires
            self.wf(),
            node < self@.parents.len(),
        ensures
            is == under(self@.parents, node as int, root as int),
    {
        let n: usize = self.parents.len();
        let ghost parents = self@.parents;
        let mut at: usize = node;
        let mut d: usize = 0;
        loop
            invariant
                d <= n == parents.len(),
                parents == self@.parents,
                self.wf(),
                at < n,
                up(parents, node as int, d as nat) == Some(at as int),
                forall|k: nat| k < d ==> #[trigger] up(parents, node as int, k) != Some(root as int),
            decreases n - d,
        {
            if at == root {
                return true;
            }
            if d == n {
                return false;
            }
            match self.parents[at] {
                None => {
                    proof {
                        assert(up(parents, node as int, (d + 1) as nat) is None);
                        assert forall|k: nat| k <= n implies #[trigger] up(parents, node as int, k)
                            != Some(root as int) by {
                            if k > d {
                                lemma_up_ends(parents, node as int, (d + 1) as nat, k);
                            }
                        }
                    }
                    return false;
                },
                Some(p) => {
                    at = p;
                    d = d + 1;
                },
            }
        }
    }

    /// How many objects are there from `root` outward: `root` itself, and all
    /// that are in orbit around it, directly or not?
    pub fn num_nodes(&self, root: usize) -> (count: usize)
        requires
            self.wf(),
        ensures
            count == count_under(self@.parents, root as int, self@.parents.len() as int),
    {
        let n: usize = self.parents.len();
        let mut count: usize = 0;
        let mut v: usize = 0;
        while v < n
            invariant
                v <= n == self@.parents.len(),
                self.wf(),
                count == count_under(self@.parents, root as int, v as int),
                count <= v,
            decreases n - v,
        {
            if self.is_under(v, root) {
                count = count + 1;
            }
            v = v + 1;
        }
        count
    }
}

} // verus!
