//! Arithmetic for chemical reactions that yield whole batches: rounding a
//! quotient up, and searching the amount that a given supply makes.

use vstd::prelude::*;
use crate::program::{
    each_line,
    find,
    is_digit,
    lines,
    lines_of,
    parse_u32,
    position,
    unsigned_value,
    COMMA,
};
use crate::puzzle::names::{distinct, index_of, intern, lookup, texts};

verus! {

pub const SPACE: u8 = 32;

pub const EQUALS: u8 = 61;

pub const GREATER: u8 = 62;

/// A chemical, and the reaction that makes it.
#[derive(Debug, Clone)]
pub struct Chemical {
    /// The amount of this chemical that the reaction makes; 0 while no reaction
    /// is known that makes it.
    pub amount: u32,
    /// The chemicals that the reaction needs, by number, each with the amount
    /// that is needed of it.
    pub deps: Vec<(usize, u32)>,
}

/// The reactions, as the specifications see them.
pub struct Reactions {
    /// The name of each chemical.
    pub labels: Seq<Seq<u8>>,
    /// The amount of each chemical that its reaction makes.
    pub amounts: Seq<u32>,
    /// What the reaction of each chemical needs.
    pub deps: Seq<Seq<(usize, u32)>>,
}

/// The chemicals by number, each with its name and its reaction.
pub struct Graph {
    labels: Vec<Vec<u8>>,
    chemicals: Vec<Chemical>,
}

impl View for Graph {
    type V = Reactions;

    closed spec fn view(&self) -> Reactions {
        Reactions {
            labels: texts(self.labels@),
            amounts: Seq::new(self.chemicals@.len(), |i: int| self.chemicals@[i].amount),
            deps: Seq::new(self.chemicals@.len(), |i: int| self.chemicals@[i].deps@),
        }
    }
}

/// Whether every chemical has a name of its own, and every reaction needs
/// chemicals that there are.
pub open spec fn sound(r: Reactions) -> bool {
    &&& r.labels.len() == r.amounts.len() == r.deps.len()
    &&& distinct(r.labels)
    &&& forall|u: int, k: int|
        0 <= u < r.deps.len() && 0 <= k < r.deps[u].len() ==> (#[trigger] r.deps[u][k]).0
            < r.deps.len()
    &&& forall|u: int| 0 <= u < r.deps.len() ==> apart(#[trigger] r.deps[u])
}

/// Whether no chemical is needed twice among `deps`.
pub open spec fn apart(deps: Seq<(usize, u32)>) -> bool {
    forall|a: int, b: int| 0 <= a < b < deps.len() ==> deps[a].0 != deps[b].0
}

/// The reactions with a chemical of the name `label` among them, and the number
/// of that chemical: a new chemical, which no reaction makes yet, where there
/// was none with that name.
pub open spec fn known(r: Reactions, label: Seq<u8>) -> (Reactions, int) {
    let v = index_of(r.labels, label);
    if v < r.labels.len() {
        (r, v)
    } else {
        (
            Reactions {
                labels: r.labels.push(label),
                amounts: r.amounts.push(0),
                deps: r.deps.push(Seq::empty()),
            },
            v,
        )
    }
}

/// The place of the chemical `key` among `deps`, or their number where it is
/// not among them.
pub open spec fn dep_index(deps: Seq<(usize, u32)>, key: usize) -> int
    decreases deps.len(),
{
    if deps.len() == 0 {
        0
    } else if dep_index(deps.drop_last(), key) < deps.len() - 1 {
        dep_index(deps.drop_last(), key)
    } else if deps.last().0 == key {
        deps.len() - 1
    } else {
        deps.len() as int
    }
}

/// The needs `deps` with the amount `weight` of the chemical `key`, in the
/// place of what was needed of it before.
pub open spec fn with_dep(deps: Seq<(usize, u32)>, key: usize, weight: u32) -> Seq<(usize, u32)> {
    let k = dep_index(deps, key);
    if k < deps.len() {
        deps.update(k, (key, weight))
    } else {
        deps.push((key, weight))
    }
}

/// The reactions after the first `m` of the needs `deps` were looked up, and
/// these needs by number. None where nothing is needed of one of them.
pub open spec fn gathered(r: Reactions, deps: Seq<(Seq<u8>, u32)>, m: int) -> Option<
    (Reactions, Seq<(usize, u32)>),
>
    decreases m,
{
    if m <= 0 {
        Some((r, Seq::empty()))
    } else {
        match gathered(r, deps, m - 1) {
            None => None,
            Some((r1, map)) => if deps[m - 1].1 == 0 {
                None
            } else {
                let (r2, j) = known(r1, deps[m - 1].0);
                Some((r2, with_dep(map, j as usize, deps[m - 1].1)))
            },
        }
    }
}

/// The reactions with one more: `amount` units of `target` are made of `deps`.
/// None where the amount or one of the needs is 0, or where a reaction that
/// makes `target` is known already.
pub open spec fn reacted(r: Reactions, target: Seq<u8>, amount: u32, deps: Seq<(Seq<u8>, u32)>) -> Option<
    Reactions,
> {
    if amount == 0 {
        None
    } else {
        match gathered(r, deps, deps.len() as int) {
            None => None,
            Some((r1, map)) => {
                let (r2, t) = known(r1, target);
                if r2.amounts[t] != 0 {
                    None
                } else {
                    Some(
                        Reactions {
                            labels: r2.labels,
                            amounts: r2.amounts.update(t, amount),
                            deps: r2.deps.update(t, map),
                        },
                    )
                }
            },
        }
    }
}

/// The place of the first need of the chemical `key` is `k`, where none before
/// it is of that chemical.
proof fn lemma_dep_index(deps: Seq<(usize, u32)>, key: usize, k: int)
    requires
        0 <= k <= deps.len(),
        forall|i: int| 0 <= i < k ==> deps[i].0 != key,
        k < deps.len() ==> deps[k].0 == key,
    ensures
        dep_index(deps, key) == k,
    decreases deps.len(),
{
    if deps.len() > 0 {
        if k < deps.len() - 1 {
            lemma_dep_index(deps.drop_last(), key, k);
        } else {
            lemma_dep_index(deps.drop_last(), key, deps.len() - 1);
        }
    }
}

/// A failure among the first needs is a failure of all.
proof fn lemma_gathered_fails(r: Reactions, deps: Seq<(Seq<u8>, u32)>, m: int, n: int)
    requires
        m <= n,
    ensures
        gathered(r, deps, m) is None ==> gathered(r, deps, n) is None,
    decreases n - m,
{
    if m < n {
        lemma_gathered_fails(r, deps, m, n - 1);
    }
}

/// What each of `deps` holds.
pub open spec fn needs(deps: Seq<(&[u8], u32)>) -> Seq<(Seq<u8>, u32)> {
    Seq::new(deps.len(), |k: int| (deps[k].0@, deps[k].1))
}

impl Graph {
    /// Whether the graph is sound, as every graph is that this module hands
    /// out.
    pub open spec fn wf(&self) -> bool {
        sound(self@)
    }

    /// No chemicals.
    pub fn new() -> (graph: Self)
        ensures
            graph.wf(),
            graph@.labels.len() == 0,
    {
        Graph { labels: Vec::new(), chemicals: Vec::new() }
    }

    /// How many chemicals there are.
    pub fn len(&self) -> (n: usize)
        requires
            self.wf(),
        ensures
            n == self@.labels.len(),
    {
        self.chemicals.len()
    }

    /// The number of the chemical with the name `label`, where there is one.
    pub fn lookup(&self, label: &[u8]) -> (node: Option<usize>)
        requires
            self.wf(),
        ensures
            match node {
                Some(v) => v < self@.labels.len() && self@.labels[v as int] == label@,
                None => forall|v: int| 0 <= v < self@.labels.len() ==> self@.labels[v] != label@,
            },
    {
        let found: Option<usize> = lookup(&self.labels, label);
        proof {
            if found is None {
                assert forall|v: int| 0 <= v < self@.labels.len() implies self@.labels[v]
                    != label@ by {
                    assert(self.labels@[v]@ != label@);
                }
            }
        }
        found
    }

    /// The chemical with the number `v`.
    pub fn chemical(&self, v: usize) -> (chemical: &Chemical)
        requires
            self.wf(),
            v < self@.labels.len(),
        ensures
            chemical.amount == self@.amounts[v as int],
            chemical.deps@ == self@.deps[v as int],
    {
        &self.chemicals[v]
    }

    /// The number of the chemical with the name `label`: a new chemical, which
    /// no reaction makes yet, where there was none with that name.
    fn get_node(&mut self, label: &[u8]) -> (node: usize)
        requires
            old(self).wf(),
        ensures
            final(self).wf(),
            final(self)@ == known(old(self)@, label@).0,
            node == known(old(self)@, label@).1,
            node < final(self)@.labels.len(),
            final(self)@.labels.len() >= old(self)@.labels.len(),
    {
        let (node, new) = intern(&mut self.labels, label);
        if new {
            // A placeholder, to check later that a reaction makes every chemical.
            self.chemicals.push(Chemical { amount: 0, deps: Vec::new() });
            assert(self@.amounts =~= old(self)@.amounts.push(0));
            assert(self@.deps =~= old(self)@.deps.push(Seq::empty()));
            assert forall|u: int| 0 <= u < self@.deps.len() implies apart(
                #[trigger] self@.deps[u],
            ) by {
                if u < old(self)@.deps.len() {
                    assert(self@.deps[u] == old(self)@.deps[u]);
                }
            }
        } else {
            assert(self@.amounts =~= old(self)@.amounts);
            assert(self@.deps =~= old(self)@.deps);
        }
        node
    }

    /// Adds the reaction that makes `amount` units of `target` of `deps`.
    /// Returns whether it was added: it is not where the amount or one of the
    /// needs is 0, or where a reaction that makes `target` is known already.
    pub fn add_reaction(&mut self, target: &[u8], amount: u32, deps: &Vec<(&[u8], u32)>) -> (added:
        bool)
        requires
            old(self).wf(),
        ensures
            final(self).wf(),
            match reacted(old(self)@, target@, amount, needs(deps@)) {
                Some(r) => added && final(self)@ == r,
                None => !added,
            },
    {
        if amount == 0 {
            return false;
        }
        // Look up the chemicals that are needed.
        let mut deps_map: Vec<(usize, u32)> = Vec::new();
        let mut m: usize = 0;
        while m < deps.len()
            invariant
                m <= deps@.len(),
                self.wf(),
                self@.labels.len() >= old(self)@.labels.len(),
                gathered(old(self)@, needs(deps@), m as int) == Some((self@, deps_map@)),
                apart(deps_map@),
                forall|k: int| 0 <= k < deps_map@.len() ==> (#[trigger] deps_map@[k]).0
                    < self@.labels.len(),
            decreases deps@.len() - m,
        {
            let label: &[u8] = deps[m].0;
            let weight: u32 = deps[m].1;
            proof {
                lemma_gathered_fails(old(self)@, needs(deps@), m as int + 1, deps@.len() as int);
            }
            if weight == 0 {
                return false;
            }
            let j: usize = self.get_node(label);
            // Put the need in, in the place of an earlier one of the same chemical.
            let mut k: usize = 0;
            while k < deps_map.len() && deps_map[k].0 != j
                invariant
                    k <= deps_map@.len(),
                    forall|i: int| 0 <= i < k ==> deps_map@[i].0 != j,
                decreases deps_map@.len() - k,
            {
                k = k + 1;
            }
            proof {
                lemma_dep_index(deps_map@, j, k as int);
            }
            if k < deps_map.len() {
                deps_map.set(k, (j, weight));
            } else {
                deps_map.push((j, weight));
            }
            m = m + 1;
        }
        // Ensure that a chemical is not the result of two reactions.
        let t: usize = self.get_node(target);
        if self.chemicals[t].amount != 0 {
            return false;
        }
        let ghost before = self@;
        let ghost map = deps_map@;
        self.chemicals.set(t, Chemical { amount, deps: deps_map });
        assert(self@.amounts =~= before.amounts.update(t as int, amount));
        assert(self@.deps =~= before.deps.update(t as int, map));
        assert forall|u: int| 0 <= u < self@.deps.len() implies apart(#[trigger] self@.deps[u]) by {
            if u != t {
                assert(self@.deps[u] == before.deps[u]);
            }
        }
        true
    }
}


/// The least whole number that is no less than `x / y`.
pub open spec fn ceiling(x: int, y: int) -> int {
    if x % y == 0 {
        x / y
    } else {
        x / y + 1
    }
}

/// The quotient of `x` and `y`, rounded up: how many batches of `y` units make
/// `x` units at least.
pub fn ceiling_divide(x: u64, y: u64) -> (q: u64)
    requires
        y != 0,
    ensures
        q == ceiling(x as int, y as int),
        (q - 1) * y < x <= q * y || (x == 0 && q == 0),
{
    let q: u64 = x / y;
    proof {
        vstd::arithmetic::div_mod::lemma_fundamental_div_mod(x as int, y as int);
        assert((q + 1) * y == q * y + y && (q - 1) * y == q * y - y) by (nonlinear_arith);
        assert(y * q == q * y) by (nonlinear_arith);
    }
    if x % y == 0 {
        q
    } else {
        assert(q < u64::MAX) by (nonlinear_arith)
            requires
                q == x / y,
                y >= 2,
                x <= u64::MAX,
        {
            assert(x / y <= x / 2) by {
                vstd::arithmetic::div_mod::lemma_div_is_ordered_by_denominator(
                    x as int,
                    2,
                    y as int,
                );
            }
        }
        q + 1
    }
}

/// Searches the range from `lower` up to `upper`, which is not part of it, for
/// an `x` with `key(x) == target`, where `key` gives one value for each `x`
/// and never decreases on the range.
///
/// Where there is no such `x`, the error holds the least `y` of the range with
/// `target < key(y)`, or `upper` where there is none.
pub fn binary_search<F: Fn(u64) -> u64>(lower: u64, upper: u64, target: u64, key: F) -> (r: Result<
    u64,
    u64,
>)
    requires
        forall|x: u64| lower <= x < upper ==> call_requires(key, (x,)),
        forall|x: u64, y: u64, a: u64, b: u64|
            lower <= x <= y < upper && #[trigger] call_ensures(key, (x,), a) && #[trigger] call_ensures(
                key,
                (y,),
                b,
            ) ==> a <= b,
    ensures
        match r {
            Ok(x) => lower <= x < upper && call_ensures(key, (x,), target),
            Err(y) => {
                &&& lower <= y <= upper || (upper < lower && y == upper)
                &&& forall|x: u64, v: u64|
                    lower <= x < y && #[trigger] call_ensures(key, (x,), v) ==> v < target
                &&& forall|x: u64, v: u64|
                    y <= x < upper && lower <= x && #[trigger] call_ensures(key, (x,), v) ==> target
                        < v
                &&& lower < y <= upper ==> exists|v: u64|
                    #[trigger] call_ensures(key, ((y - 1) as u64,), v) && v < target
                &&& lower <= y < upper ==> exists|v: u64|
                    #[trigger] call_ensures(key, (y,), v) && target < v
            },
        },
    decreases upper - lower,
{
    if lower >= upper {
        return Err(upper);
    }
    let mid: u64 = lower + (upper - lower) / 2;
    let value: u64 = key(mid);
    assert(call_ensures(key, (mid,), value));
    if target < value {
        let r = binary_search(lower, mid, target, key);
        proof {
            if let Err(y) = r {
                if y == mid {
                    assert(call_ensures(key, (y,), value) && target < value);
                }
            }
        }
        r
    } else if target > value {
        let r = binary_search(mid + 1, upper, target, key);
        proof {
            if let Err(y) = r {
                if y == mid + 1 {
                    assert(call_ensures(key, ((y - 1) as u64,), value) && value < target);
                }
            }
        }
        r
    } else {
        Ok(mid)
    }
}

/// Whether `b` is a letter, a digit or an underscore.
pub open spec fn is_word(b: u8) -> bool {
    is_digit(b) || 65 <= b <= 90 || 97 <= b <= 122 || b == 95
}

/// The chemical and the amount that `token` denotes, as in `7 A`: a number of
/// 32 bits in decimal digits, a space, and a name of letters, digits and
/// underscores.
pub open spec fn chem_of(token: Seq<u8>) -> Option<(Seq<u8>, u32)> {
    let space = position(token, SPACE);
    let number = token.take(space);
    let label = token.skip(space + 1);
    if space < token.len() && number.len() > 0 && is_digit(number[0]) && unsigned_value(
        number,
    ) is Some && label.len() > 0 && forall|k: int| 0 <= k < label.len() ==> is_word(
        #[trigger] label[k],
    ) {
        Some((label, unsigned_value(number).unwrap()))
    } else {
        None
    }
}

/// The chemicals and amounts that `text` denotes, with a comma and a space
/// between one and the next.
pub open spec fn chems_of(text: Seq<u8>) -> Option<Seq<(Seq<u8>, u32)>>
    decreases text.len(),
{
    let n: int = position(text, COMMA);
    match chem_of(text.take(n)) {
        None => None,
        Some(chem) => if 0 <= n < text.len() {
            if n + 1 < text.len() && text[n + 1] == SPACE {
                match chems_of(text.skip(n + 2)) {
                    None => None,
                    Some(rest) => Some(seq![chem] + rest),
                }
            } else {
                None
            }
        } else {
            Some(seq![chem])
        },
    }
}

/// The reaction that `line` denotes, as in `7 A, 1 B => 1 C`: what it needs,
/// and what it makes.
pub open spec fn reaction_of(line: Seq<u8>) -> Option<(Seq<(Seq<u8>, u32)>, (Seq<u8>, u32))> {
    let at = position(line, EQUALS);
    if 1 <= at && at + 2 < line.len() && line[at - 1] == SPACE && line[at + 1] == GREATER && line[at
        + 2] == SPACE {
        match (chems_of(line.take(at - 1)), chem_of(line.skip(at + 3))) {
            (Some(inputs), Some(output)) => Some((inputs, output)),
            _ => None,
        }
    } else {
        None
    }
}

/// Reads a chemical with its amount from the bytes from `from` up to `to`.
fn read_chemical(line: &[u8], from: usize, to: usize) -> (r: Option<(&[u8], u32)>)
    requires
        from <= to <= line@.len(),
    ensures
        match r {
            Some((label, amount)) => chem_of(line@.subrange(from as int, to as int)) == Some(
                (label@, amount),
            ),
            None => chem_of(line@.subrange(from as int, to as int)) is None,
        },
{
    let ghost token = line@.subrange(from as int, to as int);
    let bytes: &[u8] = vstd::slice::slice_subrange(line, from, to);
    assert(bytes@.skip(0) =~= bytes@);
    let space: usize = find(bytes, 0, SPACE);
    if space >= bytes.len() || space == 0 || !(ZERO_BYTE <= bytes[0] && bytes[0] <= NINE_BYTE) {
        return None;
    }
    assert(bytes@.subrange(0, space as int) =~= token.take(space as int));
    let amount: u32 = match parse_u32(bytes, 0, space) {
        Some(amount) => amount,
        None => {
            return None;
        },
    };
    let label: &[u8] = vstd::slice::slice_subrange(bytes, space + 1, bytes.len());
    assert(label@ =~= token.skip(space + 1));
    if label.len() == 0 {
        return None;
    }
    let mut k: usize = 0;
    while k < label.len()
        invariant
            k <= label@.len(),
            label@ == line@.subrange(from as int, to as int).skip(space + 1),
            space == position(line@.subrange(from as int, to as int), SPACE),
            forall|i: int| 0 <= i < k ==> is_word(#[trigger] label@[i]),
        decreases label@.len() - k,
    {
        let b: u8 = label[k];
        if !((ZERO_BYTE <= b && b <= NINE_BYTE) || (65 <= b && b <= 90) || (97 <= b && b <= 122)
            || b == 95) {
            assert(!is_word(label@[k as int]));
            return None;
        }
        k = k + 1;
    }
    Some((label, amount))
}

const ZERO_BYTE: u8 = 48;

const NINE_BYTE: u8 = 57;

/// Reads chemicals with their amounts, with a comma and a space between one
/// and the next.
fn read_inputs(left: &[u8]) -> (r: Option<Vec<(&[u8], u32)>>)
    ensures
        match r {
            Some(inputs) => chems_of(left@) == Some(needs(inputs@)),
            None => chems_of(left@) is None,
        },
{
    let n: usize = left.len();
    let mut inputs: Vec<(&[u8], u32)> = Vec::new();
    let mut start: usize = 0;
    assert(left@.skip(0) =~= left@);
    assert(forall|rest: Seq<(Seq<u8>, u32)>| #[trigger] (needs(inputs@) + rest) =~= rest);
    loop
        invariant
            n == left@.len(),
            start <= n,
            chems_of(left@) == match chems_of(left@.skip(start as int)) {
                None => None::<Seq<(Seq<u8>, u32)>>,
                Some(rest) => Some(needs(inputs@) + rest),
            },
        decreases n - start,
    {
        let ghost text: Seq<u8> = left@.skip(start as int);
        let end: usize = find(left, start, COMMA);
        proof {
            assert(text.take(end - start) =~= left@.subrange(start as int, end as int));
            if end + 1 < n {
                assert(text.skip(end - start + 2) =~= left@.skip(end + 2));
                assert(text[end - start + 1] == left@[end + 1]);
            }
        }
        match read_chemical(left, start, end) {
            None => {
                return None;
            },
            Some(chem) => {
                proof {
                    let one = (chem.0@, chem.1);
                    assert(needs(inputs@.push(chem)) =~= needs(inputs@).push(one));
                    assert((needs(inputs@) + seq![one]) =~= needs(inputs@).push(one));
                    assert(forall|rest: Seq<(Seq<u8>, u32)>|
                        needs(inputs@) + (seq![one] + rest) =~= #[trigger] (needs(inputs@).push(one)
                            + rest));
                }
                inputs.push(chem);
            },
        }
        if end == n {
            return Some(inputs);
        }
        if end + 1 >= n || left[end + 1] != SPACE {
            return None;
        }
        start = end + 2;
    }
}

/// Reads the chemicals and their amounts from a line: what the reaction needs,
/// and what it makes.
pub fn read_chemicals(line: &[u8]) -> (r: Option<(Vec<(&[u8], u32)>, (&[u8], u32))>)
    ensures
        match r {
            Some((inputs, output)) => reaction_of(line@) == Some(
                (needs(inputs@), (output.0@, output.1)),
            ),
            None => reaction_of(line@) is None,
        },
{
    assert(line@.skip(0) =~= line@);
    let at: usize = find(line, 0, EQUALS);
    if at < 1 || line.len() < 3 || at >= line.len() - 2 || line[at - 1] != SPACE || line[at + 1]
        != GREATER || line[at + 2] != SPACE {
        return None;
    }
    assert(line@.skip(at + 3) =~= line@.subrange(at + 3, line@.len() as int));
    let output: (&[u8], u32) = match read_chemical(line, at + 3, line.len()) {
        Some(output) => output,
        None => {
            return None;
        },
    };
    let left: &[u8] = vstd::slice::slice_subrange(line, 0, at - 1);
    assert(left@ =~= line@.take(at - 1));
    match read_inputs(left) {
        Some(inputs) => Some((inputs, output)),
        None => None,
    }
}

/// The reactions of the first `n` of `lines`.
pub open spec fn reacted_all(lines: Seq<Seq<u8>>, n: int) -> Option<Reactions>
    decreases n,
{
    if n <= 0 {
        Some(Reactions { labels: Seq::empty(), amounts: Seq::empty(), deps: Seq::empty() })
    } else {
        match (reacted_all(lines, n - 1), reaction_of(lines[n - 1])) {
            (Some(r), Some((inputs, output))) => reacted(r, output.0, output.1, inputs),
            _ => None,
        }
    }
}

/// The name of the chemical that no reaction makes.
pub open spec fn ore() -> Seq<u8> {
    seq![79u8, 82, 69]
}

/// Whether a reaction makes every chemical but ore.
pub open spec fn complete(r: Reactions) -> bool {
    forall|v: int|
        0 <= v < r.labels.len() ==> r.labels[v] == ore() || (#[trigger] r.amounts[v]) != 0
}

/// What the text `input` describes: the reactions of its lines, where one
/// reaction makes each chemical but ore.
pub open spec fn graph_of(input: Seq<u8>) -> Option<Reactions> {
    match reacted_all(lines_of(input), lines_of(input).len() as int) {
        None => None,
        Some(r) => if complete(r) {
            Some(r)
        } else {
            None
        },
    }
}

/// A failure among the first lines is a failure of all.
proof fn lemma_reacted_all_fails(lines: Seq<Seq<u8>>, m: int, n: int)
    requires
        m <= n,
    ensures
        reacted_all(lines, m) is None ==> reacted_all(lines, n) is None,
    decreases n - m,
{
    if m < n {
        lemma_reacted_all_fails(lines, m, n - 1);
    }
}

/// Reads a list of reactions into a graph. There must be exactly one reaction
/// that makes each chemical, except for ore.
pub fn read_graph(input: &[u8]) -> (r: Option<Graph>)
    ensures
        match r {
            Some(graph) => graph.wf() && graph_of(input@) == Some(graph@),
            None => graph_of(input@) is None,
        },
{
    let all: Vec<&[u8]> = lines(input);
    let mut graph: Graph = Graph::new();
    let mut k: usize = 0;
    assert(graph@.labels =~= Seq::<Seq<u8>>::empty());
    assert(graph@.amounts =~= Seq::<u32>::empty());
    assert(graph@.deps =~= Seq::<Seq<(usize, u32)>>::empty());
    while k < all.len()
        invariant
            k <= all@.len(),
            each_line(all@) == lines_of(input@),
            graph.wf(),
            reacted_all(lines_of(input@), k as int) == Some(graph@),
        decreases all@.len() - k,
    {
        let line: &[u8] = all[k];
        proof {
            assert(each_line(all@)[k as int] == line@);
            lemma_reacted_all_fails(lines_of(input@), k as int + 1, all@.len() as int);
        }
        let (inputs, output) = match read_chemicals(line) {
            Some(found) => found,
            None => {
                return None;
            },
        };
        if !graph.add_reaction(output.0, output.1, &inputs) {
            return None;
        }
        k = k + 1;
    }
    // Check that a reaction makes every chemical (except ore).
    let name: [u8; 3] = [79, 82, 69];
    assert(name@ =~= ore());
    let n: usize = graph.len();
    let mut v: usize = 0;
    while v < n
        invariant
            v <= n == graph@.labels.len(),
            graph.wf(),
            name@ == ore(),
            reacted_all(lines_of(input@), lines_of(input@).len() as int) == Some(graph@),
            forall|i: int|
                0 <= i < v ==> graph@.labels[i] == ore() || (#[trigger] graph@.amounts[i]) != 0,
        decreases n - v,
    {
        if graph.chemical(v).amount == 0 && !graph.named(v, name.as_slice()) {
            assert(!(graph@.labels[v as int] == ore() || graph@.amounts[v as int] != 0));
            return None;
        }
        v = v + 1;
    }
    Some(graph)
}

impl Graph {
    /// Whether the chemical with the number `v` has the name `label`.
    pub fn named(&self, v: usize, label: &[u8]) -> (is: bool)
        requires
            self.wf(),
            v < self@.labels.len(),
        ensures
            is == (self@.labels[v as int] == label@),
    {
        crate::puzzle::names::same(self.labels[v].as_slice(), label)
    }
}

/// How many of the first `k` of `deps` are needs of the chemical `v`.
pub open spec fn entries(deps: Seq<(usize, u32)>, v: int, k: int) -> nat
    decreases k,
{
    if k <= 0 {
        0
    } else {
        entries(deps, v, k - 1) + if deps[k - 1].0 == v {
            1nat
        } else {
            0nat
        }
    }
}

/// Whether the reaction of `u` needs the chemical `v`.
pub open spec fn uses(r: Reactions, u: int, v: int) -> bool {
    exists|k: int| 0 <= k < r.deps[u].len() && (#[trigger] r.deps[u][k]).0 == v
}

/// How many of the first `m` chemicals that are not placed need `v` for their
/// reaction.
pub open spec fn waiting(r: Reactions, placed: Seq<bool>, v: int, m: int) -> nat
    decreases m,
{
    if m <= 0 {
        0
    } else {
        waiting(r, placed, v, m - 1) + if placed[m - 1] {
            0nat
        } else {
            entries(r.deps[m - 1], v, r.deps[m - 1].len() as int)
        }
    }
}

/// Nothing placed among `n` chemicals.
pub open spec fn none_placed(n: nat) -> Seq<bool> {
    Seq::new(n, |i: int| false)
}

/// How many reactions need the chemical `v`.
pub open spec fn indegree(r: Reactions, v: int) -> nat {
    waiting(r, none_placed(r.labels.len()), v, r.labels.len() as int)
}

/// Whether `order` holds every chemical once, each of them before all that its
/// reaction needs.
pub open spec fn is_order(r: Reactions, order: Seq<usize>) -> bool {
    &&& order.len() == r.labels.len()
    &&& order.no_duplicates()
    &&& forall|i: int| 0 <= i < order.len() ==> (#[trigger] order[i]) < r.labels.len()
    &&& forall|i: int, j: int|
        0 <= i < order.len() && 0 <= j < order.len() && uses(
            r,
            #[trigger] order[i] as int,
            #[trigger] order[j] as int,
        ) ==> i < j
}

/// Whether `rank` gives every chemical a lesser number than all that its
/// reaction needs.
pub open spec fn is_ranking(r: Reactions, rank: Seq<int>) -> bool {
    &&& rank.len() == r.labels.len()
    &&& forall|u: int, v: int|
        0 <= u < rank.len() && 0 <= v < rank.len() && #[trigger] uses(r, u, v) ==> rank[u]
            < rank[v]
}

/// The count of needs grows with the number of needs that are looked at, by one
/// at most for each.
proof fn lemma_entries(deps: Seq<(usize, u32)>, v: int, j: int, k: int)
    requires
        0 <= j <= k <= deps.len(),
    ensures
        entries(deps, v, j) <= entries(deps, v, k) <= entries(deps, v, j) + (k - j),
    decreases k - j,
{
    if j < k {
        lemma_entries(deps, v, j, k - 1);
    }
}

/// Needs that are apart hold a chemical once at most, and exactly once where
/// they hold it.
proof fn lemma_entries_apart(deps: Seq<(usize, u32)>, v: int, k: int)
    requires
        apart(deps),
        0 <= k <= deps.len(),
    ensures
        entries(deps, v, k) <= 1,
        entries(deps, v, k) == 1 <==> exists|i: int| 0 <= i < k && (#[trigger] deps[i]).0 == v,
    decreases k,
{
    if k > 0 {
        lemma_entries_apart(deps, v, k - 1);
        if deps[k - 1].0 == v {
            if entries(deps, v, k - 1) == 1 {
                let i = choose|i: int| 0 <= i < k - 1 && (#[trigger] deps[i]).0 == v;
                assert(deps[i].0 != deps[k - 1].0);
            }
            assert(deps[k - 1].0 == v);
        } else if entries(deps, v, k) == 1 {
            let i = choose|i: int| 0 <= i < k - 1 && (#[trigger] deps[i]).0 == v;
            assert(deps[i].0 == v);
        } else if exists|i: int| 0 <= i < k && (#[trigger] deps[i]).0 == v {
            let i = choose|i: int| 0 <= i < k && (#[trigger] deps[i]).0 == v;
            assert(i < k - 1);
        }
    }
}

/// Where a chemical is placed that was not, what waits for `v` is less by what
/// the reaction of that chemical needs of `v`.
proof fn lemma_waiting_place(r: Reactions, placed: Seq<bool>, c: int, v: int, m: int)
    requires
        0 <= c < placed.len(),
        !placed[c],
        0 <= m <= placed.len(),
    ensures
        waiting(r, placed, v, m) == waiting(r, placed.update(c, true), v, m) + if c < m {
            entries(r.deps[c], v, r.deps[c].len() as int)
        } else {
            0nat
        },
    decreases m,
{
    if m > 0 {
        lemma_waiting_place(r, placed, c, v, m - 1);
    }
}

/// Where nothing waits for `v`, every chemical that needs `v` is placed; and
/// where something waits, a chemical that is not placed needs `v`.
proof fn lemma_waiting(r: Reactions, placed: Seq<bool>, v: int, m: int)
    requires
        sound(r),
        placed.len() == r.labels.len(),
        0 <= m <= placed.len(),
    ensures
        waiting(r, placed, v, m) <= m,
        waiting(r, placed, v, m) == 0 ==> forall|u: int|
            0 <= u < m && #[trigger] uses(r, u, v) ==> placed[u],
        waiting(r, placed, v, m) > 0 ==> exists|u: int|
            0 <= u < m && !placed[u] && #[trigger] uses(r, u, v),
    decreases m,
{
    if m > 0 {
        lemma_waiting(r, placed, v, m - 1);
        let deps = r.deps[m - 1];
        lemma_entries_apart(deps, v, deps.len() as int);
        if !placed[m - 1] && entries(deps, v, deps.len() as int) == 1 {
            let k = choose|k: int| 0 <= k < deps.len() && (#[trigger] deps[k]).0 == v;
            assert(uses(r, m - 1, v));
        }
        if waiting(r, placed, v, m) == 0 {
            assert forall|u: int| 0 <= u < m && #[trigger] uses(r, u, v) implies placed[u] by {
                if u == m - 1 && !placed[u] {
                    let k = choose|k: int| 0 <= k < deps.len() && (#[trigger] deps[k]).0 == v;
                    assert(deps[k].0 == v);
                }
            }
        }
    }
}

/// Computes the indegree of each chemical: how many reactions need it.
pub fn indegrees(graph: &Graph) -> (degs: Vec<usize>)
    requires
        graph.wf(),
    ensures
        degs@.len() == graph@.labels.len(),
        forall|v: int| 0 <= v < degs@.len() ==> #[trigger] degs@[v] == indegree(graph@, v),
{
    let n: usize = graph.len();
    let ghost r = graph@;
    let ghost placed = none_placed(n as nat);
    let mut degs: Vec<usize> = Vec::new();
    let mut v: usize = 0;
    while v < n
        invariant
            v <= n,
            degs@.len() == v,
            forall|i: int| 0 <= i < v ==> #[trigger] degs@[i] == 0,
        decreases n - v,
    {
        degs.push(0);
        v = v + 1;
    }
    let mut u: usize = 0;
    while u < n
        invariant
            u <= n == r.labels.len(),
            r == graph@,
            graph.wf(),
            placed == none_placed(n as nat),
            degs@.len() == n,
            forall|v: int| 0 <= v < n ==> #[trigger] degs@[v] == waiting(r, placed, v, u as int),
        decreases n - u,
    {
        let node: &Chemical = graph.chemical(u);
        let ghost before = degs@;
        let mut k: usize = 0;
        while k < node.deps.len()
            invariant
                k <= node.deps@.len(),
                u < n == r.labels.len(),
                sound(r),
                node.deps@ == r.deps[u as int],
                placed == none_placed(n as nat),
                degs@.len() == n == before.len(),
                forall|v: int| 0 <= v < n ==> #[trigger] before[v] == waiting(r, placed, v, u as int),
                forall|v: int|
                    0 <= v < n ==> #[trigger] degs@[v] == before[v] + entries(
                        node.deps@,
                        v,
                        k as int,
                    ),
            decreases node.deps@.len() - k,
        {
            let j: usize = node.deps[k].0;
            proof {
                assert(r.deps[u as int][k as int].0 < n);
                lemma_waiting(r, placed, j as int, u as int);
                lemma_entries_apart(node.deps@, j as int, k as int + 1);
            }
            let ghost counted = degs@;
            degs.set(j, degs[j] + 1);
            assert forall|v: int| 0 <= v < n implies #[trigger] degs@[v] == before[v] + entries(
                node.deps@,
                v,
                k + 1,
            ) by {
                assert(counted[v] == before[v] + entries(node.deps@, v, k as int));
            }
            k = k + 1;
        }
        u = u + 1;
    }
    degs
}

/// The state of the search for an order: the indegree that is left of each
/// chemical, which chemicals are placed, and which can be placed next.
pub open spec fn settled(
    r: Reactions,
    degs: Seq<usize>,
    placed: Seq<bool>,
    candidates: Seq<usize>,
) -> bool {
    releasing(r, degs, placed, candidates, Seq::empty(), 0)
}

/// The state of the search while the needs `deps` of a chemical that was just
/// placed are released, of which the first `k` are: what is left of each
/// indegree counts the chemicals that wait, and the needs that are still to be
/// released.
pub open spec fn releasing(
    r: Reactions,
    degs: Seq<usize>,
    placed: Seq<bool>,
    candidates: Seq<usize>,
    deps: Seq<(usize, u32)>,
    k: int,
) -> bool {
    let n = r.labels.len();
    &&& degs.len() == n
    &&& placed.len() == n
    &&& forall|v: int|
        0 <= v < n ==> #[trigger] degs[v] == waiting(r, placed, v, n as int) + entries(
            deps,
            v,
            deps.len() as int,
        ) - entries(deps, v, k)
    &&& forall|i: int|
        0 <= i < candidates.len() ==> (#[trigger] candidates[i]) < n && !placed[candidates[i] as int]
            && degs[candidates[i] as int] == 0
    &&& candidates.no_duplicates()
    &&& forall|v: int|
        0 <= v < n && !placed[v] && #[trigger] degs[v] == 0 ==> candidates.contains(v as usize)
    &&& forall|v: int| 0 <= v < n && #[trigger] placed[v] ==> degs[v] == 0
}

/// Releases the needs of a chemical that was just placed: each chemical that
/// it needs waits for one chemical less, and can be placed where it waits for
/// none.
fn release(graph: &Graph, c: usize, degs: &mut Vec<usize>, placed: &Vec<bool>, candidates: &mut Vec<
    usize,
>)
    requires
        graph.wf(),
        c < graph@.labels.len(),
        releasing(graph@, old(degs)@, placed@, old(candidates)@, graph@.deps[c as int], 0),
    ensures
        settled(graph@, final(degs)@, placed@, final(candidates)@),
{
    let ghost r = graph@;
    let n: usize = graph.len();
    let node: &Chemical = graph.chemical(c);
    let ghost deps = node.deps@;
    let mut k: usize = 0;
    while k < node.deps.len()
        invariant
            k <= deps.len(),
            deps == node.deps@,
            deps == r.deps[c as int],
            c < n == r.labels.len(),
            sound(r),
            releasing(r, degs@, placed@, candidates@, deps, k as int),
        decreases deps.len() - k,
    {
        let w: usize = node.deps[k].0;
        proof {
            assert(r.deps[c as int][k as int].0 < n);
            lemma_entries(deps, w as int, k as int + 1, deps.len() as int);
            assert(degs@[w as int] >= 1);
        }
        let ghost before = degs@;
        let ghost listed = candidates@;
        let left: usize = degs[w] - 1;
        degs.set(w, left);
        if left == 0 {
            candidates.push(w);
        }
        proof {
            assert forall|v: int| 0 <= v < n implies #[trigger] degs@[v] == waiting(
                r,
                placed@,
                v,
                n as int,
            ) + entries(deps, v, deps.len() as int) - entries(deps, v, k + 1) by {
                assert(before[v] == waiting(r, placed@, v, n as int) + entries(
                    deps,
                    v,
                    deps.len() as int,
                ) - entries(deps, v, k as int));
            }
            assert(!placed@[w as int]) by {
                if placed@[w as int] {
                    assert(before[w as int] == 0);
                }
            }
            assert(!listed.contains(w)) by {
                if listed.contains(w) {
                    let i = choose|i: int| 0 <= i < listed.len() && listed[i] == w;
                    assert(before[listed[i] as int] == 0);
                }
            }
            assert forall|i: int| 0 <= i < candidates@.len() implies (#[trigger] candidates@[i]) < n
                && !placed@[candidates@[i] as int] && degs@[candidates@[i] as int] == 0 by {
                if i < listed.len() {
                    assert(listed[i] == candidates@[i]);
                    assert(listed.contains(listed[i]));
                }
            }
            assert forall|v: int| 0 <= v < n && !placed@[v] && #[trigger] degs@[v] == 0 implies candidates@.contains(
                v as usize,
            ) by {
                if v == w {
                    assert(candidates@[listed.len() as int] == w);
                } else {
                    assert(before[v] == 0);
                    let i = choose|i: int| 0 <= i < listed.len() && listed[i] == v as usize;
                    assert(candidates@[i] == v as usize);
                }
            }
            assert forall|v: int| 0 <= v < n && #[trigger] placed@[v] implies degs@[v] == 0 by {
                assert(before[v] == 0);
            }
        }
        k = k + 1;
    }
    proof {
        assert forall|v: int| 0 <= v < n implies #[trigger] degs@[v] == waiting(
            r,
            placed@,
            v,
            n as int,
        ) + entries(Seq::<(usize, u32)>::empty(), v, 0) - entries(
            Seq::<(usize, u32)>::empty(),
            v,
            0,
        ) by {}
    }
}

/// A list of chemicals without repetitions holds no more chemicals than there
/// are.
proof fn lemma_bounded(order: Seq<usize>, n: nat)
    requires
        order.no_duplicates(),
        forall|i: int| 0 <= i < order.len() ==> (#[trigger] order[i]) < n,
    ensures
        order.len() <= n,
{
    let numbers = order.map_values(|v: usize| v as int);
    assert(numbers.no_duplicates());
    numbers.unique_seq_to_set();
    vstd::set_lib::lemma_int_range(0, n as int);
    assert(numbers.to_set().subset_of(vstd::set_lib::set_int_range(0, n as int))) by {
        assert forall|x: int| numbers.to_set().contains(x) implies vstd::set_lib::set_int_range(
            0,
            n as int,
        ).contains(x) by {
            let i = choose|i: int| 0 <= i < numbers.len() && numbers[i] == x;
            assert(order[i] < n);
        }
    }
    vstd::set_lib::lemma_len_subset(numbers.to_set(), vstd::set_lib::set_int_range(0, n as int));
}

/// Among chemicals of which one is not placed, one that is not placed has the
/// least rank.
proof fn lemma_least_rank(rank: Seq<int>, placed: Seq<bool>, m: int) -> (w: int)
    requires
        0 <= m <= rank.len() == placed.len(),
        exists|v: int| 0 <= v < m && !#[trigger] placed[v],
    ensures
        0 <= w < m,
        !placed[w],
        forall|v: int| 0 <= v < m && !#[trigger] placed[v] ==> rank[w] <= rank[v],
    decreases m,
{
    let last = m - 1;
    if exists|v: int| 0 <= v < last && !#[trigger] placed[v] {
        let w = lemma_least_rank(rank, placed, last);
        if !placed[last] && rank[last] < rank[w] {
            last
        } else {
            w
        }
    } else {
        assert(!placed[last]);
        last
    }
}

/// Computes an order of the chemicals in which each chemical comes before all
/// that its reaction needs. None where there is no such order, because the
/// reactions go in a circle.
pub fn top_sort(graph: &Graph) -> (r: Option<Vec<usize>>)
    requires
        graph.wf(),
    ensures
        match r {
            Some(order) => is_order(graph@, order@),
            None => forall|rank: Seq<int>| !#[trigger] is_ranking(graph@, rank),
        },
{
    let n: usize = graph.len();
    let ghost r = graph@;
    let mut degs: Vec<usize> = indegrees(graph);
    let mut placed: Vec<bool> = Vec::new();
    // Chemicals with indegree 0.
    let mut candidates: Vec<usize> = Vec::new();
    let mut v: usize = 0;
    while v < n
        invariant
            v <= n == r.labels.len(),
            degs@.len() == n,
            placed@ == none_placed(v as nat),
            candidates@.no_duplicates(),
            forall|i: int|
                0 <= i < candidates@.len() ==> (#[trigger] candidates@[i]) < v && degs@[candidates@[i] as int]
                    == 0,
            forall|u: int| 0 <= u < v && #[trigger] degs@[u] == 0 ==> candidates@.contains(u as usize),
        decreases n - v,
    {
        let ghost listed = candidates@;
        placed.push(false);
        assert(placed@ =~= none_placed((v + 1) as nat));
        if degs[v] == 0 {
            candidates.push(v);
            assert(candidates@[listed.len() as int] == v);
            assert forall|u: int| 0 <= u < v + 1 && #[trigger] degs@[u] == 0 implies candidates@.contains(
                u as usize,
            ) by {
                if u < v {
                    let i = choose|i: int| 0 <= i < listed.len() && listed[i] == u as usize;
                    assert(candidates@[i] == u as usize);
                }
            }
        } else {
            assert forall|u: int| 0 <= u < v + 1 && #[trigger] degs@[u] == 0 implies candidates@.contains(
                u as usize,
            ) by {}
        }
        v = v + 1;
    }
    let mut sorted: Vec<usize> = Vec::new();
    proof {
        assert forall|v: int| 0 <= v < n implies #[trigger] degs@[v] == waiting(
            r,
            placed@,
            v,
            n as int,
        ) + entries(Seq::<(usize, u32)>::empty(), v, 0) - entries(
            Seq::<(usize, u32)>::empty(),
            v,
            0,
        ) by {
            assert(degs@[v] == indegree(r, v));
        }
    }
    // Greedily place chemicals with indegree 0, until there is none.
    while candidates.len() > 0
        invariant
            n == r.labels.len(),
            r == graph@,
            graph.wf(),
            settled(r, degs@, placed@, candidates@),
            sorted@.no_duplicates(),
            forall|i: int| 0 <= i < sorted@.len() ==> (#[trigger] sorted@[i]) < n,
            forall|v: int| 0 <= v < n ==> (#[trigger] placed@[v] <==> sorted@.contains(v as usize)),
            forall|j: int, u: int|
                0 <= j < sorted@.len() && 0 <= u < n && #[trigger] uses(r, u, sorted@[j] as int)
                    ==> exists|i: int| 0 <= i < j && sorted@[i] == u,
        decreases n - sorted@.len(),
    {
        let ghost old_degs = degs@;
        let ghost old_placed = placed@;
        let ghost old_candidates = candidates@;
        let ghost old_sorted = sorted@;
        let c: usize = candidates.pop().unwrap();
        proof {
            assert(old_candidates[old_candidates.len() - 1] == c);
            assert(c < n && !old_placed[c as int] && old_degs[c as int] == 0);
            assert(!old_sorted.contains(c));
        }
        placed.set(c, true);
        sorted.push(c);
        proof {
            assert(sorted@.no_duplicates());
            lemma_bounded(sorted@, n as nat);
            // Every chemical that needs this one was placed before.
            lemma_waiting(r, old_placed, c as int, n as int);
            assert forall|j: int, u: int|
                0 <= j < sorted@.len() && 0 <= u < n && #[trigger] uses(
                    r,
                    u,
                    sorted@[j] as int,
                ) implies exists|i: int| 0 <= i < j && sorted@[i] == u by {
                if j == old_sorted.len() {
                    assert(old_placed[u]);
                    assert(old_sorted.contains(u as usize));
                    let i = choose|i: int| 0 <= i < old_sorted.len() && old_sorted[i] == u as usize;
                    assert(sorted@[i] == u);
                } else {
                    assert(uses(r, u, old_sorted[j] as int));
                    let i = choose|i: int| 0 <= i < j && old_sorted[i] == u;
                    assert(sorted@[i] == u);
                }
            }
            assert forall|v: int| 0 <= v < n implies (#[trigger] placed@[v] <==> sorted@.contains(
                v as usize,
            )) by {
                if v == c {
                    assert(sorted@[old_sorted.len() as int] == c);
                } else {
                    if old_sorted.contains(v as usize) {
                        let i = choose|i: int| 0 <= i < old_sorted.len() && old_sorted[i] == v as usize;
                        assert(sorted@[i] == v as usize);
                    }
                    if sorted@.contains(v as usize) {
                        let i = choose|i: int| 0 <= i < sorted@.len() && sorted@[i] == v as usize;
                        assert(old_sorted[i] == v as usize);
                    }
                }
            }
            // The needs of this chemical are to be released.
            let deps = r.deps[c as int];
            assert(placed@ =~= old_placed.update(c as int, true));
            assert forall|v: int| 0 <= v < n implies #[trigger] degs@[v] == waiting(
                r,
                placed@,
                v,
                n as int,
            ) + entries(deps, v, deps.len() as int) - entries(deps, v, 0) by {
                lemma_waiting_place(r, old_placed, c as int, v, n as int);
                assert(old_degs[v] == waiting(r, old_placed, v, n as int));
            }
            assert forall|i: int| 0 <= i < candidates@.len() implies (#[trigger] candidates@[i]) < n
                && !placed@[candidates@[i] as int] && degs@[candidates@[i] as int] == 0 by {
                assert(old_candidates[i] == candidates@[i]);
                assert(old_candidates[i] != old_candidates[old_candidates.len() - 1]);
            }
            assert forall|v: int| 0 <= v < n && !placed@[v] && #[trigger] degs@[v] == 0 implies candidates@.contains(
                v as usize,
            ) by {
                assert(old_candidates.contains(v as usize));
                let i = choose|i: int| 0 <= i < old_candidates.len() && old_candidates[i] == v as usize;
                assert(candidates@[i] == v as usize);
            }
        }
        release(graph, c, &mut degs, &placed, &mut candidates);
    }
    if sorted.len() == n {
        proof {
            assert forall|i: int, j: int|
                0 <= i < sorted@.len() && 0 <= j < sorted@.len() && uses(
                    r,
                    #[trigger] sorted@[i] as int,
                    #[trigger] sorted@[j] as int,
                ) implies i < j by {
                let i2 = choose|i2: int| 0 <= i2 < j && sorted@[i2] == sorted@[i];
            }
        }
        Some(sorted)
    } else {
        proof {
            // A chemical is left, and each one that is left needs one that is left.
            lemma_bounded(sorted@, n as nat);
            assert(exists|v: int| 0 <= v < n && !#[trigger] placed@[v]) by {
                if forall|v: int| 0 <= v < n ==> #[trigger] placed@[v] {
                    let all = Seq::new(n as nat, |i: int| i as usize);
                    assert(all.no_duplicates());
                    assert forall|x: usize| all.contains(x) implies sorted@.contains(x) by {
                        let i = choose|i: int| 0 <= i < all.len() && all[i] == x;
                        assert(placed@[i]);
                    }
                    lemma_no_more(all, sorted@);
                }
            }
            assert forall|rank: Seq<int>| !#[trigger] is_ranking(r, rank) by {
                if is_ranking(r, rank) {
                    let w = lemma_least_rank(rank, placed@, n as int);
                    assert(degs@[w] != 0) by {
                        if degs@[w] == 0 {
                            assert(candidates@.contains(w as usize));
                        }
                    }
                    assert(degs@[w] == waiting(r, placed@, w, n as int) + entries(
                        Seq::<(usize, u32)>::empty(),
                        w,
                        0,
                    ) - entries(Seq::<(usize, u32)>::empty(), w, 0));
                    lemma_waiting(r, placed@, w, n as int);
                    let u = choose|u: int| 0 <= u < n && !placed@[u] && #[trigger] uses(r, u, w);
                    assert(rank[u] < rank[w]);
                }
            }
        }
        None
    }
}

/// A list without repetitions whose chemicals are all in another list is no
/// longer than that list.
proof fn lemma_no_more(a: Seq<usize>, b: Seq<usize>)
    requires
        a.no_duplicates(),
        b.no_duplicates(),
        forall|x: usize| a.contains(x) ==> b.contains(x),
    ensures
        a.len() <= b.len(),
{
    a.unique_seq_to_set();
    b.unique_seq_to_set();
    vstd::seq_lib::seq_to_set_is_finite(b);
    assert(a.to_set().subset_of(b.to_set()));
    vstd::set_lib::lemma_len_subset(a.to_set(), b.to_set());
}

/// An order holds every chemical.
pub proof fn lemma_order_covers(r: Reactions, order: Seq<usize>)
    requires
        is_order(r, order),
    ensures
        forall|v: usize| v < r.labels.len() ==> #[trigger] order.contains(v),
{
    let n = r.labels.len();
    let numbers = order.map_values(|v: usize| v as int);
    assert(numbers.no_duplicates());
    numbers.unique_seq_to_set();
    vstd::seq_lib::seq_to_set_is_finite(numbers);
    vstd::set_lib::lemma_int_range(0, n as int);
    let range = vstd::set_lib::set_int_range(0, n as int);
    assert(numbers.to_set().subset_of(range)) by {
        assert forall|x: int| numbers.to_set().contains(x) implies range.contains(x) by {
            let i = choose|i: int| 0 <= i < numbers.len() && numbers[i] == x;
            assert(order[i] < n);
        }
    }
    vstd::set_lib::lemma_subset_equality(numbers.to_set(), range);
    assert forall|v: usize| v < n implies #[trigger] order.contains(v) by {
        assert(range.contains(v as int));
        assert(numbers.to_set().contains(v as int));
        let i = choose|i: int| 0 <= i < numbers.len() && numbers[i] == v as int;
        assert(order[i] == v);
    }
}

/// Where there is an order, the places of the chemicals in it are a ranking.
pub proof fn lemma_order_ranks(r: Reactions, order: Seq<usize>) -> (rank: Seq<int>)
    requires
        is_order(r, order),
        r.labels.len() <= usize::MAX,
    ensures
        is_ranking(r, rank),
{
    lemma_order_covers(r, order);
    let rank = Seq::new(r.labels.len(), |v: int| place_in(order, v));
    assert forall|u: int, v: int|
        0 <= u < rank.len() && 0 <= v < rank.len() && #[trigger] uses(r, u, v) implies rank[u]
        < rank[v] by {
        assert(order.contains(u as usize) && order.contains(v as usize));
        lemma_place_in(order, u);
        lemma_place_in(order, v);
        assert(uses(r, order[place_in(order, u)] as int, order[place_in(order, v)] as int));
    }
    rank
}

/// The place of the chemical `v` in `order`.
pub open spec fn place_in(order: Seq<usize>, v: int) -> int {
    choose|i: int| 0 <= i < order.len() && order[i] == v
}

/// A chemical that `order` holds is at its place.
proof fn lemma_place_in(order: Seq<usize>, v: int)
    requires
        order.contains(v as usize),
        0 <= v <= usize::MAX,
    ensures
        0 <= place_in(order, v) < order.len(),
        order[place_in(order, v)] == v,
{
    let i = choose|i: int| 0 <= i < order.len() && order[i] == v as usize;
    assert(order[i] == v);
}

/// Computes for each chemical its place in the order.
pub fn reverse_mapping(idx_to_label: &Vec<usize>) -> (label_to_idx: Vec<usize>)
    requires
        idx_to_label@.no_duplicates(),
        forall|i: int|
            0 <= i < idx_to_label@.len() ==> (#[trigger] idx_to_label@[i]) < idx_to_label@.len(),
    ensures
        label_to_idx@.len() == idx_to_label@.len(),
        forall|i: int|
            0 <= i < idx_to_label@.len() ==> label_to_idx@[(#[trigger] idx_to_label@[i]) as int] == i,
{
    let n: usize = idx_to_label.len();
    let mut label_to_idx: Vec<usize> = Vec::new();
    let mut v: usize = 0;
    while v < n
        invariant
            v <= n,
            label_to_idx@.len() == v,
        decreases n - v,
    {
        label_to_idx.push(0);
        v = v + 1;
    }
    let mut i: usize = 0;
    while i < n
        invariant
            i <= n == idx_to_label@.len() == label_to_idx@.len(),
            idx_to_label@.no_duplicates(),
            forall|k: int| 0 <= k < n ==> (#[trigger] idx_to_label@[k]) < n,
            forall|k: int| 0 <= k < i ==> label_to_idx@[(#[trigger] idx_to_label@[k]) as int] == k,
        decreases n - i,
    {
        let label: usize = idx_to_label[i];
        let ghost before = label_to_idx@;
        label_to_idx.set(label, i);
        assert forall|k: int| 0 <= k < i + 1 implies label_to_idx@[(
        #[trigger] idx_to_label@[k]) as int] == k by {
            if k < i {
                assert(idx_to_label@[k] != idx_to_label@[i as int]);
                assert(before[idx_to_label@[k] as int] == k);
            }
        }
        i = i + 1;
    }
    label_to_idx
}

/// The demands after the first `k` of the needs `deps` of a reaction that is
/// done `reps` times were added: each adds the amount that is needed to the
/// demand at the place of its chemical. None where 64 bits do not hold a
/// demand.
pub open spec fn passed_on(
    demands: Seq<u64>,
    deps: Seq<(usize, u32)>,
    places: Seq<usize>,
    reps: u64,
    k: int,
) -> Option<Seq<u64>>
    decreases k,
{
    if k <= 0 {
        Some(demands)
    } else {
        match passed_on(demands, deps, places, reps, k - 1) {
            None => None,
            Some(d) => {
                let j = places[deps[k - 1].0 as int] as int;
                let more = d[j] + reps * deps[k - 1].1;
                if more > u64::MAX {
                    None
                } else {
                    Some(d.update(j, more as u64))
                }
            },
        }
    }
}

/// The demands after the reactions at the places from `from` up to `to` were
/// done, one after the other, each as often as its demand asks for. None where
/// one of these chemicals has no reaction, or where 64 bits do not hold a
/// demand.
pub open spec fn worked(
    r: Reactions,
    order: Seq<usize>,
    places: Seq<usize>,
    demands: Seq<u64>,
    from: int,
    to: int,
) -> Option<Seq<u64>>
    decreases to - from,
{
    if to <= from {
        Some(demands)
    } else {
        match worked(r, order, places, demands, from, to - 1) {
            None => None,
            Some(d) => {
                let chem = order[to - 1] as int;
                if r.amounts[chem] == 0 {
                    None
                } else {
                    passed_on(
                        d,
                        r.deps[chem],
                        places,
                        ceiling(d[to - 1] as int, r.amounts[chem] as int) as u64,
                        r.deps[chem].len() as int,
                    )
                }
            },
        }
    }
}

/// The ore that `fuel_demand` units of fuel need, where the chemicals are
/// worked off in `order` from fuel to ore, and nothing is asked of what comes
/// behind ore.
pub open spec fn ore_for(
    r: Reactions,
    order: Seq<usize>,
    places: Seq<usize>,
    fuel: int,
    ore: int,
    fuel_demand: u64,
) -> Option<u64> {
    let start = Seq::new(order.len(), |i: int| 0u64).update(places[fuel] as int, fuel_demand);
    match worked(r, order, places, start, places[fuel] as int, places[ore] as int) {
        None => None,
        Some(d) => if forall|i: int| places[ore] < i < d.len() ==> #[trigger] d[i] == 0 {
            Some(d[places[ore] as int])
        } else {
            None
        },
    }
}

/// A failure of the first needs is a failure of all.
proof fn lemma_passed_on_fails(
    demands: Seq<u64>,
    deps: Seq<(usize, u32)>,
    places: Seq<usize>,
    reps: u64,
    j: int,
    k: int,
)
    requires
        j <= k,
    ensures
        passed_on(demands, deps, places, reps, j) is None ==> passed_on(
            demands,
            deps,
            places,
            reps,
            k,
        ) is None,
    decreases k - j,
{
    if j < k {
        lemma_passed_on_fails(demands, deps, places, reps, j, k - 1);
    }
}

/// A failure at the first places is a failure at all.
proof fn lemma_worked_fails(
    r: Reactions,
    order: Seq<usize>,
    places: Seq<usize>,
    demands: Seq<u64>,
    from: int,
    mid: int,
    to: int,
)
    requires
        mid <= to,
    ensures
        worked(r, order, places, demands, from, mid) is None ==> worked(
            r,
            order,
            places,
            demands,
            from,
            to,
        ) is None,
    decreases to - mid,
{
    if mid < to {
        lemma_worked_fails(r, order, places, demands, from, mid, to - 1);
    }
}

/// The name of the chemical that is asked for.
pub open spec fn fuel() -> Seq<u8> {
    seq![70u8, 85, 69, 76]
}

/// Whether `places` gives each chemical its place in `order`, which is an
/// order of the chemicals.
pub open spec fn placed_in(r: Reactions, order: Seq<usize>, places: Seq<usize>) -> bool {
    &&& is_order(r, order)
    &&& places.len() == order.len()
    &&& forall|i: int| 0 <= i < order.len() ==> places[(#[trigger] order[i]) as int] == i
}

/// How much ore do `fuel_demand` units of the chemical `f` need, where the
/// chemicals are worked off in the order `idx_to_label` down to the chemical
/// `o`? None where a chemical on the way has no reaction, where something is
/// needed that does not reduce to `o`, or where 64 bits do not hold a demand.
pub fn ore_needed_in(
    graph: &Graph,
    idx_to_label: &Vec<usize>,
    label_to_idx: &Vec<usize>,
    f: usize,
    o: usize,
    fuel_demand: u64,
) -> (needed: Option<u64>)
    requires
        graph.wf(),
        placed_in(graph@, idx_to_label@, label_to_idx@),
        f < graph@.labels.len(),
        o < graph@.labels.len(),
    ensures
        needed == ore_for(graph@, idx_to_label@, label_to_idx@, f as int, o as int, fuel_demand),
{
    let n: usize = graph.len();
    let ghost r = graph@;
    let ghost order = idx_to_label@;
    let ghost places = label_to_idx@;
    proof {
        lemma_order_covers(r, order);
        assert forall|v: int| 0 <= v < n implies (#[trigger] places[v]) < n by {
            assert(order.contains(v as usize));
            let i = choose|i: int| 0 <= i < order.len() && order[i] == v as usize;
            assert(places[order[i] as int] == i);
        }
    }
    let fuel_at: usize = label_to_idx[f];
    let ore_at: usize = label_to_idx[o];

    let mut demands: Vec<u64> = Vec::new();
    let mut v: usize = 0;
    while v < n
        invariant
            v <= n,
            demands@ == Seq::new(v as nat, |i: int| 0u64),
        decreases n - v,
    {
        demands.push(0);
        assert(demands@ =~= Seq::new((v + 1) as nat, |i: int| 0u64));
        v = v + 1;
    }
    demands.set(fuel_at, fuel_demand);
    let ghost start = demands@;

    let mut i: usize = fuel_at;
    while i < ore_at
        invariant
            fuel_at <= i <= ore_at || (ore_at < fuel_at && i == fuel_at),
            ore_at < n == order.len() == places.len() == demands@.len(),
            r == graph@,
            graph.wf(),
            order == idx_to_label@,
            places == label_to_idx@,
            is_order(r, order),
            f < n,
            o < n,
            fuel_at == places[f as int],
            ore_at == places[o as int],
            start == Seq::new(order.len(), |i: int| 0u64).update(places[f as int] as int, fuel_demand),
            forall|v: int| 0 <= v < n ==> (#[trigger] places[v]) < n,
            worked(r, order, places, start, fuel_at as int, i as int) == Some(demands@),
        decreases ore_at - i,
    {
        proof {
            lemma_worked_fails(r, order, places, start, fuel_at as int, i as int + 1, ore_at as int);
        }
        let chem: &Chemical = graph.chemical(idx_to_label[i]);
        if chem.amount == 0 {
            return None;
        }
        // How many times to perform this reaction.
        let num_reps: u64 = ceiling_divide(demands[i], chem.amount as u64);
        let ghost before = demands@;
        // Propagate demand across edges.
        let mut k: usize = 0;
        while k < chem.deps.len()
            invariant
                k <= chem.deps@.len(),
                n == places.len() == demands@.len() == r.labels.len(),
                places == label_to_idx@,
                r == graph@,
                sound(r),
                i < idx_to_label@.len(),
                0 <= idx_to_label@[i as int] < n,
                chem.deps@ == r.deps[idx_to_label@[i as int] as int],
                forall|v: int| 0 <= v < n ==> (#[trigger] places[v]) < n,
                passed_on(before, chem.deps@, places, num_reps, k as int) == Some(demands@),
                passed_on(before, chem.deps@, places, num_reps, chem.deps@.len() as int) is None
                    ==> ore_for(r, idx_to_label@, places, f as int, o as int, fuel_demand) is None,
            decreases chem.deps@.len() - k,
        {
            let edge: usize = chem.deps[k].0;
            let weight: u32 = chem.deps[k].1;
            proof {
                assert(r.deps[idx_to_label@[i as int] as int][k as int].0 < n);
                lemma_passed_on_fails(
                    before,
                    chem.deps@,
                    places,
                    num_reps,
                    k as int + 1,
                    chem.deps@.len() as int,
                );
            }
            let j: usize = label_to_idx[edge];
            assert(num_reps * weight >= 0) by (nonlinear_arith)
                requires
                    num_reps >= 0,
                    weight >= 0,
            ;
            let more: u64 = match num_reps.checked_mul(weight as u64) {
                Some(product) => match demands[j].checked_add(product) {
                    Some(sum) => sum,
                    None => {
                        return None;
                    },
                },
                None => {
                    return None;
                },
            };
            demands.set(j, more);
            k = k + 1;
        }
        i = i + 1;
    }
    // What is needed to make fuel, but does not reduce to ore, must be nothing.
    let mut t: usize = ore_at + 1;
    while t < n
        invariant
            ore_at < t <= n == demands@.len(),
            r == graph@,
            order == idx_to_label@,
            places == label_to_idx@,
            f < places.len(),
            o < places.len(),
            fuel_at == places[f as int],
            ore_at == places[o as int],
            start == Seq::new(order.len(), |i: int| 0u64).update(places[f as int] as int, fuel_demand),
            worked(r, order, places, start, fuel_at as int, ore_at as int) == Some(demands@),
            forall|x: int| ore_at < x < t ==> #[trigger] demands@[x] == 0,
        decreases n - t,
    {
        if demands[t] != 0 {
            return None;
        }
        t = t + 1;
    }
    Some(demands[ore_at])
}

/// What asking for an amount of fuel comes to, where the graph holds fuel and
/// ore and its reactions go in no circle: the ore that the fuel needs in some
/// order of the chemicals.
pub open spec fn asked(r: Reactions, fuel_demand: u64, needed: Option<u64>) -> bool {
    exists|order: Seq<usize>, places: Seq<usize>|
        #![trigger placed_in(r, order, places)]
        {
            &&& placed_in(r, order, places)
            &&& needed == ore_for(
                r,
                order,
                places,
                index_of(r.labels, fuel()),
                index_of(r.labels, ore()),
                fuel_demand,
            )
        }
}

/// How much ore do `fuel_demand` units of fuel need? None where the graph
/// holds no fuel or no ore, where its reactions go in a circle, where fuel
/// needs a chemical that no reaction makes, or needs something that does not
/// reduce to ore, or where 64 bits do not hold the ore.
pub fn ore_needed(graph: &Graph, fuel_demand: u64) -> (needed: Option<u64>)
    requires
        graph.wf(),
    ensures
        if index_of(graph@.labels, fuel()) < graph@.labels.len() && index_of(graph@.labels, ore())
            < graph@.labels.len() && exists|rank: Seq<int>| is_ranking(graph@, rank) {
            asked(graph@, fuel_demand, needed)
        } else {
            needed is None
        },
{
    let n: usize = graph.len();
    let idx_to_label: Vec<usize> = match top_sort(graph) {
        Some(order) => order,
        None => {
            return None;
        },
    };
    proof {
        let rank = lemma_order_ranks(graph@, idx_to_label@);
    }
    let label_to_idx: Vec<usize> = reverse_mapping(&idx_to_label);
    let fuel_name: [u8; 4] = [70, 85, 69, 76];
    let ore_name: [u8; 3] = [79, 82, 69];
    assert(fuel_name@ =~= fuel());
    assert(ore_name@ =~= ore());
    let f: usize = match graph.find(fuel_name.as_slice()) {
        Some(f) => f,
        None => {
            return None;
        },
    };
    let o: usize = match graph.find(ore_name.as_slice()) {
        Some(o) => o,
        None => {
            return None;
        },
    };
    let needed: Option<u64> = ore_needed_in(graph, &idx_to_label, &label_to_idx, f, o, fuel_demand);
    assert(placed_in(graph@, idx_to_label@, label_to_idx@));
    needed
}

impl Graph {
    /// The number of the chemical with the name `label`, where there is one.
    pub fn find(&self, label: &[u8]) -> (node: Option<usize>)
        requires
            self.wf(),
        ensures
            match node {
                Some(v) => v < self@.labels.len() && v == index_of(self@.labels, label@),
                None => index_of(self@.labels, label@) == self@.labels.len(),
            },
    {
        lookup(&self.labels, label)
    }
}

/// The ore that is needed, or more than there can be where it is not known.
pub open spec fn at_most(needed: Option<u64>) -> u64 {
    match needed {
        Some(ore) => ore,
        None => u64::MAX,
    }
}

/// Whether the demands `a` are no more than the demands `b`, where `b` are
/// known.
pub open spec fn below(a: Option<Seq<u64>>, b: Option<Seq<u64>>) -> bool {
    b matches Some(more) ==> a matches Some(less) && less.len() == more.len() && forall|i: int|
        0 <= i < less.len() ==> #[trigger] less[i] <= more[i]
}

/// More units need no fewer batches.
proof fn lemma_ceiling_grows(x: int, y: int, d: int)
    requires
        0 <= x <= y,
        0 < d,
    ensures
        0 <= ceiling(x, d) <= ceiling(y, d),
{
    vstd::arithmetic::div_mod::lemma_fundamental_div_mod(x, d);
    vstd::arithmetic::div_mod::lemma_fundamental_div_mod(y, d);
    vstd::arithmetic::div_mod::lemma_mod_bound(x, d);
    vstd::arithmetic::div_mod::lemma_mod_bound(y, d);
    vstd::arithmetic::div_mod::lemma_div_is_ordered(x, y, d);
    vstd::arithmetic::div_mod::lemma_div_pos_is_pos(x, d);
    if x / d == y / d && x % d != 0 {
        assert(y % d != 0) by (nonlinear_arith)
            requires
                x == d * (x / d) + x % d,
                y == d * (y / d) + y % d,
                x / d == y / d,
                x <= y,
                0 < x % d,
        ;
    }
}

/// Fewer batches on lesser demands pass on lesser demands.
proof fn lemma_passed_on_grows(
    a: Seq<u64>,
    b: Seq<u64>,
    deps: Seq<(usize, u32)>,
    places: Seq<usize>,
    reps_a: u64,
    reps_b: u64,
    k: int,
)
    requires
        below(Some(a), Some(b)),
        reps_a <= reps_b,
        0 <= k <= deps.len(),
        forall|i: int| 0 <= i < deps.len() ==> (#[trigger] deps[i]).0 < places.len(),
        forall|v: int| 0 <= v < places.len() ==> (#[trigger] places[v]) < a.len(),
    ensures
        below(passed_on(a, deps, places, reps_a, k), passed_on(b, deps, places, reps_b, k)),
        passed_on(a, deps, places, reps_a, k) matches Some(d) ==> d.len() == a.len(),
        passed_on(b, deps, places, reps_b, k) matches Some(d) ==> d.len() == b.len(),
    decreases k,
{
    if k > 0 {
        lemma_passed_on_grows(a, b, deps, places, reps_a, reps_b, k - 1);
        let weight = deps[k - 1].1;
        assert(deps[k - 1].0 < places.len());
        assert(places[deps[k - 1].0 as int] < a.len());
        assert(0 <= reps_a * weight <= reps_b * weight) by (nonlinear_arith)
            requires
                0 <= reps_a <= reps_b,
                0 <= weight,
        ;
    }
}

/// Lesser demands at the start are lesser demands in the end.
proof fn lemma_worked_grows(
    r: Reactions,
    order: Seq<usize>,
    places: Seq<usize>,
    a: Seq<u64>,
    b: Seq<u64>,
    from: int,
    to: int,
)
    requires
        sound(r),
        is_order(r, order),
        places.len() == order.len() == a.len(),
        forall|v: int| 0 <= v < places.len() ==> (#[trigger] places[v]) < a.len(),
        below(Some(a), Some(b)),
        0 <= from,
        to <= order.len(),
    ensures
        below(worked(r, order, places, a, from, to), worked(r, order, places, b, from, to)),
        worked(r, order, places, a, from, to) matches Some(d) ==> d.len() == a.len(),
        worked(r, order, places, b, from, to) matches Some(d) ==> d.len() == b.len(),
    decreases to - from,
{
    if to > from {
        lemma_worked_grows(r, order, places, a, b, from, to - 1);
        let chem = order[to - 1] as int;
        match (
            worked(r, order, places, a, from, to - 1),
            worked(r, order, places, b, from, to - 1),
        ) {
            (Some(da), Some(db)) => {
                if r.amounts[chem] != 0 {
                    let amount = r.amounts[chem] as int;
                    lemma_ceiling_grows(da[to - 1] as int, db[to - 1] as int, amount);
                    lemma_ceiling_bound(da[to - 1] as int, amount);
                    lemma_ceiling_bound(db[to - 1] as int, amount);
                    assert forall|i: int| 0 <= i < r.deps[chem].len() implies (
                    #[trigger] r.deps[chem][i]).0 < places.len() by {}
                    lemma_passed_on_grows(
                        da,
                        db,
                        r.deps[chem],
                        places,
                        ceiling(da[to - 1] as int, amount) as u64,
                        ceiling(db[to - 1] as int, amount) as u64,
                        r.deps[chem].len() as int,
                    );
                }
            },
            (None, Some(db)) => {},
            (Some(da), None) => {
                if r.amounts[chem] != 0 {
                    assert forall|i: int| 0 <= i < r.deps[chem].len() implies (
                    #[trigger] r.deps[chem][i]).0 < places.len() by {}
                    lemma_passed_on_len(
                        da,
                        r.deps[chem],
                        places,
                        ceiling(da[to - 1] as int, r.amounts[chem] as int) as u64,
                        r.deps[chem].len() as int,
                    );
                }
            },
            (None, None) => {},
        }
    }
}

/// Passing demands on leaves as many demands as there were.
proof fn lemma_passed_on_len(
    a: Seq<u64>,
    deps: Seq<(usize, u32)>,
    places: Seq<usize>,
    reps: u64,
    k: int,
)
    requires
        0 <= k <= deps.len(),
        forall|i: int| 0 <= i < deps.len() ==> (#[trigger] deps[i]).0 < places.len(),
        forall|v: int| 0 <= v < places.len() ==> (#[trigger] places[v]) < a.len(),
    ensures
        passed_on(a, deps, places, reps, k) matches Some(d) ==> d.len() == a.len(),
    decreases k,
{
    if k > 0 {
        lemma_passed_on_len(a, deps, places, reps, k - 1);
    }
}

/// No more batches are needed than units.
proof fn lemma_ceiling_bound(x: int, d: int)
    requires
        0 <= x,
        0 < d,
    ensures
        0 <= ceiling(x, d) <= x,
{
    vstd::arithmetic::div_mod::lemma_fundamental_div_mod(x, d);
    vstd::arithmetic::div_mod::lemma_mod_bound(x, d);
    vstd::arithmetic::div_mod::lemma_div_pos_is_pos(x, d);
    assert(x / d <= x && (x % d != 0 ==> x / d + 1 <= x)) by (nonlinear_arith)
        requires
            x == d * (x / d) + x % d,
            0 <= x % d < d,
            0 <= x / d,
            0 < d,
    ;
}

/// More fuel needs no less ore, in any one order.
pub proof fn lemma_ore_grows(
    r: Reactions,
    order: Seq<usize>,
    places: Seq<usize>,
    f: int,
    o: int,
    less: u64,
    more: u64,
)
    requires
        sound(r),
        placed_in(r, order, places),
        0 <= f < order.len(),
        0 <= o < order.len(),
        less <= more,
    ensures
        at_most(ore_for(r, order, places, f, o, less)) <= at_most(
            ore_for(r, order, places, f, o, more),
        ),
{
    let n = order.len();
    lemma_order_covers(r, order);
    assert forall|v: int| 0 <= v < n implies (#[trigger] places[v]) < n by {
        assert(order.contains(v as usize));
        let i = choose|i: int| 0 <= i < order.len() && order[i] == v as usize;
        assert(places[order[i] as int] == i);
    }
    let zero = Seq::new(n, |i: int| 0u64);
    let a = zero.update(places[f] as int, less);
    let b = zero.update(places[f] as int, more);
    if places[f] <= places[o] {
        lemma_worked_grows(r, order, places, a, b, places[f] as int, places[o] as int);
    }
}

/// The bound below which the amount of fuel is searched: 2 to the 40th.
pub const FUEL_BOUND: u64 = 0x100_0000_0000;

/// What the search for the fuel that `ore_available` units of ore make comes
/// to, in some order of the chemicals: an amount below the bound that needs no
/// more ore than there is, and either exactly that much, or one more would need
/// more than there is; none where no fuel at all needs more ore than there is.
pub open spec fn searched(r: Reactions, ore_available: u64, made: Option<u64>) -> bool {
    exists|order: Seq<usize>, places: Seq<usize>|
        #![trigger placed_in(r, order, places)]
        {
            let f = index_of(r.labels, fuel());
            let o = index_of(r.labels, ore());
            &&& placed_in(r, order, places)
            &&& match made {
                Some(amount) => {
                    &&& amount < FUEL_BOUND
                    &&& at_most(ore_for(r, order, places, f, o, amount)) <= ore_available
                    &&& at_most(ore_for(r, order, places, f, o, amount)) == ore_available || amount
                        + 1 == FUEL_BOUND || at_most(
                        ore_for(r, order, places, f, o, (amount + 1) as u64),
                    ) > ore_available
                },
                None => at_most(ore_for(r, order, places, f, o, 0)) > ore_available,
            }
        }
}

/// What is the greatest amount of fuel that `ore_available` units of ore make,
/// below the bound? The amount is searched among those whose need of ore is
/// known; an amount that needs exactly the ore that there is ends the search.
/// None where the graph holds no fuel or no ore, where its reactions go in a
/// circle, or where no fuel at all needs more ore than there is.
pub fn fuel_produced(graph: &Graph, ore_available: u64) -> (made: Option<u64>)
    requires
        graph.wf(),
    ensures
        if index_of(graph@.labels, fuel()) < graph@.labels.len() && index_of(graph@.labels, ore())
            < graph@.labels.len() && exists|rank: Seq<int>| is_ranking(graph@, rank) {
            searched(graph@, ore_available, made)
        } else {
            made is None
        },
{
    let n: usize = graph.len();
    let idx_to_label: Vec<usize> = match top_sort(graph) {
        Some(order) => order,
        None => {
            return None;
        },
    };
    proof {
        let rank = lemma_order_ranks(graph@, idx_to_label@);
    }
    let label_to_idx: Vec<usize> = reverse_mapping(&idx_to_label);
    let fuel_name: [u8; 4] = [70, 85, 69, 76];
    let ore_name: [u8; 3] = [79, 82, 69];
    assert(fuel_name@ =~= fuel());
    assert(ore_name@ =~= ore());
    let f: usize = match graph.find(fuel_name.as_slice()) {
        Some(f) => f,
        None => {
            return None;
        },
    };
    let o: usize = match graph.find(ore_name.as_slice()) {
        Some(o) => o,
        None => {
            return None;
        },
    };
    let ghost r = graph@;
    let ghost order = idx_to_label@;
    let ghost places = label_to_idx@;
    assert(placed_in(r, order, places));
    let fuel_upper_bound: u64 = FUEL_BOUND;
    let key = |amount: u64| -> (needed: u64)
        ensures
            needed == at_most(
                ore_for(graph@, idx_to_label@, label_to_idx@, f as int, o as int, amount),
            ),
        {
            match ore_needed_in(graph, &idx_to_label, &label_to_idx, f, o, amount) {
                Some(needed) => needed,
                None => u64::MAX,
            }
        };
    proof {
        assert forall|x: u64, y: u64, a: u64, b: u64|
            0 <= x <= y < fuel_upper_bound && #[trigger] call_ensures(key, (x,), a)
                && #[trigger] call_ensures(key, (y,), b) implies a <= b by {
            lemma_ore_grows(r, order, places, f as int, o as int, x, y);
        }
    }
    let ghost need = |amount: u64| at_most(ore_for(r, order, places, f as int, o as int, amount));
    let found: Result<u64, u64> = binary_search(0, fuel_upper_bound, ore_available, key);
    match found {
        Ok(amount) => {
            assert(need(amount) == ore_available);
            Some(amount)
        },
        Err(amount) => {
            if amount == 0 {
                proof {
                    let w = choose|w: u64| #[trigger]
                        call_ensures(key, (amount,), w) && ore_available < w;
                    assert(w == need(amount));
                }
                None
            } else {
                proof {
                    let last: u64 = (amount - 1) as u64;
                    let v = choose|v: u64| #[trigger]
                        call_ensures(key, (last,), v) && v < ore_available;
                    assert(v == need(last));
                    if amount < fuel_upper_bound {
                        let w = choose|w: u64| #[trigger]
                            call_ensures(key, (amount,), w) && ore_available < w;
                        assert(w == need(amount));
                    }
                }
                Some(amount - 1)
            }
        },
    }
}

} // verus!
