//! Passwords that are numbers: the digits of a valid one never decrease from
//! left to right, and two adjacent digits of it are the same.

use vstd::prelude::*;
use crate::program::{find, parse_u32, position, unsigned_value, MINUS};

verus! {

/// The decimal digits of `n` from the last to the first.
pub open spec fn digits(n: nat) -> Seq<u8>
    decreases n,
{
    if n < 10 {
        seq![n as u8]
    } else {
        seq![(n % 10) as u8] + digits(n / 10)
    }
}

/// The digits of the password `n` as the rules see them, from the last to the
/// first: a 0 stands before the first digit.
pub open spec fn padded(n: nat) -> Seq<u8> {
    digits(n).push(0u8)
}

/// Whether the digits, read from the last to the first, never grow: from left
/// to right they never decrease.
pub open spec fn ordered(w: Seq<u8>) -> bool {
    forall|i: int| 0 <= i < w.len() - 1 ==> w[i] >= #[trigger] w[i + 1]
}

/// Whether the digits at `i` and behind it are the same.
pub open spec fn pair_at(w: Seq<u8>, i: int) -> bool {
    0 <= i < w.len() - 1 && w[i] == w[i + 1]
}

/// Whether the digits at `i` and behind it are the same, and no digit next to
/// the two is the same as they.
pub open spec fn lone_pair_at(w: Seq<u8>, i: int) -> bool {
    &&& pair_at(w, i)
    &&& i == 0 || w[i - 1] != w[i]
    &&& i + 2 >= w.len() || w[i + 2] != w[i]
}

/// Whether `n` is a password: its digits never decrease, and two adjacent ones
/// are the same.
pub open spec fn valid(n: nat) -> bool {
    ordered(padded(n)) && exists|i: int| pair_at(padded(n), i)
}

/// Whether `n` is a password by the stricter rule: its digits never decrease,
/// and two adjacent ones are the same and are not part of a larger group of the
/// same digit.
pub open spec fn valid_2(n: nat) -> bool {
    ordered(padded(n)) && exists|i: int| lone_pair_at(padded(n), i)
}

/// How many numbers from `lo` up to `hi`, which is not counted, are passwords
/// by the first rule, or where `strict` by the second.
pub open spec fn count(lo: int, hi: int, strict: bool) -> nat
    decreases hi - lo,
{
    if lo >= hi || hi <= 0 {
        0
    } else {
        count(lo, hi - 1, strict) + if (if strict {
            valid_2((hi - 1) as nat)
        } else {
            valid((hi - 1) as nat)
        }) {
            1nat
        } else {
            0nat
        }
    }
}

/// The greatest number that is left of a number of 32 bits when its last `k`
/// digits are taken away.
pub open spec fn cap(k: int) -> int {
    if k <= 0 {
        4294967295
    } else if k == 1 {
        429496729
    } else if k == 2 {
        42949672
    } else if k == 3 {
        4294967
    } else if k == 4 {
        429496
    } else if k == 5 {
        42949
    } else if k == 6 {
        4294
    } else if k == 7 {
        429
    } else if k == 8 {
        42
    } else {
        4
    }
}

/// The digits of `password` as the rules see them.
fn padded_digits(password: u32) -> (w: Vec<u8>)
    ensures
        w@ == padded(password as nat),
        2 <= w@.len() <= 11,
{
    let mut w: Vec<u8> = Vec::new();
    let mut rest: u32 = password;
    assert(w@ + digits(rest as nat) =~= digits(password as nat));
    while rest >= 10
        invariant
            digits(password as nat) == w@ + digits(rest as nat),
            w@.len() <= 9,
            rest <= cap(w@.len() as int),
        decreases rest,
    {
        proof {
            let longer = w@.push((rest % 10) as u8);
            assert(w@ + (seq![(rest % 10) as u8] + digits((rest / 10) as nat)) =~= longer + digits(
                (rest / 10) as nat,
            ));
        }
        w.push((rest % 10) as u8);
        rest = rest / 10;
    }
    proof {
        assert(w@ + seq![rest as u8] =~= w@.push(rest as u8));
    }
    w.push(rest as u8);
    w.push(0);
    w
}

/// Checks that the digits of the number never decrease, and that two adjacent
/// ones are the same (as in 123345).
pub fn is_valid(password: u32) -> (ok: bool)
    ensures
        ok == valid(password as nat),
{
    let w: Vec<u8> = padded_digits(password);
    let mut has_dup: bool = false;
    let mut i: usize = 0;
    while i + 1 < w.len()
        invariant
            i + 1 <= w@.len() <= 11,
            w@ == padded(password as nat),
            forall|k: int| 0 <= k < i ==> w@[k] >= #[trigger] w@[k + 1],
            has_dup == exists|k: int| 0 <= k < i && pair_at(w@, k),
        decreases w@.len() - i,
    {
        if w[i] < w[i + 1] {
            assert(!ordered(w@));
            return false;
        }
        if w[i] == w[i + 1] {
            assert(pair_at(w@, i as int));
            has_dup = true;
        }
        i = i + 1;
    }
    assert(ordered(w@));
    has_dup
}

/// Checks that the digits of the number never decrease, and that two adjacent
/// ones are the same and are no part of three or more that are the same (as in
/// 123345, and not in 133345).
pub fn is_valid_2(password: u32) -> (ok: bool)
    ensures
        ok == valid_2(password as nat),
{
    let w: Vec<u8> = padded_digits(password);
    let mut has_dup: bool = false;
    let mut i: usize = 0;
    while i + 1 < w.len()
        invariant
            i + 1 <= w@.len() <= 11,
            w@ == padded(password as nat),
            forall|k: int| 0 <= k < i ==> w@[k] >= #[trigger] w@[k + 1],
            has_dup == exists|k: int| 0 <= k < i && lone_pair_at(w@, k),
        decreases w@.len() - i,
    {
        if w[i] < w[i + 1] {
            assert(!ordered(w@));
            return false;
        }
        if w[i] == w[i + 1] && (i == 0 || w[i - 1] != w[i]) && (i + 2 >= w.len() || w[i + 2]
            != w[i]) {
            assert(lone_pair_at(w@, i as int));
            has_dup = true;
        }
        i = i + 1;
    }
    assert(ordered(w@));
    has_dup
}

/// How many numbers from `lo` up to `hi`, which is not counted, are passwords?
pub fn part1(lo: u32, hi: u32) -> (n: usize)
    ensures
        n == count(lo as int, hi as int, false),
{
    let mut n: usize = 0;
    let mut p: u32 = lo;
    while p < hi
        invariant
            lo <= p <= hi || (hi < lo && p == lo),
            n == count(lo as int, p as int, false),
            n <= p - lo,
        decreases hi - p,
    {
        if is_valid(p) {
            n = n + 1;
        }
        p = p + 1;
    }
    n
}

/// How many numbers from `lo` up to `hi`, which is not counted, are passwords
/// by the stricter rule?
pub fn part2(lo: u32, hi: u32) -> (n: usize)
    ensures
        n == count(lo as int, hi as int, true),
{
    let mut n: usize = 0;
    let mut p: u32 = lo;
    while p < hi
        invariant
            lo <= p <= hi || (hi < lo && p == lo),
            n == count(lo as int, p as int, true),
            n <= p - lo,
        decreases hi - p,
    {
        if is_valid_2(p) {
            n = n + 1;
        }
        p = p + 1;
    }
    n
}

/// The two bounds that `line` denotes: two numbers with a `-` between them.
/// What follows a second `-` is not looked at.
pub open spec fn bounds_of(line: Seq<u8>) -> Option<(u32, u32)> {
    let dash = position(line, MINUS);
    let rest = line.skip(dash + 1);
    if dash >= line.len() {
        None
    } else {
        match (unsigned_value(line.take(dash)), unsigned_value(rest.take(position(rest, MINUS)))) {
            (Some(lo), Some(hi)) => Some((lo, hi)),
            _ => None,
        }
    }
}

/// Reads the two bounds of a range, as in `172851-675869`.
pub fn read_input(line: &[u8]) -> (r: Option<(u32, u32)>)
    ensures
        r == bounds_of(line@),
{
    assert(line@.skip(0) =~= line@);
    let dash: usize = find(line, 0, MINUS);
    if dash >= line.len() {
        return None;
    }
    let end: usize = find(line, dash + 1, MINUS);
    assert(line@.take(dash as int) =~= line@.subrange(0, dash as int));
    assert(line@.skip(dash + 1).take(end - dash - 1) =~= line@.subrange(dash + 1, end as int));
    match (parse_u32(line, 0, dash), parse_u32(line, dash + 1, end)) {
        (Some(lo), Some(hi)) => Some((lo, hi)),
        _ => None,
    }
}

} // verus!
