//! Common divisors and common multiples of integers.

use vstd::prelude::*;

verus! {

/// The magnitude of `x`.
pub open spec fn magnitude(x: int) -> int {
    if x < 0 {
        -x
    } else {
        x
    }
}

/// Whether `n` is a multiple of `d`.
pub open spec fn divides(d: int, n: int) -> bool {
    n % d == 0
}

/// Whether `g` is the greatest common divisor of `a` and `b`: 0 where both are
/// 0, and else the greatest of the positive integers that divide both.
pub open spec fn is_gcd(g: int, a: int, b: int) -> bool {
    if a == 0 && b == 0 {
        g == 0
    } else {
        &&& g > 0
        &&& divides(g, a)
        &&& divides(g, b)
        &&& forall|d: int| d > 0 && #[trigger] divides(d, a) && divides(d, b) ==> d <= g
    }
}

/// The greatest common divisor of `a` and `b`.
pub open spec fn gcd(a: int, b: int) -> int {
    choose|g: int| is_gcd(g, a, b)
}

/// Two integers have one greatest common divisor at most.
pub proof fn lemma_gcd_unique(g: int, a: int, b: int)
    requires
        is_gcd(g, a, b),
    ensures
        gcd(a, b) == g,
{
    let h = gcd(a, b);
    assert(is_gcd(h, a, b));
    if a != 0 || b != 0 {
        assert(divides(g, a) && divides(h, a));
    }
}

/// The greatest common divisor of two integers, of which one is not 0, lies
/// between 1 and the greater of their magnitudes, and divides both.
pub proof fn lemma_gcd_bounds(g: int, a: int, b: int)
    requires
        is_gcd(g, a, b),
        a != 0 || b != 0,
    ensures
        1 <= g,
        a != 0 ==> g <= magnitude(a),
        b != 0 ==> g <= magnitude(b),
        a % g == 0,
        b % g == 0,
{
    if a != 0 {
        lemma_divisor_bound(g, a);
    }
    if b != 0 {
        lemma_divisor_bound(g, b);
    }
}

/// A positive divisor of an integer other than 0 is no greater than its
/// magnitude.
proof fn lemma_divisor_bound(d: int, n: int)
    requires
        d > 0,
        n != 0,
        n % d == 0,
    ensures
        d <= magnitude(n),
{
    let q = n / d;
    assert(n == d * q) by {
        vstd::arithmetic::div_mod::lemma_fundamental_div_mod(n, d);
    }
    assert(q != 0) by (nonlinear_arith)
        requires
            n == d * q,
            n != 0,
    ;
    if q > 0 {
        assert(d * q >= d) by (nonlinear_arith)
            requires
                d > 0,
                q >= 1,
        ;
    } else {
        assert(d * q <= -d) by (nonlinear_arith)
            requires
                d > 0,
                q <= -1,
        ;
    }
}

/// The product of `a` and the part of `b` that they do not share: their least
/// common multiple.
pub open spec fn lcm(a: int, b: int) -> int {
    a * (b / gcd(a, b))
}

/// The greatest common divisor of two integers, of which neither is the least
/// of its type.
///
/// Calls `num::integer::gcd`, of which the contract states what its
/// documentation says: the result is the greatest common divisor of the two, and
/// is not negative. The least value is left out because the function takes
/// magnitudes.
#[verifier::external_body]
pub(crate) fn greatest_common_divisor(a: i64, b: i64) -> (g: i64)
    requires
        a > i64::MIN,
        b > i64::MIN,
    ensures
        is_gcd(g as int, a as int, b as int),
{
    num::integer::gcd(a, b)
}

/// The least common multiple of two positive integers, where 64 bits hold it.
///
/// Calls `num::integer::lcm`, which multiplies the first by the quotient of the
/// second and their greatest common divisor: the contract states that product.
/// The product is required to fit, because the function multiplies unchecked.
#[verifier::external_body]
fn least_common_multiple(a: i64, b: i64) -> (m: i64)
    requires
        a > 0,
        b > 0,
        lcm(a as int, b as int) <= i64::MAX,
    ensures
        m == lcm(a as int, b as int),
{
    num::integer::lcm(a, b)
}

/// The least common multiple of two positive integers; none where 64 bits do
/// not hold it.
pub fn checked_lcm(a: i64, b: i64) -> (m: Option<i64>)
    requires
        a > 0,
        b > 0,
    ensures
        lcm(a as int, b as int) >= 1,
        m == if lcm(a as int, b as int) <= i64::MAX {
            Some(lcm(a as int, b as int) as i64)
        } else {
            None
        },
{
    let g: i64 = greatest_common_divisor(a, b);
    proof {
        lemma_gcd_unique(g as int, a as int, b as int);
        lemma_gcd_bounds(g as int, a as int, b as int);
    }
    let rest: i64 = b / g;
    assert(rest >= 1) by (nonlinear_arith)
        requires
            rest == b / g,
            1 <= g <= b,
    ;
    assert(a * rest >= 1) by (nonlinear_arith)
        requires
            a >= 1,
            rest >= 1,
    ;
    match a.checked_mul(rest) {
        Some(_) => Some(least_common_multiple(a, b)),
        None => None,
    }
}

} // verus!
