//! The fuel that a module of a given mass needs, and the fuel that this fuel
//! needs in turn.

use vstd::prelude::*;
use crate::program::{each_line, lines, lines_of, parse_u32, unsigned_value};

verus! {

/// The fuel that the mass `mass` needs: a third of it, rounded down, less 2,
/// and never less than nothing. A mass beyond `i32::MAX` needs none.
pub open spec fn fuel(mass: int) -> int {
    if mass > i32::MAX || mass / 3 - 2 < 0 {
        0
    } else {
        mass / 3 - 2
    }
}

/// The fuel that the mass `mass` needs, and the fuel that this fuel needs, and
/// so on until no more is needed.
pub open spec fn fuel_with_its_own(mass: int) -> int
    decreases mass,
{
    if fuel(mass) <= 0 || mass < 0 {
        0
    } else {
        fuel(mass) + fuel_with_its_own(fuel(mass))
    }
}

/// All the fuel of a mass weighs less than the mass.
pub proof fn lemma_fuel_with_its_own(mass: int)
    requires
        0 <= mass,
    ensures
        0 <= fuel_with_its_own(mass) <= mass,
        0 <= 2 * fuel_with_its_own(mass) <= mass,
    decreases mass,
{
    if fuel(mass) > 0 {
        lemma_fuel_with_its_own(fuel(mass));
    }
}

/// The fuel that a module of mass `mass` needs.
pub fn fuel_required(mass: u32) -> (needed: u32)
    ensures
        needed == fuel(mass as int),
{
    if mass > i32::MAX as u32 {
        return 0;
    }
    let fuel: i32 = mass as i32 / 3 - 2;
    if fuel < 0 {
        0
    } else {
        fuel as u32
    }
}

/// The fuel that a module of mass `mass` needs, with the fuel for the fuel.
pub fn fuel_required_recursive(mass: u32) -> (needed: u32)
    ensures
        needed == fuel_with_its_own(mass as int),
{
    let mut rest: u32 = mass;
    let mut total: u32 = 0;
    let mut f: u32 = fuel_required(rest);
    while f != 0
        invariant
            f == fuel(rest as int),
            total + fuel_with_its_own(rest as int) == fuel_with_its_own(mass as int),
        decreases rest,
    {
        proof {
            lemma_fuel_with_its_own(mass as int);
            lemma_fuel_with_its_own(f as int);
        }
        total = total + f;
        rest = f;
        f = fuel_required(rest);
    }
    total
}

/// The fuel that a module of mass `mass` needs, with the fuel for the fuel,
/// added up from call to call.
pub fn _fuel_required_recursive(mass: u32) -> (needed: u32)
    ensures
        needed == fuel_with_its_own(mass as int),
{
    proof {
        lemma_fuel_with_its_own(mass as int);
    }
    helper(mass, 0)
}

/// What the mass `mass` needs in all, added to `acc`.
fn helper(mass: u32, acc: u32) -> (needed: u32)
    requires
        acc + fuel_with_its_own(mass as int) <= u32::MAX,
    ensures
        needed == acc + fuel_with_its_own(mass as int),
    decreases mass,
{
    let f: u32 = fuel_required(mass);
    if f == 0 {
        acc
    } else {
        proof {
            lemma_fuel_with_its_own(f as int);
        }
        helper(f, acc + f)
    }
}

/// The sum of `values`.
pub open spec fn sum(values: Seq<u32>) -> int
    decreases values.len(),
{
    if values.len() == 0 {
        0
    } else {
        sum(values.drop_last()) + values.last()
    }
}

/// The sum of what `fuel_required` gives for each of `masses`; none where 32
/// bits do not hold the sum.
pub fn total_fuel<F: Fn(u32) -> u32>(masses: &[u32], fuel_required: F) -> (total: Option<u32>)
    requires
        forall|mass: u32| call_requires(fuel_required, (mass,)),
    ensures
        exists|fuels: Seq<u32>|
            {
                &&& fuels.len() == masses@.len()
                &&& forall|i: int|
                    0 <= i < fuels.len() ==> call_ensures(
                        fuel_required,
                        (masses@[i],),
                        #[trigger] fuels[i],
                    )
                &&& total == if sum(fuels) <= u32::MAX {
                    Some(sum(fuels) as u32)
                } else {
                    None
                }
            },
{
    let ghost mut fuels: Seq<u32> = Seq::empty();
    let mut total: u64 = 0;
    let mut k: usize = 0;
    while k < masses.len()
        invariant
            k <= masses@.len(),
            forall|mass: u32| call_requires(fuel_required, (mass,)),
            fuels.len() == k,
            forall|i: int|
                0 <= i < k ==> call_ensures(fuel_required, (masses@[i],), #[trigger] fuels[i]),
            total == sum(fuels) || (total > u32::MAX && sum(fuels) > u32::MAX),
            total <= 2 * u32::MAX,
        decreases masses@.len() - k,
    {
        let needed: u32 = fuel_required(masses[k]);
        proof {
            let longer = fuels.push(needed);
            assert(longer.drop_last() =~= fuels);
            assert(sum(longer) == sum(fuels) + needed);
            lemma_sum(fuels);
            fuels = longer;
        }
        if total <= u32::MAX as u64 {
            total = total + needed as u64;
        }
        k = k + 1;
    }
    if total <= u32::MAX as u64 {
        Some(total as u32)
    } else {
        None
    }
}

/// A sum is not negative.
proof fn lemma_sum(values: Seq<u32>)
    ensures
        0 <= sum(values),
    decreases values.len(),
{
    if values.len() > 0 {
        lemma_sum(values.drop_last());
    }
}

/// The masses that `input` denotes, one on each line; none where a line
/// denotes no number of 32 bits.
pub open spec fn masses_of(input: Seq<u8>) -> Option<Seq<u32>> {
    let all = lines_of(input);
    if forall|k: int| 0 <= k < all.len() ==> unsigned_value(#[trigger] all[k]) is Some {
        Some(Seq::new(all.len(), |k: int| unsigned_value(all[k]).unwrap()))
    } else {
        None
    }
}

/// Reads the masses of the modules, one on each line.
pub fn read_masses(input: &[u8]) -> (r: Option<Vec<u32>>)
    ensures
        match r {
            Some(masses) => masses_of(input@) == Some(masses@),
            None => masses_of(input@) is None,
        },
{
    let all: Vec<&[u8]> = lines(input);
    let mut xs: Vec<u32> = Vec::new();
    let mut k: usize = 0;
    while k < all.len()
        invariant
            k <= all@.len(),
            each_line(all@) == lines_of(input@),
            xs@.len() == k,
            forall|i: int|
                0 <= i < k ==> unsigned_value(lines_of(input@)[i]) == Some(#[trigger] xs@[i]),
        decreases all@.len() - k,
    {
        let line: &[u8] = all[k];
        assert(each_line(all@)[k as int] == line@);
        assert(line@.subrange(0, line@.len() as int) =~= line@);
        match parse_u32(line, 0, line.len()) {
            Some(mass) => {
                xs.push(mass);
            },
            None => {
                assert(unsigned_value(lines_of(input@)[k as int]) is None);
                return None;
            },
        }
        k = k + 1;
    }
    proof {
        let lines = lines_of(input@);
        assert forall|k: int| 0 <= k < lines.len() implies unsigned_value(
            #[trigger] lines[k],
        ) is Some by {
            assert(unsigned_value(lines[k]) == Some(xs@[k]));
        }
        assert(xs@ =~= Seq::new(lines.len(), |k: int| unsigned_value(lines[k]).unwrap()));
    }
    Some(xs)
}

} // verus!
