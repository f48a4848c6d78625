//! A program that takes two arguments, noun and verb, and leaves its result at
//! address 0.

use vstd::prelude::*;
use vstd::slice::slice_to_vec;
use crate::builder::{fresh_output, no_input, with_args, CPUBuilder};
use crate::cpu::outcome;
use crate::device::{QueueInput, VecOutput};
use crate::fault::Fault;
use crate::machine::load;

verus! {

/// The result that the search looks for.
pub const TARGET: i64 = 19690720;

/// Nouns and verbs are searched below this bound.
pub const BOUND: i64 = 100;

/// What the program leaves at address 0 when it is run on `noun` and `verb`.
pub open spec fn result_of(mem: Seq<i64>, noun: i64, verb: i64) -> Result<i64, Fault> {
    outcome(
        load(with_args(mem, Some((noun, verb))), no_input(), fresh_output()),
        u64::MAX as nat,
    )
}

/// The first pair from `(noun, verb)` on, nouns first, on which the program
/// gives the target; none where no pair below the bound does. The search ends
/// with the fault of the first pair on which the program faults.
pub open spec fn search(mem: Seq<i64>, noun: int, verb: int) -> Result<Option<(i64, i64)>, Fault>
    decreases BOUND - noun, BOUND - verb,
{
    if noun < 0 || noun >= BOUND || verb < 0 {
        Ok(None)
    } else if verb >= BOUND {
        search(mem, noun + 1, 0)
    } else {
        match result_of(mem, noun as i64, verb as i64) {
            Err(fault) => Err(fault),
            Ok(result) => if result == TARGET {
                Ok(Some((noun as i64, verb as i64)))
            } else {
                search(mem, noun, verb + 1)
            },
        }
    }
}

/// Runs the program in `mem` on `noun` and `verb`.
pub fn run_on(mem: &Vec<i64>, noun: i64, verb: i64) -> (r: Result<i64, Fault>)
    ensures
        r == result_of(mem@, noun, verb),
{
    let builder: CPUBuilder<QueueInput, VecOutput> = CPUBuilder::new(slice_to_vec(mem.as_slice()));
    builder.args(noun, verb).default_io().run()
}

/// Runs the program on the noun 12 and the verb 2.
pub fn part1(mem: Vec<i64>) -> (r: Result<i64, Fault>)
    ensures
        r == result_of(mem@, 12, 2),
{
    run_on(&mem, 12, 2)
}

/// Searches the noun and the verb on which the program gives the target.
pub fn part2(mem: Vec<i64>) -> (r: Result<Option<(i64, i64)>, Fault>)
    ensures
        r == search(mem@, 0, 0),
{
    let mut noun: i64 = 0;
    while noun < BOUND
        invariant
            0 <= noun <= BOUND,
            search(mem@, 0, 0) == search(mem@, noun as int, 0),
        decreases BOUND - noun,
    {
        let mut verb: i64 = 0;
        while verb < BOUND
            invariant
                0 <= noun < BOUND,
                0 <= verb <= BOUND,
                search(mem@, 0, 0) == search(mem@, noun as int, verb as int),
            decreases BOUND - verb,
        {
            if run_on(&mem, noun, verb)? == TARGET {
                return Ok(Some((noun, verb)));
            }
            verb = verb + 1;
        }
        noun = noun + 1;
    }
    Ok(None)
}

/// A pair that the search gives is within the bound and gives the target, and
/// no pair before it does; where the search gives none, no pair does.
pub proof fn lemma_search(mem: Seq<i64>, noun: int, verb: int)
    requires
        0 <= noun,
        0 <= verb <= BOUND,
    ensures
        match search(mem, noun, verb) {
            Ok(Some((n, v))) => {
                &&& noun <= n < BOUND
                &&& 0 <= v < BOUND
                &&& n == noun ==> verb <= v
                &&& result_of(mem, n, v) == Ok::<i64, Fault>(TARGET)
            },
            Ok(None) => forall|n: int, v: int|
                noun <= n < BOUND && 0 <= v < BOUND && (n == noun ==> verb <= v)
                    ==> #[trigger] result_of(mem, n as i64, v as i64) != Ok::<i64, Fault>(TARGET),
            Err(fault) => exists|n: int, v: int|
                noun <= n < BOUND && 0 <= v < BOUND && #[trigger] result_of(mem, n as i64, v as i64)
                    == Err::<i64, Fault>(fault),
        },
    decreases BOUND - noun, BOUND - verb,
{
    if noun >= BOUND {
    } else if verb >= BOUND {
        lemma_search(mem, noun + 1, 0);
    } else {
        match result_of(mem, noun as i64, verb as i64) {
            Err(fault) => {},
            Ok(result) => {
                if result != TARGET {
                    lemma_search(mem, noun, verb + 1);
                }
            },
        }
    }
}

} // verus!
