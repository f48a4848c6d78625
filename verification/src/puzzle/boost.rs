//! A program that is run in one of two modes, which its one input selects.

use vstd::prelude::*;
use crate::fault::Fault;
use crate::puzzle::diagnostic::{outputs_of, run_with};

verus! {

/// Runs the program in test mode, and returns its output: the opcodes that the
/// computer gets wrong, then the keycode.
pub fn part1(mem: Vec<i64>) -> (r: Result<Vec<i64>, Fault>)
    ensures
        match r {
            Ok(values) => outputs_of(mem@, 1) == Ok::<Seq<i64>, Fault>(values@),
            Err(fault) => outputs_of(mem@, 1) == Err::<Seq<i64>, Fault>(fault),
        },
{
    run_with(mem, 1)
}

/// Runs the program in sensor boost mode, and returns its output: the
/// coordinates.
pub fn part2(mem: Vec<i64>) -> (r: Result<Vec<i64>, Fault>)
    ensures
        match r {
            Ok(values) => outputs_of(mem@, 2) == Ok::<Seq<i64>, Fault>(values@),
            Err(fault) => outputs_of(mem@, 2) == Err::<Seq<i64>, Fault>(fault),
        },
{
    run_with(mem, 2)
}

} // verus!
