//! A diagnostic program: it takes the number of the system to test as its one
//! input, and outputs what it finds.

use vstd::prelude::*;
use crate::builder::{fresh_output, CPUBuilder};
use crate::device::{Exhausted, InputModel};
use crate::fault::Fault;
use crate::machine::{load, run_for};

verus! {

/// What a program outputs when it is run to its end on the single input
/// `input`.
pub open spec fn outputs_of(mem: Seq<i64>, input: i64) -> Result<Seq<i64>, Fault> {
    let start = load(
        mem,
        InputModel { pending: seq![input], at_end: Exhausted::Fail },
        fresh_output(),
    );
    match run_for(start, u64::MAX as nat).1 {
        Ok(false) => Ok(run_for(start, u64::MAX as nat).0.output.sent),
        Ok(true) => Err(Fault::StepLimit),
        Err(fault) => Err(fault),
    }
}

/// Runs the program on the single input `input` and returns its output.
pub fn run_with(mem: Vec<i64>, input: i64) -> (r: Result<Vec<i64>, Fault>)
    ensures
        match r {
            Ok(values) => outputs_of(mem@, input) == Ok::<Seq<i64>, Fault>(values@),
            Err(fault) => outputs_of(mem@, input) == Err::<Seq<i64>, Fault>(fault),
        },
{
    let mut inputs: Vec<i64> = Vec::new();
    inputs.push(input);
    assert(inputs@ =~= seq![input]);
    let builder: CPUBuilder<(), ()> = CPUBuilder::new(mem);
    let mut cpu = builder.input_iter(inputs).output_vec().finish();
    match cpu.run_internal() {
        Ok(false) => Ok(cpu.into_output().into_vec()),
        Ok(true) => Err(Fault::StepLimit),
        Err(fault) => Err(fault),
    }
}

/// Whether a test reports a deviation.
pub open spec fn deviates(value: i64) -> bool {
    value != 0
}

/// Tests system 1, the air conditioner, and returns what is not zero of the
/// output: the deviations that the tests report, and the diagnostic code.
pub fn part1(mem: Vec<i64>) -> (r: Result<Vec<i64>, Fault>)
    ensures
        match r {
            Ok(values) => outputs_of(mem@, 1) matches Ok(all) && values@ == all.filter(
                |value: i64| deviates(value),
            ),
            Err(fault) => outputs_of(mem@, 1) == Err::<Seq<i64>, Fault>(fault),
        },
{
    let all: Vec<i64> = run_with(mem, 1)?;
    let mut values: Vec<i64> = Vec::new();
    let mut k: usize = 0;
    assert(all@.take(0) =~= Seq::<i64>::empty());
    while k < all.len()
        invariant
            k <= all@.len(),
            values@ == all@.take(k as int).filter(|value: i64| deviates(value)),
        decreases all@.len() - k,
    {
        let value: i64 = all[k];
        proof {
            let shorter = all@.take(k as int);
            assert(all@.take(k + 1) =~= shorter.push(value));
            assert(shorter.push(value).drop_last() =~= shorter);
            reveal(Seq::filter);
        }
        if value != 0 {
            values.push(value);
        }
        k = k + 1;
    }
    assert(all@.take(all@.len() as int) =~= all@);
    Ok(values)
}

/// Tests system 5, the thermal radiators, and returns the output: the
/// diagnostic code.
pub fn part2(mem: Vec<i64>) -> (r: Result<Vec<i64>, Fault>)
    ensures
        match r {
            Ok(values) => outputs_of(mem@, 5) == Ok::<Seq<i64>, Fault>(values@),
            Err(fault) => outputs_of(mem@, 5) == Err::<Seq<i64>, Fault>(fault),
        },
{
    run_with(mem, 5)
}

} // verus!
