//! The conditions that stop a run with a failure.

use vstd::prelude::*;

verus! {

/// Why the machine could not execute an instruction.
///
/// A fault is final: the engine never retries, and the instruction that raised it
/// leaves the machine as it found it.
#[derive(Clone, Copy, Debug, PartialEq, Eq, Structural)]
pub enum Fault {
    /// The low two decimal digits of the instruction name no operation.
    UnknownOperation,
    /// The mode digit of an operand is none of 0, 1 and 2.
    InvalidMode,
    /// An operand that is written to was given in immediate mode.
    ImmediateWrite,
    /// An address is negative, or lies beyond what the machine can index.
    InvalidAddress,
    /// The program asked for input and the input device had none to give.
    NoInput,
    /// The program was still running when the engine's step budget ran out.
    StepLimit,
}

} // verus!
