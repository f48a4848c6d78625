//! The machine as the specifications see it: its state, what one instruction
//! does to it, and what a run of many instructions does.

use vstd::prelude::*;
use crate::device::{InputModel, OutputModel};
use crate::fault::Fault;
use crate::instruction::{decode, Decoded, Operation, ParamMode, ParamType};
use crate::memory::{read, store, writable};

verus! {

/// The state of an engine and of its two devices.
pub struct Snapshot {
    /// The memory, from address 0 up to its extent.
    pub mem: Seq<i64>,
    /// The address of the instruction that is executed next.
    pub pc: i64,
    /// The relative base.
    pub base: i64,
    /// The input device.
    pub input: InputModel,
    /// The output device.
    pub output: OutputModel,
}

/// The program `program`, loaded and about to start, with the two devices.
pub open spec fn load(program: Seq<i64>, input: InputModel, output: OutputModel) -> Snapshot {
    Snapshot { mem: program, pc: 0, base: 0, input, output }
}

/// The greatest address at which an instruction can start: it and its operands,
/// three at most, and the instruction behind it have an address.
pub open spec fn last_start() -> int {
    i64::MAX - 4
}

/// The instruction at the program counter.
pub open spec fn fetch(s: Snapshot) -> Result<Decoded, Fault> {
    if s.pc < 0 {
        Err(Fault::InvalidAddress)
    } else {
        match decode(read(s.mem, s.pc as int) as int) {
            Err(fault) => Err(fault),
            Ok(instr) => if s.pc > last_start() {
                Err(Fault::InvalidAddress)
            } else {
                Ok(instr)
            },
        }
    }
}

/// The raw operand `k` of the instruction at the program counter, counted from 0.
pub open spec fn operand(s: Snapshot, k: int) -> i64 {
    read(s.mem, s.pc + 1 + k)
}

/// What an operand of type `typ` in mode `mode` stands for, where `param` is
/// the raw operand with the relative base already added in relative mode.
///
/// An operand that is read stands for a value: itself in immediate mode, else
/// the cell at that address. An operand that is written stands for the address.
pub open spec fn deref(mem: Seq<i64>, param: i64, typ: ParamType, mode: ParamMode) -> Result<
    i64,
    Fault,
> {
    match typ {
        ParamType::Read => if mode == ParamMode::Immediate {
            Ok(param)
        } else if param < 0 {
            Err(Fault::InvalidAddress)
        } else {
            Ok(read(mem, param as int))
        },
        ParamType::Write => if mode == ParamMode::Immediate {
            Err(Fault::ImmediateWrite)
        } else if !writable(param as int) {
            Err(Fault::InvalidAddress)
        } else {
            Ok(param)
        },
    }
}

/// The argument that operand `k` gives to the operation: a value where the
/// operand is read, an address where it is written.
pub open spec fn resolve(s: Snapshot, param: (ParamType, ParamMode), k: int) -> Result<i64, Fault> {
    let offset: int = if param.1 == ParamMode::Relative {
        s.base as int
    } else {
        0
    };
    let target: int = operand(s, k) + offset;
    if i64::MIN <= target <= i64::MAX {
        deref(s.mem, target as i64, param.0, param.1)
    } else {
        Err(Fault::InvalidAddress)
    }
}

/// The arguments of the first `n` operands, or the fault of the first operand
/// among them that has one.
pub open spec fn resolve_all(s: Snapshot, params: Seq<(ParamType, ParamMode)>, n: int) -> Result<
    Seq<i64>,
    Fault,
>
    decreases n,
{
    if n <= 0 {
        Ok(Seq::empty())
    } else {
        match resolve_all(s, params, n - 1) {
            Err(fault) => Err(fault),
            Ok(args) => match resolve(s, params[n - 1], n - 1) {
                Err(fault) => Err(fault),
                Ok(arg) => Ok(args.push(arg)),
            },
        }
    }
}

/// The resolved arguments are as many as the operands, and each is what its
/// operand resolves to.
pub proof fn lemma_resolve_all(s: Snapshot, params: Seq<(ParamType, ParamMode)>, n: int)
    requires
        0 <= n <= params.len(),
    ensures
        resolve_all(s, params, n) matches Ok(args) ==> {
            &&& args.len() == n
            &&& forall|k: int| 0 <= k < n ==> resolve(s, params[k], k) == Ok::<i64, Fault>(#[trigger] args[k])
        },
    decreases n,
{
    if n > 0 {
        lemma_resolve_all(s, params, n - 1);
    }
}

/// A fault among the first `m` operands is the fault of any longer prefix.
pub proof fn lemma_resolve_all_fault(s: Snapshot, params: Seq<(ParamType, ParamMode)>, m: int, n: int)
    requires
        m <= n,
    ensures
        resolve_all(s, params, m) is Err ==> resolve_all(s, params, n) == resolve_all(s, params, m),
    decreases n - m,
{
    if m < n {
        lemma_resolve_all_fault(s, params, m, n - 1);
    }
}

/// 1 where `b` holds, else 0.
pub open spec fn flag(b: bool) -> i64 {
    if b {
        1
    } else {
        0
    }
}

/// The effect of the operation `op` on the arguments `args`.
///
/// The result is the state after the instruction and whether the engine goes on:
/// `Ok(true)` to continue, `Ok(false)` where the program halts or a device
/// signals it to, and the fault where the input device fails. Sums and
/// products wrap around at the ends of the 64-bit range. An instruction that
/// does not continue leaves the state as it was.
pub open spec fn execute(s: Snapshot, op: Operation, args: Seq<i64>) -> (
    Snapshot,
    Result<bool, Fault>,
) {
    let next: i64 = (s.pc + 1 + op.operands().len()) as i64;
    match op {
        Operation::Add => (
            Snapshot {
                mem: store(s.mem, args[2] as int, args[0].wrapping_add(args[1])),
                pc: next,
                ..s
            },
            Ok(true),
        ),
        Operation::Multiply => (
            Snapshot {
                mem: store(s.mem, args[2] as int, args[0].wrapping_mul(args[1])),
                pc: next,
                ..s
            },
            Ok(true),
        ),
        Operation::GetInput => match s.input.answer() {
            Err(fault) => (s, Err(fault)),
            Ok(None) => (s, Ok(false)),
            Ok(Some(value)) => (
                Snapshot {
                    mem: store(s.mem, args[0] as int, value),
                    pc: next,
                    input: s.input.advance(),
                    ..s
                },
                Ok(true),
            ),
        },
        Operation::SendOutput => if s.output.accepts() {
            (Snapshot { pc: next, output: s.output.advance(args[0]), ..s }, Ok(true))
        } else {
            (s, Ok(false))
        },
        Operation::JumpIfTrue => (
            Snapshot {
                pc: if args[0] != 0 {
                    args[1]
                } else {
                    next
                },
                ..s
            },
            Ok(true),
        ),
        Operation::JumpIfFalse => (
            Snapshot {
                pc: if args[0] == 0 {
                    args[1]
                } else {
                    next
                },
                ..s
            },
            Ok(true),
        ),
        Operation::LessThan => (
            Snapshot { mem: store(s.mem, args[2] as int, flag(args[0] < args[1])), pc: next, ..s },
            Ok(true),
        ),
        Operation::Equals => (
            Snapshot { mem: store(s.mem, args[2] as int, flag(args[0] == args[1])), pc: next, ..s },
            Ok(true),
        ),
        Operation::RelativeBaseOffset => (
            Snapshot { base: s.base.wrapping_add(args[0]), pc: next, ..s },
            Ok(true),
        ),
        Operation::Halt => (s, Ok(false)),
    }
}

/// One instruction: fetch and decode at the program counter, resolve the
/// operands, apply the operation. A fault leaves the state as it was.
pub open spec fn step(s: Snapshot) -> (Snapshot, Result<bool, Fault>) {
    match fetch(s) {
        Err(fault) => (s, Err(fault)),
        Ok(instr) => match resolve_all(s, instr.params, instr.params.len() as int) {
            Err(fault) => (s, Err(fault)),
            Ok(args) => execute(s, instr.op, args),
        },
    }
}

/// At most `n` instructions: the run ends before that with the first
/// instruction that does not continue. `Ok(true)` says that all `n`
/// instructions continued.
pub open spec fn run_for(s: Snapshot, n: nat) -> (Snapshot, Result<bool, Fault>)
    decreases n,
{
    if n == 0 {
        (s, Ok(true))
    } else {
        let (t, r) = step(s);
        if r == Ok::<bool, Fault>(true) {
            run_for(t, (n - 1) as nat)
        } else {
            (t, r)
        }
    }
}

/// Whether the run from `s` ends within `n` instructions, by a halt or a fault.
pub open spec fn stops_within(s: Snapshot, n: nat) -> bool {
    run_for(s, n).1 != Ok::<bool, Fault>(true)
}

} // verus!
