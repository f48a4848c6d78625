//! What holds of every run of the machine.

use vstd::prelude::*;
use crate::fault::Fault;
use crate::instruction::{
    decode_params,
    lemma_decode_params,
    Decoded,
    Operation,
    ParamMode,
    ParamType,
};
use crate::machine::{
    fetch,
    last_start,
    lemma_resolve_all,
    operand,
    resolve,
    resolve_all,
    run_for,
    step,
    stops_within,
    Snapshot,
};
use crate::memory::{read, store, writable};

verus! {

/// An instruction that does not continue leaves the machine as it was: a halt
/// is final, a device that signalled the engine to halt was not changed by the
/// request, and a fault has no effect.
pub proof fn law_stop_keeps_state(s: Snapshot)
    requires
        step(s).1 != Ok::<bool, Fault>(true),
    ensures
        step(s).0 == s,
{
}

/// No instruction leaves the stopped state: once an instruction has not
/// continued, the same instruction gives the same result again, and so does
/// every longer run.
pub proof fn law_stopped_is_terminal(s: Snapshot, n: nat)
    requires
        step(s).1 != Ok::<bool, Fault>(true),
        n >= 1,
    ensures
        run_for(s, n) == (s, step(s).1),
{
}

/// A run that has ended within `m` instructions is not changed by a larger
/// budget.
pub proof fn law_budget_beyond_stop(s: Snapshot, m: nat, n: nat)
    requires
        stops_within(s, m),
        m <= n,
    ensures
        run_for(s, n) == run_for(s, m),
    decreases m,
{
    if m > 0 {
        let (t, r) = step(s);
        if r == Ok::<bool, Fault>(true) {
            law_budget_beyond_stop(t, (m - 1) as nat, (n - 1) as nat);
        }
    }
}

/// A run of `a + b` instructions is a run of `a` instructions followed, where
/// all of them continued, by a run of `b` instructions.
pub proof fn law_run_in_two(s: Snapshot, a: nat, b: nat)
    ensures
        run_for(s, a + b) == if stops_within(s, a) {
            run_for(s, a)
        } else {
            run_for(run_for(s, a).0, b)
        },
    decreases a,
{
    if a > 0 {
        let (t, r) = step(s);
        if r == Ok::<bool, Fault>(true) {
            law_run_in_two(t, (a - 1) as nat, b);
            assert(run_for(s, a + b) == run_for(t, (a + b - 1) as nat));
        }
    } else {
        assert(a + b == b);
    }
}

/// The memory never shrinks, whatever the instruction.
pub proof fn law_memory_grows(s: Snapshot)
    ensures
        step(s).0.mem.len() >= s.mem.len(),
{
    if let Ok(instr) = fetch(s) {
        let n: int = instr.op.operands().len() as int;
        lemma_decode_params(read(s.mem, s.pc as int) as int, instr.op.operands(), n);
        lemma_resolve_all(s, instr.params, n);
        if let Ok(args) = resolve_all(s, instr.params, n) {
            if n > 0 && instr.params[n - 1].0 == ParamType::Write {
                assert(resolve(s, instr.params[n - 1], n - 1) == Ok::<i64, Fault>(args[n - 1]));
            }
        }
    }
}

/// The effect of an instruction depends on its operation and on what its
/// operands resolve to, not on the addressing modes by which they do: two
/// machines in the same state but for the memory, which are about to execute the
/// same operation on the same arguments, end in the same state but for the
/// memory, with the same result, and store the same value at the same address
/// where they store anything.
pub proof fn law_modes_are_equivalent(s: Snapshot, t: Snapshot, op: Operation, args: Seq<i64>)
    requires
        s.pc == t.pc,
        s.base == t.base,
        s.input == t.input,
        s.output == t.output,
        fetch(s) matches Ok(instr) && instr.op == op && resolve_all(
            s,
            instr.params,
            instr.params.len() as int,
        ) == Ok::<Seq<i64>, Fault>(args),
        fetch(t) matches Ok(instr) && instr.op == op && resolve_all(
            t,
            instr.params,
            instr.params.len() as int,
        ) == Ok::<Seq<i64>, Fault>(args),
    ensures
        step(s).1 == step(t).1,
        step(s).0.pc == step(t).0.pc,
        step(s).0.base == step(t).0.base,
        step(s).0.input == step(t).0.input,
        step(s).0.output == step(t).0.output,
        step(s).0.mem == s.mem && step(t).0.mem == t.mem || exists|addr: int, value: i64|
            step(s).0.mem == store(s.mem, addr, value) && step(t).0.mem == store(
                t.mem,
                addr,
                value,
            ),
{
    let last: int = args[op.operands().len() - 1] as int;
    match op {
        Operation::Add => {
            assert(step(s).0.mem == store(s.mem, last, args[0].wrapping_add(args[1])));
            assert(step(t).0.mem == store(t.mem, last, args[0].wrapping_add(args[1])));
        },
        Operation::Multiply => {
            assert(step(s).0.mem == store(s.mem, last, args[0].wrapping_mul(args[1])));
            assert(step(t).0.mem == store(t.mem, last, args[0].wrapping_mul(args[1])));
        },
        Operation::LessThan => {
            assert(step(s).0.mem == store(s.mem, last, crate::machine::flag(args[0] < args[1])));
            assert(step(t).0.mem == store(t.mem, last, crate::machine::flag(args[0] < args[1])));
        },
        Operation::Equals => {
            assert(step(s).0.mem == store(s.mem, last, crate::machine::flag(args[0] == args[1])));
            assert(step(t).0.mem == store(t.mem, last, crate::machine::flag(args[0] == args[1])));
        },
        Operation::GetInput => {
            match s.input.answer() {
                Ok(Some(value)) => {
                    assert(step(s).0.mem == store(s.mem, last, value));
                    assert(step(t).0.mem == store(t.mem, last, value));
                },
                _ => {},
            }
        },
        _ => {},
    }
}

/// An operand that is read gives the same value in each of the three modes,
/// where the three raw operands name the same cell: the address `addr` in
/// position mode, the offset of `addr` from the relative base in relative mode,
/// and the content of the cell itself in immediate mode.
pub proof fn law_read_modes_agree(s: Snapshot, k: int, addr: int)
    requires
        0 <= addr <= i64::MAX,
    ensures
        operand(s, k) == addr ==> resolve(s, (ParamType::Read, ParamMode::Position), k) == Ok::<
            i64,
            Fault,
        >(read(s.mem, addr)),
        operand(s, k) + s.base == addr ==> resolve(s, (ParamType::Read, ParamMode::Relative), k)
            == Ok::<i64, Fault>(read(s.mem, addr)),
        operand(s, k) == read(s.mem, addr) ==> resolve(
            s,
            (ParamType::Read, ParamMode::Immediate),
            k,
        ) == Ok::<i64, Fault>(read(s.mem, addr)),
{
}


/// One instruction of the reference interpreter, which knows three
/// instructions, each four cells apart from the next: 1 adds and 2 multiplies
/// the cells that its first two operands point to, and stores the result where
/// its third operand points to; any other halts, which `None` stands for.
pub open spec fn reference_step(mem: Seq<i64>, pc: int) -> Option<(Seq<i64>, int)> {
    let a: i64 = read(mem, read(mem, pc + 1) as int);
    let b: i64 = read(mem, read(mem, pc + 2) as int);
    let dest: int = read(mem, pc + 3) as int;
    if read(mem, pc) == 1 {
        Some((store(mem, dest, a.wrapping_add(b)), pc + 4))
    } else if read(mem, pc) == 2 {
        Some((store(mem, dest, a.wrapping_mul(b)), pc + 4))
    } else {
        None
    }
}

/// At most `n` instructions of the reference interpreter: the memory, the
/// program counter, and whether all `n` instructions continued.
pub open spec fn reference_run(mem: Seq<i64>, pc: int, n: nat) -> (Seq<i64>, int, bool)
    decreases n,
{
    if n == 0 {
        (mem, pc, true)
    } else {
        match reference_step(mem, pc) {
            None => (mem, pc, false),
            Some((mem2, pc2)) => reference_run(mem2, pc2, (n - 1) as nat),
        }
    }
}

/// Whether the instruction at `pc` is one that the reference interpreter knows
/// (an addition, a multiplication or a halt, with every operand in position
/// mode) and names addresses that the machine has.
pub open spec fn plain(mem: Seq<i64>, pc: int) -> bool {
    &&& 0 <= pc <= last_start()
    &&& read(mem, pc) == 99 || {
        &&& read(mem, pc) == 1 || read(mem, pc) == 2
        &&& read(mem, pc + 1) >= 0
        &&& read(mem, pc + 2) >= 0
        &&& writable(read(mem, pc + 3) as int)
    }
}

/// Whether the reference interpreter, started at `pc`, meets only such
/// instructions in its first `n`.
pub open spec fn plain_run(mem: Seq<i64>, pc: int, n: nat) -> bool
    decreases n,
{
    n == 0 || (plain(mem, pc) && match reference_step(mem, pc) {
        None => true,
        Some((mem2, pc2)) => plain_run(mem2, pc2, (n - 1) as nat),
    })
}

/// On an addition, a multiplication or a halt in position mode the machine does
/// what the reference interpreter does, and touches nothing else.
pub proof fn law_reference_step(s: Snapshot)
    requires
        plain(s.mem, s.pc as int),
    ensures
        step(s) == match reference_step(s.mem, s.pc as int) {
            None => (s, Ok::<bool, Fault>(false)),
            Some((mem, pc)) => (Snapshot { mem, pc: pc as i64, ..s }, Ok::<bool, Fault>(true)),
        },
{
    reveal_with_fuel(decode_params, 4);
    reveal_with_fuel(resolve_all, 4);
    let raw: int = read(s.mem, s.pc as int) as int;
    let position = seq![
        (ParamType::Read, ParamMode::Position),
        (ParamType::Read, ParamMode::Position),
        (ParamType::Write, ParamMode::Position),
    ];
    if raw == 99 {
        assert(decode_params(raw, Operation::Halt.operands(), 0) matches Ok(p) && p
            =~= Seq::empty());
    } else {
        let op = if raw == 1 {
            Operation::Add
        } else {
            Operation::Multiply
        };
        assert(decode_params(raw, op.operands(), 3) matches Ok(p) && p =~= position);
        assert(fetch(s) == Ok::<Decoded, Fault>(Decoded { op, params: position }));
        let a: i64 = read(s.mem, read(s.mem, s.pc + 1) as int);
        let b: i64 = read(s.mem, read(s.mem, s.pc + 2) as int);
        assert(resolve_all(s, position, 3) matches Ok(args) && args =~= seq![
            a,
            b,
            read(s.mem, s.pc + 3),
        ]);
    }
}

/// A program that uses only additions, multiplications and halts, in position
/// mode, is run by the machine exactly as by the reference interpreter: after
/// any number of instructions the memory and the program counter are the same,
/// both have halted or neither has, and the relative base and the devices are
/// untouched.
pub proof fn law_reference_run(s: Snapshot, n: nat)
    requires
        plain_run(s.mem, s.pc as int, n),
    ensures
        run_for(s, n) == (
            Snapshot {
                mem: reference_run(s.mem, s.pc as int, n).0,
                pc: reference_run(s.mem, s.pc as int, n).1 as i64,
                ..s
            },
            Ok::<bool, Fault>(reference_run(s.mem, s.pc as int, n).2),
        ),
    decreases n,
{
    if n > 0 {
        law_reference_step(s);
        match reference_step(s.mem, s.pc as int) {
            None => {},
            Some((mem, pc)) => {
                let t = Snapshot { mem, pc: pc as i64, ..s };
                law_reference_run(t, (n - 1) as nat);
            },
        }
    }
}

} // verus!
