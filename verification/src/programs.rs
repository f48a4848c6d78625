//! What holds of three small programs, whatever value they are run on.

use vstd::prelude::*;
use crate::cpu::outcome;
use crate::device::{Exhausted, InputModel, OutputModel};
use crate::fault::Fault;
use crate::instruction::{decode, decode_params, Decoded, Operation, ParamMode, ParamType};
use crate::laws::law_budget_beyond_stop;
use crate::machine::{execute, flag, load, resolve, resolve_all, run_for, step, Snapshot};

verus! {

/// The program that sends its one input value to the output.
pub open spec fn echo() -> Seq<i64> {
    seq![3i64, 0, 4, 0, 99]
}

/// The program that reads a value and outputs 1 where the value is 8, else 0.
pub open spec fn equals_eight() -> Seq<i64> {
    seq![3i64, 9, 8, 9, 10, 9, 4, 9, 99, -1i64, 8]
}

/// The program that outputs the literal `value`, which it holds as an
/// immediate operand.
pub open spec fn literal(value: i64) -> Seq<i64> {
    seq![104i64, value, 99]
}

/// The input device that holds the single value `x`.
pub open spec fn single(x: i64, at_end: Exhausted) -> InputModel {
    InputModel { pending: seq![x], at_end }
}

/// An instruction with one operand, of type `typ` in mode `mode`.
pub open spec fn unary(op: Operation, typ: ParamType, mode: ParamMode) -> Decoded {
    Decoded { op, params: seq![(typ, mode)] }
}

/// What the five instructions of the three programs decode to.
proof fn lemma_decoded()
    ensures
        decode(3) == Ok::<Decoded, Fault>(
            unary(Operation::GetInput, ParamType::Write, ParamMode::Position),
        ),
        decode(4) == Ok::<Decoded, Fault>(
            unary(Operation::SendOutput, ParamType::Read, ParamMode::Position),
        ),
        decode(104) == Ok::<Decoded, Fault>(
            unary(Operation::SendOutput, ParamType::Read, ParamMode::Immediate),
        ),
        decode(8) == Ok::<Decoded, Fault>(
            Decoded {
                op: Operation::Equals,
                params: seq![
                    (ParamType::Read, ParamMode::Position),
                    (ParamType::Read, ParamMode::Position),
                    (ParamType::Write, ParamMode::Position),
                ],
            },
        ),
        decode(99) == Ok::<Decoded, Fault>(Decoded { op: Operation::Halt, params: Seq::empty() }),
{
    reveal_with_fuel(decode_params, 4);
    assert(decode_params(3, Operation::GetInput.operands(), 1) matches Ok(p) && p =~= seq![
        (ParamType::Write, ParamMode::Position),
    ]);
    assert(decode_params(4, Operation::SendOutput.operands(), 1) matches Ok(p) && p =~= seq![
        (ParamType::Read, ParamMode::Position),
    ]);
    assert(decode_params(104, Operation::SendOutput.operands(), 1) matches Ok(p) && p =~= seq![
        (ParamType::Read, ParamMode::Immediate),
    ]);
    assert(decode_params(8, Operation::Equals.operands(), 3) matches Ok(p) && p =~= seq![
        (ParamType::Read, ParamMode::Position),
        (ParamType::Read, ParamMode::Position),
        (ParamType::Write, ParamMode::Position),
    ]);
    assert(decode_params(99, Operation::Halt.operands(), 0) matches Ok(p) && p =~= Seq::empty());
}

/// The arguments of an instruction with one operand.
proof fn lemma_resolve_one(s: Snapshot, param: (ParamType, ParamMode), arg: i64)
    requires
        resolve(s, param, 0) == Ok::<i64, Fault>(arg),
    ensures
        resolve_all(s, seq![param], 1) == Ok::<Seq<i64>, Fault>(seq![arg]),
{
    reveal_with_fuel(resolve_all, 2);
    assert(resolve_all(s, seq![param], 1) matches Ok(a) && a =~= seq![arg]);
}

/// The arguments of an instruction with three operands.
proof fn lemma_resolve_three(s: Snapshot, params: Seq<(ParamType, ParamMode)>, args: Seq<i64>)
    requires
        params.len() == 3,
        args.len() == 3,
        forall|k: int| 0 <= k < 3 ==> resolve(s, params[k], k) == Ok::<i64, Fault>(args[k]),
    ensures
        resolve_all(s, params, 3) == Ok::<Seq<i64>, Fault>(args),
{
    reveal_with_fuel(resolve_all, 4);
    assert(resolve_all(s, params, 1) matches Ok(a) && a =~= seq![args[0]]);
    assert(resolve_all(s, params, 2) matches Ok(a) && a =~= seq![args[0], args[1]]);
    assert(resolve_all(s, params, 3) matches Ok(a) && a =~= args);
}

/// The program counter is at a halt: the run is over.
proof fn lemma_at_halt(s: Snapshot)
    requires
        0 <= s.pc < s.mem.len(),
        s.mem.len() < 100,
        s.mem[s.pc as int] == 99,
    ensures
        step(s) == (s, Ok::<bool, Fault>(false)),
{
    lemma_decoded();
    reveal_with_fuel(resolve_all, 1);
}

/// The echo program halts, and its output is its input: the output device has
/// taken exactly the value that the input device held, behind what it had taken
/// before. The value is also what is left at address 0.
pub proof fn law_echo(x: i64, at_end: Exhausted, output: OutputModel, n: nat)
    requires
        output.room is None,
        n >= 3,
    ensures
        run_for(load(echo(), single(x, at_end), output), n).1 == Ok::<bool, Fault>(false),
        run_for(load(echo(), single(x, at_end), output), n).0.output.sent == output.sent.push(x),
        outcome(load(echo(), single(x, at_end), output), n) == Ok::<i64, Fault>(x),
{
    lemma_decoded();
    let s0 = load(echo(), single(x, at_end), output);
    lemma_resolve_one(s0, (ParamType::Write, ParamMode::Position), 0);
    let s1 = Snapshot {
        mem: seq![x, 0, 4, 0, 99],
        pc: 2,
        input: single(x, at_end).advance(),
        ..s0
    };
    assert(step(s0).0.mem =~= s1.mem);
    assert(step(s0) == (s1, Ok::<bool, Fault>(true)));

    lemma_resolve_one(s1, (ParamType::Read, ParamMode::Position), x);
    let s2 = Snapshot { pc: 4, output: output.advance(x), ..s1 };
    assert(step(s1) == (s2, Ok::<bool, Fault>(true)));

    lemma_at_halt(s2);
    assert(run_for(s0, 3) == (s2, Ok::<bool, Fault>(false))) by {
        reveal_with_fuel(run_for, 4);
    }
    law_budget_beyond_stop(s0, 3, n);
}

/// The comparing program halts, and its output is 1 where its input is 8, and 0
/// for every other input, the negative ones too.
pub proof fn law_equals_eight(x: i64, at_end: Exhausted, output: OutputModel, n: nat)
    requires
        output.room is None,
        n >= 4,
    ensures
        run_for(load(equals_eight(), single(x, at_end), output), n).1 == Ok::<bool, Fault>(false),
        run_for(load(equals_eight(), single(x, at_end), output), n).0.output.sent
            == output.sent.push(flag(x == 8)),
{
    lemma_decoded();
    let s0 = load(equals_eight(), single(x, at_end), output);
    lemma_resolve_one(s0, (ParamType::Write, ParamMode::Position), 9);
    let s1 = Snapshot {
        mem: seq![3i64, 9, 8, 9, 10, 9, 4, 9, 99, x, 8],
        pc: 2,
        input: single(x, at_end).advance(),
        ..s0
    };
    assert(step(s0).0.mem =~= s1.mem);
    assert(step(s0) == (s1, Ok::<bool, Fault>(true)));

    let three = seq![
        (ParamType::Read, ParamMode::Position),
        (ParamType::Read, ParamMode::Position),
        (ParamType::Write, ParamMode::Position),
    ];
    lemma_resolve_three(s1, three, seq![x, 8i64, 9]);
    let s2 = Snapshot { mem: seq![3i64, 9, 8, 9, 10, 9, 4, 9, 99, flag(x == 8), 8], pc: 6, ..s1 };
    assert(execute(s1, Operation::Equals, seq![x, 8i64, 9]).0.mem =~= s2.mem);
    assert(step(s1) == (s2, Ok::<bool, Fault>(true)));

    lemma_resolve_one(s2, (ParamType::Read, ParamMode::Position), flag(x == 8));
    let s3 = Snapshot { pc: 8, output: output.advance(flag(x == 8)), ..s2 };
    assert(step(s2) == (s3, Ok::<bool, Fault>(true)));

    lemma_at_halt(s3);
    assert(run_for(s0, 4) == (s3, Ok::<bool, Fault>(false))) by {
        reveal_with_fuel(run_for, 5);
    }
    law_budget_beyond_stop(s0, 4, n);
}

/// A literal comes out as it is, whatever its size: the program that holds
/// `value` as an immediate operand halts after it has output exactly `value`,
/// and asks for no input.
pub proof fn law_literal(value: i64, input: InputModel, output: OutputModel, n: nat)
    requires
        output.room is None,
        n >= 2,
    ensures
        run_for(load(literal(value), input, output), n).1 == Ok::<bool, Fault>(false),
        run_for(load(literal(value), input, output), n).0.output.sent == output.sent.push(value),
        run_for(load(literal(value), input, output), n).0.input == input,
{
    lemma_decoded();
    let s0 = load(literal(value), input, output);
    lemma_resolve_one(s0, (ParamType::Read, ParamMode::Immediate), value);
    let s1 = Snapshot { pc: 2, output: output.advance(value), ..s0 };
    assert(step(s0) == (s1, Ok::<bool, Fault>(true)));

    lemma_at_halt(s1);
    assert(run_for(s0, 2) == (s1, Ok::<bool, Fault>(false))) by {
        reveal_with_fuel(run_for, 3);
    }
    law_budget_beyond_stop(s0, 2, n);
}

} // verus!
