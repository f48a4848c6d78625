//! Several engines that run the same program and hand a signal on from one to
//! the next: in a chain, or in a ring that feeds the last engine's output back
//! to the first.
//!
//! The engines of a ring take turns. An engine runs until it halts or waits for
//! input that has not come yet; what it has output by then is handed to its
//! successor. Each engine reads its input in the order in which it was sent, so
//! the signals are the same in whatever order the engines are run.

use vstd::prelude::*;
use vstd::slice::slice_to_vec;
use crate::builder::{fresh_output, CPUBuilder};
use crate::cpu::CPU;
use crate::device::{Exhausted, InputModel, OutputModel, QueueInput, VecOutput};
use crate::fault::Fault;
use crate::instruction::Operation;
use crate::machine::{fetch, load, run_for, Snapshot};

verus! {

/// Why a set of amplifiers gave no signal.
#[derive(Debug, Clone, Copy, PartialEq, Eq, Structural)]
pub enum AmpError {
    /// An engine faulted.
    Machine(Fault),
    /// An amplifier of a chain did not output exactly one value, or the last
    /// amplifier of a ring left no value behind.
    NoSignal,
}

/// What a run of one engine ends with, as an error of the amplifiers: none
/// where the engine has halted.
pub open spec fn run_error(r: Result<bool, Fault>) -> Option<Fault> {
    match r {
        Ok(false) => None,
        Ok(true) => Some(Fault::StepLimit),
        Err(fault) => Some(fault),
    }
}

/// The signal that one amplifier of a chain makes of `signal`: it runs the
/// program on the phase setting and the signal, and outputs one value.
pub open spec fn amplified(program: Seq<i64>, phase: i64, signal: i64) -> Result<i64, AmpError> {
    let start = load(
        program,
        InputModel { pending: seq![phase, signal], at_end: Exhausted::Fail },
        fresh_output(),
    );
    let (end, r) = run_for(start, u64::MAX as nat);
    match run_error(r) {
        Some(fault) => Err(AmpError::Machine(fault)),
        None => if end.output.sent.len() == 1 {
            Ok(end.output.sent[0])
        } else {
            Err(AmpError::NoSignal)
        },
    }
}

/// The signal that a chain of amplifiers with the phase settings `phases` makes
/// of `signal`, each amplifier taking the signal of the one before it.
pub open spec fn chained(program: Seq<i64>, phases: Seq<i64>, signal: i64) -> Result<i64, AmpError>
    decreases phases.len(),
{
    if phases.len() == 0 {
        Ok(signal)
    } else {
        match amplified(program, phases[0], signal) {
            Err(error) => Err(error),
            Ok(next) => chained(program, phases.skip(1), next),
        }
    }
}

/// Runs the amplifiers one after the other, the first one on the signal 0, and
/// returns the signal of the last one.
pub fn thruster_signal_1(program: &[i64], phase_settings: &[i64]) -> (r: Result<i64, AmpError>)
    ensures
        r == chained(program@, phase_settings@, 0),
{
    let mut signal: i64 = 0;
    let mut k: usize = 0;
    assert(phase_settings@.skip(0) =~= phase_settings@);
    while k < phase_settings.len()
        invariant
            k <= phase_settings@.len(),
            chained(program@, phase_settings@, 0) == chained(
                program@,
                phase_settings@.skip(k as int),
                signal,
            ),
        decreases phase_settings@.len() - k,
    {
        let phase: i64 = phase_settings[k];
        let mut inputs: Vec<i64> = Vec::new();
        inputs.push(phase);
        inputs.push(signal);
        assert(inputs@ =~= seq![phase, signal]);
        let builder: CPUBuilder<(), ()> = CPUBuilder::new(slice_to_vec(program));
        let mut cpu = builder.input_iter(inputs).output_vec().finish();
        proof {
            assert(phase_settings@.skip(k as int)[0] == phase);
            assert(phase_settings@.skip(k as int).skip(1) =~= phase_settings@.skip(k + 1));
        }
        match cpu.run_internal() {
            Ok(false) => {},
            Ok(true) => {
                return Err(AmpError::Machine(Fault::StepLimit));
            },
            Err(fault) => {
                return Err(AmpError::Machine(fault));
            },
        }
        let output: Vec<i64> = cpu.into_output().into_vec();
        if output.len() != 1 {
            return Err(AmpError::NoSignal);
        }
        signal = output[0];
        k = k + 1;
    }
    Ok(signal)
}

/// The states of the engines of a ring.
pub open spec fn snapshots(engines: Seq<CPU<QueueInput, VecOutput>>) -> Seq<Snapshot> {
    Seq::new(engines.len(), |k: int| engines[k]@)
}

/// The engine that gets the output of engine `i` in a ring of `n` engines.
pub open spec fn successor(i: int, n: int) -> int {
    if i + 1 < n {
        i + 1
    } else {
        0
    }
}

/// A ring at its start: engine `k` holds the program and waits with its phase
/// setting as its first input; the first engine has the signal 0 behind it.
/// An engine that finds no input signals itself to halt, and goes on in its
/// next turn.
pub open spec fn ring_start(program: Seq<i64>, phases: Seq<i64>) -> Seq<Snapshot> {
    Seq::new(
        phases.len(),
        |k: int|
            load(
                program,
                InputModel {
                    pending: if k == 0 {
                        seq![phases[k], 0i64]
                    } else {
                        seq![phases[k]]
                    },
                    at_end: Exhausted::Halt,
                },
                fresh_output(),
            ),
    )
}

/// The ring after the turn of engine `i`: the engine has run until it stopped,
/// and what it has output waits behind the input of its successor.
pub open spec fn after_turn(ring: Seq<Snapshot>, i: int) -> Seq<Snapshot> {
    let ran = run_for(ring[i], u64::MAX as nat).0;
    let emptied = Snapshot {
        output: OutputModel { sent: Seq::empty(), room: ran.output.room },
        ..ran
    };
    let ring1 = ring.update(i, emptied);
    let j = successor(i, ring.len() as int);
    ring1.update(
        j,
        Snapshot {
            input: InputModel {
                pending: ring1[j].input.pending + ran.output.sent,
                at_end: ring1[j].input.at_end,
            },
            ..ring1[j]
        },
    )
}

/// Whether engine `i` takes any input in its turn.
pub open spec fn consumes(ring: Seq<Snapshot>, i: int) -> bool {
    run_for(ring[i], u64::MAX as nat).0.input.pending.len() < ring[i].input.pending.len()
}

/// What a round has come to.
pub struct Progress {
    /// Whether any engine has output something in this round.
    pub moved: bool,
    /// Whether the first engine has ever taken input, and with it its phase
    /// setting.
    pub started: bool,
}

/// The ring after the turns of the engines from `i` on, one after the other,
/// and what the round has come to, given what it had come to before them; or the
/// fault of the first engine that does not stop in order.
pub open spec fn round(ring: Seq<Snapshot>, i: int, progress: Progress) -> Result<
    (Seq<Snapshot>, Progress),
    Fault,
>
    decreases ring.len() - i,
{
    if i < 0 || i >= ring.len() {
        Ok((ring, progress))
    } else {
        let (ran, r) = run_for(ring[i], u64::MAX as nat);
        match run_error(r) {
            Some(fault) => Err(fault),
            None => round(
                after_turn(ring, i),
                i + 1,
                Progress {
                    moved: progress.moved || ran.output.sent.len() > 0,
                    started: progress.started || (i == 0 && consumes(ring, i)),
                },
            ),
        }
    }
}

/// Whether every engine of the ring is at a halt instruction.
pub open spec fn all_halted(ring: Seq<Snapshot>) -> bool {
    forall|k: int|
        0 <= k < ring.len() ==> (#[trigger] fetch(ring[k]) matches Ok(instr) && instr.op
            == Operation::Halt)
}

/// The value that waits for the first engine: the first one behind its phase
/// setting, where it has not taken that yet.
pub open spec fn waiting(first: Snapshot, started: bool) -> Result<i64, AmpError> {
    let skip: int = if started {
        0
    } else {
        1
    };
    if first.input.pending.len() > skip {
        Ok(first.input.pending[skip])
    } else {
        Err(AmpError::NoSignal)
    }
}

/// The signal of a ring that is given `rounds` rounds at most; `started` says
/// whether the first engine has taken its phase setting before.
///
/// After the round in which the last engine has halted, the signal is the value
/// that waits for the first engine. A round in which no engine outputs anything
/// while one still waits for input can never end: the input is then missing.
pub open spec fn feedback(ring: Seq<Snapshot>, started: bool, rounds: nat) -> Result<i64, AmpError>
    decreases rounds,
{
    if rounds == 0 {
        Err(AmpError::Machine(Fault::StepLimit))
    } else {
        match round(ring, 0, Progress { moved: false, started }) {
            Err(fault) => Err(AmpError::Machine(fault)),
            Ok((next, progress)) => if all_halted(next) {
                waiting(next[0], progress.started)
            } else if !progress.moved {
                Err(AmpError::Machine(Fault::NoInput))
            } else {
                feedback(next, progress.started, (rounds - 1) as nat)
            },
        }
    }
}

/// Gives engine `i` its turn. Returns whether the engine has output anything,
/// and whether it has taken any input.
fn take_turn(engines: &mut Vec<CPU<QueueInput, VecOutput>>, i: usize) -> (r: Result<
    (bool, bool),
    Fault,
>)
    requires
        i < old(engines)@.len(),
    ensures
        final(engines)@.len() == old(engines)@.len(),
        match r {
            Ok((moved, consumed)) => {
                &&& run_error(run_for(old(engines)@[i as int]@, u64::MAX as nat).1) is None
                &&& moved == (run_for(
                    old(engines)@[i as int]@,
                    u64::MAX as nat,
                ).0.output.sent.len() > 0)
                &&& consumed == consumes(snapshots(old(engines)@), i as int)
                &&& snapshots(final(engines)@) == after_turn(snapshots(old(engines)@), i as int)
            },
            Err(fault) => run_error(run_for(old(engines)@[i as int]@, u64::MAX as nat).1) == Some(
                fault,
            ),
        },
{
    let ghost before = snapshots(engines@);
    let ghost ran = run_for(before[i as int], u64::MAX as nat).0;
    let held: usize = engines[i].input().remaining();
    match engines[i].run_internal() {
        Ok(false) => {},
        Ok(true) => {
            return Err(Fault::StepLimit);
        },
        Err(fault) => {
            return Err(fault);
        },
    }
    let consumed: bool = engines[i].input().remaining() < held;
    let output: Vec<i64> = engines[i].drain_output();
    let ghost emptied = Snapshot {
        output: OutputModel { sent: Seq::empty(), room: ran.output.room },
        ..ran
    };
    let ghost ring1 = before.update(i as int, emptied);
    assert(engines@.len() == before.len());
    assert(snapshots(engines@) =~= ring1);
    let n: usize = engines.len();
    assert(i < n);
    let j: usize = if i + 1 < n {
        i + 1
    } else {
        0
    };
    let mut k: usize = 0;
    while k < output.len()
        invariant
            k <= output@.len(),
            j < engines@.len(),
            engines@.len() == ring1.len(),
            snapshots(engines@) == ring1.update(
                j as int,
                Snapshot {
                    input: InputModel {
                        pending: ring1[j as int].input.pending + output@.take(k as int),
                        at_end: ring1[j as int].input.at_end,
                    },
                    ..ring1[j as int]
                },
            ),
        decreases output@.len() - k,
    {
        let ghost fed = snapshots(engines@);
        engines[j].feed(output[k]);
        proof {
            let pending = ring1[j as int].input.pending;
            assert(pending + output@.take(k + 1) =~= (pending + output@.take(k as int)).push(
                output@[k as int],
            ));
            assert(fed[j as int].input.pending == pending + output@.take(k as int));
            assert(engines@[j as int]@.input.pending == pending + output@.take(k + 1));
            assert(snapshots(engines@) =~= fed.update(j as int, engines@[j as int]@));
            assert(snapshots(engines@) =~= ring1.update(
                j as int,
                Snapshot {
                    input: InputModel {
                        pending: pending + output@.take(k + 1),
                        at_end: ring1[j as int].input.at_end,
                    },
                    ..ring1[j as int]
                },
            ));
        }
        k = k + 1;
    }
    assert(output@.take(output@.len() as int) =~= output@);
    Ok((output.len() > 0, consumed))
}

/// Whether every engine is at a halt instruction.
fn all_at_halt(engines: &Vec<CPU<QueueInput, VecOutput>>) -> (halted: bool)
    ensures
        halted == all_halted(snapshots(engines@)),
{
    let mut k: usize = 0;
    while k < engines.len()
        invariant
            k <= engines@.len(),
            forall|m: int|
                0 <= m < k ==> (#[trigger] fetch(snapshots(engines@)[m]) matches Ok(instr)
                    && instr.op == Operation::Halt),
        decreases engines@.len() - k,
    {
        if !engines[k].at_halt() {
            assert(!(fetch(snapshots(engines@)[k as int]) matches Ok(instr) && instr.op
                == Operation::Halt));
            return false;
        }
        k = k + 1;
    }
    true
}

/// Connects the amplifiers in a ring, starts the first one on the signal 0, and
/// returns the signal that the last one has output when all have halted.
pub fn thruster_signal_2(program: &[i64], phase_settings: &[i64]) -> (r: Result<i64, AmpError>)
    requires
        phase_settings@.len() > 0,
    ensures
        r == feedback(ring_start(program@, phase_settings@), false, u64::MAX as nat),
{
    let n: usize = phase_settings.len();
    let mut engines: Vec<CPU<QueueInput, VecOutput>> = Vec::new();
    let mut k: usize = 0;
    while k < n
        invariant
            k <= n,
            n == phase_settings@.len(),
            engines@.len() == k,
            forall|m: int|
                0 <= m < k ==> (#[trigger] engines@[m])@ == ring_start(
                    program@,
                    phase_settings@,
                )[m],
        decreases n - k,
    {
        let mut inputs: Vec<i64> = Vec::new();
        inputs.push(phase_settings[k]);
        if k == 0 {
            // The first signal, which waits for the first amplifier.
            inputs.push(0);
        }
        assert(inputs@ =~= if k == 0 {
            seq![phase_settings@[k as int], 0i64]
        } else {
            seq![phase_settings@[k as int]]
        });
        let builder: CPUBuilder<QueueInput, ()> = CPUBuilder::new(slice_to_vec(program));
        let cpu = builder.input_or_halt(QueueInput::halting(inputs)).output_vec().finish();
        engines.push(cpu);
        k = k + 1;
    }
    assert(snapshots(engines@) =~= ring_start(program@, phase_settings@));
    let ghost goal = feedback(ring_start(program@, phase_settings@), false, u64::MAX as nat);
    let mut started: bool = false;
    let mut rounds: u64 = u64::MAX;
    while rounds > 0
        invariant
            n == engines@.len(),
            n > 0,
            goal == feedback(ring_start(program@, phase_settings@), false, u64::MAX as nat),
            goal == feedback(snapshots(engines@), started, rounds as nat),
        decreases rounds,
    {
        let ghost ring = snapshots(engines@);
        let ghost before = Progress { moved: false, started };
        let mut moved: bool = false;
        let mut i: usize = 0;
        while i < n
            invariant
                i <= n,
                n == engines@.len(),
                n == ring.len(),
                rounds > 0,
                n > 0,
                goal == feedback(ring_start(program@, phase_settings@), false, u64::MAX as nat),
                goal == feedback(ring, before.started, rounds as nat),
                !before.moved,
                round(ring, 0, before) == round(
                    snapshots(engines@),
                    i as int,
                    Progress { moved, started },
                ),
            decreases n - i,
        {
            match take_turn(&mut engines, i) {
                Ok((output, input)) => {
                    moved = moved || output;
                    started = started || (i == 0 && input);
                },
                Err(fault) => {
                    return Err(AmpError::Machine(fault));
                },
            }
            i = i + 1;
        }
        if all_at_halt(&engines) {
            let first: &QueueInput = engines[0].input();
            let signal: Option<i64> = if started {
                first.peek()
            } else {
                first.second()
            };
            return match signal {
                Some(signal) => Ok(signal),
                None => Err(AmpError::NoSignal),
            };
        }
        if !moved {
            return Err(AmpError::Machine(Fault::NoInput));
        }
        rounds = rounds - 1;
    }
    Err(AmpError::Machine(Fault::StepLimit))
}

/// The product of the numbers from 1 to `n`.
pub open spec fn spec_factorial(n: nat) -> nat
    decreases n,
{
    if n == 0 {
        1
    } else {
        n * spec_factorial((n - 1) as nat)
    }
}

/// The factorial grows with its argument, and is never 0.
pub proof fn lemma_factorial_grows(m: nat, n: nat)
    requires
        m <= n,
    ensures
        1 <= spec_factorial(m) <= spec_factorial(n),
    decreases n,
{
    if n > 0 {
        if m < n {
            lemma_factorial_grows(m, (n - 1) as nat);
            assert(spec_factorial((n - 1) as nat) <= n * spec_factorial((n - 1) as nat))
                by (nonlinear_arith)
                requires
                    n >= 1,
            ;
        } else {
            lemma_factorial_grows((m - 1) as nat, (n - 1) as nat);
            assert(1 <= n * spec_factorial((n - 1) as nat)) by (nonlinear_arith)
                requires
                    n >= 1,
                    spec_factorial((n - 1) as nat) >= 1,
            ;
        }
    }
}

/// The factorial of `n`, where the machine's word holds it.
///
/// Calls `factorial::Factorial::factorial`, which its documentation says to return
/// the factorial of the number, and which fails where the product does not fit:
/// that is left out.
#[verifier::external_body]
fn factorial_of(n: usize) -> (product: usize)
    requires
        spec_factorial(n as nat) <= usize::MAX,
    ensures
        product == spec_factorial(n as nat),
{
    factorial::Factorial::factorial(&n)
}

/// The sequences that arise from `p` when `x` is put in at each place, from the
/// front to the back.
pub open spec fn inserted(p: Seq<i64>, x: i64) -> Seq<Seq<i64>> {
    Seq::new(p.len() + 1, |i: int| p.insert(i, x))
}

/// For each of `ps` in turn, the sequences that arise from it when `x` is put in
/// at each place.
pub open spec fn spread(ps: Seq<Seq<i64>>, x: i64) -> Seq<Seq<i64>>
    decreases ps.len(),
{
    if ps.len() == 0 {
        Seq::empty()
    } else {
        spread(ps.drop_last(), x) + inserted(ps.last(), x)
    }
}

/// The arrangements of `values`: those of all but the first value, with the
/// first value put in at each place.
pub open spec fn arrangements(values: Seq<i64>) -> Seq<Seq<i64>>
    decreases values.len(),
{
    if values.len() == 0 {
        seq![Seq::empty()]
    } else {
        spread(arrangements(values.skip(1)), values[0])
    }
}

/// What each of `perms` holds.
pub open spec fn each(perms: Seq<Vec<i64>>) -> Seq<Seq<i64>> {
    Seq::new(perms.len(), |k: int| perms[k]@)
}

/// Putting a value in at each place of sequences of `n` values gives `n + 1`
/// times as many sequences, each with the same values and the one put in.
proof fn lemma_spread(ps: Seq<Seq<i64>>, x: i64, n: nat, values: Seq<i64>)
    requires
        forall|k: int| 0 <= k < ps.len() ==> (#[trigger] ps[k]).len() == n && ps[k].to_multiset()
            == values.to_multiset(),
    ensures
        spread(ps, x).len() == ps.len() * (n + 1),
        forall|k: int|
            0 <= k < spread(ps, x).len() ==> (#[trigger] spread(ps, x)[k]).len() == n + 1 && spread(
                ps,
                x,
            )[k].to_multiset() == values.to_multiset().insert(x),
    decreases ps.len(),
{
    if ps.len() > 0 {
        let p = ps.last();
        lemma_spread(ps.drop_last(), x, n, values);
        assert(ps.len() * (n + 1) == (ps.len() - 1) * (n + 1) + (n + 1)) by (nonlinear_arith);
        assert forall|k: int| 0 <= k < spread(ps, x).len() implies (#[trigger] spread(
            ps,
            x,
        )[k]).len() == n + 1 && spread(ps, x)[k].to_multiset() == values.to_multiset().insert(
            x,
        ) by {
            let shorter = spread(ps.drop_last(), x);
            if k >= shorter.len() {
                let i = k - shorter.len();
                assert(spread(ps, x)[k] == p.insert(i, x));
                let front = p.subrange(0, i);
                let back = p.subrange(i, p.len() as int);
                assert(p =~= front + back);
                vstd::seq_lib::lemma_multiset_commutative(front, back);
                vstd::seq_lib::lemma_multiset_commutative(front.push(x), back);
                vstd::seq_lib::to_multiset_build(front, x);
                assert(p.insert(i, x).to_multiset() =~= p.to_multiset().insert(x));
            } else {
                assert(spread(ps, x)[k] == shorter[k]);
            }
        }
    }
}

/// There are as many arrangements of values as the factorial of their number
/// says, and each holds the same values, each as often.
pub proof fn lemma_arrangements(values: Seq<i64>)
    ensures
        arrangements(values).len() == spec_factorial(values.len()),
        forall|k: int|
            0 <= k < arrangements(values).len() ==> (#[trigger] arrangements(values)[k]).len()
                == values.len() && arrangements(values)[k].to_multiset() == values.to_multiset(),
    decreases values.len(),
{
    if values.len() > 0 {
        let rest = values.skip(1);
        lemma_arrangements(rest);
        lemma_spread(arrangements(rest), values[0], rest.len(), rest);
        assert(values =~= seq![values[0]] + rest);
        vstd::seq_lib::lemma_multiset_commutative(seq![values[0]], rest);
        vstd::seq_lib::to_multiset_build(Seq::<i64>::empty(), values[0]);
        assert(Seq::<i64>::empty().push(values[0]) =~= seq![values[0]]);
        assert(values.to_multiset() =~= rest.to_multiset().insert(values[0])) by {
            broadcast use vstd::multiset::group_multiset_axioms;
            broadcast use vstd::seq_lib::group_to_multiset_ensures;

        }
        assert(spec_factorial(rest.len()) * (rest.len() + 1) == spec_factorial(values.len()))
            by (nonlinear_arith)
            requires
                values.len() == rest.len() + 1,
                spec_factorial(values.len()) == values.len() * spec_factorial(rest.len()),
        ;
    } else {
        assert(arrangements(values)[0] =~= values);
    }
}

/// The sequences that arise from one of `ps` when `x` is put in are among those
/// that arise from all of them.
proof fn lemma_spread_contains(ps: Seq<Seq<i64>>, x: i64, k: int, i: int)
    requires
        0 <= k < ps.len(),
        0 <= i <= ps[k].len(),
    ensures
        spread(ps, x).contains(ps[k].insert(i, x)),
    decreases ps.len(),
{
    let shorter = spread(ps.drop_last(), x);
    if k == ps.len() - 1 {
        assert(inserted(ps.last(), x)[i] == ps[k].insert(i, x));
        assert(spread(ps, x)[shorter.len() + i] == ps[k].insert(i, x));
    } else {
        lemma_spread_contains(ps.drop_last(), x, k, i);
        let j = choose|j: int| 0 <= j < shorter.len() && shorter[j] == ps[k].insert(i, x);
        assert(spread(ps, x)[j] == shorter[j]);
    }
}

/// Every sequence that holds the same values as `values`, each as often, is
/// among the arrangements of `values`.
pub proof fn lemma_arrangements_complete(values: Seq<i64>, p: Seq<i64>)
    requires
        p.to_multiset() == values.to_multiset(),
    ensures
        arrangements(values).contains(p),
    decreases values.len(),
{
    p.to_multiset_ensures();
    values.to_multiset_ensures();
    assert(p.len() == values.len());
    if values.len() == 0 {
        assert(p =~= Seq::<i64>::empty());
        assert(arrangements(values)[0] == p);
    } else {
        let x = values[0];
        let rest = values.skip(1);
        assert(values.contains(x));
        assert(values.to_multiset().count(x) > 0);
        assert(p.contains(x));
        let i = choose|i: int| 0 <= i < p.len() && p[i] == x;
        let q = p.remove(i);
        q.to_multiset_ensures();
        rest.to_multiset_ensures();
        assert(values.remove(0) =~= rest);
        assert(q.to_multiset() =~= rest.to_multiset());
        lemma_arrangements_complete(rest, q);
        let ps = arrangements(rest);
        let k = choose|k: int| 0 <= k < ps.len() && ps[k] == q;
        lemma_spread_contains(ps, x, k, i);
        assert(q.insert(i, x) =~= p);
    }
}

/// How many arrangements of `values` there are.
pub fn num_permutations(values: &[i64]) -> (count: usize)
    requires
        spec_factorial(values@.len()) <= usize::MAX,
    ensures
        count == arrangements(values@).len(),
{
    proof {
        lemma_arrangements(values@);
    }
    factorial_of(values.len())
}

/// All the arrangements of `values`.
pub fn permutations(values: &[i64]) -> (perms: Vec<Vec<i64>>)
    requires
        spec_factorial(values@.len()) <= usize::MAX,
    ensures
        each(perms@) == arrangements(values@),
    decreases values@.len(),
{
    let n: usize = values.len();
    if n == 0 {
        let mut perms: Vec<Vec<i64>> = Vec::new();
        perms.push(Vec::new());
        assert(each(perms@) =~= arrangements(values@));
        return perms;
    }
    proof {
        lemma_factorial_grows((n - 1) as nat, n as nat);
    }
    let mut perms: Vec<Vec<i64>> = Vec::with_capacity(num_permutations(values));
    let first: i64 = values[0];
    let rest: Vec<Vec<i64>> = permutations(vstd::slice::slice_subrange(values, 1, n));
    assert(values@.subrange(1, n as int) =~= values@.skip(1));
    let ghost ps = arrangements(values@.skip(1));
    proof {
        lemma_arrangements(values@.skip(1));
    }
    let mut j: usize = 0;
    assert(ps.take(0) =~= Seq::<Seq<i64>>::empty());
    assert(each(perms@) =~= spread(ps.take(0), first));
    while j < rest.len()
        invariant
            j <= rest@.len(),
            each(rest@) == ps,
            forall|k: int| 0 <= k < ps.len() ==> (#[trigger] ps[k]).len() < n,
            each(perms@) == spread(ps.take(j as int), first),
        decreases rest@.len() - j,
    {
        let p: &Vec<i64> = &rest[j];
        assert(p@ == ps[j as int]);
        let ghost done = each(perms@);
        let mut i: usize = 0;
        assert(inserted(p@, first).take(0) =~= Seq::<Seq<i64>>::empty());
        assert(each(perms@) =~= done + inserted(p@, first).take(0));
        while i <= p.len()
            invariant
                i <= p@.len() + 1,
                p@.len() < n,
                each(perms@) == done + inserted(p@, first).take(i as int),
            decreases p@.len() + 1 - i,
        {
            let mut perm: Vec<i64> = Vec::new();
            let mut a: usize = 0;
            while a < i
                invariant
                    a <= i <= p@.len(),
                    perm@ == p@.subrange(0, a as int),
                decreases i - a,
            {
                perm.push(p[a]);
                assert(p@.subrange(0, a + 1) =~= p@.subrange(0, a as int).push(p@[a as int]));
                a = a + 1;
            }
            perm.push(first);
            while a < p.len()
                invariant
                    i <= a <= p@.len(),
                    perm@ == p@.subrange(0, i as int).push(first) + p@.subrange(i as int, a as int),
                decreases p@.len() - a,
            {
                perm.push(p[a]);
                assert(p@.subrange(i as int, a + 1) =~= p@.subrange(i as int, a as int).push(
                    p@[a as int],
                ));
                a = a + 1;
            }
            proof {
                let all = inserted(p@, first);
                assert(perm@ == all[i as int]);
                assert(all.take(i + 1) =~= all.take(i as int).push(perm@));
                assert(each(perms@.push(perm)) =~= each(perms@).push(perm@));
            }
            perms.push(perm);
            i = i + 1;
        }
        proof {
            let all = inserted(p@, first);
            assert(all.take(all.len() as int) =~= all);
            assert(ps.take(j + 1).drop_last() =~= ps.take(j as int));
        }
        j = j + 1;
    }
    assert(ps.take(ps.len() as int) =~= ps);
    perms
}

/// The signal of amplifiers with the phase settings `phases`: in a ring where
/// `ring` says so, else in a chain.
pub open spec fn signal(program: Seq<i64>, phases: Seq<i64>, ring: bool) -> Result<i64, AmpError> {
    if ring {
        feedback(ring_start(program, phases), false, u64::MAX as nat)
    } else {
        chained(program, phases, 0)
    }
}

/// The greatest signal of the first `n` of the settings `all`, none where `n`
/// is 0; or the error of the first of them that gives no signal.
pub open spec fn greatest(program: Seq<i64>, all: Seq<Seq<i64>>, ring: bool, n: int) -> Result<
    Option<i64>,
    AmpError,
>
    decreases n,
{
    if n <= 0 {
        Ok(None)
    } else {
        match greatest(program, all, ring, n - 1) {
            Err(error) => Err(error),
            Ok(best) => match signal(program, all[n - 1], ring) {
                Err(error) => Err(error),
                Ok(next) => Ok(
                    Some(
                        if best is Some && best->0 >= next {
                            best->0
                        } else {
                            next
                        },
                    ),
                ),
            },
        }
    }
}

/// An error among the first `m` settings is the error of any more of them.
proof fn lemma_greatest_fails(program: Seq<i64>, all: Seq<Seq<i64>>, ring: bool, m: int, n: int)
    requires
        m <= n,
    ensures
        greatest(program, all, ring, m) is Err ==> greatest(program, all, ring, n) == greatest(
            program,
            all,
            ring,
            m,
        ),
    decreases n - m,
{
    if m < n {
        lemma_greatest_fails(program, all, ring, m, n - 1);
    }
}

/// Computes the greatest signal that the amplifiers give, over all
/// arrangements of the phase settings `phase_values`.
pub fn best_signal(program: &[i64], phase_values: &[i64], ring: bool) -> (r: Result<i64, AmpError>)
    requires
        phase_values@.len() > 0,
        spec_factorial(phase_values@.len()) <= usize::MAX,
    ensures
        match r {
            Ok(best) => greatest(
                program@,
                arrangements(phase_values@),
                ring,
                arrangements(phase_values@).len() as int,
            ) == Ok::<Option<i64>, AmpError>(Some(best)),
            Err(error) => greatest(
                program@,
                arrangements(phase_values@),
                ring,
                arrangements(phase_values@).len() as int,
            ) == Err::<Option<i64>, AmpError>(error),
        },
{
    let perms: Vec<Vec<i64>> = permutations(phase_values);
    let ghost all = arrangements(phase_values@);
    proof {
        lemma_arrangements(phase_values@);
        lemma_factorial_grows(0, phase_values@.len());
    }
    let mut best: Option<i64> = None;
    let mut k: usize = 0;
    while k < perms.len()
        invariant
            k <= perms@.len(),
            each(perms@) == all,
            all == arrangements(phase_values@),
            all.len() >= 1,
            forall|i: int| 0 <= i < all.len() ==> (#[trigger] all[i]).len() == phase_values@.len(),
            phase_values@.len() > 0,
            greatest(program@, all, ring, k as int) == Ok::<Option<i64>, AmpError>(best),
            k > 0 ==> best is Some,
        decreases perms@.len() - k,
    {
        let p: &Vec<i64> = &perms[k];
        assert(p@ == all[k as int]);
        proof {
            lemma_greatest_fails(program@, all, ring, k as int + 1, all.len() as int);
        }
        let next: i64 = if ring {
            thruster_signal_2(program, p.as_slice())?
        } else {
            thruster_signal_1(program, p.as_slice())?
        };
        best = match best {
            Some(so_far) => if so_far >= next {
                Some(so_far)
            } else {
                Some(next)
            },
            None => Some(next),
        };
        k = k + 1;
    }
    match best {
        Some(best) => Ok(best),
        None => Err(AmpError::NoSignal),
    }
}

/// Amplifiers connected in series, with the phase settings 0 to 4.
pub fn part1(program: &[i64]) -> (r: Result<i64, AmpError>)
    ensures
        match r {
            Ok(best) => greatest(
                program@,
                arrangements(seq![0i64, 1, 2, 3, 4]),
                false,
                arrangements(seq![0i64, 1, 2, 3, 4]).len() as int,
            ) == Ok::<Option<i64>, AmpError>(Some(best)),
            Err(error) => greatest(
                program@,
                arrangements(seq![0i64, 1, 2, 3, 4]),
                false,
                arrangements(seq![0i64, 1, 2, 3, 4]).len() as int,
            ) == Err::<Option<i64>, AmpError>(error),
        },
{
    let phases: [i64; 5] = [0, 1, 2, 3, 4];
    assert(phases@ =~= seq![0i64, 1, 2, 3, 4]);
    proof {
        lemma_five();
    }
    best_signal(program, phases.as_slice(), false)
}

/// Amplifiers connected in a feedback loop, with the phase settings 5 to 9.
pub fn part2(program: &[i64]) -> (r: Result<i64, AmpError>)
    ensures
        match r {
            Ok(best) => greatest(
                program@,
                arrangements(seq![5i64, 6, 7, 8, 9]),
                true,
                arrangements(seq![5i64, 6, 7, 8, 9]).len() as int,
            ) == Ok::<Option<i64>, AmpError>(Some(best)),
            Err(error) => greatest(
                program@,
                arrangements(seq![5i64, 6, 7, 8, 9]),
                true,
                arrangements(seq![5i64, 6, 7, 8, 9]).len() as int,
            ) == Err::<Option<i64>, AmpError>(error),
        },
{
    let phases: [i64; 5] = [5, 6, 7, 8, 9];
    assert(phases@ =~= seq![5i64, 6, 7, 8, 9]);
    proof {
        lemma_five();
    }
    best_signal(program, phases.as_slice(), true)
}

/// The factorial of 5 is 120.
proof fn lemma_five()
    ensures
        spec_factorial(5) == 120,
{
    reveal_with_fuel(spec_factorial, 6);
}

} // verus!
