//! The execution engine: memory, program counter, relative base and the two
//! I/O devices.

use vstd::prelude::*;
use crate::builder::{fresh_output, no_input, with_args, CPUBuilder};
use crate::device::{Input, InputModel, Output, OutputModel, QueueInput, VecOutput};
use crate::fault::Fault;
use crate::instruction::{
    lemma_decode_params,
    Instruction,
    Operation,
    ParamMode,
    ParamType,
};
use crate::machine::{
    deref,
    fetch,
    last_start,
    lemma_resolve_all,
    lemma_resolve_all_fault,
    load,
    resolve,
    resolve_all,
    run_for,
    step,
    Snapshot,
};
use crate::memory::{read, Memory};

verus! {

/// What a run that executed at most `n` instructions from `s` gives back: the
/// value at address 0 where the run has halted, the fault where it faulted, and
/// `Fault::StepLimit` where it was still going after `n` instructions.
pub open spec fn outcome(s: Snapshot, n: nat) -> Result<i64, Fault> {
    match run_for(s, n).1 {
        Ok(false) => Ok(read(run_for(s, n).0.mem, 0)),
        Ok(true) => Err(Fault::StepLimit),
        Err(fault) => Err(fault),
    }
}

/// A computer that runs Intcode programs.
pub struct CPU<I, O> {
    /// The current state of memory.
    mem: Memory,
    /// The program counter: the address of the next instruction.
    pc: i64,
    /// The relative base, the address offset of operands in relative mode.
    relative_base: i64,
    /// Where input comes from.
    get_input: I,
    /// Where output goes.
    send_output: O,
}

impl<I: Input, O: Output> View for CPU<I, O> {
    type V = Snapshot;

    closed spec fn view(&self) -> Snapshot {
        Snapshot {
            mem: self.mem@,
            pc: self.pc,
            base: self.relative_base,
            input: self.get_input.input_model(),
            output: self.send_output.output_model(),
        }
    }
}

impl CPU<QueueInput, VecOutput> {
    /// A computer with the given starting memory, an input device that fails when
    /// asked, and an output device that keeps what it is sent.
    pub fn new(initial_memory: Vec<i64>) -> (cpu: Self)
        ensures
            cpu@ == load(initial_memory@, no_input(), fresh_output()),
    {
        CPUBuilder::new(initial_memory).default_io()
    }
}

impl<O: Output> CPU<QueueInput, O> {
    /// Puts `value` behind the input that is waiting.
    pub fn feed(&mut self, value: i64)
        ensures
            final(self)@ == (Snapshot {
                input: InputModel {
                    pending: old(self)@.input.pending.push(value),
                    at_end: old(self)@.input.at_end,
                },
                ..old(self)@
            }),
    {
        self.get_input.push(value);
    }
}

impl<I: Input> CPU<I, VecOutput> {
    /// Takes out the output that was kept so far.
    pub fn drain_output(&mut self) -> (values: Vec<i64>)
        ensures
            values@ == old(self)@.output.sent,
            final(self)@ == (Snapshot {
                output: OutputModel {
                    sent: Seq::empty(),
                    room: old(self)@.output.room,
                },
                ..old(self)@
            }),
    {
        self.send_output.take()
    }
}

impl<I: Input, O: Output> CPU<I, O> {
    /// A computer that is about to start the program in `memory`, with the two
    /// devices.
    pub fn with_devices(memory: Memory, get_input: I, send_output: O) -> (cpu: Self)
        ensures
            cpu@ == load(memory@, get_input.input_model(), send_output.output_model()),
    {
        CPU { mem: memory, pc: 0, relative_base: 0, get_input, send_output }
    }

    /// Writes the arguments that the program is run with, noun and verb, to the
    /// addresses 1 and 2.
    pub fn args(self, noun: i64, verb: i64) -> (cpu: Self)
        ensures
            cpu@ == (Snapshot { mem: with_args(self@.mem, Some((noun, verb))), ..self@ }),
    {
        let mut cpu = self;
        cpu.mem.set(1, noun);
        cpu.mem.set(2, verb);
        cpu
    }

    /// Puts another input device in the place of the one that the computer has.
    pub fn input_fn<D: Input>(self, get_input: D) -> (cpu: CPU<D, O>)
        ensures
            cpu@ == (Snapshot { input: get_input.input_model(), ..self@ }),
    {
        CPU {
            mem: self.mem,
            pc: self.pc,
            relative_base: self.relative_base,
            get_input,
            send_output: self.send_output,
        }
    }

    /// Puts another output device in the place of the one that the computer
    /// has.
    pub fn output_fn<D: Output>(self, send_output: D) -> (cpu: CPU<I, D>)
        ensures
            cpu@ == (Snapshot { output: send_output.output_model(), ..self@ }),
    {
        CPU {
            mem: self.mem,
            pc: self.pc,
            relative_base: self.relative_base,
            get_input: self.get_input,
            send_output,
        }
    }

    /// Executes instructions until the program halts, a device signals it to, or
    /// an instruction faults; then returns the value at address 0.
    ///
    /// One call executes at most `u64::MAX` instructions.
    pub fn run(self) -> (r: Result<i64, Fault>)
        ensures
            r == outcome(self@, u64::MAX as nat),
    {
        self.run_within(u64::MAX)
    }

    /// Executes at most `limit` instructions, and returns the value at address 0
    /// where the run has ended by then. A run that is still going is reported
    /// as `Fault::StepLimit`.
    pub fn run_within(self, limit: u64) -> (r: Result<i64, Fault>)
        ensures
            r == outcome(self@, limit as nat),
    {
        let mut cpu = self;
        match cpu.run_steps(limit) {
            Ok(false) => Ok(cpu.mem.get(0)),
            Ok(true) => Err(Fault::StepLimit),
            Err(fault) => Err(fault),
        }
    }

    /// Executes instructions as `run` does, and keeps the computer, so that its
    /// memory and its devices can be looked at afterwards.
    pub fn run_internal(&mut self) -> (r: Result<bool, Fault>)
        ensures
            (final(self)@, r) == run_for(old(self)@, u64::MAX as nat),
    {
        self.run_steps(u64::MAX)
    }

    /// Executes at most `limit` instructions, and fewer where the run ends
    /// before. `Ok(true)` says that the computer can go on.
    pub fn run_steps(&mut self, limit: u64) -> (r: Result<bool, Fault>)
        ensures
            (final(self)@, r) == run_for(old(self)@, limit as nat),
    {
        let mut done: u64 = 0;
        while done < limit
            invariant
                done <= limit,
                run_for(old(self)@, limit as nat) == run_for(self@, (limit - done) as nat),
            decreases limit - done,
        {
            match self.step() {
                Ok(true) => {
                    done = done + 1;
                },
                other => {
                    return other;
                },
            }
        }
        Ok(true)
    }

    /// Executes one instruction and moves the program counter.
    ///
    /// `Ok(false)` says that execution is to stop: the instruction is a halt, or
    /// a device signalled the computer to halt.
    pub fn step(&mut self) -> (r: Result<bool, Fault>)
        ensures
            (final(self)@, r) == step(old(self)@),
    {
        if self.pc < 0 {
            return Err(Fault::InvalidAddress);
        }
        let instr: Instruction = Instruction::new(self.mem.get(self.pc))?;
        if self.pc > i64::MAX - 4 {
            return Err(Fault::InvalidAddress);
        }
        proof {
            lemma_decode_params(
                read(self@.mem, self.pc as int) as int,
                instr.op.operands(),
                instr.op.operands().len() as int,
            );
        }
        let args: Vec<i64> = self.get_args(&instr)?;
        proof {
            lemma_resolve_all(self@, instr@.params, instr@.params.len() as int);
        }
        match instr.op {
            Operation::Add => {
                assert(resolve(self@, instr@.params[2], 2) == Ok::<i64, Fault>(args@[2]));
                self.mem.set(args[2], args[0].wrapping_add(args[1]));
            },
            Operation::Multiply => {
                assert(resolve(self@, instr@.params[2], 2) == Ok::<i64, Fault>(args@[2]));
                self.mem.set(args[2], args[0].wrapping_mul(args[1]));
            },
            Operation::GetInput => {
                assert(resolve(self@, instr@.params[0], 0) == Ok::<i64, Fault>(args@[0]));
                match self.get_input.next_input() {
                    Ok(Some(input)) => {
                        self.mem.set(args[0], input);
                    },
                    Ok(None) => {
                        return Ok(false);
                    },
                    Err(fault) => {
                        return Err(fault);
                    },
                }
            },
            Operation::SendOutput => match self.send_output.send(args[0]) {
                Some(()) => (),
                None => {
                    return Ok(false);
                },
            },
            Operation::JumpIfTrue => {
                if args[0] != 0 {
                    self.pc = args[1];
                } else {
                    self.update_pc(&instr);
                }
            },
            Operation::JumpIfFalse => {
                if args[0] == 0 {
                    self.pc = args[1];
                } else {
                    self.update_pc(&instr);
                }
            },
            Operation::LessThan => {
                assert(resolve(self@, instr@.params[2], 2) == Ok::<i64, Fault>(args@[2]));
                let b: i64 = if args[0] < args[1] {
                    1
                } else {
                    0
                };
                self.mem.set(args[2], b);
            },
            Operation::Equals => {
                assert(resolve(self@, instr@.params[2], 2) == Ok::<i64, Fault>(args@[2]));
                let b: i64 = if args[0] == args[1] {
                    1
                } else {
                    0
                };
                self.mem.set(args[2], b);
            },
            Operation::RelativeBaseOffset => {
                self.relative_base = self.relative_base.wrapping_add(args[0]);
            },
            Operation::Halt => {
                return Ok(false);
            },
        }
        if instr.op.auto_inc_pc() {
            self.update_pc(&instr);
        }
        Ok(true)
    }

    /// The arguments of the instruction at the program counter: a value for each
    /// operand that is read, an address for each that is written.
    fn get_args(&self, instr: &Instruction) -> (r: Result<Vec<i64>, Fault>)
        requires
            0 <= self@.pc <= last_start(),
            instr@.params.len() <= 3,
        ensures
            match r {
                Ok(args) => resolve_all(self@, instr@.params, instr@.params.len() as int) == Ok::<
                    Seq<i64>,
                    Fault,
                >(args@),
                Err(fault) => resolve_all(self@, instr@.params, instr@.params.len() as int) == Err::<
                    Seq<i64>,
                    Fault,
                >(fault),
            },
    {
        let mut args: Vec<i64> = Vec::new();
        let mut k: usize = 0;
        while k < instr.params.len()
            invariant
                k <= instr.params.len() <= 3,
                0 <= self@.pc <= last_start(),
                resolve_all(self@, instr@.params, k as int) == Ok::<Seq<i64>, Fault>(args@),
            decreases instr.params.len() - k,
        {
            let typ: ParamType = instr.params[k].0;
            let mode: ParamMode = instr.params[k].1;
            let offset: i64 = k as i64 + 1;
            let mut param: i64 = self.mem.get(self.pc + offset);
            proof {
                lemma_resolve_all_fault(
                    self@,
                    instr@.params,
                    k as int + 1,
                    instr@.params.len() as int,
                );
            }
            // Adjust for the relative base.
            if mode == ParamMode::Relative {
                param = match param.checked_add(self.relative_base) {
                    Some(sum) => sum,
                    None => {
                        return Err(Fault::InvalidAddress);
                    },
                };
            }
            match self.deref_param(param, typ, mode) {
                Ok(arg) => {
                    args.push(arg);
                },
                Err(fault) => {
                    return Err(fault);
                },
            }
            k = k + 1;
        }
        Ok(args)
    }

    /// Dereferences `param` where its type and mode ask for it. The relative
    /// base is not accounted for here: the caller has added it.
    fn deref_param(&self, param: i64, typ: ParamType, mode: ParamMode) -> (r: Result<i64, Fault>)
        ensures
            r == deref(self@.mem, param, typ, mode),
    {
        match typ {
            ParamType::Read => {
                if mode == ParamMode::Immediate {
                    // An immediate operand is the value.
                    Ok(param)
                } else if param < 0 {
                    Err(Fault::InvalidAddress)
                } else {
                    Ok(self.mem.get(param))
                }
            },
            ParamType::Write => {
                if mode == ParamMode::Immediate {
                    Err(Fault::ImmediateWrite)
                } else if param < 0 || param as u64 >= usize::MAX as u64 {
                    Err(Fault::InvalidAddress)
                } else {
                    // An operand that is written is the address.
                    Ok(param)
                }
            },
        }
    }

    /// Moves the program counter past `instr`: one cell for the instruction and
    /// one for each operand.
    fn update_pc(&mut self, instr: &Instruction)
        requires
            old(self)@.pc + 1 + instr@.params.len() <= i64::MAX,
            instr@.params.len() <= 3,
        ensures
            final(self)@ == (Snapshot {
                pc: (old(self)@.pc + 1 + instr@.params.len()) as i64,
                ..old(self)@
            }),
    {
        let offset: i64 = 1 + instr.params.len() as i64;
        self.pc = self.pc + offset;
    }

    /// Whether the instruction at the program counter is a halt.
    pub fn at_halt(&self) -> (halted: bool)
        ensures
            halted == (fetch(self@) matches Ok(instr) && instr.op == Operation::Halt),
    {
        if self.pc < 0 || self.pc > i64::MAX - 4 {
            return false;
        }
        match Instruction::new(self.mem.get(self.pc)) {
            Ok(instr) => instr.op == Operation::Halt,
            Err(_) => false,
        }
    }

    /// The memory.
    pub fn memory(&self) -> (mem: &Memory)
        ensures
            mem@ == self@.mem,
    {
        &self.mem
    }

    /// Gives up the computer for its memory.
    pub fn into_memory(self) -> (mem: Memory)
        ensures
            mem@ == self@.mem,
    {
        self.mem
    }

    /// The output device.
    pub fn output(&self) -> (out: &O)
        ensures
            out.output_model() == self@.output,
    {
        &self.send_output
    }

    /// Gives up the computer for its output device.
    pub fn into_output(self) -> (out: O)
        ensures
            out.output_model() == self@.output,
    {
        self.send_output
    }

    /// The input device.
    pub fn input(&self) -> (input: &I)
        ensures
            input.input_model() == self@.input,
    {
        &self.get_input
    }
}

} // verus!
