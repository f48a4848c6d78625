//! Step-by-step configuration of a computer: its memory, the two optional
//! program arguments, and the two I/O devices.

use vstd::prelude::*;
use crate::cpu::CPU;
use crate::device::{Exhausted, Input, InputModel, Output, OutputModel, QueueInput, VecOutput};
use crate::machine::load;
use crate::memory::{store, Memory};

verus! {

/// What has been configured so far.
pub struct Configuration<I, O> {
    /// The starting memory.
    pub mem: Seq<i64>,
    /// The program arguments, noun and verb, where they were given.
    pub args: Option<(i64, i64)>,
    /// The input device, where one was chosen.
    pub input: Option<I>,
    /// The output device, where one was chosen.
    pub output: Option<O>,
}

/// The memory that a program starts with: the arguments, where there are any,
/// are written to the addresses 1 and 2.
pub open spec fn with_args(mem: Seq<i64>, args: Option<(i64, i64)>) -> Seq<i64> {
    match args {
        Some((noun, verb)) => store(store(mem, 1, noun), 2, verb),
        None => mem,
    }
}

/// The model of the input device that fails whenever it is asked.
pub open spec fn no_input() -> InputModel {
    InputModel { pending: Seq::empty(), at_end: Exhausted::Fail }
}

/// The model of the output device that has taken nothing yet and takes any
/// number of values.
pub open spec fn fresh_output() -> OutputModel {
    OutputModel { sent: Seq::empty(), room: None }
}

/// The builder of a computer. Each part is chosen at most once; `finish` then
/// gives the computer.
pub struct CPUBuilder<I, O> {
    mem: Memory,
    args: Option<(i64, i64)>,
    get_input: Option<I>,
    send_output: Option<O>,
}

impl<I, O> View for CPUBuilder<I, O> {
    type V = Configuration<I, O>;

    closed spec fn view(&self) -> Configuration<I, O> {
        Configuration {
            mem: self.mem@,
            args: self.args,
            input: self.get_input,
            output: self.send_output,
        }
    }
}

impl<I, O> CPUBuilder<I, O> {
    /// Starts building, with the memory that the program is loaded into.
    pub fn new(initial_memory: Vec<i64>) -> (builder: Self)
        ensures
            builder@ == (Configuration::<I, O> {
                mem: initial_memory@,
                args: None,
                input: None,
                output: None,
            }),
    {
        CPUBuilder { mem: Memory::new(initial_memory), args: None, get_input: None, send_output: None }
    }

    /// Sets the arguments that the program is run with.
    pub fn args(self, noun: i64, verb: i64) -> (builder: Self)
        requires
            self@.args is None,
        ensures
            builder@ == (Configuration { args: Some((noun, verb)), ..self@ }),
    {
        CPUBuilder {
            mem: self.mem,
            args: Some((noun, verb)),
            get_input: self.get_input,
            send_output: self.send_output,
        }
    }

    /// Sets the input device, which may signal the computer to halt.
    pub fn input_or_halt(self, get_input: I) -> (builder: Self)
        requires
            self@.input is None,
        ensures
            builder@ == (Configuration { input: Some(get_input), ..self@ }),
    {
        CPUBuilder {
            mem: self.mem,
            args: self.args,
            get_input: Some(get_input),
            send_output: self.send_output,
        }
    }

    /// Sets the output device, which may signal the computer to halt.
    pub fn output_or_halt(self, send_output: O) -> (builder: Self)
        requires
            self@.output is None,
        ensures
            builder@ == (Configuration { output: Some(send_output), ..self@ }),
    {
        CPUBuilder {
            mem: self.mem,
            args: self.args,
            get_input: self.get_input,
            send_output: Some(send_output),
        }
    }
}

impl<I: Input, O: Output> CPUBuilder<I, O> {
    /// Finishes building: writes the arguments to memory, where they were given,
    /// and hands the memory and the two devices to a computer that is about to
    /// start.
    pub fn finish(self) -> (cpu: CPU<I, O>)
        requires
            self@.input is Some,
            self@.output is Some,
        ensures
            cpu@ == load(
                with_args(self@.mem, self@.args),
                self@.input->0.input_model(),
                self@.output->0.output_model(),
            ),
    {
        let mut mem: Memory = self.mem;
        // Write the arguments to memory, if given.
        if let Some((noun, verb)) = self.args {
            mem.set(1, noun);
            mem.set(2, verb);
        }
        CPU::with_devices(mem, self.get_input.unwrap(), self.send_output.unwrap())
    }
}

impl<O> CPUBuilder<(), O> {
    /// Sets the input device.
    pub fn input<D: Input>(self, get_input: D) -> (builder: CPUBuilder<D, O>)
        requires
            self@.input is None,
        ensures
            builder@ == (Configuration {
                mem: self@.mem,
                args: self@.args,
                input: Some(get_input),
                output: self@.output,
            }),
    {
        CPUBuilder {
            mem: self.mem,
            args: self.args,
            get_input: Some(get_input),
            send_output: self.send_output,
        }
    }

    /// Uses a list of values as the input. The computer fails when it asks for
    /// more values than the list holds.
    pub fn input_iter(self, input_iter: Vec<i64>) -> (builder: CPUBuilder<QueueInput, O>)
        requires
            self@.input is None,
        ensures
            builder@.mem == self@.mem,
            builder@.args == self@.args,
            builder@.output == self@.output,
            builder@.input matches Some(device) && device.input_model() == (InputModel {
                pending: input_iter@,
                at_end: Exhausted::Fail,
            }),
    {
        self.input(QueueInput::new(input_iter))
    }
}

impl<I> CPUBuilder<I, ()> {
    /// Sets the output device.
    pub fn output<D: Output>(self, send_output: D) -> (builder: CPUBuilder<I, D>)
        requires
            self@.output is None,
        ensures
            builder@ == (Configuration {
                mem: self@.mem,
                args: self@.args,
                input: self@.input,
                output: Some(send_output),
            }),
    {
        CPUBuilder {
            mem: self.mem,
            args: self.args,
            get_input: self.get_input,
            send_output: Some(send_output),
        }
    }

    /// Collects the output in a list, which the computer's output device then
    /// holds.
    pub fn output_vec(self) -> (builder: CPUBuilder<I, VecOutput>)
        requires
            self@.output is None,
        ensures
            builder@.mem == self@.mem,
            builder@.args == self@.args,
            builder@.input == self@.input,
            builder@.output matches Some(device) && device.output_model() == fresh_output(),
    {
        self.output(VecOutput::new())
    }
}

impl CPUBuilder<QueueInput, VecOutput> {
    /// Supplies the default devices, and finishes building.
    pub fn default_io(self) -> (cpu: CPU<QueueInput, VecOutput>)
        requires
            self@.input is None,
            self@.output is None,
        ensures
            cpu@ == load(with_args(self@.mem, self@.args), no_input(), fresh_output()),
    {
        self.default_in().default_out().finish()
    }
}

impl<O> CPUBuilder<QueueInput, O> {
    /// Supplies the default input device, which fails when it is asked.
    pub fn default_in(self) -> (builder: Self)
        requires
            self@.input is None,
        ensures
            builder@.mem == self@.mem,
            builder@.args == self@.args,
            builder@.output == self@.output,
            builder@.input matches Some(device) && device.input_model() == no_input(),
    {
        CPUBuilder {
            mem: self.mem,
            args: self.args,
            get_input: Some(QueueInput::new(Vec::new())),
            send_output: self.send_output,
        }
    }
}

impl<I> CPUBuilder<I, VecOutput> {
    /// Supplies the default output device, which keeps what it is sent.
    pub fn default_out(self) -> (builder: Self)
        requires
            self@.output is None,
        ensures
            builder@.mem == self@.mem,
            builder@.args == self@.args,
            builder@.input == self@.input,
            builder@.output matches Some(device) && device.output_model() == fresh_output(),
    {
        CPUBuilder {
            mem: self.mem,
            args: self.args,
            get_input: self.get_input,
            send_output: Some(VecOutput::new()),
        }
    }
}

} // verus!
