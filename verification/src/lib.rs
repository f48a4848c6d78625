//! An interpreter for Intcode programs: flat sequences of signed 64-bit integers
//! that a small virtual machine decodes and executes.
//!
//! The machine is modelled by [`machine::Snapshot`], one instruction by the
//! spec function [`machine::step`], and a run by [`machine::run_for`]. Every
//! executable function of the engine is specified against that model:
//!
//! - [`memory`] holds the growable store, in which what was never written reads
//!   as zero;
//! - [`instruction`] decodes a raw integer into an operation and the modes of
//!   its operands;
//! - [`device`] has the two I/O devices of an engine, which serve a request,
//!   signal the engine to halt, or fail;
//! - [`cpu`] is the engine, and [`builder`] configures one step by step;
//! - [`program`] reads the text form of a program;
//! - [`laws`] and [`programs`] state what holds of every run, and of the runs
//!   of three small programs;
//! - [`amplifier`] connects several engines in a chain or in a ring;
//! - [`puzzle`] holds tasks that are solved with the engine or beside it.

pub mod amplifier;
pub mod builder;
pub mod cpu;
pub mod device;
pub mod fault;
pub mod instruction;
pub mod laws;
pub mod machine;
pub mod memory;
pub mod program;
pub mod programs;
pub mod puzzle;

pub use amplifier::{thruster_signal_1, thruster_signal_2, AmpError};
pub use builder::CPUBuilder;
pub use cpu::CPU;
pub use device::{Exhausted, Input, Output, QueueInput, VecOutput};
pub use fault::Fault;
pub use instruction::{Instruction, Operation, ParamMode, ParamType};
pub use memory::Memory;
pub use program::{get_line, parse_bytes, parse_mem, read_mem, ParseError};
