use intcode::ParamMode::{Immediate, Position, Relative};
use intcode::ParamType::{Read, Write};
use intcode::{
    parse_mem, CPUBuilder, Exhausted, Fault, Input, Instruction, Memory, Operation, Output,
    ParamMode, ParseError, QueueInput, VecOutput, CPU,
};

#[test]
fn memory_reads_zero_beyond_extent() {
    let mem = Memory::new(vec![7, 8, 9]);
    assert_eq!(7, mem.get(0));
    assert_eq!(9, mem.get(2));
    assert_eq!(0, mem.get(3));
    assert_eq!(0, mem.get(1_000_000_000_000));
    assert_eq!(0, mem.get(i64::MAX));
    assert_eq!(3, mem.len());
}

#[test]
fn memory_grows_with_zeros() {
    let mut mem = Memory::new(vec![1, 2]);
    mem.set(1000, 42);
    assert_eq!(1001, mem.len());
    assert_eq!(42, mem.get(1000));
    assert_eq!(1, mem.get(0));
    assert_eq!(2, mem.get(1));
    for addr in 2..1000 {
        assert_eq!(0, mem.get(addr));
    }
    assert_eq!(0, mem.get(1001));
    mem.set(500, -5);
    assert_eq!(1001, mem.len());
    assert_eq!(-5, mem.get(500));
    assert_eq!(42, mem.get(1000));
    let cells = mem._into_vec();
    assert_eq!(1001, cells.len());
    assert_eq!(-5, cells[500]);
}

#[test]
fn memory_set_within_extent_keeps_length() {
    let mut mem = Memory::new(vec![1, 2, 3]);
    mem.set(0, 9);
    mem.set(2, 8);
    assert_eq!(vec![9, 2, 8], mem._into_vec());
    let mut empty = Memory::new(vec![]);
    empty.set(0, 5);
    assert_eq!(vec![5], empty._into_vec());
}

#[test]
fn program_writes_far_beyond_its_length() {
    // Stores 77 at address 1000 and reads it back, with three cells in between.
    let program = vec![1101, 70, 7, 1000, 4, 1000, 4, 999, 4, 500, 99];
    let mut cpu = CPUBuilder::new(program).input_iter(vec![]).output_vec().finish();
    assert_eq!(Ok(false), cpu.run_internal());
    assert_eq!(&vec![77, 0, 0], cpu.output().values());
    let cells = cpu.into_memory()._into_vec();
    assert_eq!(1001, cells.len());
    assert!(cells[11..1000].iter().all(|&cell| cell == 0));
}

#[test]
fn operations_by_code() {
    let all = [
        (1, Operation::Add),
        (2, Operation::Multiply),
        (3, Operation::GetInput),
        (4, Operation::SendOutput),
        (5, Operation::JumpIfTrue),
        (6, Operation::JumpIfFalse),
        (7, Operation::LessThan),
        (8, Operation::Equals),
        (9, Operation::RelativeBaseOffset),
        (99, Operation::Halt),
    ];
    for (code, op) in all {
        assert_eq!(Ok(op), Operation::new(code));
        assert_eq!(code, op._code());
    }
    for code in [0, 10, 98, 100, -1, -99, 101, i64::MAX, i64::MIN] {
        assert_eq!(Err(Fault::UnknownOperation), Operation::new(code));
    }
}

#[test]
fn operand_types_and_counter() {
    assert_eq!(vec![Read, Read, Write], Operation::Add.param_types());
    assert_eq!(vec![Read, Read, Write], Operation::Multiply.param_types());
    assert_eq!(vec![Write], Operation::GetInput.param_types());
    assert_eq!(vec![Read], Operation::SendOutput.param_types());
    assert_eq!(vec![Read, Read], Operation::JumpIfTrue.param_types());
    assert_eq!(vec![Read, Read], Operation::JumpIfFalse.param_types());
    assert_eq!(vec![Read, Read, Write], Operation::LessThan.param_types());
    assert_eq!(vec![Read, Read, Write], Operation::Equals.param_types());
    assert_eq!(vec![Read], Operation::RelativeBaseOffset.param_types());
    assert!(Operation::Halt.param_types().is_empty());

    assert!(Operation::Add.auto_inc_pc());
    assert!(Operation::GetInput.auto_inc_pc());
    assert!(Operation::RelativeBaseOffset.auto_inc_pc());
    assert!(!Operation::JumpIfTrue.auto_inc_pc());
    assert!(!Operation::JumpIfFalse.auto_inc_pc());
    assert!(!Operation::Halt.auto_inc_pc());
}

#[test]
fn modes_by_digit() {
    assert_eq!(Ok(ParamMode::Position), ParamMode::new(0));
    assert_eq!(Ok(ParamMode::Immediate), ParamMode::new(1));
    assert_eq!(Ok(ParamMode::Relative), ParamMode::new(2));
    assert_eq!(Err(Fault::InvalidMode), ParamMode::new(3));
    assert_eq!(Err(Fault::InvalidMode), ParamMode::new(-1));
}

#[test]
fn instructions_decode_digit_by_digit() {
    let instr = Instruction::new(1002).unwrap();
    assert_eq!(Operation::Multiply, instr.op);
    assert_eq!(vec![(Read, Position), (Read, Immediate), (Write, Position)], instr.params);

    let instr = Instruction::new(21201).unwrap();
    assert_eq!(Operation::Add, instr.op);
    assert_eq!(vec![(Read, Relative), (Read, Immediate), (Write, Relative)], instr.params);

    let instr = Instruction::new(204).unwrap();
    assert_eq!(Operation::SendOutput, instr.op);
    assert_eq!(vec![(Read, Relative)], instr.params);

    let instr = Instruction::new(203).unwrap();
    assert_eq!(vec![(Write, Relative)], instr.params);

    let instr = Instruction::new(99).unwrap();
    assert_eq!(Operation::Halt, instr.op);
    assert!(instr.params.is_empty());

    // Digits beyond the last operand are not looked at.
    let instr = Instruction::new(31105).unwrap();
    assert_eq!(Operation::JumpIfTrue, instr.op);
    assert_eq!(vec![(Read, Immediate), (Read, Immediate)], instr.params);
    assert!(Instruction::new(77799).is_ok());
}

#[test]
fn instructions_that_do_not_decode() {
    let fault = |raw: i64| Instruction::new(raw).err();
    assert_eq!(Some(Fault::UnknownOperation), fault(0));
    assert_eq!(Some(Fault::UnknownOperation), fault(-1));
    assert_eq!(Some(Fault::UnknownOperation), fault(-99));
    assert_eq!(Some(Fault::UnknownOperation), fault(-1001));
    assert_eq!(Some(Fault::UnknownOperation), fault(1098));
    assert_eq!(Some(Fault::UnknownOperation), fault(i64::MIN));
    assert_eq!(Some(Fault::InvalidMode), fault(301));
    assert_eq!(Some(Fault::InvalidMode), fault(904));
    assert_eq!(None, fault(9004));
    assert_eq!(Some(Fault::InvalidMode), fault(30001));
    assert_eq!(Some(Fault::ImmediateWrite), fault(10001));
    assert_eq!(Some(Fault::ImmediateWrite), fault(103));
    assert_eq!(Some(Fault::ImmediateWrite), fault(11108));
    // The first operand at fault decides.
    assert_eq!(Some(Fault::InvalidMode), fault(10301));
    assert_eq!(Some(Fault::InvalidMode), fault(13001));
}

#[test]
fn step_by_step() {
    let mut cpu = CPU::new(vec![1, 0, 0, 0, 2, 0, 0, 0, 99]);
    assert!(!cpu.at_halt());
    assert_eq!(Ok(true), cpu.step());
    assert_eq!(2, cpu.memory().get(0));
    assert_eq!(Ok(true), cpu.step());
    assert_eq!(4, cpu.memory().get(0));
    assert!(cpu.at_halt());
    assert_eq!(Ok(false), cpu.step());
    assert_eq!(Ok(false), cpu.step());
    assert_eq!(vec![4, 0, 0, 0, 2, 0, 0, 0, 99], cpu.into_memory()._into_vec());
}

#[test]
fn run_steps_stops_at_the_limit() {
    // Counts down from 5 at address 9, then halts.
    let program = vec![1001, 9, -1, 9, 1005, 9, 0, 99, 0, 5];
    let mut cpu = CPU::new(program.clone());
    assert_eq!(Ok(true), cpu.run_steps(0));
    assert_eq!(Ok(true), cpu.run_steps(3));
    assert_eq!(3, cpu.memory().get(9));
    assert_eq!(Ok(true), cpu.run_steps(7));
    assert_eq!(Ok(false), cpu.run_steps(7));
    assert_eq!(0, cpu.memory().get(9));
    assert_eq!(Ok(1001), CPU::new(program.clone()).run());
    // The run takes eleven instructions, the halt being the last.
    assert_eq!(Ok(1001), CPU::new(program.clone()).run_within(11));
    assert_eq!(Err(Fault::StepLimit), CPU::new(program.clone()).run_within(10));
    assert_eq!(Err(Fault::StepLimit), CPU::new(program).run_within(0));
    // A program that never halts.
    assert_eq!(Err(Fault::StepLimit), CPU::new(vec![1105, 1, 0]).run_within(1000));
}

#[test]
fn faults_leave_the_machine_untouched() {
    let mut cpu = CPU::new(vec![1101, 1, 1, 0, 1098, 0]);
    assert_eq!(Ok(true), cpu.step());
    assert_eq!(Err(Fault::UnknownOperation), cpu.step());
    assert_eq!(Err(Fault::UnknownOperation), cpu.run_internal());
    assert_eq!(vec![2, 1, 1, 0, 1098, 0], cpu.into_memory()._into_vec());

    assert_eq!(Err(Fault::UnknownOperation), CPU::new(vec![]).run());
    assert_eq!(Err(Fault::ImmediateWrite), CPU::new(vec![11101, 1, 1, 0, 99]).run());
    assert_eq!(Err(Fault::InvalidMode), CPU::new(vec![301, 1, 1, 0, 99]).run());
    // A negative address to read from, to write to, and to jump to.
    assert_eq!(Err(Fault::InvalidAddress), CPU::new(vec![1, -1, 0, 0, 99]).run());
    assert_eq!(Err(Fault::InvalidAddress), CPU::new(vec![1, 0, 0, -1, 99]).run());
    assert_eq!(Err(Fault::InvalidAddress), CPU::new(vec![1105, 1, -7, 99]).run());
    assert_eq!(Err(Fault::InvalidAddress), CPU::new(vec![204, -1, 99]).run());
    assert_eq!(Err(Fault::InvalidAddress), CPU::new(vec![109, i64::MAX, 204, 1, 99]).run());
    // The default input device has nothing to give.
    assert_eq!(Err(Fault::NoInput), CPU::new(vec![3, 0, 99]).run());
}

#[test]
fn sums_and_products_wrap() {
    assert_eq!(Ok(i64::MIN), CPU::new(vec![1101, i64::MAX, 1, 0, 99]).run());
    assert_eq!(Ok(-2), CPU::new(vec![1102, i64::MAX, 2, 0, 99]).run());
    assert_eq!(Ok(i64::MAX), CPU::new(vec![1101, i64::MIN, -1, 0, 99]).run());
}

#[test]
fn relative_base_moves_operands() {
    // Base 10; writes the input to 10 + 5, outputs it through 10 + 5 and through 15.
    let program = vec![109, 10, 203, 5, 204, 5, 4, 15, 109, -20, 204, 25, 99];
    let mut cpu = CPUBuilder::new(program).input_iter(vec![321]).output_vec().finish();
    assert_eq!(Ok(false), cpu.run_internal());
    assert_eq!(&vec![321, 321, 321], cpu.output().values());
}

#[test]
fn same_result_in_every_mode() {
    // 6 * 7 with the operands addressed by position, immediately and relatively.
    let by_position = vec![2, 7, 8, 0, 4, 0, 99, 6, 7];
    let immediate = vec![1102, 6, 7, 0, 4, 0, 99, 6, 7];
    let relative = vec![109, 3, 2202, 6, 7, 0, 4, 0, 99, 6, 7];
    let mixed = vec![109, -5, 1202, 14, 7, 0, 4, 0, 99, 6, 7];
    for program in [by_position, immediate, relative, mixed] {
        let mut cpu = CPUBuilder::new(program).input_iter(vec![]).output_vec().finish();
        assert_eq!(Ok(false), cpu.run_internal());
        assert_eq!(&vec![42], cpu.output().values());
        assert_eq!(42, cpu.memory().get(0));
    }
}

#[test]
fn halting_input_pauses_the_engine() {
    let program = vec![3, 7, 4, 7, 1105, 1, 0, 0];
    let builder: CPUBuilder<QueueInput, ()> = CPUBuilder::new(program);
    let mut cpu = builder
        .input_or_halt(QueueInput::halting(vec![1, 2]))
        .output_vec()
        .finish();
    assert_eq!(Ok(false), cpu.run_internal());
    assert_eq!(vec![1, 2], cpu.drain_output());
    assert!(!cpu.at_halt());
    assert_eq!(0, cpu.input().remaining());
    // Nothing has come: the engine stops again at once.
    assert_eq!(Ok(false), cpu.run_internal());
    assert!(cpu.output().values().is_empty());
    cpu.feed(3);
    cpu.feed(4);
    assert_eq!(Some(3), cpu.input().peek());
    assert_eq!(Ok(false), cpu.run_internal());
    assert_eq!(vec![3, 4], cpu.drain_output());
}

#[test]
fn output_with_room_halts_the_engine() {
    let program = vec![104, 1, 104, 2, 104, 3, 99];
    let builder: CPUBuilder<QueueInput, VecOutput> = CPUBuilder::new(program);
    let mut cpu = builder
        .default_in()
        .output_or_halt(VecOutput::with_room(2))
        .finish();
    assert_eq!(Ok(false), cpu.run_internal());
    assert_eq!(vec![1, 2], cpu.drain_output());
    assert!(!cpu.at_halt());
    // The device is still full: the third value is not taken.
    assert_eq!(Ok(false), cpu.step());
    assert!(cpu.into_output().into_vec().is_empty());
}

#[test]
fn queue_input_answers() {
    let mut failing = QueueInput::new(vec![5, 6]);
    assert_eq!(2, failing.remaining());
    assert_eq!(Ok(Some(5)), failing.next_input());
    assert_eq!(Ok(Some(6)), failing.next_input());
    assert_eq!(Err(Fault::NoInput), failing.next_input());
    assert_eq!(Err(Fault::NoInput), failing.next_input());
    failing.push(7);
    assert_eq!(Some(7), failing.peek());
    assert_eq!(None, failing.second());
    failing.push(8);
    assert_eq!(Some(8), failing.second());
    assert_eq!(Ok(Some(7)), failing.next_input());
    assert_eq!(Ok(Some(8)), failing.next_input());
    assert_eq!(None, failing.peek());

    let mut halting = QueueInput::halting(vec![]);
    assert_eq!(Ok(None), halting.next_input());
    halting.push(1);
    assert_eq!(Ok(Some(1)), halting.next_input());
    assert_eq!(Ok(None), halting.next_input());
    assert_ne!(Exhausted::Halt, Exhausted::Fail);
}

#[test]
fn vec_output_keeps_order() {
    let mut out = VecOutput::new();
    assert_eq!(Some(()), out.send(3));
    assert_eq!(Some(()), out.send(-4));
    assert_eq!(&vec![3, -4], out.values());
    assert_eq!(vec![3, -4], out.take());
    assert!(out.values().is_empty());
    assert_eq!(Some(()), out.send(5));
    assert_eq!(vec![5], out.into_vec());

    let mut small = VecOutput::with_room(1);
    assert_eq!(Some(()), small.send(1));
    assert_eq!(None, small.send(2));
    assert_eq!(vec![1], small.take());
    assert_eq!(None, small.send(3));
}

#[test]
fn devices_of_the_caller() {
    let builder: CPUBuilder<(), ()> = CPUBuilder::new(vec![3, 0, 4, 0, 99]);
    let mut cpu = builder
        .input(QueueInput::new(vec![11]))
        .output(VecOutput::new())
        .finish();
    assert_eq!(Ok(false), cpu.run_internal());
    assert_eq!(&vec![11], cpu.output().values());
}

#[test]
fn parse_programs() {
    assert_eq!(Ok(vec![1, 2, -54, 0]), parse_mem("1,2,-54,0"));
    assert_eq!(
        Ok(vec![1, 9, 10, 3, 2, 3, 11, 0, 99, 30, 40, 50]),
        parse_mem("1,9,10,3,2,3,11,0,99,30,40,50")
    );
    assert_eq!(Ok(vec![7]), parse_mem("7"));
    assert_eq!(Ok(vec![7, 8]), parse_mem("+7,008"));
    assert_eq!(Ok(vec![0, 0]), parse_mem("-0,+0"));
    assert_eq!(
        Ok(vec![i64::MAX, i64::MIN, 1125899906842624]),
        parse_mem("9223372036854775807,-9223372036854775808,1125899906842624")
    );
    assert_eq!(Ok(vec![0]), parse_mem("000000000000000000000000000000"));
}

#[test]
fn parse_rejects() {
    assert_eq!(Err(ParseError::Empty), parse_mem(""));
    assert_eq!(Err(ParseError::TrailingNewline), parse_mem("1,2\n"));
    assert_eq!(Err(ParseError::TrailingNewline), parse_mem("\n"));
    for text in [
        "1,,2", ",", "1,", ",1", "1, 2", " 1", "1 ", "a", "1,x,3", "-", "+", "1,-", "--1", "+-1",
        "1.5", "0x10", "1\n2", "1,2\r", "9223372036854775808", "-9223372036854775809",
        "99999999999999999999999999", "-99999999999999999999999999", "12345678901234567890",
        "1,2;3", "١",
    ] {
        assert_eq!(Err(ParseError::InvalidToken), parse_mem(text), "{:?}", text);
    }
}

#[test]
fn echo_for_many_values() {
    for x in [0, 1, -1, 8, i64::MAX, i64::MIN, 1 << 40, -(1 << 40)] {
        let mut cpu = CPUBuilder::new(vec![3, 0, 4, 0, 99])
            .input_iter(vec![x])
            .output_vec()
            .finish();
        assert_eq!(Ok(false), cpu.run_internal());
        assert_eq!(&vec![x], cpu.output().values());
        assert_eq!(x, cpu.memory().get(0));
    }
}

#[test]
fn equals_eight_for_many_values() {
    for x in [8, 7, 9, 0, -8, -3, 100, i64::MAX, i64::MIN] {
        let mut cpu = CPUBuilder::new(vec![3, 9, 8, 9, 10, 9, 4, 9, 99, -1, 8])
            .input_iter(vec![x])
            .output_vec()
            .finish();
        assert_eq!(Ok(false), cpu.run_internal());
        assert_eq!(vec![if x == 8 { 1 } else { 0 }], cpu.into_output().into_vec());
    }
}

#[test]
fn literals_of_any_size_come_out() {
    for value in [1125899906842624, i64::MAX, i64::MIN, -1, 0, 1 << 33] {
        let mut cpu = CPUBuilder::new(vec![104, value, 99])
            .input_iter(vec![])
            .output_vec()
            .finish();
        assert_eq!(Ok(false), cpu.run_internal());
        assert_eq!(&vec![value], cpu.output().values());
    }
}

/// An input device of the test's own: counts up, and halts the engine at 3.
struct CountUp {
    next: i64,
}

impl Input for CountUp {
    fn next_input(&mut self) -> Result<Option<i64>, Fault> {
        if self.next < 3 {
            self.next += 1;
            Ok(Some(self.next))
        } else {
            Ok(None)
        }
    }
}

/// An output device of the test's own: sums up what it is sent.
struct Sum {
    total: i64,
}

impl Output for Sum {
    fn send(&mut self, value: i64) -> Option<()> {
        self.total += value;
        Some(())
    }
}

#[test]
fn devices_outside_the_library() {
    let builder: CPUBuilder<CountUp, Sum> = CPUBuilder::new(vec![3, 7, 4, 7, 1105, 1, 0, 0]);
    let mut cpu = builder
        .input_or_halt(CountUp { next: 0 })
        .output_or_halt(Sum { total: 0 })
        .finish();
    assert_eq!(Ok(false), cpu.run_internal());
    assert_eq!(6, cpu.output().total);
}
