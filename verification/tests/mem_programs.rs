use intcode::{CPUBuilder, QueueInput, VecOutput, CPU};

/// Verify that the memory after running the program is as expected.
/// `before` is the initial memory / program state.
fn test_mem(before: Vec<i64>, after: Vec<i64>) {
    let mut cpu = CPU::new(before);
    assert_eq!(Ok(false), cpu.run_internal());
    assert_eq!(after, cpu.into_memory()._into_vec());
}

/// The same through the builder.
fn test_mem_built(before: Vec<i64>, after: Vec<i64>) {
    let mut cpu = CPUBuilder::new(before).default_io();
    assert_eq!(Ok(false), cpu.run_internal());
    assert_eq!(&after, &cpu.into_memory()._into_vec());
}

#[test]
fn lib_test1() {
    test_mem(vec![1, 0, 0, 3, 99], vec![1, 0, 0, 2, 99]);
}

#[test]
fn lib_test2() {
    test_mem(
        vec![1, 9, 10, 3, 2, 3, 11, 0, 99, 30, 40, 50],
        vec![3500, 9, 10, 70, 2, 3, 11, 0, 99, 30, 40, 50],
    );
}

#[test]
fn lib_test3() {
    test_mem(vec![1, 0, 0, 0, 99], vec![2, 0, 0, 0, 99]);
}

#[test]
fn lib_test4() {
    test_mem(vec![2, 3, 0, 3, 99], vec![2, 3, 0, 6, 99]);
}

#[test]
fn lib_test5() {
    test_mem(vec![2, 4, 4, 5, 99, 0], vec![2, 4, 4, 5, 99, 9801]);
}

#[test]
fn lib_test6() {
    test_mem(
        vec![1, 1, 1, 4, 99, 5, 6, 0, 99],
        vec![30, 1, 1, 4, 2, 5, 6, 0, 99],
    );
}

/// This example uses parameter modes.
#[test]
fn lib_test7() {
    test_mem(vec![1002, 4, 3, 4, 33], vec![1002, 4, 3, 4, 99]);
}

#[test]
fn cpu_test1() {
    test_mem_built(vec![1, 0, 0, 3, 99], vec![1, 0, 0, 2, 99]);
}

#[test]
fn cpu_test2() {
    test_mem_built(
        vec![1, 9, 10, 3, 2, 3, 11, 0, 99, 30, 40, 50],
        vec![3500, 9, 10, 70, 2, 3, 11, 0, 99, 30, 40, 50],
    );
}

#[test]
fn cpu_test3() {
    test_mem_built(vec![1, 0, 0, 0, 99], vec![2, 0, 0, 0, 99]);
}

#[test]
fn cpu_test4() {
    test_mem_built(vec![2, 3, 0, 3, 99], vec![2, 3, 0, 6, 99]);
}

#[test]
fn cpu_test5() {
    test_mem_built(vec![2, 4, 4, 5, 99, 0], vec![2, 4, 4, 5, 99, 9801]);
}

#[test]
fn cpu_test6() {
    test_mem_built(
        vec![1, 1, 1, 4, 99, 5, 6, 0, 99],
        vec![30, 1, 1, 4, 2, 5, 6, 0, 99],
    );
}

/// This example uses parameter modes.
#[test]
fn cpu_test7() {
    test_mem_built(vec![1002, 4, 3, 4, 33], vec![1002, 4, 3, 4, 99]);
}

/// The value at address 0 is what `run` gives.
#[test]
fn run_returns_first_cell() {
    assert_eq!(Ok(2), CPU::new(vec![1, 0, 0, 0, 99]).run());
    assert_eq!(Ok(3500), CPU::new(vec![1, 9, 10, 3, 2, 3, 11, 0, 99, 30, 40, 50]).run());
}

/// Noun and verb are written to the addresses 1 and 2 before the program starts.
#[test]
fn arguments_are_written_first() {
    let result = CPUBuilder::new(vec![1101, 0, 0, 0, 99]).args(12, 2).default_io().run();
    assert_eq!(Ok(14), result);
}

/// The computer configured step by step, without a builder.
#[test]
fn computer_takes_arguments_and_devices() {
    assert_eq!(Ok(14), CPU::new(vec![1101, 0, 0, 0, 99]).args(12, 2).run());
    let mut cpu = CPU::new(vec![3, 0, 4, 0, 99])
        .input_fn(QueueInput::new(vec![77]))
        .output_fn(VecOutput::with_room(5));
    assert_eq!(Ok(false), cpu.run_internal());
    assert_eq!(vec![77], cpu.into_output().into_vec());
    // The arguments reach beyond a short program.
    let cpu = CPU::new(vec![99]).args(5, 6);
    assert_eq!(vec![99, 5, 6], cpu.into_memory()._into_vec());
}
