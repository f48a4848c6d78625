use intcode::{CPUBuilder, Fault};

/// Run the program on the input and check the actual output against what's expected.
fn test_io(mem: Vec<i64>, input: Vec<i64>, expected_output: Vec<i64>) {
    let mut cpu = CPUBuilder::new(mem)
        .input_iter(input)
        .output_vec()
        .finish();

    assert_eq!(Ok(false), cpu.run_internal());

    assert_eq!(&expected_output, cpu.output().values());
}

/// Test many io examples for the same program.
fn test_many(mem: Vec<i64>, io_pairs: Vec<(Vec<i64>, Vec<i64>)>) {
    for (input, output) in io_pairs {
        test_io(mem.clone(), input, output);
    }
}

/// Produces same output as input (a.k.a. "echo").
#[test]
fn test1() {
    let mem = vec![3, 0, 4, 0, 99];
    let io_pairs = vec![
        (vec![1], vec![1]),
        (vec![1337], vec![1337]),
        (vec![0], vec![0]),
        (vec![-1], vec![-1]),
        (vec![-1001], vec![-1001]),
    ];

    test_many(mem, io_pairs);
}

/// Check if input equals 8 (output 1 or 0 accordingly).
#[test]
fn test2() {
    let mem = vec![3, 9, 8, 9, 10, 9, 4, 9, 99, -1, 8];
    let io_pairs = vec![
        (vec![8], vec![1]),
        (vec![7], vec![0]),
        (vec![0], vec![0]),
        (vec![-3], vec![0]),
        (vec![100], vec![0]),
    ];

    test_many(mem, io_pairs);
}

/// Same as test2, with immediate operands.
#[test]
fn test3() {
    let mem = vec![3, 3, 1108, -1, 8, 3, 4, 3, 99];
    let io_pairs = vec![
        (vec![8], vec![1]),
        (vec![7], vec![0]),
        (vec![0], vec![0]),
        (vec![-3], vec![0]),
        (vec![100], vec![0]),
    ];

    test_many(mem, io_pairs);
}

/// Check if input less than 8 (output 1 or 0 accordingly).
#[test]
fn test4() {
    let mem = vec![3, 9, 7, 9, 10, 9, 4, 9, 99, -1, 8];
    let io_pairs = vec![
        (vec![8], vec![0]),
        (vec![7], vec![1]),
        (vec![0], vec![1]),
        (vec![-3], vec![1]),
        (vec![100], vec![0]),
    ];

    test_many(mem, io_pairs);
}

/// Same as test4, with immediate operands.
#[test]
fn test5() {
    let mem = vec![3, 3, 1107, -1, 8, 3, 4, 3, 99];
    let io_pairs = vec![
        (vec![8], vec![0]),
        (vec![7], vec![1]),
        (vec![0], vec![1]),
        (vec![-3], vec![1]),
        (vec![100], vec![0]),
    ];

    test_many(mem, io_pairs);
}

/// Check if input is nonzero.
#[test]
fn test6() {
    let mem = vec![3, 12, 6, 12, 15, 1, 13, 14, 13, 4, 13, 99, -1, 0, 1, 9];
    let io_pairs = vec![
        (vec![8], vec![1]),
        (vec![7], vec![1]),
        (vec![0], vec![0]),
        (vec![-3], vec![1]),
        (vec![100], vec![1]),
    ];

    test_many(mem, io_pairs);
}

/// Same as test6, with immediate operands.
#[test]
fn test7() {
    let mem = vec![3, 3, 1105, -1, 9, 1101, 0, 0, 12, 4, 12, 99, 1];
    let io_pairs = vec![
        (vec![8], vec![1]),
        (vec![7], vec![1]),
        (vec![0], vec![0]),
        (vec![-3], vec![1]),
        (vec![100], vec![1]),
    ];

    test_many(mem, io_pairs);
}

/// Output 999/1000/1001 if input is lt/eq/gt the value 8.
#[test]
fn test8() {
    let mem = vec![
        3, 21, 1008, 21, 8, 20, 1005, 20, 22, 107, 8, 21, 20, 1006, 20, 31, 1106, 0, 36, 98, 0,
        0, 1002, 21, 125, 20, 4, 20, 1105, 1, 46, 104, 999, 1105, 1, 46, 1101, 1000, 1, 20, 4,
        20, 1105, 1, 46, 98, 99,
    ];
    let io_pairs = vec![
        (vec![8], vec![1000]),
        (vec![7], vec![999]),
        (vec![0], vec![999]),
        (vec![-3], vec![999]),
        (vec![100], vec![1001]),
    ];

    test_many(mem, io_pairs);
}

/// Quine; takes no input and produces a copy of itself as output.
#[test]
fn test9() {
    let mem = vec![
        109, 1, 204, -1, 1001, 100, 1, 100, 1008, 100, 16, 101, 1006, 101, 0, 99,
    ];

    test_io(mem.clone(), vec![], mem);
}

/// Outputs a 16-digit number.
#[test]
fn test10() {
    let mem = vec![1102, 34915192, 34915192, 7, 4, 7, 99, 0];

    test_io(mem, vec![], vec![1219070632396864]);
}

/// Outputs the large number in the middle.
#[test]
fn test11() {
    const TARGET: i64 = 1125899906842624;
    let mem = vec![104, TARGET, 99];

    test_io(mem, vec![], vec![TARGET]);
}

/// The same comparison through `run`, which gives the value at address 0.
#[test]
fn lib_test8() {
    let mem = vec![
        3, 21, 1008, 21, 8, 20, 1005, 20, 22, 107, 8, 21, 20, 1006, 20, 31, 1106, 0, 36, 98, 0,
        0, 1002, 21, 125, 20, 4, 20, 1105, 1, 46, 104, 999, 1105, 1, 46, 1101, 1000, 1, 20, 4,
        20, 1105, 1, 46, 98, 99,
    ];
    for (input, output) in vec![(8, 1000), (7, 999), (0, 999), (-3, 999), (100, 1001)] {
        let mut cpu = CPUBuilder::new(mem.clone())
            .input_iter(vec![input])
            .output_vec()
            .finish();
        assert_eq!(Ok(false), cpu.run_steps(1000));
        assert_eq!(vec![output], cpu.into_output().into_vec());
    }
    let cpu = CPUBuilder::new(mem).input_iter(vec![8]).output_vec().finish();
    assert_eq!(Ok(3), cpu.run());
}

/// A program that asks for more input than the list holds fails.
#[test]
fn input_list_exhausted() {
    let mut cpu = CPUBuilder::new(vec![3, 0, 3, 1, 99])
        .input_iter(vec![5])
        .output_vec()
        .finish();
    assert_eq!(Err(Fault::NoInput), cpu.run_internal());
    assert_eq!(vec![5, 0, 3, 1, 99], cpu.into_memory()._into_vec());
}
