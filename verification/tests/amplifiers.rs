use intcode::{thruster_signal_1, thruster_signal_2, AmpError, Fault};

/// Doubles the signal and adds the phase setting less 4, five times over.
fn doubling() -> Vec<i64> {
    vec![
        3, 26, 1001, 26, -4, 26, 3, 27, 1002, 27, 2, 27, 1, 27, 26, 27, 4, 27, 1001, 28, -1, 28,
        1005, 28, 6, 99, 0, 0, 5,
    ]
}

/// What a ring of doubling amplifiers must give, computed without any engine.
fn doubling_by_hand(phases: &[i64]) -> i64 {
    let mut signal = 0;
    for _ in 0..5 {
        for phase in phases {
            signal = signal * 2 + (phase - 4);
        }
    }
    signal
}

#[test]
fn ring_of_five_matches_trace() {
    let program = doubling();
    assert_eq!(Ok(139629729), thruster_signal_2(&program, &[9, 8, 7, 6, 5]));
    assert_eq!(139629729, doubling_by_hand(&[9, 8, 7, 6, 5]));
    for phases in [[5, 6, 7, 8, 9], [7, 5, 9, 6, 8], [9, 7, 8, 5, 6], [6, 9, 5, 8, 7]] {
        assert_eq!(Ok(doubling_by_hand(&phases)), thruster_signal_2(&program, &phases));
    }
    assert_eq!(Ok(61696857), thruster_signal_2(&program, &[5, 6, 7, 8, 9]));
    assert_eq!(Ok(90921684), thruster_signal_2(&program, &[7, 5, 9, 6, 8]));
}

#[test]
fn ring_with_branching_program() {
    let program = vec![
        3, 52, 1001, 52, -5, 52, 3, 53, 1, 52, 56, 54, 1007, 54, 5, 55, 1005, 55, 26, 1001, 54,
        -5, 54, 1105, 1, 12, 1, 53, 54, 53, 1008, 54, 0, 55, 1001, 55, 1, 55, 2, 53, 55, 53, 4,
        53, 1001, 56, -1, 56, 1005, 56, 6, 99, 0, 0, 0, 0, 10,
    ];
    assert_eq!(Ok(18216), thruster_signal_2(&program, &[9, 7, 8, 5, 6]));
    assert_eq!(Ok(13134), thruster_signal_2(&program, &[5, 6, 7, 8, 9]));
}

#[test]
fn ring_of_one_feeds_itself() {
    // Reads the phase, then three times: reads a value, adds the phase, outputs.
    let program = vec![
        3, 20, 3, 21, 1, 20, 21, 21, 4, 21, 1001, 22, -1, 22, 1005, 22, 2, 99, 0, 0, 0, 0, 3,
    ];
    assert_eq!(Ok(21), thruster_signal_2(&program, &[7]));
}

#[test]
fn ring_that_waits_forever_is_missing_input() {
    // Every engine reads its phase and then two more values, but outputs nothing.
    let program = vec![3, 10, 3, 11, 3, 12, 99];
    assert_eq!(
        Err(AmpError::Machine(Fault::NoInput)),
        thruster_signal_2(&program, &[1, 2])
    );
}

#[test]
fn ring_that_leaves_nothing_behind() {
    // The one engine reads its phase and the signal, and halts.
    let program = vec![3, 5, 3, 6, 99, 0, 0];
    assert_eq!(Err(AmpError::NoSignal), thruster_signal_2(&program, &[1]));
    // Every engine reads its phase and halts: the first signal still waits.
    let program = vec![3, 5, 99];
    assert_eq!(Ok(0), thruster_signal_2(&program, &[1, 2, 3]));
    // The same where nobody even reads the phase.
    let idle = vec![99];
    assert_eq!(Ok(0), thruster_signal_2(&idle, &[1, 2, 3]));
    // Every engine reads its phase and sends it on: the last phase waits first.
    let forward = vec![3, 7, 4, 7, 99, 0, 0, 0];
    assert_eq!(Ok(0), thruster_signal_2(&forward, &[1, 2, 3]));
    // Every engine reads one value more: then what the last one sent waits.
    let eager = vec![3, 9, 3, 10, 4, 9, 99, 0, 0, 0, 0];
    assert_eq!(Ok(2), thruster_signal_2(&eager, &[1, 2]));
}

#[test]
fn ring_reports_faults() {
    assert_eq!(
        Err(AmpError::Machine(Fault::UnknownOperation)),
        thruster_signal_2(&[3, 3, 98, 0], &[5, 6])
    );
}

#[test]
fn chain_examples() {
    let first = vec![3, 15, 3, 16, 1002, 16, 10, 16, 1, 16, 15, 15, 4, 15, 99, 0, 0];
    assert_eq!(Ok(43210), thruster_signal_1(&first, &[4, 3, 2, 1, 0]));
    let second = vec![
        3, 23, 3, 24, 1002, 24, 10, 24, 1002, 23, -1, 23, 101, 5, 23, 23, 1, 24, 23, 23, 4, 23,
        99, 0, 0,
    ];
    assert_eq!(Ok(54321), thruster_signal_1(&second, &[0, 1, 2, 3, 4]));
    let third = vec![
        3, 31, 3, 32, 1002, 32, 10, 32, 1001, 31, -2, 31, 1007, 31, 0, 33, 1002, 33, 7, 33, 1,
        33, 31, 31, 1, 32, 31, 31, 4, 31, 99, 0, 0, 0,
    ];
    assert_eq!(Ok(65210), thruster_signal_1(&third, &[1, 0, 4, 3, 2]));
}

#[test]
fn chain_of_none_passes_the_first_signal() {
    assert_eq!(Ok(0), thruster_signal_1(&[99], &[]));
}

#[test]
fn chain_needs_one_output_per_amplifier() {
    assert_eq!(Err(AmpError::NoSignal), thruster_signal_1(&[99], &[1]));
    assert_eq!(
        Err(AmpError::NoSignal),
        thruster_signal_1(&[104, 1, 104, 2, 99], &[1])
    );
    assert_eq!(
        Err(AmpError::Machine(Fault::NoInput)),
        thruster_signal_1(&[3, 0, 3, 0, 3, 0, 99], &[1])
    );
}
