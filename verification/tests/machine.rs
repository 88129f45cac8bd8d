use chifir::machine::Machine;


#[test]
fn it_defaults_to_an_infinite_loop() {
    let mut m = Machine::new();

    // Read initial memory and program counter.
    let memory = m.dump().to_vec();
    let counter = m.loc();

    // Step the program twice. If nothing changes, we're in a loop.
    m.step();
    assert_eq!(counter, m.loc());
    assert_eq!(&memory, m.dump());
    m.step();
    assert_eq!(counter, m.loc());
    assert_eq!(&memory, m.dump());
}

#[test]
fn machine_it_runs_opcode_1() {
    // PC <- M[A]
    let mut m = Machine { memory: vec![1, 4, 0, 0, 2], ..Machine::new() };

    assert_eq!(0, m.loc());
    m.step();
    assert_eq!(2, m.loc());
}

#[test]
fn machine_it_runs_opcode_2_then_branch() {
    // If M[B] = 0, then PC <- M[A]
    let mut m = Machine { memory: vec![2, 4, 5, 0, 2, 0], ..Machine::new() };

    assert_eq!(0, m.loc());
    m.step();
    assert_eq!(2, m.loc());
}

#[test]
fn machine_it_runs_opcode_2_else_branch() {
    // If M[B] = 0, then PC <- M[A]
    let mut m = Machine { memory: vec![2, 4, 5, 0, 2, 1], ..Machine::new() };

    assert_eq!(0, m.loc());
    m.step();
    assert_eq!(4, m.loc());
}

#[test]
fn machine_it_runs_opcode_3() {
    // M[A] <- PC
    let mut m = Machine { memory: vec![3, 4, 0, 0, 1], ..Machine::new() };

    assert_eq!(0, m.loc());
    m.step();
    assert_eq!(&vec![3, 4, 0, 0, 0], m.dump());
    assert_eq!(4, m.loc());
}

#[test]
fn machine_it_runs_opcode_4() {
    // M[A] <- M[B]
    let mut m = Machine { memory: vec![4, 4, 5, 0, 6, 7], ..Machine::new() };

    assert_eq!(0, m.loc());
    m.step();
    assert_eq!(&vec![4, 4, 5, 0, 7, 7], m.dump());
    assert_eq!(4, m.loc());
}

#[test]
fn machine_it_runs_opcode_5() {
    // M[A] <- M[M[B]]
    let mut m = Machine { memory: vec![5, 4, 5, 0, 6, 7, 0, 8], ..Machine::new() };

    assert_eq!(0, m.loc());
    m.step();
    assert_eq!(&vec![5, 4, 5, 0, 8, 7, 0, 8], m.dump());
    assert_eq!(4, m.loc());
}

#[test]
fn machine_it_runs_opcode_6() {
    // M[M[B]] <- M[A]
    let mut m = Machine { memory: vec![6, 4, 5, 0, 8, 6, 7], ..Machine::new() };

    assert_eq!(0, m.loc());
    m.step();
    assert_eq!(&vec![6, 4, 5, 0, 8, 6, 8], m.dump());
    assert_eq!(4, m.loc());
}

#[test]
fn machine_it_runs_opcode_7() {
    // M[A] <- M[B] + M[C]
    let mut m = Machine { memory: vec![7, 4, 5, 6, 0, 11, 2], ..Machine::new() };

    assert_eq!(0, m.loc());
    m.step();
    assert_eq!(&vec![7, 4, 5, 6, 13, 11, 2], m.dump());
    assert_eq!(4, m.loc());
}

#[test]
fn machine_it_runs_opcode_8() {
    // M[A] <- M[B] - M[C]
    let mut m = Machine { memory: vec![8, 4, 5, 6, 0, 11, 2], ..Machine::new() };

    assert_eq!(0, m.loc());
    m.step();
    assert_eq!(&vec![8, 4, 5, 6, 9, 11, 2], m.dump());
    assert_eq!(4, m.loc());
}

#[test]
fn machine_it_prevents_overflow_while_runing_opcode_8() {
    // M[A] <- M[B] - M[C]
    let mut m = Machine { memory: vec![8, 4, 5, 6, 1, 2, 11], ..Machine::new() };

    assert_eq!(0, m.loc());
    m.step();
    assert_eq!(&vec![8, 4, 5, 6, 4294967287, 2, 11], m.dump());
    assert_eq!(4, m.loc());
}

#[test]
fn machine_it_runs_opcode_9() {
    // M[A] <- M[B] * M[C]
    let mut m = Machine { memory: vec![9, 4, 5, 6, 0, 11, 2], ..Machine::new() };

    assert_eq!(0, m.loc());
    m.step();
    assert_eq!(&vec![9, 4, 5, 6, 22, 11, 2], m.dump());
    assert_eq!(4, m.loc());
}

#[test]
fn machine_it_runs_opcode_10() {
    // M[A] <- M[B] / M[C]
    let mut m = Machine { memory: vec![10, 4, 5, 6, 0, 11, 2], ..Machine::new() };

    assert_eq!(0, m.loc());
    m.step();
    assert_eq!(&vec![10, 4, 5, 6, 5, 11, 2], m.dump());
    assert_eq!(4, m.loc());
}

#[test]
fn machine_it_runs_opcode_11() {
    // M[A] <- M[B] % M[C]
    let mut m = Machine { memory: vec![11, 4, 5, 6, 0, 11, 2], ..Machine::new() };

    assert_eq!(0, m.loc());
    m.step();
    assert_eq!(&vec![11, 4, 5, 6, 1, 11, 2], m.dump());
    assert_eq!(4, m.loc());
}

#[test]
fn machine_it_runs_opcode_12_then_branch() {
    // If M[B] < M[C], then M[A] <- 1, else M[A] <- 0
    let mut m = Machine { memory: vec![12, 4, 5, 6, 2, 8, 9], ..Machine::new() };

    assert_eq!(0, m.loc());
    m.step();
    assert_eq!(&vec![12, 4, 5, 6, 1, 8, 9], m.dump());
    assert_eq!(4, m.loc());
}

#[test]
fn machine_it_runs_opcode_12_else_branch() {
    // If M[B] < M[C], then M[A] <- 1, else M[A] <- 0
    let mut m = Machine { memory: vec![12, 4, 5, 6, 2, 9, 8], ..Machine::new() };

    assert_eq!(0, m.loc());
    m.step();
    assert_eq!(&vec![12, 4, 5, 6, 0, 9, 8], m.dump());
    assert_eq!(4, m.loc());
}

#[test]
fn machine_it_runs_opcode_13() {
    // M[A] <- NOT(M[B] AND M[C])
    let mut m =
        Machine { memory: vec![13, 4, 5, 6, 0, 0xfffffffe, 0xfffffffd], ..Machine::new() };

    assert_eq!(0, m.loc());
    m.step();
    assert_eq!(&vec![13, 4, 5, 6, 0x3, 0xfffffffe, 0xfffffffd], m.dump());
    assert_eq!(4, m.loc());
}

#[test]
fn machine_it_runs_opcode_14() {
    // Refresh the screen
    let mut m = Machine { memory: vec![14, 0, 0, 0], ..Machine::new() };

    // Move the program counter after rendering.
    assert_eq!(0, m.loc());
    m.step();
    assert_eq!(4, m.loc());

    let buffer = &m.output;

    // Move the cursor to (1,1).
    assert_eq!(&buffer[0..6], &[27, 91, 49, 59, 49, 72]);

    // Put the terminal in Sixel graphics mode.
    assert_eq!(&buffer[6..9], &[27, 80, 113]);

    // Return the terminal to normal mode.
    assert_eq!(&buffer[buffer.len() - 2..buffer.len()], &[27, 92]);
}

#[test]
fn machine_it_runs_opcode_15_blocking() {
    // Get one character from the keyboard and store it into M[A]
    let output = Vec::new();
    let input = Vec::new();

    let mut m = Machine {
        memory: vec![15, 1, 0, 0],
        counter: 0,
        output: output,
        input: input,
    };

    // Don't the program counter if reading failed.
    assert_eq!(0, m.loc());
    m.step();
    assert_eq!(0, m.loc());
}

#[test]
fn machine_it_runs_opcode_15_non_blocking() {
    // Get one character from the keyboard and store it into M[A]
    let output = Vec::new();
    let input = vec![8, 10, 13, 32];

    let mut m = Machine {
        memory: vec![15, 1, 0, 0],
        counter: 0,
        output: output,
        input: input,
    };

    // Move the program counter after reading.
    assert_eq!(0, m.loc());
    m.step();
    assert_eq!(4, m.loc());

    // Only save the last key pressed.
    assert_eq!(&vec![15, 32, 0, 0], m.dump());
}

#[test]
fn machine_it_provides_safe_memory_access_when_stepping() {
    let mut m = Machine {
        memory: vec![0],
        counter: 3,
        ..Machine::new()
    };

    m.step();
    assert_eq!(&vec![0, 0, 0, 0, 0, 0, 0], m.dump());
}
