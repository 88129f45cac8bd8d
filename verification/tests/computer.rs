use chifir::computer::Computer;


#[test]
fn it_runs_opcode_0() {
    // Halt execution
    let mut m = Computer::new();
    m.load_from_slice(&[0]);

    assert_eq!(0, m.counter());
    m.step();
    assert_eq!(0, m.counter());
}

#[test]
fn computer_it_runs_opcode_1() {
    // PC <- M[A]
    let mut m = Computer::new();
    m.load_from_slice(&[1, 4, 0, 0, 2]);

    assert_eq!(0, m.counter());
    m.step();
    assert_eq!(2, m.counter());
}

#[test]
fn computer_it_runs_opcode_2_then_branch() {
    // If M[B] = 0, then PC <- M[A]
    let mut m = Computer::new();
    m.load_from_slice(&[2, 4, 5, 0, 2, 0]);

    assert_eq!(0, m.counter());
    m.step();
    assert_eq!(2, m.counter());
}

#[test]
fn computer_it_runs_opcode_2_else_branch() {
    // If M[B] = 0, then PC <- M[A]
    let mut m = Computer::new();
    m.load_from_slice(&[2, 4, 5, 0, 2, 1]);

    assert_eq!(0, m.counter());
    m.step();
    assert_eq!(4, m.counter());
}

#[test]
fn computer_it_runs_opcode_3() {
    // M[A] <- PC
    let mut m = Computer::new();
    m.load_from_slice(&[3, 4, 0, 0, 1]);

    assert_eq!(0, m.counter());
    m.step();
    assert_eq!([3, 4, 0, 0, 0], m.dump());
    assert_eq!(4, m.counter());
}

#[test]
fn computer_it_runs_opcode_4() {
    // M[A] <- M[B]
    let mut m = Computer::new();
    m.load_from_slice(&[4, 4, 5, 0, 6, 7]);

    assert_eq!(0, m.counter());
    m.step();
    assert_eq!([4, 4, 5, 0, 7, 7], m.dump());
    assert_eq!(4, m.counter());
}

#[test]
fn computer_it_runs_opcode_5() {
    // M[A] <- M[M[B]]
    let mut m = Computer::new();
    m.load_from_slice(&[5, 4, 5, 0, 6, 7, 0, 8]);

    assert_eq!(0, m.counter());
    m.step();
    assert_eq!([5, 4, 5, 0, 8, 7, 0, 8], m.dump());
    assert_eq!(4, m.counter());
}

#[test]
fn computer_it_runs_opcode_6() {
    // M[M[B]] <- M[A]
    let mut m = Computer::new();
    m.load_from_slice(&[6, 4, 5, 0, 8, 6, 7]);

    assert_eq!(0, m.counter());
    m.step();
    assert_eq!([6, 4, 5, 0, 8, 6, 8], m.dump());
    assert_eq!(4, m.counter());
}

#[test]
fn computer_it_runs_opcode_7() {
    // M[A] <- M[B] + M[C]
    let mut m = Computer::new();
    m.load_from_slice(&[7, 4, 5, 6, 0, 11, 2]);

    assert_eq!(0, m.counter());
    m.step();
    assert_eq!([7, 4, 5, 6, 13, 11, 2], m.dump());
    assert_eq!(4, m.counter());
}

#[test]
fn it_prevents_overflow_when_running_opcode_7() {
    // M[A] <- M[B] + M[C]
    let mut m = Computer::new();
    m.load_from_slice(&[7, 4, 5, 6, 1, u32::max_value(), 1]);

    assert_eq!(0, m.counter());
    m.step();
    assert_eq!([7, 4, 5, 6, 0, u32::max_value(), 1], m.dump());
    assert_eq!(4, m.counter());
}

#[test]
fn computer_it_runs_opcode_8() {
    // M[A] <- M[B] - M[C]
    let mut m = Computer::new();
    m.load_from_slice(&[8, 4, 5, 6, 0, 11, 2]);

    assert_eq!(0, m.counter());
    m.step();
    assert_eq!([8, 4, 5, 6, 9, 11, 2], m.dump());
    assert_eq!(4, m.counter());
}

#[test]
fn computer_it_prevents_overflow_while_runing_opcode_8() {
    // M[A] <- M[B] - M[C]
    let mut m = Computer::new();
    m.load_from_slice(&[8, 4, 5, 6, 1, 2, 11]);

    assert_eq!(0, m.counter());
    m.step();
    assert_eq!([8, 4, 5, 6, 4294967287, 2, 11], m.dump());
    assert_eq!(4, m.counter());
}

#[test]
fn computer_it_runs_opcode_9() {
    // M[A] <- M[B] * M[C]
    let mut m = Computer::new();
    m.load_from_slice(&[9, 4, 5, 6, 0, 11, 2]);

    assert_eq!(0, m.counter());
    m.step();
    assert_eq!([9, 4, 5, 6, 22, 11, 2], m.dump());
    assert_eq!(4, m.counter());
}

#[test]
fn it_prevents_overflow_when_running_opcode_9() {
    // M[A] <- M[B] * M[C]
    let mut m = Computer::new();
    m.load_from_slice(&[9, 4, 5, 6, 0, u32::max_value(), 2]);

    assert_eq!(0, m.counter());
    m.step();
    assert_eq!([9, 4, 5, 6, 4294967294, u32::max_value(), 2], m.dump());
    assert_eq!(4, m.counter());
}

#[test]
fn computer_it_runs_opcode_10() {
    // M[A] <- M[B] / M[C]
    let mut m = Computer::new();
    m.load_from_slice(&[10, 4, 5, 6, 0, 11, 2]);

    assert_eq!(0, m.counter());
    m.step();
    assert_eq!([10, 4, 5, 6, 5, 11, 2], m.dump());
    assert_eq!(4, m.counter());
}

#[test]
fn it_prevents_divide_by_zero_errors_when_running_opcode_10() {
    // M[A] <- M[B] / M[C]
    let mut m = Computer::new();
    m.load_from_slice(&[10, 4, 5, 6, 1, 11, 0]);

    assert_eq!(0, m.counter());
    m.step();
    assert_eq!([10, 4, 5, 6, 0, 11, 0], m.dump());
    assert_eq!(4, m.counter());
}

#[test]
fn computer_it_runs_opcode_11() {
    // M[A] <- M[B] % M[C]
    let mut m = Computer::new();
    m.load_from_slice(&[11, 4, 5, 6, 0, 11, 2]);

    assert_eq!(0, m.counter());
    m.step();
    assert_eq!([11, 4, 5, 6, 1, 11, 2], m.dump());
    assert_eq!(4, m.counter());
}

#[test]
fn it_prevents_divide_by_zero_errors_when_running_opcode_11() {
    // M[A] <- M[B] % M[C]
    let mut m = Computer::new();
    m.load_from_slice(&[11, 4, 5, 6, 1, 11, 0]);

    assert_eq!(0, m.counter());
    m.step();
    assert_eq!([11, 4, 5, 6, 0, 11, 0], m.dump());
    assert_eq!(4, m.counter());
}

#[test]
fn computer_it_runs_opcode_12_then_branch() {
    // If M[B] < M[C], then M[A] <- 1, else M[A] <- 0
    let mut m = Computer::new();
    m.load_from_slice(&[12, 4, 5, 6, 2, 8, 9]);

    assert_eq!(0, m.counter());
    m.step();
    assert_eq!([12, 4, 5, 6, 1, 8, 9], m.dump());
    assert_eq!(4, m.counter());
}

#[test]
fn computer_it_runs_opcode_12_else_branch() {
    // If M[B] < M[C], then M[A] <- 1, else M[A] <- 0
    let mut m = Computer::new();
    m.load_from_slice(&[12, 4, 5, 6, 2, 9, 8]);

    assert_eq!(0, m.counter());
    m.step();
    assert_eq!([12, 4, 5, 6, 0, 9, 8], m.dump());
    assert_eq!(4, m.counter());
}

#[test]
fn computer_it_runs_opcode_13() {
    // M[A] <- NOT(M[B] AND M[C])
    let mut m = Computer::new();
    m.load_from_slice(&[13, 4, 5, 6, 0, 0xfffffffe, 0xfffffffd]);

    assert_eq!(0, m.counter());
    m.step();
    assert_eq!([13, 4, 5, 6, 0x3, 0xfffffffe, 0xfffffffd], m.dump());
    assert_eq!(4, m.counter());
}

#[test]
fn computer_it_runs_opcode_14() {
    // Refresh the screen
    let mut m = Computer::new();
    m.load_from_slice(&[14, 0, 0, 0]);

    // Move the program counter after rendering.
    assert_eq!(0, m.counter());
    m.step();
    assert_eq!(4, m.counter());

    let mut buffer = Vec::new();
    m.read_to_end(&mut buffer);

    // Move the cursor to (1,1).
    assert_eq!(&buffer[0..6], &[27, 91, 49, 59, 49, 72]);

    // Put the terminal in Sixel graphics mode.
    assert_eq!(&buffer[6..9], &[27, 80, 113]);

    // Return the terminal to normal mode.
    assert_eq!(&buffer[buffer.len() - 2..buffer.len()], &[27, 92]);
}

#[test]
fn computer_it_runs_opcode_15_blocking() {
    // Get one character from the keyboard and store it into M[A]
    let mut m = Computer::new();
    m.load_from_slice(&[15, 1, 0, 0]);

    // Don't move the program counter if reading failed.
    assert_eq!(0, m.counter());
    m.step();
    assert_eq!(0, m.counter());
}

#[test]
fn computer_it_runs_opcode_15_non_blocking() {
    // Get one character from the keyboard and store it into M[A]
    let input = vec![8, 10, 13, 32];

    let mut m = Computer::new().input(input);
    m.load_from_slice(&[15, 1, 0, 0]);

    // Move the program counter after reading.
    assert_eq!(0, m.counter());
    m.step();
    assert_eq!(4, m.counter());

    // Only save the last key pressed.
    assert_eq!([15, 32, 0, 0], m.dump());
}

#[test]
fn it_runs_opcode_16() {
    // Skip this instruction
    let mut m = Computer::new();
    m.load_from_slice(&[16, 0, 0, 0]);

    assert_eq!(0, m.counter());
    m.step();
    assert_eq!(4, m.counter());
}

#[test]
fn it_runs_opcode_17() {
    // Configure display at M[A] with width B and height C
    let mut m = Computer::new();
    m.load_from_slice(&[17, 100, 640, 480]);

    assert_eq!(0, m.counter());
    m.step();
    assert_eq!(4, m.counter());

    assert_eq!(100, m.display_address());
    assert_eq!(640, m.display_width());
    assert_eq!(480, m.display_height());
}

#[test]
fn computer_it_provides_safe_memory_access_when_stepping() {
    let mut m = Computer::new();
    m.load_from_slice(&[1, 2, 4, 0]);

    m.step();
    m.step();
    assert_eq!([1, 2, 4, 0, 0, 0, 0, 0], m.dump());
}
