use chifir::compiler::{Compiler, CompilerError};
use std::collections::HashMap;

fn assemble(source: &str) -> Vec<u32> {
    let mut compiler = Compiler::new();
    compiler.write(source.as_bytes());
    compiler.compile().unwrap().to_vec()
}

fn labels_of(source: &str) -> HashMap<String, u32> {
    let mut compiler = Compiler::new();
    compiler.write(source.as_bytes());
    compiler.compile().unwrap();
    compiler.labels().into_iter().collect()
}

#[test]
fn it_parses_programs_as_machine_code() {
    assert_eq!(assemble("0 a b c\n1 2 3 4"),
               vec![0x0, 0xa, 0xb, 0xc, 0x1, 0x2, 0x3, 0x4]);
}

#[test]
fn it_parses_opcode_brk() {
    assert_eq!(assemble("brk a b c"), vec![0x0, 0xa, 0xb, 0xc]);
}

#[test]
fn it_starts_empty() {
    let mut compiler = Compiler::new();
    assert!(compiler.lines().is_empty());
    assert!(compiler.instructions().is_empty());
    assert!(compiler.labels().is_empty());
    assert!(compiler.bytecodes().is_empty());
    assert_eq!(compiler.compile().unwrap(), &[0u32; 0][..]);
}

#[test]
fn it_compiles_the_ctrl_c_guard() {
    let source = "check:\n  key x 0 0\n  sub x x ctrl_c\n  beq /3 x exit\n  lpc /2 check 0\nexit:\n  brk 0 0 0\nx:\n  nop 0 0 0\nctrl_c:\n  lea 18 1b 3\n";
    assert_eq!(assemble(source),
               vec![0xf, 0x14, 0, 0, 0x8, 0x14, 0x14, 0x18, 0x2, 0xb, 0x14, 0x10, 0x1, 0xe, 0,
                    0, 0, 0, 0, 0, 0x10, 0, 0, 0, 0x4, 0x18, 0x1b, 0x3]);
}

#[test]
fn it_knows_every_mnemonic() {
    let names = ["brk", "lpc", "beq", "spc", "lea", "lra", "sra", "add", "sub", "mul", "div",
                 "mod", "cmp", "nad", "drw", "key", "nop", "cfv"];
    for (code, name) in names.iter().enumerate() {
        assert_eq!(assemble(name), vec![code as u32, 0, 0, 0]);
    }
}

#[test]
fn it_reads_mnemonics_case_sensitively() {
    // `ADD` is no mnemonic; read as a number it is 0xADD.
    assert_eq!(assemble("ADD"), vec![0xadd, 0, 0, 0]);
    assert_eq!(assemble("Nop"), vec![0, 0, 0, 0]);
}

#[test]
fn it_reads_hex_in_either_case() {
    assert_eq!(assemble("fF aB Cd 10"), vec![0xff, 0xab, 0xcd, 0x10]);
    assert_eq!(assemble("0 ffffffff FFFFFFFF 0000000001"),
               vec![0, 0xffff_ffff, 0xffff_ffff, 1]);
}

#[test]
fn it_reads_a_plus_sign_before_a_number() {
    assert_eq!(assemble("+1 +f /+2 +"), vec![1, 0xf, 2, 0]);
}

#[test]
fn it_turns_malformed_tokens_into_zero() {
    assert_eq!(assemble("xyz 1g -1 0x10"), vec![0, 0, 0, 0]);
    assert_eq!(assemble("1 100000000 fffffffff /"), vec![1, 0, 0, 0]);
    assert_eq!(assemble("1 // /-1 1_0"), vec![1, 0, 0, 0]);
}

#[test]
fn it_fills_missing_operands_with_zero() {
    assert_eq!(assemble("7"), vec![7, 0, 0, 0]);
    assert_eq!(assemble("7 1"), vec![7, 1, 0, 0]);
    assert_eq!(assemble("7 1 2"), vec![7, 1, 2, 0]);
}

#[test]
fn it_ignores_tokens_after_the_fourth() {
    assert_eq!(assemble("1 2 3 4 5 6"), vec![1, 2, 3, 4]);
}

#[test]
fn it_splits_tokens_on_spaces_and_tabs() {
    assert_eq!(assemble("1\t2 \t 3\t\t4"), vec![1, 2, 3, 4]);
}

#[test]
fn it_emits_four_words_for_every_instruction() {
    let source = "a:\n1\n; note\n\n  b: trailing\n2 2\n3 3 3 ; note\n\t\n4 4 4 4\nc:";
    let mut compiler = Compiler::new();
    compiler.write(source.as_bytes());
    compiler.compile().unwrap();
    assert_eq!(compiler.instructions(),
               vec!["a:", "1", "b: trailing", "2 2", "3 3 3", "4 4 4 4", "c:"]);
    assert_eq!(compiler.bytecodes().len(), 4 * 4);
    assert_eq!(compiler.bytecodes(), vec![1, 0, 0, 0, 2, 2, 0, 0, 3, 3, 3, 0, 4, 4, 4, 4]);
}

#[test]
fn it_binds_a_label_to_the_instruction_that_follows() {
    let labels = labels_of("0\n0\nhere:\n0\nthere:\n0\n0\nend:");
    assert_eq!(labels.get("here"), Some(&8));
    assert_eq!(labels.get("there"), Some(&12));
    assert_eq!(labels.get("end"), Some(&20));
    assert_eq!(labels.len(), 3);
}

#[test]
fn it_resolves_labels_defined_above_and_below() {
    assert_eq!(assemble("top:\nlpc below top\nbelow:\nbrk"),
               vec![1, 4, 0, 0, 0, 0, 0, 0]);
}

#[test]
fn it_prefers_a_label_to_a_number() {
    // `a` is a hexadecimal numeral and a label; the label wins.
    assert_eq!(assemble("nop\na:\nlpc a"), vec![0x10, 0, 0, 0, 1, 4, 0, 0]);
}

#[test]
fn it_overwrites_a_label_that_is_defined_again() {
    let source = "l:\n0\nl:\n0\nlpc l";
    assert_eq!(labels_of(source).get("l"), Some(&4));
    assert_eq!(assemble(source), vec![0, 0, 0, 0, 0, 0, 0, 0, 1, 4, 0, 0]);
}

#[test]
fn it_treats_every_entry_with_a_colon_as_a_label() {
    let labels = labels_of("lea a:b 0\n1");
    assert_eq!(labels.get("lea a"), Some(&0));
    assert_eq!(assemble("lea a:b 0\n1"), vec![1, 0, 0, 0]);
}

#[test]
fn it_adds_the_address_of_the_instruction_to_a_relative_operand() {
    assert_eq!(assemble("0\n0\n0 /0 /1 /ff"), vec![0, 0, 0, 0, 0, 0, 0, 0, 0, 8, 9, 0x107]);
}

#[test]
fn it_wraps_a_relative_operand_around() {
    assert_eq!(assemble("0\n0 /ffffffff /fffffffc /fffffffb"),
               vec![0, 0, 0, 0, 0, 3, 0, 0xffff_ffff]);
}

#[test]
fn it_counts_a_carriage_return_and_line_feed_as_one_terminator() {
    let mut compiler = Compiler::new();
    compiler.write(b"1\r\n2\n\r3\r\r4");
    compiler.compile().unwrap();
    assert_eq!(compiler.lines(), vec!["1", "2", "", "3", "", "4"]);
    assert_eq!(compiler.instructions(), vec!["1", "2", "3", "4"]);
}

#[test]
fn it_emits_empty_lines_between_terminators_but_none_at_the_end() {
    let mut compiler = Compiler::new();
    compiler.write(b"\n\n1\n\n");
    compiler.compile().unwrap();
    assert_eq!(compiler.lines(), vec!["", "", "1", ""]);
    assert_eq!(compiler.bytecodes(), vec![1, 0, 0, 0]);
}

#[test]
fn it_keeps_a_last_line_without_a_terminator() {
    let mut compiler = Compiler::new();
    compiler.write(b"1\n 2 ");
    compiler.compile().unwrap();
    assert_eq!(compiler.lines(), vec!["1", " 2 "]);
    assert_eq!(compiler.instructions(), vec!["1", "2"]);
}

#[test]
fn it_splits_on_every_unicode_line_terminator() {
    let mut compiler = Compiler::new();
    compiler.write("1\u{000A}2\u{000B}3\u{000C}4\u{000D}5\u{0085}6\u{2028}7\u{2029}8".as_bytes());
    compiler.compile().unwrap();
    assert_eq!(compiler.lines(), vec!["1", "2", "3", "4", "5", "6", "7", "8"]);
    assert_eq!(compiler.bytecodes().len(), 32);
}

#[test]
fn it_trims_only_spaces_and_tabs() {
    let mut compiler = Compiler::new();
    compiler.write("\u{00A0}1\u{00A0}".as_bytes());
    compiler.compile().unwrap();
    assert_eq!(compiler.instructions(), vec!["\u{00A0}1\u{00A0}"]);
    assert_eq!(compiler.bytecodes(), vec![0, 0, 0, 0]);
}

#[test]
fn it_keeps_what_stands_before_a_comment() {
    let mut compiler = Compiler::new();
    compiler.write(b"  1 2 \t; first ; second\n;\n ;;\n3;");
    compiler.compile().unwrap();
    assert_eq!(compiler.instructions(), vec!["1 2", "3"]);
}

#[test]
fn it_collects_what_is_written_in_pieces() {
    let mut compiler = Compiler::new();
    assert_eq!(compiler.write(b"1 2"), 3);
    assert_eq!(compiler.write(b""), 0);
    assert_eq!(compiler.write(b" 3\n4"), 4);
    compiler.flush();
    assert_eq!(compiler.compile().unwrap(), &[1, 2, 3, 0, 4, 0, 0, 0][..]);
}

#[test]
fn it_compiles_again_from_the_start() {
    let mut compiler = Compiler::new();
    compiler.write(b"l:\n1 l");
    assert_eq!(compiler.compile().unwrap(), &[1, 0, 0, 0][..]);
    compiler.write(b"\n2 /1");
    assert_eq!(compiler.compile().unwrap(), &[1, 0, 0, 0, 2, 5, 0, 0][..]);
    assert_eq!(compiler.lines().len(), 3);
    assert_eq!(compiler.labels().len(), 1);
}

#[test]
fn it_refuses_assembly_that_is_not_utf8() {
    let mut compiler = Compiler::new();
    compiler.write(b"1 2 3 4\n");
    compiler.compile().unwrap();
    compiler.write(&[0x31, 0xff, 0x32]);
    assert!(matches!(compiler.compile(), Err(CompilerError::FromUtf8Error(_))));
    // The compiler is left as it was.
    assert_eq!(compiler.lines(), vec!["1 2 3 4"]);
    assert_eq!(compiler.bytecodes(), vec![1, 2, 3, 4]);
}

#[test]
fn it_refuses_a_code_point_that_is_cut_short() {
    let mut compiler = Compiler::new();
    compiler.write(&[0x31, 0xe2, 0x80]);
    assert!(compiler.compile().is_err());
    compiler.write(&[0xa8, 0x32]);
    assert_eq!(compiler.compile().unwrap(), &[1, 0, 0, 0, 2, 0, 0, 0][..]);
}

#[test]
fn it_reports_the_error_of_the_decoder() {
    let mut compiler = Compiler::new();
    compiler.write(&[0x31, 0x32, 0xc0]);
    match compiler.compile() {
        Err(CompilerError::FromUtf8Error(error)) => {
            assert_eq!(error.utf8_error().valid_up_to(), 2);
            assert_eq!(error.into_bytes(), vec![0x31, 0x32, 0xc0]);
        }
        Ok(_) => panic!("malformed assembly was compiled"),
    }
}

#[test]
fn it_compiles_raw_machine_code() {
    assert_eq!(assemble("\nf 2 0 3\n8 2 2 3\n2 b 2 f\n1 e 0 0\n"),
               vec![0xf, 0x2, 0x0, 0x3, 0x8, 0x2, 0x2, 0x3, 0x2, 0xb, 0x2, 0xf, 0x1, 0xe, 0x0,
                    0x0]);
}

#[test]
fn it_compiles_abbreviated_opcodes() {
    let source = "
key 2 0 3  ; Read key press and store it in M[2]
sub 2 2 3  ; Subtract M[3] from M[2] and store the result in M[2]
beq b 2 f  ; If M[2] equals 0, then set PC to M[b]
lpc e 0 0  ; Else, set PC to M[e]
";
    assert_eq!(assemble(source),
               vec![0xf, 0x2, 0x0, 0x3, 0x8, 0x2, 0x2, 0x3, 0x2, 0xb, 0x2, 0xf, 0x1, 0xe, 0x0,
                    0x0]);
}

#[test]
fn it_compiles_references_to_labels() {
    let source = "
; Halt when Ctrl+C is pressed.

check-ctrl-c:
  key 2 0 3
  sub 2 2 3
  beq b 2 exit
  lpc e check-ctrl-c 0

exit:
  brk 0 0 0
";
    assert_eq!(assemble(source),
               vec![0xf, 0x2, 0x0, 0x3, 0x8, 0x2, 0x2, 0x3, 0x2, 0xb, 0x2, 0x10, 0x1, 0xe, 0x0,
                    0x0, 0x0, 0x0, 0x0, 0x0]);
}

#[test]
fn it_compiles_labels_used_as_storage() {
    let source = "
; Halt when Ctrl+C is pressed.

check-ctrl-c:
  key x 0 0
  sub x x ctrl-c
  beq b x exit
  lpc e check-ctrl-c 0

exit:
  brk 0 0 0

x:
  nop 0 0 0

ctrl-c:
  lea 18 1b 3
";
    assert_eq!(assemble(source),
               vec![0xf, 0x14, 0x0, 0x0, 0x8, 0x14, 0x14, 0x18, 0x2, 0xb, 0x14, 0x10, 0x1, 0xe,
                    0x0, 0x0, 0x0, 0x0, 0x0, 0x0, 0x10, 0x0, 0x0, 0x0, 0x4, 0x18, 0x1b, 0x3]);
}
