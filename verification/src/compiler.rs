//! A compiler for transforming assembly into bytecodes.
//!
//! Assembly is written to the compiler as bytes of UTF-8. Compiling splits it
//! into lines, strips comments, collects the labels and then emits four
//! words for every instruction. Opcodes and operands that cannot be read
//! become zero, like memory that was never written.
//!
//! | Opcode | Abbreviation | Semantics                                    |
//! |:------:|:-------------|:---------------------------------------------|
//! | 0      | `brk`        | Halt execution                               |
//! | 1      | `lpc`        | PC <- M[A]                                   |
//! | 2      | `beq`        | If M[B] = 0, then PC <- M[A]                 |
//! | 3      | `spc`        | M[A] <- PC                                   |
//! | 4      | `lea`        | M[A] <- M[B]                                 |
//! | 5      | `lra`        | M[A] <- M[M[B]]                              |
//! | 6      | `sra`        | M[M[B]] <- M[A]                              |
//! | 7      | `add`        | M[A] <- M[B] + M[C]                          |
//! | 8      | `sub`        | M[A] <- M[B] - M[C]                          |
//! | 9      | `mul`        | M[A] <- M[B] * M[C]                          |
//! | 10     | `div`        | M[A] <- M[B] / M[C]                          |
//! | 11     | `mod`        | M[A] <- M[B] modulo M[C]                     |
//! | 12     | `cmp`        | If M[B] < M[C], then M[A] <- 1, else 0       |
//! | 13     | `nad`        | M[A] <- NOT(M[B] AND M[C])                   |
//! | 14     | `drw`        | Refresh the screen                           |
//! | 15     | `key`        | Get the last key pressed and store it in M[A]|
//! | 16     | `nop`        | Skip this instruction                        |
//! | 17     | `cfv`        | Configure display at A with width B, height C|

use vstd::prelude::*;
use vstd::utf8::{decode_utf8, valid_utf8};
use std::string::FromUtf8Error;
use crate::assembly::{
    address_after, emitted, ends_line, find, instruction_count, instruction_of,
    instruction_words, label_table, lemma_instruction_width, lemma_stream_grows,
    lines_from, lines_of,
    opcode_word, operand_word, parse_hex, slice, spells, split_whitespace, stream_of, token, trim,
    views,
};
use crate::labels::{bindings, distinct_names, Label, LabelTable};
use crate::text::{chars_of, string_from_utf8, string_of};

verus! {

/// Why assembly could not be compiled.
#[derive(Debug)]
pub enum CompilerError {
    /// The assembly is not well-formed UTF-8.
    FromUtf8Error(FromUtf8Error),
}

/// A compiler as a mathematical value.
pub struct Listing {
    /// The bytes of assembly that were written.
    pub assembly: Seq<u8>,
    /// The lines of the assembly.
    pub lines: Seq<Seq<char>>,
    /// The instruction stream: the lines without comments and blanks.
    pub instructions: Seq<Seq<char>>,
    /// The label table.
    pub labels: Map<Seq<char>, u32>,
    /// The words that were emitted.
    pub bytecodes: Seq<u32>,
}

/// What compiling the well-formed `assembly` leaves in the compiler.
pub open spec fn compiled(assembly: Seq<u8>) -> Listing {
    let lines = lines_of(decode_utf8(assembly));
    let instructions = stream_of(lines);
    let labels = label_table(instructions);
    Listing { assembly, lines, instructions, labels, bytecodes: emitted(instructions, labels) }
}

/// The text of a token that may be missing.
pub open spec fn text_of(token: Option<&[char]>) -> Option<Seq<char>> {
    match token {
        Some(token) => Some(token@),
        None => None,
    }
}

/// A compiler for Chifir assembly.
pub struct Compiler {
    assembly: Vec<u8>,
    lines: Vec<Vec<char>>,
    instructions: Vec<Vec<char>>,
    labels: LabelTable,
    bytecodes: Vec<u32>,
}

impl View for Compiler {
    type V = Listing;

    closed spec fn view(&self) -> Listing {
        Listing {
            assembly: self.assembly@,
            lines: views(self.lines@),
            instructions: views(self.instructions@),
            labels: self.labels@,
            bytecodes: self.bytecodes@,
        }
    }
}

/// Token `k` of `tokens`, if there are that many.
fn nth(tokens: &Vec<Vec<char>>, k: usize) -> (found: Option<&[char]>)
    ensures
        text_of(found) == token(views(tokens@), k as int),
{
    if k < tokens.len() {
        Some(tokens[k].as_slice())
    } else {
        None
    }
}

/// The strings of `texts`.
fn strings_of(texts: &Vec<Vec<char>>) -> (strings: Vec<String>)
    ensures
        strings@.len() == texts@.len(),
        forall|i: int| 0 <= i < texts@.len() ==> (#[trigger] strings@[i])@ == texts@[i]@,
{
    let mut strings: Vec<String> = Vec::new();
    let mut i: usize = 0;
    while i < texts.len()
        invariant
            i <= texts@.len(),
            strings@.len() == i,
            forall|j: int| 0 <= j < i ==> (#[trigger] strings@[j])@ == texts@[j]@,
        decreases texts@.len() - i,
    {
        strings.push(string_of(texts[i].as_slice()));
        i += 1;
    }
    strings
}

impl Compiler {
    /// Creates a compiler that holds no assembly.
    pub fn new() -> (compiler: Self)
        ensures
            compiler@ == (Listing {
                assembly: Seq::empty(),
                lines: Seq::empty(),
                instructions: Seq::empty(),
                labels: Map::empty(),
                bytecodes: Seq::empty(),
            }),
            compiler.label_list() == Seq::<Label>::empty(),
    {
        let compiler = Compiler {
            assembly: Vec::new(),
            lines: Vec::new(),
            instructions: Vec::new(),
            labels: LabelTable::new(),
            bytecodes: Vec::new(),
        };
        assert(views(compiler.lines@) =~= Seq::<Seq<char>>::empty());
        assert(views(compiler.instructions@) =~= Seq::<Seq<char>>::empty());
        compiler
    }

    /// Appends `buf` to the assembly and returns the number of bytes taken,
    /// which is all of them.
    pub fn write(&mut self, buf: &[u8]) -> (count: usize)
        ensures
            count == buf@.len(),
            final(self)@ == (Listing { assembly: old(self)@.assembly + buf@, ..old(self)@ }),
            final(self).label_list() == old(self).label_list(),
    {
        let mut i: usize = 0;
        while i < buf.len()
            invariant
                i <= buf@.len(),
                self@ == (Listing {
                    assembly: old(self)@.assembly + buf@.take(i as int),
                    ..old(self)@
                }),
                self.label_list() == old(self).label_list(),
            decreases buf@.len() - i,
        {
            self.assembly.push(buf[i]);
            i += 1;
            assert(self.assembly@ =~= old(self)@.assembly + buf@.take(i as int));
        }
        assert(buf@.take(i as int) =~= buf@);
        i
    }

    /// Nothing is held back, so there is nothing to flush.
    pub fn flush(&mut self)
        ensures
            final(self)@ == old(self)@,
            final(self).label_list() == old(self).label_list(),
    {
    }

    /// Compiles the assembly that was written so far, from its start, and
    /// returns the bytecodes: four words for every instruction. Assembly that
    /// is not well-formed UTF-8 is refused, and the compiler is then left as
    /// it was.
    pub fn compile(&mut self) -> (result: Result<&[u32], CompilerError>)
        ensures
            valid_utf8(old(self)@.assembly) ==> result is Ok && final(self)@ == compiled(
                old(self)@.assembly,
            ) && result->Ok_0@ == compiled(old(self)@.assembly).bytecodes,
            !valid_utf8(old(self)@.assembly) ==> result is Err && final(self)@ == old(self)@
                && final(self).label_list() == old(self).label_list(),
            result is Ok ==> result->Ok_0@.len() == 4 * instruction_count(
                final(self)@.instructions,
            ),
            result is Ok ==> distinct_names(final(self).label_list()),
    {
        match string_from_utf8(self.assembly.clone()) {
            Ok(assembly) => {
                let text = chars_of(assembly.as_str());
                self.split_lines(text.as_slice());
                self.strip_comments();
                self.compile_labels();
                self.compile_bytecodes();
                proof {
                    lemma_instruction_width(self@.instructions, self@.labels);
                }
                Ok(self.bytecodes.as_slice())
            },
            Err(error) => Err(CompilerError::FromUtf8Error(error)),
        }
    }

    /// The lines of the assembly that was compiled.
    pub fn lines(&self) -> (lines: Vec<String>)
        ensures
            lines@.len() == self@.lines.len(),
            forall|i: int| 0 <= i < lines@.len() ==> (#[trigger] lines@[i])@ == self@.lines[i],
    {
        strings_of(&self.lines)
    }

    /// The instruction stream of the assembly that was compiled.
    pub fn instructions(&self) -> (instructions: Vec<String>)
        ensures
            instructions@.len() == self@.instructions.len(),
            forall|i: int|
                0 <= i < instructions@.len() ==> (#[trigger] instructions@[i])@
                    == self@.instructions[i],
    {
        strings_of(&self.instructions)
    }

    /// The labels that make the label table, in the order in which their
    /// names were first bound.
    pub closed spec fn label_list(&self) -> Seq<Label> {
        self.labels.labels()
    }

    /// The label table is what the labels of the list bind.
    pub proof fn lemma_label_list(&self)
        ensures
            self@.labels == bindings(self.label_list()),
    {
        self.labels.lemma_view();
    }

    /// The label table of the assembly that was compiled: each name with the
    /// address that it is bound to.
    pub fn labels(&self) -> (labels: Vec<(String, u32)>)
        ensures
            labels@.len() == self.label_list().len(),
            forall|i: int|
                0 <= i < labels@.len() ==> (#[trigger] labels@[i]).0@
                    == self.label_list()[i].name@ && labels@[i].1 == self.label_list()[i].address,
    {
        let mut labels: Vec<(String, u32)> = Vec::new();
        let mut i: usize = 0;
        while i < self.labels.len()
            invariant
                i <= self.labels.labels().len(),
                labels@.len() == i,
                forall|j: int|
                    0 <= j < i ==> (#[trigger] labels@[j]).0@ == self.labels.labels()[j].name@
                        && labels@[j].1 == self.labels.labels()[j].address,
            decreases self.labels.labels().len() - i,
        {
            let label = self.labels.label(i);
            labels.push((string_of(label.name.as_slice()), label.address));
            i += 1;
        }
        labels
    }

    /// The words that were emitted.
    pub fn bytecodes(&self) -> (bytecodes: &[u32])
        ensures
            bytecodes@ == self@.bytecodes,
    {
        self.bytecodes.as_slice()
    }

    /// Transforms an opcode into a bytecode. Undefined opcodes, or those that
    /// fail to parse, are treated as zero.
    pub fn parse_opcode(&self, opcode: Option<&[char]>) -> (word: u32)
        ensures
            word == opcode_word(text_of(opcode)),
    {
        match opcode {
            Some(opcode) => {
                if spells(opcode, 'b', 'r', 'k') {
                    0
                } else if spells(opcode, 'l', 'p', 'c') {
                    1
                } else if spells(opcode, 'b', 'e', 'q') {
                    2
                } else if spells(opcode, 's', 'p', 'c') {
                    3
                } else if spells(opcode, 'l', 'e', 'a') {
                    4
                } else if spells(opcode, 'l', 'r', 'a') {
                    5
                } else if spells(opcode, 's', 'r', 'a') {
                    6
                } else if spells(opcode, 'a', 'd', 'd') {
                    7
                } else if spells(opcode, 's', 'u', 'b') {
                    8
                } else if spells(opcode, 'm', 'u', 'l') {
                    9
                } else if spells(opcode, 'd', 'i', 'v') {
                    10
                } else if spells(opcode, 'm', 'o', 'd') {
                    11
                } else if spells(opcode, 'c', 'm', 'p') {
                    12
                } else if spells(opcode, 'n', 'a', 'd') {
                    13
                } else if spells(opcode, 'd', 'r', 'w') {
                    14
                } else if spells(opcode, 'k', 'e', 'y') {
                    15
                } else if spells(opcode, 'n', 'o', 'p') {
                    16
                } else if spells(opcode, 'c', 'f', 'v') {
                    17
                } else {
                    parse_hex(opcode)
                }
            },
            None => 0,
        }
    }

    /// Transforms an operand of the instruction at `opcode_address` into a
    /// bytecode. Undefined operands, or those that fail to parse, are treated
    /// as zero.
    pub fn parse_operand(&self, operand: Option<&[char]>, opcode_address: u32) -> (word: u32)
        ensures
            word == operand_word(text_of(operand), self@.labels, opcode_address),
    {
        match operand {
            Some(operand) => {
                match self.labels.get(operand) {
                    // Operand is a label with an absolute address
                    Some(address) => address,
                    None => {
                        if operand.len() > 0 && operand[0] == '/' {
                            // Operand is a relative address
                            let digits = slice(operand, 1, operand.len());
                            assert(digits@ =~= operand@.drop_first());
                            let address = parse_hex(digits.as_slice());
                            address.wrapping_add(opcode_address)
                        } else {
                            // Operand is a numeric value
                            parse_hex(operand)
                        }
                    },
                }
            },
            None => 0,
        }
    }

    /// Emits the four words of the instruction at `opcode_address`.
    fn emit(&self, instruction: &[char], opcode_address: u32, bytecodes: &mut Vec<u32>)
        ensures
            final(bytecodes)@ == old(bytecodes)@ + instruction_words(
                instruction@,
                self@.labels,
                opcode_address,
            ),
    {
        let tokens = split_whitespace(instruction);

        // Opcode
        let opcode = self.parse_opcode(nth(&tokens, 0));
        bytecodes.push(opcode);

        // Operand A
        let operand_a = self.parse_operand(nth(&tokens, 1), opcode_address);
        bytecodes.push(operand_a);

        // Operand B
        let operand_b = self.parse_operand(nth(&tokens, 2), opcode_address);
        bytecodes.push(operand_b);

        // Operand C
        let operand_c = self.parse_operand(nth(&tokens, 3), opcode_address);
        bytecodes.push(operand_c);

        assert(bytecodes@ =~= old(bytecodes)@ + instruction_words(
            instruction@,
            self@.labels,
            opcode_address,
        ));
    }

    /// Emits four words for every instruction of the instruction stream.
    fn compile_bytecodes(&mut self)
        ensures
            final(self)@ == (Listing {
                bytecodes: emitted(old(self)@.instructions, old(self)@.labels),
                ..old(self)@
            }),
            final(self).label_list() == old(self).label_list(),
    {
        let mut bytecodes: Vec<u32> = Vec::new();
        let mut opcode_address: u32 = 0;
        let mut i: usize = 0;
        let ghost stream = views(self.instructions@);
        let ghost labels = self@.labels;
        assert(stream.take(0) =~= Seq::<Seq<char>>::empty());
        while i < self.instructions.len()
            invariant
                i <= self.instructions@.len(),
                *self == *old(self),
                stream == views(self.instructions@),
                labels == self@.labels,
                bytecodes@ == emitted(stream.take(i as int), labels),
                opcode_address == address_after(stream.take(i as int)),
            decreases self.instructions@.len() - i,
        {
            let instruction = self.instructions[i].as_slice();
            proof {
                assert(stream.take(i + 1) =~= stream.take(i as int).push(instruction@));
                lemma_stream_grows(stream.take(i as int), instruction@, labels);
            }
            if find(instruction, ':') < instruction.len() {
                // Ignore labels
            } else {
                self.emit(instruction, opcode_address, &mut bytecodes);
                opcode_address = opcode_address.wrapping_add(4);
            }
            i += 1;
        }
        assert(stream.take(i as int) =~= stream);
        self.bytecodes = bytecodes;
    }

    /// Binds every label of the instruction stream to the address of the
    /// instruction that follows it.
    fn compile_labels(&mut self)
        ensures
            final(self)@ == (Listing {
                labels: label_table(old(self)@.instructions),
                ..old(self)@
            }),
            distinct_names(final(self).label_list()),
    {
        let mut labels = LabelTable::new();
        let mut address: u32 = 0;
        let mut i: usize = 0;
        let ghost stream = views(self.instructions@);
        assert(stream.take(0) =~= Seq::<Seq<char>>::empty());
        while i < self.instructions.len()
            invariant
                i <= self.instructions@.len(),
                *self == *old(self),
                stream == views(self.instructions@),
                labels@ == label_table(stream.take(i as int)),
                labels.distinct(),
                address == address_after(stream.take(i as int)),
            decreases self.instructions@.len() - i,
        {
            let instruction = self.instructions[i].as_slice();
            proof {
                assert(stream.take(i + 1) =~= stream.take(i as int).push(instruction@));
                lemma_stream_grows(stream.take(i as int), instruction@, labels@);
            }
            let index = find(instruction, ':');
            if index < instruction.len() {
                labels.insert(slice(instruction, 0, index), address);
            } else {
                address = address.wrapping_add(4);
            }
            i += 1;
        }
        assert(stream.take(i as int) =~= stream);
        proof {
            labels.lemma_distinct();
        }
        self.labels = labels;
    }

    /// Makes the instruction stream of the lines: drops empty lines and
    /// comments and trims what is left.
    fn strip_comments(&mut self)
        ensures
            final(self)@ == (Listing {
                instructions: stream_of(old(self)@.lines),
                ..old(self)@
            }),
    {
        let mut instructions: Vec<Vec<char>> = Vec::new();
        let mut i: usize = 0;
        let ghost lines = views(self.lines@);
        assert(lines.take(0) =~= Seq::<Seq<char>>::empty());
        assert(views(instructions@) =~= Seq::<Seq<char>>::empty());
        while i < self.lines.len()
            invariant
                i <= self.lines@.len(),
                *self == *old(self),
                lines == views(self.lines@),
                views(instructions@) == stream_of(lines.take(i as int)),
            decreases self.lines@.len() - i,
        {
            let line = self.lines[i].as_slice();
            proof {
                assert(lines.take(i + 1).drop_last() =~= lines.take(i as int));
                assert(lines.take(i + 1).last() == line@);
            }
            let trimmed_line = trim(line);
            if trimmed_line.len() > 0 && trimmed_line[0] != ';' {
                let index = find(trimmed_line.as_slice(), ';');
                let instruction = slice(trimmed_line.as_slice(), 0, index);
                let ghost before = instructions@;
                instructions.push(trim(instruction.as_slice()));
                assert(views(instructions@) =~= views(before).push(instruction_of(line@)->Some_0));
            }
            i += 1;
        }
        assert(lines.take(i as int) =~= lines);
        self.instructions = instructions;
    }

    /// Splits the assembly into lines.
    fn split_lines(&mut self, assembly: &[char])
        ensures
            final(self)@ == (Listing { lines: lines_of(assembly@), ..old(self)@ }),
    {
        let mut lines: Vec<Vec<char>> = Vec::new();
        let mut start: usize = 0;
        let mut at: usize = 0;
        assert(views(lines@) =~= Seq::<Seq<char>>::empty());
        while at < assembly.len()
            invariant
                start <= at <= assembly@.len(),
                views(lines@) + lines_from(assembly@, start as int, at as int) == lines_of(
                    assembly@,
                ),
            decreases assembly@.len() - at,
        {
            let c = assembly[at];
            if ends_line(c) {
                let ghost before = lines@;
                lines.push(slice(assembly, start, at));
                assert(views(lines@) =~= views(before).push(
                    assembly@.subrange(start as int, at as int),
                ));
                // Carriage Return + Line Feed
                if c == '\u{000D}' && at + 1 < assembly.len() && assembly[at + 1] == '\u{000A}' {
                    at += 2;
                } else {
                    at += 1;
                }
                start = at;
                assert(views(lines@) + lines_from(assembly@, start as int, at as int) =~= lines_of(
                    assembly@,
                ));
            } else {
                at += 1;
            }
        }
        if start < at {
            let ghost before = lines@;
            lines.push(slice(assembly, start, at));
            assert(views(lines@) =~= views(before).push(
                assembly@.subrange(start as int, at as int),
            ));
        }
        assert(views(lines@) =~= lines_of(assembly@));
        self.lines = lines;
    }
}

} // verus!
