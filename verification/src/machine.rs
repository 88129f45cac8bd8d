//! The first Chifir machine: fifteen opcodes and a display of fixed place and
//! size that is drawn inside a border.
//!
//! The machine reads its keys from `input`, the bytes that have arrived and
//! were not read yet, and writes its frames to `output`.

use vstd::prelude::*;
use vstd::slice::slice_subrange;
use crate::computer::{advanced, computed, decoded, lemma_decoded_keeps_words};
use crate::memory::{lemma_touched_keeps_words, touched, word_at, wrap, written};
use crate::sixel;
use crate::terminal;
use crate::text::{lemma_ascii_round_trip, push_ascii};

verus! {

/// Where the display window starts.
pub const DISPLAY_ADDRESS: u32 = 1_048_576;

/// The width of the display in pixels.
pub const DISPLAY_WIDTH: u32 = 512;

/// The height of the display in pixels.
pub const DISPLAY_HEIGHT: u32 = 684;

/// One past the last address of the display window.
pub const DISPLAY_END: u32 = 1_398_784;

/// A machine as a mathematical value.
pub struct State {
    /// The words of memory that are held so far.
    pub memory: Seq<u32>,
    /// The program counter.
    pub counter: u32,
    /// The bytes written to the output so far.
    pub output: Seq<u8>,
    /// The bytes waiting on the input.
    pub input: Seq<u8>,
}

/// The memory after `drw` made sure that it covers the display window.
pub open spec fn covered(memory: Seq<u32>) -> Seq<u32> {
    touched(touched(memory, DISPLAY_ADDRESS), DISPLAY_END)
}

/// The frame that `drw` writes: cursor home, the sixel opening, the image of
/// the display window inside a border, and the sixel closing.
pub open spec fn rendered(memory: Seq<u32>) -> Seq<u8> {
    terminal::home_sequence() + sixel::begin_bytes() + sixel::frame(
        covered(memory).subrange(DISPLAY_ADDRESS as int, DISPLAY_END as int),
        DISPLAY_WIDTH as nat,
        DISPLAY_HEIGHT as nat,
        true,
    ) + sixel::end_bytes()
}

/// The machine after the instruction `opcode A B C` ran. Opcodes 1 to 13
/// jump, move and compute; `drw` (14) writes a frame to the output; `key`
/// (15) drains the input and, where a byte was waiting, stores the last one
/// in `M[A]`, else leaves the program counter where it is so that the
/// instruction runs again. Every other opcode does nothing and does not
/// advance the program counter.
pub open spec fn executed(s: State, opcode: u32, a: u32, b: u32, c: u32) -> State {
    let m = s.memory;
    if opcode == 1 {
        State { memory: touched(m, a), counter: word_at(m, a), ..s }
    } else if opcode == 2 {
        if word_at(m, b) == 0 {
            State { memory: touched(touched(m, b), a), counter: word_at(m, a), ..s }
        } else {
            State { memory: touched(m, b), counter: advanced(s.counter), ..s }
        }
    } else if opcode == 3 {
        State { memory: written(m, a, s.counter), counter: advanced(s.counter), ..s }
    } else if opcode == 4 {
        State {
            memory: written(touched(m, b), a, word_at(m, b)),
            counter: advanced(s.counter),
            ..s
        }
    } else if opcode == 5 {
        State {
            memory: written(touched(touched(m, b), word_at(m, b)), a, word_at(m, word_at(m, b))),
            counter: advanced(s.counter),
            ..s
        }
    } else if opcode == 6 {
        State {
            memory: written(touched(touched(m, a), b), word_at(m, b), word_at(m, a)),
            counter: advanced(s.counter),
            ..s
        }
    } else if 7 <= opcode <= 13 {
        State {
            memory: written(
                touched(touched(m, b), c),
                a,
                computed(opcode, word_at(m, b), word_at(m, c)),
            ),
            counter: advanced(s.counter),
            ..s
        }
    } else if opcode == 14 {
        State {
            memory: covered(m),
            counter: advanced(s.counter),
            output: s.output + rendered(m),
            ..s
        }
    } else if opcode == 15 {
        if s.input.len() > 0 {
            State {
                memory: written(m, a, s.input.last() as u32),
                counter: advanced(s.counter),
                input: Seq::empty(),
                ..s
            }
        } else {
            s
        }
    } else {
        s
    }
}

/// The machine after one step: the instruction at the program counter is
/// fetched, which touches its four words, and runs.
pub open spec fn stepped(s: State) -> State {
    executed(
        State { memory: decoded(s.memory, s.counter), ..s },
        word_at(s.memory, s.counter),
        word_at(s.memory, wrap(s.counter + 1)),
        word_at(s.memory, wrap(s.counter + 2)),
        word_at(s.memory, wrap(s.counter + 3)),
    )
}

/// Halt: a step with the program counter at a zero word, or at any other
/// opcode that the machine does not know, leaves the program counter where
/// it is and changes nothing but the length of the memory.
pub proof fn lemma_halt(s: State)
    requires
        word_at(s.memory, s.counter) == 0 || word_at(s.memory, s.counter) > 15,
    ensures
        stepped(s) == (State { memory: decoded(s.memory, s.counter), ..s }),
        stepped(s).counter == s.counter,
        forall|at: u32| word_at(stepped(s).memory, at) == word_at(s.memory, at),
{
    assert forall|at: u32| word_at(stepped(s).memory, at) == word_at(s.memory, at) by {
        lemma_decoded_keeps_words(s.memory, s.counter, at);
    }
}

/// The first Chifir machine.
pub struct Machine {
    /// The words of memory.
    pub memory: Vec<u32>,
    /// The program counter.
    pub counter: u32,
    /// The bytes written to the output so far.
    pub output: Vec<u8>,
    /// The bytes waiting on the input.
    pub input: Vec<u8>,
}

impl View for Machine {
    type V = State;

    open spec fn view(&self) -> State {
        State {
            memory: self.memory@,
            counter: self.counter,
            output: self.output@,
            input: self.input@,
        }
    }
}

impl Machine {
    /// Creates a machine that holds a valid program, an endless loop, with
    /// nothing written and nothing waiting.
    pub fn new() -> (machine: Self)
        ensures
            machine@ == (State {
                memory: seq![1u32, 2u32, 0u32, 0u32],
                counter: 0,
                output: Seq::empty(),
                input: Seq::empty(),
            }),
    {
        let mut memory: Vec<u32> = Vec::new();
        memory.push(1);
        memory.push(2);
        memory.push(0);
        memory.push(0);
        assert(memory@ =~= seq![1u32, 2u32, 0u32, 0u32]);
        Machine { memory, counter: 0, output: Vec::new(), input: Vec::new() }
    }

    /// The program counter.
    pub fn loc(&self) -> (counter: u32)
        ensures
            counter == self@.counter,
    {
        self.counter
    }

    /// Returns the next opcode that will be executed: the word at the program
    /// counter, which is touched.
    pub fn next(&mut self) -> (opcode: u32)
        ensures
            opcode == word_at(old(self)@.memory, old(self)@.counter),
            final(self)@ == (State {
                memory: touched(old(self)@.memory, old(self)@.counter),
                ..old(self)@
            }),
    {
        let counter = self.counter;
        self.read(counter)
    }

    /// The contents of memory.
    pub fn dump(&self) -> (words: &Vec<u32>)
        ensures
            words@ == self@.memory,
    {
        &self.memory
    }

    /// Executes the next instruction.
    pub fn step(&mut self)
        ensures
            final(self)@ == stepped(old(self)@),
    {
        let (opcode, a, b, c) = self.decode();
        self.exec(opcode, a, b, c);
    }

    /// Fetches the four words of the instruction at the program counter.
    fn decode(&mut self) -> (words: (u32, u32, u32, u32))
        ensures
            final(self)@ == (State {
                memory: decoded(old(self)@.memory, old(self)@.counter),
                ..old(self)@
            }),
            words.0 == word_at(old(self)@.memory, old(self)@.counter),
            words.1 == word_at(old(self)@.memory, wrap(old(self)@.counter + 1)),
            words.2 == word_at(old(self)@.memory, wrap(old(self)@.counter + 2)),
            words.3 == word_at(old(self)@.memory, wrap(old(self)@.counter + 3)),
    {
        let counter = self.counter;
        let ghost m0 = self@.memory;
        let opcode = self.read(counter);
        let ghost m1 = self@.memory;
        let at_a = counter.wrapping_add(1);
        let a = self.read(at_a);
        let ghost m2 = self@.memory;
        let at_b = counter.wrapping_add(2);
        let b = self.read(at_b);
        let at_c = counter.wrapping_add(3);
        let c = self.read(at_c);
        proof {
            assert(at_a == wrap(counter + 1));
            assert(at_b == wrap(counter + 2));
            assert(at_c == wrap(counter + 3));
            lemma_touched_keeps_words(m0, counter, at_a);
            lemma_touched_keeps_words(m0, counter, at_b);
            lemma_touched_keeps_words(m1, at_a, at_b);
            lemma_touched_keeps_words(m0, counter, at_c);
            lemma_touched_keeps_words(m1, at_a, at_c);
            lemma_touched_keeps_words(m2, at_b, at_c);
        }
        (opcode, a, b, c)
    }

    /// Reads the word at `index`, growing the memory so that it covers
    /// `index`.
    fn read(&mut self, index: u32) -> (word: u32)
        ensures
            word == word_at(old(self)@.memory, index),
            final(self)@ == (State { memory: touched(old(self)@.memory, index), ..old(self)@ }),
    {
        crate::memory::fetch(&mut self.memory, index)
    }

    /// Writes `value` at `index`, growing the memory so that it covers
    /// `index`.
    fn write(&mut self, index: u32, value: u32)
        ensures
            final(self)@ == (State {
                memory: written(old(self)@.memory, index, value),
                ..old(self)@
            }),
    {
        crate::memory::store(&mut self.memory, index, value)
    }

    /// Moves the program counter past the instruction that ran.
    fn advance(&mut self)
        ensures
            final(self)@ == (State { counter: advanced(old(self)@.counter), ..old(self)@ }),
    {
        self.counter = self.counter.wrapping_add(4);
    }

    /// Renders the display window and writes the frame to the output.
    fn render(&mut self)
        ensures
            final(self)@ == (State {
                memory: covered(old(self)@.memory),
                output: old(self)@.output + rendered(old(self)@.memory),
                ..old(self)@
            }),
    {
        self.read(DISPLAY_ADDRESS);
        self.read(DISPLAY_END);

        let memory = slice_subrange(
            self.memory.as_slice(),
            DISPLAY_ADDRESS as usize,
            DISPLAY_END as usize,
        );
        let mut buffer = terminal::home();
        proof {
            lemma_ascii_round_trip(sixel::begin_bytes());
            lemma_ascii_round_trip(sixel::end_bytes());
        }
        push_ascii(&mut buffer, sixel::begin().as_str());
        let mut image = sixel::encode(
            memory,
            DISPLAY_WIDTH as usize,
            DISPLAY_HEIGHT as usize,
            true,
        );
        buffer.append(&mut image);
        push_ascii(&mut buffer, sixel::end().as_str());
        self.output.append(&mut buffer);
    }

    /// Runs the instruction `opcode A B C`.
    fn exec(&mut self, opcode: u32, a: u32, b: u32, c: u32)
        ensures
            final(self)@ == executed(old(self)@, opcode, a, b, c),
    {
        match opcode {
            // PC <- M[A]
            1 => {
                self.counter = self.read(a);
            },
            // If M[B] = 0, then PC <- M[A]
            2 => {
                if 0 == self.read(b) {
                    self.counter = self.read(a);
                } else {
                    self.advance();
                }
            },
            // M[A] <- PC
            3 => {
                let counter = self.counter;
                self.write(a, counter);
                self.advance();
            },
            // M[A] <- M[B]
            4 => {
                let b = self.read(b);
                self.write(a, b);
                self.advance();
            },
            // M[A] <- M[M[B]]
            5 => {
                let b = self.read(b);
                let b = self.read(b);
                self.write(a, b);
                self.advance();
            },
            // M[M[B]] <- M[A]
            6 => {
                let a = self.read(a);
                let b = self.read(b);
                self.write(b, a);
                self.advance();
            },
            // M[A] <- M[B] + M[C]
            7 => {
                let b = self.read(b);
                let c = self.read(c);
                self.write(a, b.wrapping_add(c));
                self.advance();
            },
            // M[A] <- M[B] - M[C]
            8 => {
                let b = self.read(b);
                let c = self.read(c);
                self.write(a, b.wrapping_sub(c));
                self.advance();
            },
            // M[A] <- M[B] * M[C]
            9 => {
                let b = self.read(b);
                let c = self.read(c);
                self.write(a, b.wrapping_mul(c));
                self.advance();
            },
            // M[A] <- M[B] / M[C]
            10 => {
                let b = self.read(b);
                let c = self.read(c);
                if c > 0 {
                    self.write(a, b / c);
                } else {
                    self.write(a, 0);
                }
                self.advance();
            },
            // M[A] <- M[B] % M[C]
            11 => {
                let b = self.read(b);
                let c = self.read(c);
                if c > 0 {
                    self.write(a, b % c);
                } else {
                    self.write(a, 0);
                }
                self.advance();
            },
            // If M[B] < M[C], then M[A] <- 1, else M[A] <- 0
            12 => {
                let b = self.read(b);
                let c = self.read(c);
                if b < c {
                    self.write(a, 1);
                } else {
                    self.write(a, 0);
                }
                self.advance();
            },
            // M[A] <- NOT(M[B] AND M[C])
            13 => {
                let b = self.read(b);
                let c = self.read(c);
                self.write(a, !(b & c));
                self.advance();
            },
            // Refresh the screen
            14 => {
                self.render();
                self.advance();
            },
            // Get one character from the keyboard and store it into M[A]
            15 => {
                let size = self.input.len();
                if size > 0 {
                    let key = self.input[size - 1];
                    self.input.clear();
                    self.write(a, key as u32);
                    self.advance();
                }
            },
            // Unknown opcode
            _ => {},
        }
    }
}

} // verus!
