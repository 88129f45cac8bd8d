//! The Chifir computer: memory, a program counter, a keyboard register and a
//! bitmap display.
//!
//! The computer does no input or output of its own. A bound input stream is
//! the buffer of bytes that have arrived and that no `key` instruction has
//! read yet; a bound output stream is the buffer of the bytes that were
//! emitted and that the host has not taken yet. The host moves bytes between
//! these buffers and the outside world with [`Computer::feed`] and
//! [`Computer::take_output`].

use vstd::prelude::*;
use vstd::slice::slice_subrange;
use crate::memory::{addressable, lemma_touched_keeps_words, touched, word_at, wrap, written};
use crate::sixel;
use crate::terminal;
use crate::text::{lemma_ascii_round_trip, push_ascii};

verus! {

/// Where the display window starts unless `cfv` says otherwise.
pub const DISPLAY_ADDRESS: u32 = 1_048_576;

/// The width of the display in pixels unless `cfv` says otherwise.
pub const DISPLAY_WIDTH: u32 = 512;

/// The height of the display in pixels unless `cfv` says otherwise.
pub const DISPLAY_HEIGHT: u32 = 684;

/// A computer as a mathematical value.
pub struct Snapshot {
    /// The words of memory that are held so far.
    pub memory: Seq<u32>,
    /// The program counter.
    pub counter: u32,
    /// The bytes waiting on the bound input stream, if one is bound.
    pub input: Option<Seq<u8>>,
    /// The bytes emitted to the bound output stream, if one is bound.
    pub output: Option<Seq<u8>>,
    /// The last key seen.
    pub keyboard: Option<u8>,
    /// Where the display window starts.
    pub display_address: u32,
    /// The width of the display in pixels.
    pub display_width: u32,
    /// The height of the display in pixels.
    pub display_height: u32,
    /// The last frame that was drawn.
    pub display: Seq<u8>,
    /// How many bytes of the last frame were read from the in-memory display.
    pub read_position: nat,
}

/// The program counter after an instruction that does not jump.
pub open spec fn advanced(counter: u32) -> u32 {
    wrap(counter + 4)
}

/// The memory after the four words of the instruction at `counter` were
/// fetched.
pub open spec fn decoded(memory: Seq<u32>, counter: u32) -> Seq<u32> {
    touched(
        touched(touched(touched(memory, counter), wrap(counter + 1)), wrap(counter + 2)),
        wrap(counter + 3),
    )
}

/// What the arithmetic and logic opcodes 7 to 13 compute from `M[B]` and
/// `M[C]`: sum, difference and product modulo 2^32, quotient and remainder
/// (zero where the divisor is zero), less-than as 1 or 0, and bitwise nand.
pub open spec fn computed(opcode: u32, x: u32, y: u32) -> u32 {
    if opcode == 7 {
        wrap(x + y)
    } else if opcode == 8 {
        wrap(x - y)
    } else if opcode == 9 {
        wrap(x * y)
    } else if opcode == 10 {
        if y > 0 {
            (x / y) as u32
        } else {
            0
        }
    } else if opcode == 11 {
        if y > 0 {
            (x % y) as u32
        } else {
            0
        }
    } else if opcode == 12 {
        if x < y {
            1
        } else {
            0
        }
    } else {
        !(x & y)
    }
}

/// One past the last address of the display window, before any clipping.
pub open spec fn window_end(s: Snapshot) -> int {
    s.display_address + s.display_width * s.display_height
}

/// The memory after `drw` made sure that it covers the display window: the
/// first address of the window and the address behind it (the last address
/// there is, where the window reaches past it) are touched.
pub open spec fn covered(s: Snapshot) -> Seq<u32> {
    let last = if window_end(s) > u32::MAX {
        u32::MAX
    } else {
        window_end(s) as u32
    };
    touched(touched(s.memory, s.display_address), last)
}

/// The words of the display window, clipped to the memory that is held.
pub open spec fn window(s: Snapshot) -> Seq<u32> {
    let memory = covered(s);
    let high = if window_end(s) < memory.len() {
        window_end(s)
    } else {
        memory.len() as int
    };
    let low = if s.display_address < high {
        s.display_address as int
    } else {
        high
    };
    memory.subrange(low, high)
}

/// The frame that `drw` renders: cursor home, the sixel opening, the image of
/// the display window without a border, and the sixel closing.
pub open spec fn rendered(s: Snapshot) -> Seq<u8> {
    terminal::home_sequence() + sixel::begin_bytes() + sixel::frame(
        window(s),
        s.display_width as nat,
        s.display_height as nat,
        false,
    ) + sixel::end_bytes()
}

/// The computer after `drw`, but for its program counter: the frame is kept
/// as the in-memory display, unread, and is emitted to the output stream
/// where one is bound.
pub open spec fn drawn(s: Snapshot) -> Snapshot {
    Snapshot {
        memory: covered(s),
        output: match s.output {
            Some(sent) => Some(sent + rendered(s)),
            None => None,
        },
        display: rendered(s),
        read_position: 0,
        ..s
    }
}

/// The key that `key` stores: the last byte waiting on the bound input
/// stream, or else the last key seen.
pub open spec fn polled(s: Snapshot) -> Option<u8> {
    match s.input {
        Some(waiting) => if waiting.len() > 0 {
            Some(waiting.last())
        } else {
            s.keyboard
        },
        None => s.keyboard,
    }
}

/// A stream after every byte was taken from it.
pub open spec fn drained(input: Option<Seq<u8>>) -> Option<Seq<u8>> {
    match input {
        Some(_) => Some(Seq::empty()),
        None => None,
    }
}

/// The computer after `key A`: the input stream is drained and its last byte,
/// if any, becomes the last key seen. Where there is a last key, it is stored
/// in `M[A]` and the program counter advances; else the instruction will run
/// again.
pub open spec fn keyed(s: Snapshot, a: u32) -> Snapshot {
    match polled(s) {
        Some(key) => Snapshot {
            memory: written(s.memory, a, key as u32),
            counter: advanced(s.counter),
            input: drained(s.input),
            keyboard: Some(key),
            ..s
        },
        None => Snapshot { input: drained(s.input), ..s },
    }
}

/// The computer after the instruction `opcode A B C` ran.
pub open spec fn executed(s: Snapshot, opcode: u32, a: u32, b: u32, c: u32) -> Snapshot {
    let m = s.memory;
    if opcode == 1 {
        Snapshot { memory: touched(m, a), counter: word_at(m, a), ..s }
    } else if opcode == 2 {
        if word_at(m, b) == 0 {
            Snapshot { memory: touched(touched(m, b), a), counter: word_at(m, a), ..s }
        } else {
            Snapshot { memory: touched(m, b), counter: advanced(s.counter), ..s }
        }
    } else if opcode == 3 {
        Snapshot { memory: written(m, a, s.counter), counter: advanced(s.counter), ..s }
    } else if opcode == 4 {
        Snapshot {
            memory: written(touched(m, b), a, word_at(m, b)),
            counter: advanced(s.counter),
            ..s
        }
    } else if opcode == 5 {
        Snapshot {
            memory: written(touched(touched(m, b), word_at(m, b)), a, word_at(m, word_at(m, b))),
            counter: advanced(s.counter),
            ..s
        }
    } else if opcode == 6 {
        Snapshot {
            memory: written(touched(touched(m, a), b), word_at(m, b), word_at(m, a)),
            counter: advanced(s.counter),
            ..s
        }
    } else if 7 <= opcode <= 13 {
        Snapshot {
            memory: written(
                touched(touched(m, b), c),
                a,
                computed(opcode, word_at(m, b), word_at(m, c)),
            ),
            counter: advanced(s.counter),
            ..s
        }
    } else if opcode == 14 {
        Snapshot { counter: advanced(s.counter), ..drawn(s) }
    } else if opcode == 15 {
        keyed(s, a)
    } else if opcode == 16 {
        Snapshot { counter: advanced(s.counter), ..s }
    } else if opcode == 17 {
        Snapshot {
            counter: advanced(s.counter),
            display_address: a,
            display_width: b,
            display_height: c,
            ..s
        }
    } else {
        s
    }
}

/// The computer after one step: the instruction at the program counter is
/// fetched, which touches its four words, and runs.
pub open spec fn stepped(s: Snapshot) -> Snapshot {
    executed(
        Snapshot { memory: decoded(s.memory, s.counter), ..s },
        word_at(s.memory, s.counter),
        word_at(s.memory, wrap(s.counter + 1)),
        word_at(s.memory, wrap(s.counter + 2)),
        word_at(s.memory, wrap(s.counter + 3)),
    )
}

/// Wrapping arithmetic: `add`, `sub` and `mul` leave in `M[A]` the sum, the
/// difference and the product of `M[B]` and `M[C]` modulo 2^32, whatever the
/// operands are, and move on to the next instruction.
pub proof fn lemma_arithmetic_wraps(s: Snapshot, opcode: u32, a: u32, b: u32, c: u32)
    requires
        7 <= opcode <= 9,
        addressable(a),
    ensures
        opcode == 7 ==> word_at(executed(s, opcode, a, b, c).memory, a) == (word_at(s.memory, b)
            + word_at(s.memory, c)) % 0x1_0000_0000,
        opcode == 8 ==> word_at(executed(s, opcode, a, b, c).memory, a) == (word_at(s.memory, b)
            - word_at(s.memory, c)) % 0x1_0000_0000,
        opcode == 9 ==> word_at(executed(s, opcode, a, b, c).memory, a) == (word_at(s.memory, b)
            * word_at(s.memory, c)) % 0x1_0000_0000,
        executed(s, opcode, a, b, c).counter == advanced(s.counter),
{
}

/// Safe division: `div` and `mod` by zero leave zero in `M[A]`.
pub proof fn lemma_division_by_zero(s: Snapshot, opcode: u32, a: u32, b: u32, c: u32)
    requires
        10 <= opcode <= 11,
        word_at(s.memory, c) == 0,
    ensures
        word_at(executed(s, opcode, a, b, c).memory, a) == 0,
        executed(s, opcode, a, b, c).counter == advanced(s.counter),
{
}

/// Division: `div` and `mod` by another divisor leave the truncated quotient
/// and the remainder in `M[A]`.
pub proof fn lemma_division(s: Snapshot, opcode: u32, a: u32, b: u32, c: u32)
    requires
        10 <= opcode <= 11,
        word_at(s.memory, c) > 0,
        addressable(a),
    ensures
        opcode == 10 ==> word_at(executed(s, opcode, a, b, c).memory, a) == word_at(s.memory, b)
            / word_at(s.memory, c),
        opcode == 11 ==> word_at(executed(s, opcode, a, b, c).memory, a) == word_at(s.memory, b)
            % word_at(s.memory, c),
{
}

/// Halt: a step with the program counter at a zero word leaves the program
/// counter where it is, changes no word of memory and nothing else but the
/// length of the memory.
pub proof fn lemma_halt(s: Snapshot)
    requires
        word_at(s.memory, s.counter) == 0,
    ensures
        stepped(s) == (Snapshot { memory: decoded(s.memory, s.counter), ..s }),
        stepped(s).counter == s.counter,
        forall|at: u32| word_at(stepped(s).memory, at) == word_at(s.memory, at),
{
    assert forall|at: u32| word_at(stepped(s).memory, at) == word_at(s.memory, at) by {
        lemma_decoded_keeps_words(s.memory, s.counter, at);
    }
}

/// An opcode above 17 halts like opcode 0.
pub proof fn lemma_unknown_opcode(s: Snapshot)
    requires
        word_at(s.memory, s.counter) > 17,
    ensures
        stepped(s) == (Snapshot { memory: decoded(s.memory, s.counter), ..s }),
{
}

/// Fetching an instruction changes no word.
pub proof fn lemma_decoded_keeps_words(memory: Seq<u32>, counter: u32, at: u32)
    ensures
        word_at(decoded(memory, counter), at) == word_at(memory, at),
{
    let m1 = touched(memory, counter);
    let m2 = touched(m1, wrap(counter + 1));
    let m3 = touched(m2, wrap(counter + 2));
    lemma_touched_keeps_words(memory, counter, at);
    lemma_touched_keeps_words(m1, wrap(counter + 1), at);
    lemma_touched_keeps_words(m2, wrap(counter + 2), at);
    lemma_touched_keeps_words(m3, wrap(counter + 3), at);
}

/// A step leaves the memory long enough to cover the instruction that ran.
pub proof fn lemma_step_covers_instruction(s: Snapshot)
    requires
        addressable(s.counter),
    ensures
        decoded(s.memory, s.counter).len() > s.counter,
        decoded(s.memory, s.counter).len() >= s.memory.len(),
{
}

/// The part of the last frame that was not yet read from the in-memory
/// display.
pub open spec fn unread(s: Snapshot) -> Seq<u8> {
    if s.read_position <= s.display.len() {
        s.display.skip(s.read_position as int)
    } else {
        Seq::empty()
    }
}

/// The last key of a batch of key presses.
pub open spec fn last_key(keys: Seq<u8>) -> Option<u8> {
    if keys.len() > 0 {
        Some(keys.last())
    } else {
        None
    }
}

/// The input stream after `bytes` arrived on it. Without a bound stream
/// nothing arrives.
pub open spec fn fed(input: Option<Seq<u8>>, bytes: Seq<u8>) -> Option<Seq<u8>> {
    match input {
        Some(waiting) => Some(waiting + bytes),
        None => None,
    }
}

/// The bytes that a stream holds; none where no stream is bound.
pub open spec fn held(stream: Option<Seq<u8>>) -> Seq<u8> {
    match stream {
        Some(bytes) => bytes,
        None => Seq::empty(),
    }
}

/// The Chifir computer.
pub struct Computer {
    memory: Vec<u32>,
    counter: u32,
    input: Option<Vec<u8>>,
    output: Option<Vec<u8>>,
    keyboard: Option<u8>,
    display_address: u32,
    display_width: u32,
    display_height: u32,
    display: Vec<u8>,
    read_position: usize,
}

impl View for Computer {
    type V = Snapshot;

    closed spec fn view(&self) -> Snapshot {
        Snapshot {
            memory: self.memory@,
            counter: self.counter,
            input: match self.input {
                Some(waiting) => Some(waiting@),
                None => None,
            },
            output: match self.output {
                Some(sent) => Some(sent@),
                None => None,
            },
            keyboard: self.keyboard,
            display_address: self.display_address,
            display_width: self.display_width,
            display_height: self.display_height,
            display: self.display@,
            read_position: self.read_position as nat,
        }
    }
}

impl Computer {
    /// Creates a computer without memory, with the program counter at zero,
    /// the display at its default place and size, nothing bound and no key
    /// seen.
    pub fn new() -> (computer: Self)
        ensures
            computer@ == (Snapshot {
                memory: Seq::empty(),
                counter: 0,
                input: None,
                output: None,
                keyboard: None,
                display_address: DISPLAY_ADDRESS,
                display_width: DISPLAY_WIDTH,
                display_height: DISPLAY_HEIGHT,
                display: Seq::empty(),
                read_position: 0,
            }),
    {
        Computer {
            memory: Vec::new(),
            counter: 0,
            input: None,
            output: None,
            keyboard: None,
            display_address: DISPLAY_ADDRESS,
            display_width: DISPLAY_WIDTH,
            display_height: DISPLAY_HEIGHT,
            display: Vec::new(),
            read_position: 0,
        }
    }

    /// Binds an input stream on which the bytes of `input` are waiting. Only
    /// the last key pressed is used.
    pub fn input(self, input: Vec<u8>) -> (computer: Self)
        ensures
            computer@ == (Snapshot { input: Some(input@), ..self@ }),
    {
        let mut computer = self;
        computer.input = Some(input);
        computer
    }

    /// Binds an output stream to which the bytes of `output` were sent
    /// already. Every frame that is drawn is emitted to it.
    pub fn output(self, output: Vec<u8>) -> (computer: Self)
        ensures
            computer@ == (Snapshot { output: Some(output@), ..self@ }),
    {
        let mut computer = self;
        computer.output = Some(output);
        computer
    }

    /// The program counter.
    pub fn counter(&self) -> (counter: u32)
        ensures
            counter == self@.counter,
    {
        self.counter
    }

    /// Where the display window starts.
    pub fn display_address(&self) -> (address: u32)
        ensures
            address == self@.display_address,
    {
        self.display_address
    }

    /// The width of the display in pixels.
    pub fn display_width(&self) -> (width: u32)
        ensures
            width == self@.display_width,
    {
        self.display_width
    }

    /// The height of the display in pixels.
    pub fn display_height(&self) -> (height: u32)
        ensures
            height == self@.display_height,
    {
        self.display_height
    }

    /// Returns the next opcode that will be executed: the word at the program
    /// counter.
    pub fn next(&self) -> (opcode: u32)
        ensures
            opcode == word_at(self@.memory, self@.counter),
    {
        let at: usize = self.counter as usize;
        if at < self.memory.len() {
            self.memory[at]
        } else {
            0
        }
    }

    /// Replaces the memory by `words` and resets the program counter to zero.
    pub fn load(&mut self, words: Vec<u32>)
        ensures
            final(self)@ == (Snapshot { memory: words@, counter: 0, ..old(self)@ }),
    {
        self.memory = words;
        self.counter = 0;
    }

    /// Replaces the memory by a copy of `slice` and resets the program counter
    /// to zero.
    pub fn load_from_slice(&mut self, slice: &[u32])
        ensures
            final(self)@ == (Snapshot { memory: slice@, counter: 0, ..old(self)@ }),
    {
        let mut words: Vec<u32> = Vec::new();
        let mut i: usize = 0;
        while i < slice.len()
            invariant
                i <= slice.len(),
                words@ == slice@.subrange(0, i as int),
            decreases slice.len() - i,
        {
            words.push(slice[i]);
            i += 1;
            assert(words@ =~= slice@.subrange(0, i as int));
        }
        assert(words@ =~= slice@);
        self.memory = words;
        self.counter = 0;
    }

    /// The contents of memory.
    pub fn dump(&self) -> (words: &[u32])
        ensures
            words@ == self@.memory,
    {
        self.memory.as_slice()
    }

    /// Reads the word at `index`, growing the memory so that it covers
    /// `index`.
    pub fn fetch(&mut self, index: u32) -> (word: u32)
        ensures
            word == word_at(old(self)@.memory, index),
            final(self)@ == (Snapshot { memory: touched(old(self)@.memory, index), ..old(self)@ }),
    {
        crate::memory::fetch(&mut self.memory, index)
    }

    /// Writes `value` at `index`, growing the memory so that it covers
    /// `index`.
    pub fn store(&mut self, index: u32, value: u32)
        ensures
            final(self)@ == (Snapshot {
                memory: written(old(self)@.memory, index, value),
                ..old(self)@
            }),
    {
        crate::memory::store(&mut self.memory, index, value)
    }

    /// The in-memory keyboard: makes the last byte of `buf` the last key
    /// seen, or clears the last key where `buf` is empty. Returns the number
    /// of bytes taken, which is all of them.
    pub fn write(&mut self, buf: &[u8]) -> (count: usize)
        ensures
            count == buf@.len(),
            final(self)@ == (Snapshot { keyboard: last_key(buf@), ..old(self)@ }),
    {
        let count = buf.len();
        if count > 0 {
            self.keyboard = Some(buf[count - 1]);
        } else {
            self.keyboard = None;
        }
        count
    }

    /// The in-memory display: copies bytes of the last frame that were not
    /// read yet to the front of `buf`, as many as there are and as fit, and
    /// returns their number.
    pub fn read(&mut self, buf: &mut [u8]) -> (count: usize)
        ensures
            count == if unread(old(self)@).len() <= old(buf)@.len() {
                unread(old(self)@).len()
            } else {
                old(buf)@.len()
            },
            final(buf)@ == unread(old(self)@).take(count as int) + old(buf)@.skip(count as int),
            final(self)@ == (Snapshot {
                read_position: (old(self)@.read_position + count) as nat,
                ..old(self)@
            }),
    {
        let length = self.display.len();
        let start = self.read_position;
        let waiting: usize = if start <= length {
            length - start
        } else {
            0
        };
        let count: usize = if waiting <= buf.len() {
            waiting
        } else {
            buf.len()
        };
        let mut i: usize = 0;
        while i < count
            invariant
                i <= count,
                count <= waiting,
                start + waiting <= length || waiting == 0,
                length == self.display.len(),
                count <= buf@.len(),
                buf@.len() == old(buf)@.len(),
                *self == *old(self),
                buf@ == unread(old(self)@).take(i as int) + old(buf)@.skip(i as int),
                start == old(self)@.read_position,
            decreases count - i,
        {
            buf[i] = self.display[start + i];
            i += 1;
            assert(buf@ =~= unread(old(self)@).take(i as int) + old(buf)@.skip(i as int));
        }
        assert(buf@ =~= unread(old(self)@).take(count as int) + old(buf)@.skip(count as int));
        self.read_position = start + count;
        count
    }

    /// The in-memory display: appends every byte of the last frame that was
    /// not read yet to `buf` and returns their number.
    pub fn read_to_end(&mut self, buf: &mut Vec<u8>) -> (count: usize)
        ensures
            count == unread(old(self)@).len(),
            final(buf)@ == old(buf)@ + unread(old(self)@),
            final(self)@ == (Snapshot {
                read_position: (old(self)@.read_position + count) as nat,
                ..old(self)@
            }),
    {
        let length = self.display.len();
        let start = self.read_position;
        let count: usize = if start <= length {
            length - start
        } else {
            0
        };
        let mut i: usize = 0;
        while i < count
            invariant
                i <= count,
                start + count <= length || count == 0,
                length == self.display.len(),
                *self == *old(self),
                buf@ == old(buf)@ + unread(old(self)@).take(i as int),
                start == old(self)@.read_position,
            decreases count - i,
        {
            buf.push(self.display[start + i]);
            i += 1;
            assert(buf@ =~= old(buf)@ + unread(old(self)@).take(i as int));
        }
        assert(buf@ =~= old(buf)@ + unread(old(self)@));
        self.read_position = start + count;
        count
    }

    /// Tells the computer that `bytes` have arrived on the bound input
    /// stream. Without a bound stream they are dropped.
    pub fn feed(&mut self, bytes: &[u8])
        ensures
            final(self)@ == (Snapshot { input: fed(old(self)@.input, bytes@), ..old(self)@ }),
    {
        match &mut self.input {
            Some(waiting) => {
                let ghost before = waiting@;
                let mut i: usize = 0;
                while i < bytes.len()
                    invariant
                        i <= bytes.len(),
                        waiting@ == before + bytes@.take(i as int),
                    decreases bytes.len() - i,
                {
                    waiting.push(bytes[i]);
                    i += 1;
                    assert(waiting@ =~= before + bytes@.take(i as int));
                }
                assert(bytes@.take(i as int) =~= bytes@);
            },
            None => {},
        }
    }

    /// Hands over the bytes that were emitted to the bound output stream
    /// since they were last taken. Without a bound stream there are none.
    pub fn take_output(&mut self) -> (sent: Vec<u8>)
        ensures
            sent@ == held(old(self)@.output),
            final(self)@ == (Snapshot { output: drained(old(self)@.output), ..old(self)@ }),
    {
        match &mut self.output {
            Some(output) => {
                let mut sent: Vec<u8> = Vec::new();
                sent.append(output);
                assert(sent@ =~= held(old(self)@.output));
                sent
            },
            None => Vec::new(),
        }
    }

    /// Fetches the four words of the instruction at the program counter.
    fn decode(&mut self) -> (words: (u32, u32, u32, u32))
        ensures
            final(self)@ == (Snapshot {
                memory: decoded(old(self)@.memory, old(self)@.counter),
                ..old(self)@
            }),
            words.0 == word_at(old(self)@.memory, old(self)@.counter),
            words.1 == word_at(old(self)@.memory, wrap(old(self)@.counter + 1)),
            words.2 == word_at(old(self)@.memory, wrap(old(self)@.counter + 2)),
            words.3 == word_at(old(self)@.memory, wrap(old(self)@.counter + 3)),
    {
        let counter = self.counter;
        let ghost m0 = self@.memory;
        let opcode = self.fetch(counter);
        let ghost m1 = self@.memory;
        let at_a = counter.wrapping_add(1);
        let a = self.fetch(at_a);
        let ghost m2 = self@.memory;
        let at_b = counter.wrapping_add(2);
        let b = self.fetch(at_b);
        let at_c = counter.wrapping_add(3);
        let c = self.fetch(at_c);
        proof {
            assert(at_a == wrap(counter + 1));
            assert(at_b == wrap(counter + 2));
            assert(at_c == wrap(counter + 3));
            lemma_touched_keeps_words(m0, counter, at_a);
            lemma_touched_keeps_words(m0, counter, at_b);
            lemma_touched_keeps_words(m1, at_a, at_b);
            lemma_touched_keeps_words(m0, counter, at_c);
            lemma_touched_keeps_words(m1, at_a, at_c);
            lemma_touched_keeps_words(m2, at_b, at_c);
        }
        (opcode, a, b, c)
    }

    /// Executes the next instruction.
    pub fn step(&mut self)
        ensures
            final(self)@ == stepped(old(self)@),
    {
        let (opcode, a, b, c) = self.decode();
        self.exec(opcode, a, b, c);
    }

    /// Moves the program counter past the instruction that ran.
    fn advance(&mut self)
        ensures
            final(self)@ == (Snapshot { counter: advanced(old(self)@.counter), ..old(self)@ }),
    {
        self.counter = self.counter.wrapping_add(4);
    }

    /// Renders the display window and emits the frame.
    fn render(&mut self)
        ensures
            final(self)@ == drawn(old(self)@),
    {
        let width = self.display_width;
        let height = self.display_height;
        let start = self.display_address;
        assert(width * height <= 0xffff_ffff * 0xffff_ffff) by (nonlinear_arith)
            requires
                0 <= width <= 0xffff_ffff,
                0 <= height <= 0xffff_ffff,
        ;
        let end: u64 = start as u64 + (width as u64) * (height as u64);
        let last: u32 = if end > u32::MAX as u64 {
            u32::MAX
        } else {
            end as u32
        };
        crate::memory::fetch(&mut self.memory, start);
        crate::memory::fetch(&mut self.memory, last);

        let length = self.memory.len();
        let high: usize = if end < length as u64 {
            end as usize
        } else {
            length
        };
        let low: usize = if (start as usize) < high {
            start as usize
        } else {
            high
        };
        let memory = slice_subrange(self.memory.as_slice(), low, high);

        let mut buffer = terminal::home();
        proof {
            lemma_ascii_round_trip(sixel::begin_bytes());
            lemma_ascii_round_trip(sixel::end_bytes());
        }
        push_ascii(&mut buffer, sixel::begin().as_str());
        let mut image = sixel::encode(memory, width as usize, height as usize, false);
        buffer.append(&mut image);
        push_ascii(&mut buffer, sixel::end().as_str());

        match &mut self.output {
            Some(output) => {
                let mut frame = buffer.clone();
                output.append(&mut frame);
            },
            None => {},
        }
        self.read_position = 0;
        self.display = buffer;
    }

    /// Runs the instruction `opcode A B C`.
    fn exec(&mut self, opcode: u32, a: u32, b: u32, c: u32)
        ensures
            final(self)@ == executed(old(self)@, opcode, a, b, c),
    {
        match opcode {
            // Halt execution
            0 => {},
            // PC <- M[A]
            1 => {
                self.counter = self.fetch(a);
            },
            // If M[B] = 0, then PC <- M[A]
            2 => {
                if 0 == self.fetch(b) {
                    self.counter = self.fetch(a);
                } else {
                    self.advance();
                }
            },
            // M[A] <- PC
            3 => {
                let counter = self.counter;
                self.store(a, counter);
                self.advance();
            },
            // M[A] <- M[B]
            4 => {
                let b = self.fetch(b);
                self.store(a, b);
                self.advance();
            },
            // M[A] <- M[M[B]]
            5 => {
                let b = self.fetch(b);
                let b = self.fetch(b);
                self.store(a, b);
                self.advance();
            },
            // M[M[B]] <- M[A]
            6 => {
                let a = self.fetch(a);
                let b = self.fetch(b);
                self.store(b, a);
                self.advance();
            },
            // M[A] <- M[B] + M[C]
            7 => {
                let b = self.fetch(b);
                let c = self.fetch(c);
                self.store(a, b.wrapping_add(c));
                self.advance();
            },
            // M[A] <- M[B] - M[C]
            8 => {
                let b = self.fetch(b);
                let c = self.fetch(c);
                self.store(a, b.wrapping_sub(c));
                self.advance();
            },
            // M[A] <- M[B] * M[C]
            9 => {
                let b = self.fetch(b);
                let c = self.fetch(c);
                self.store(a, b.wrapping_mul(c));
                self.advance();
            },
            // M[A] <- M[B] / M[C]
            10 => {
                let b = self.fetch(b);
                let c = self.fetch(c);
                if c > 0 {
                    self.store(a, b / c);
                } else {
                    self.store(a, 0);
                }
                self.advance();
            },
            // M[A] <- M[B] % M[C]
            11 => {
                let b = self.fetch(b);
                let c = self.fetch(c);
                if c > 0 {
                    self.store(a, b % c);
                } else {
                    self.store(a, 0);
                }
                self.advance();
            },
            // If M[B] < M[C], then M[A] <- 1, else M[A] <- 0
            12 => {
                let b = self.fetch(b);
                let c = self.fetch(c);
                if b < c {
                    self.store(a, 1);
                } else {
                    self.store(a, 0);
                }
                self.advance();
            },
            // M[A] <- NOT(M[B] AND M[C])
            13 => {
                let b = self.fetch(b);
                let c = self.fetch(c);
                self.store(a, !(b & c));
                self.advance();
            },
            // Refresh the screen
            14 => {
                self.render();
                self.advance();
            },
            // Get the last key pressed and store it into M[A]
            15 => {
                let mut result = self.keyboard;
                match &mut self.input {
                    Some(input) => {
                        let size = input.len();
                        if size > 0 {
                            result = Some(input[size - 1]);
                        }
                        input.clear();
                    },
                    None => {},
                }
                match result {
                    Some(byte) => {
                        self.keyboard = Some(byte);
                        self.store(a, byte as u32);
                        self.advance();
                    },
                    None => {},
                }
            },
            // Skip this instruction
            16 => {
                self.advance();
            },
            // Configure display at A with width B and height C
            17 => {
                self.display_address = a;
                self.display_width = b;
                self.display_height = c;
                self.advance();
            },
            // Unknown opcode
            _ => {},
        }
    }
}

} // verus!
