//! Word-addressed memory that grows when it is touched.
//!
//! Abstractly the memory is a total map from 32-bit addresses to 32-bit words
//! whose unset entries are zero. Concretely it is one vector that is enlarged
//! with zero words whenever an access reaches past its end.

use vstd::prelude::*;

verus! {

/// `n` reduced to a 32-bit word.
pub open spec fn wrap(n: int) -> u32 {
    (n % 0x1_0000_0000) as u32
}

/// Whether a vector on this machine can be long enough to cover `index`.
/// Every 32-bit address is addressable where `usize` is wider than 32 bits.
pub open spec fn addressable(index: u32) -> bool {
    index < usize::MAX
}

/// The word that address `index` holds: the stored word inside the vector,
/// zero past its end.
pub open spec fn word_at(memory: Seq<u32>, index: u32) -> u32 {
    if index < memory.len() {
        memory[index as int]
    } else {
        0
    }
}

/// `count` zero words.
pub open spec fn zeros(count: nat) -> Seq<u32> {
    Seq::new(count, |i: int| 0u32)
}

/// The memory after address `index` was touched: unchanged where it already
/// covers `index` (or never can), else extended with zero words up to length
/// `index + 1`.
pub open spec fn touched(memory: Seq<u32>, index: u32) -> Seq<u32> {
    if index < memory.len() || !addressable(index) {
        memory
    } else {
        memory + zeros((index + 1 - memory.len()) as nat)
    }
}

/// The memory after `value` was written to address `index`. A write to an
/// address that no vector can cover is dropped.
pub open spec fn written(memory: Seq<u32>, index: u32, value: u32) -> Seq<u32> {
    if index < touched(memory, index).len() {
        touched(memory, index).update(index as int, value)
    } else {
        memory
    }
}

/// Touching an address changes no word.
pub proof fn lemma_touched_keeps_words(memory: Seq<u32>, index: u32, at: u32)
    ensures
        word_at(touched(memory, index), at) == word_at(memory, at),
{
}

/// One access to memory.
pub enum Access {
    /// The word at an address is read.
    Fetch(u32),
    /// A word is written at an address.
    Store(u32, u32),
}

impl Access {
    /// The address that the access goes to.
    pub open spec fn address(self) -> u32 {
        match self {
            Access::Fetch(index) => index,
            Access::Store(index, _) => index,
        }
    }
}

/// The memory after one access.
pub open spec fn accessed(memory: Seq<u32>, access: Access) -> Seq<u32> {
    match access {
        Access::Fetch(index) => touched(memory, index),
        Access::Store(index, value) => written(memory, index, value),
    }
}

/// The memory after the accesses of `trace`, one after the other.
pub open spec fn replayed(memory: Seq<u32>, trace: Seq<Access>) -> Seq<u32>
    decreases trace.len(),
{
    if trace.len() == 0 {
        memory
    } else {
        accessed(replayed(memory, trace.drop_last()), trace.last())
    }
}

/// An access never shortens the memory, and leaves it long enough to cover
/// the address it went to.
pub proof fn lemma_access_grows(memory: Seq<u32>, access: Access)
    ensures
        accessed(memory, access).len() >= memory.len(),
        addressable(access.address()) ==> accessed(memory, access).len() >= access.address() + 1,
{
}

/// Memory growth: whatever is read and written, and wherever, the memory is
/// afterwards long enough to cover every address that was touched.
pub proof fn lemma_memory_covers_trace(memory: Seq<u32>, trace: Seq<Access>, k: int)
    requires
        0 <= k < trace.len(),
        addressable(trace[k].address()),
    ensures
        replayed(memory, trace).len() >= trace[k].address() + 1,
        replayed(memory, trace).len() >= memory.len(),
    decreases trace.len(),
{
    let before = replayed(memory, trace.drop_last());
    lemma_access_grows(before, trace.last());
    lemma_memory_never_shrinks(memory, trace.drop_last());
    if k < trace.len() - 1 {
        lemma_memory_covers_trace(memory, trace.drop_last(), k);
    }
}

/// No sequence of accesses shortens the memory.
pub proof fn lemma_memory_never_shrinks(memory: Seq<u32>, trace: Seq<Access>)
    ensures
        replayed(memory, trace).len() >= memory.len(),
    decreases trace.len(),
{
    if trace.len() > 0 {
        lemma_memory_never_shrinks(memory, trace.drop_last());
        lemma_access_grows(replayed(memory, trace.drop_last()), trace.last());
    }
}

/// A cell that no access of the trace wrote holds the word it held before.
/// So in a memory that began empty every cell that was never written reads
/// as zero.
pub proof fn lemma_unwritten_cell_keeps(memory: Seq<u32>, trace: Seq<Access>, at: u32)
    requires
        forall|k: int|
            0 <= k < trace.len() && (#[trigger] trace[k]) is Store ==> trace[k].address() != at,
    ensures
        word_at(replayed(memory, trace), at) == word_at(memory, at),
        memory.len() == 0 ==> word_at(replayed(memory, trace), at) == 0,
    decreases trace.len(),
{
    if trace.len() > 0 {
        lemma_unwritten_cell_keeps(memory, trace.drop_last(), at);
        assert(trace.last() == trace[trace.len() - 1]);
    }
}

/// A cell that was written holds the word that was written, until it is
/// written again.
pub proof fn lemma_written_cell_holds(memory: Seq<u32>, index: u32, value: u32)
    requires
        addressable(index),
    ensures
        word_at(written(memory, index, value), index) == value,
        forall|at: u32|
            at != index ==> word_at(written(memory, index, value), at) == word_at(memory, at),
{
}

/// Reads the word at `index`, growing the memory so that it covers `index`.
pub fn fetch(memory: &mut Vec<u32>, index: u32) -> (word: u32)
    ensures
        word == word_at(old(memory)@, index),
        final(memory)@ == touched(old(memory)@, index),
{
    let at: usize = index as usize;
    if at < memory.len() {
        memory[at]
    } else {
        if at < usize::MAX {
            memory.resize(at + 1, 0);
            assert(memory@ =~= touched(old(memory)@, index));
        }
        0
    }
}

/// Writes `value` at `index`, growing the memory so that it covers `index`.
pub fn store(memory: &mut Vec<u32>, index: u32, value: u32)
    ensures
        final(memory)@ == written(old(memory)@, index, value),
{
    let at: usize = index as usize;
    if at >= memory.len() && at < usize::MAX {
        memory.resize(at + 1, 0);
        assert(memory@ =~= touched(old(memory)@, index));
    }
    if at < memory.len() {
        memory.set(at, value);
    }
}

} // verus!
