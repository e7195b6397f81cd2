use vstd::prelude::*;
use crate::error::VmError;
use crate::word::{word_nat, Word};

verus! {

/// The word a memory read yields at offset `o`: the stored cell inside the
/// materialized extent, and the zero word everywhere beyond it.
pub open spec fn mem_read(m: Seq<Word>, o: int) -> Word {
    if 0 <= o < m.len() {
        m[o]
    } else {
        Word { hi: 0, lo: 0 }
    }
}

/// The byte-addressable, auto-growing memory of the machine.
///
/// Conceptually an infinite zero-initialized array of words, materialized
/// lazily: its view is the sequence of cells up to the highest offset ever
/// written, and reads beyond the view yield zero. The view only ever grows,
/// and only by the minimum amount a write needs.
#[derive(Debug)]
pub struct Memory {
    memory: Vec<Word>,
}

impl View for Memory {
    type V = Seq<Word>;

    closed spec fn view(&self) -> Seq<Word> {
        self.memory@
    }
}

impl Memory {
    /// A new memory with nothing materialized.
    pub fn new() -> (r: Memory)
        ensures
            r@ == Seq::<Word>::empty(),
    {
        Memory { memory: Vec::new() }
    }

    /// The materialized extent: one past the highest offset ever written.
    pub fn len(&self) -> (r: usize)
        ensures
            r == self@.len(),
    {
        self.memory.len()
    }

    /// Writes `value` at `offset`, first extending the materialized extent
    /// with zero words up to and including `offset` if it lies beyond.
    ///
    /// Fails with `InvalidAccess` only for the one offset whose cell cannot
    /// be materialized in the address space; every other write succeeds,
    /// changes the value read back at exactly `offset`, and grows the extent
    /// by the minimum needed to cover it.
    pub fn store(&mut self, offset: usize, value: Word) -> (r: Result<(), VmError>)
        ensures
            offset == usize::MAX ==> r == Err::<(), VmError>(VmError::InvalidAccess)
                && final(self)@ == old(self)@,
            offset < usize::MAX ==> r == Ok::<(), VmError>(())
                && final(self)@.len() == vstd::math::max(old(self)@.len() as int, offset + 1)
                && (forall|o: int| mem_read(final(self)@, o) == (if o == offset {
                    value
                } else {
                    mem_read(old(self)@, o)
                })),
    {
        if offset == usize::MAX {
            return Err(VmError::InvalidAccess);
        }
        if offset >= self.memory.len() {
            while self.memory.len() < offset + 1
                invariant
                    offset < usize::MAX,
                    old(self)@.len() <= self@.len() <= offset + 1,
                    old(self)@.len() <= offset,
                    self@.subrange(0, old(self)@.len() as int) == old(self)@,
                    forall|o: int| old(self)@.len() <= o < self@.len()
                        ==> self@[o] == (Word { hi: 0, lo: 0 }),
                decreases offset + 1 - self@.len(),
            {
                self.memory.push(Word::zero());
                proof {
                    assert(self@.subrange(0, old(self)@.len() as int)
                        =~= old(self)@.subrange(0, old(self)@.len() as int));
                    assert(old(self)@.subrange(0, old(self)@.len() as int) =~= old(self)@);
                }
            }
        }
        self.memory[offset] = value;
        proof {
            assert forall|o: int|
                mem_read(self@, o) == (if o == offset {
                    value
                } else {
                    mem_read(old(self)@, o)
                }) by {
                if 0 <= o < old(self)@.len() && o != offset {
                    assert(old(self)@[o] == old(self)@.subrange(0, old(self)@.len() as int)[o]);
                }
            }
        }
        Ok(())
    }

    /// Returns the word at `offset`: the stored value inside the
    /// materialized extent, and zero beyond it. Never fails and never
    /// changes the extent.
    pub fn load(&self, offset: usize) -> (r: Word)
        ensures
            r == mem_read(self@, offset as int),
    {
        if offset >= self.memory.len() {
            return Word::zero();
        }
        self.memory[offset]
    }

    /// Returns the `length` words starting at `offset`, zero-padding any
    /// portion beyond the materialized extent; a pure read that never
    /// changes the extent.
    pub fn load_range(&self, offset: usize, length: usize) -> (r: Vec<Word>)
        requires
            offset + length <= usize::MAX,
        ensures
            r@.len() == length,
            forall|i: int| 0 <= i < length ==> r@[i] == mem_read(self@, offset + i),
    {
        let mut out: Vec<Word> = Vec::new();
        let mut i: usize = 0;
        while i < length
            invariant
                i <= length,
                offset + length <= usize::MAX,
                out@.len() == i,
                forall|j: int| 0 <= j < i ==> out@[j] == mem_read(self@, offset + j),
            decreases length - i,
        {
            out.push(self.load(offset + i));
            i = i + 1;
        }
        out
    }
}

/// Law: in a fresh memory nothing is materialized, so a read at any offset
/// whatsoever yields the zero word.
pub proof fn lemma_fresh_memory_reads_zero(o: int)
    ensures
        mem_read(Seq::<Word>::empty(), o) == (Word { hi: 0, lo: 0 }),
        word_nat(mem_read(Seq::<Word>::empty(), o)) == 0,
{
}

} // verus!
