use vstd::prelude::*;

use crate::bytes::{bytes_val, word_from_be_bytes, word_to_be_bytes};
use crate::errors::EvmErrors;
use crate::word::Word;

verus! {

/// Ceiling on the linear memory, in bytes.  A request past it is refused as
/// `MemoryLimitExceeded` rather than honoured with an unbounded allocation.
pub const MEMORY_LIMIT: usize = 0x0100_0000;

/// A byte sequence grown with zeros until it is at least `n` long; growth
/// only ever exposes zero bytes, and a sequence already long enough is kept.
pub open spec fn grow_seq(s: Seq<u8>, n: int) -> Seq<u8> {
    if s.len() >= n {
        s
    } else {
        s + Seq::new((n - s.len()) as nat, |i: int| 0u8)
    }
}

/// The byte of a sequence at `o`, reading zero beyond the end: unwritten
/// memory is made of zero bytes.
pub open spec fn byte_at(s: Seq<u8>, o: int) -> u8 {
    if 0 <= o < s.len() {
        s[o]
    } else {
        0
    }
}

/// Linear, zero-indexed byte memory, transient to one execution.  It only
/// grows, never shrinks, and growth exposes zero bytes; a store or load
/// first ensures capacity up to its end, and fails only past the ceiling.
#[derive(Debug, Clone)]
pub struct Memory {
    pub data: Vec<u8>,
}

impl Memory {
    /// Empty memory.
    pub fn new() -> (r: Memory)
        ensures
            r.data@.len() == 0,
    {
        Memory { data: Vec::new() }
    }

    /// Memory seeded with the given bytes, as an embedding layer does before
    /// a run.
    pub fn new_with_data(data: Vec<u8>) -> (r: Memory)
        ensures
            r.data@ == data@,
    {
        Memory { data }
    }

    /// Grows the memory with zero bytes to at least `needed` bytes, unless
    /// that would pass the ceiling, in which case nothing changes.
    fn ensure(&mut self, needed: usize) -> (r: Result<(), EvmErrors>)
        ensures
            match r {
                Ok(()) => needed <= MEMORY_LIMIT && final(self).data@ == grow_seq(
                    old(self).data@,
                    needed as int,
                ),
                Err(e) => e == EvmErrors::MemoryLimitExceeded && needed > MEMORY_LIMIT
                    && *final(self) == *old(self),
            },
    {
        if needed > MEMORY_LIMIT {
            return Err(EvmErrors::MemoryLimitExceeded);
        }
        let ghost s0 = self.data@;
        while self.data.len() < needed
            invariant
                s0.len() <= self.data@.len(),
                self.data@.len() <= s0.len() || self.data@.len() <= needed,
                self.data@.subrange(0, s0.len() as int) == s0,
                forall|i: int| s0.len() <= i < self.data@.len() ==> self.data@[i] == 0,
            decreases needed - self.data@.len(),
        {
            self.data.push(0);
            proof {
                assert(self.data@.subrange(0, s0.len() as int) =~= s0);
            }
        }
        proof {
            assert(self.data@ =~= grow_seq(s0, needed as int));
        }
        Ok(())
    }

    /// Stores a 32-byte big-endian word at `offset`, growing as needed.  On
    /// success the touched window holds exactly the word's value and every
    /// byte outside it is what growth alone would have left there; memory is
    /// then at least `offset + 32` long.
    pub fn store_word(&mut self, offset: usize, word: Word) -> (r: Result<(), EvmErrors>)
        ensures
            match r {
                Ok(()) => {
                    let grown = grow_seq(old(self).data@, offset + 32);
                    &&& offset + 32 <= MEMORY_LIMIT
                    &&& final(self).data@.len() == grown.len()
                    &&& final(self).data@.len() >= offset + 32
                    &&& forall|i: int|
                        0 <= i < grown.len() && !(offset <= i < offset + 32)
                            ==> final(self).data@[i] == grown[i]
                    &&& bytes_val(final(self).data@.subrange(offset as int, offset + 32))
                        == word.as_nat()
                },
                Err(e) => e == EvmErrors::MemoryLimitExceeded && offset + 32 > MEMORY_LIMIT
                    && *final(self) == *old(self),
            },
    {
        if offset > MEMORY_LIMIT - 32 {
            return Err(EvmErrors::MemoryLimitExceeded);
        }
        match self.ensure(offset + 32) {
            Ok(()) => {}
            Err(e) => {
                return Err(e);
            }
        }
        let ghost grown = self.data@;
        let bytes = word_to_be_bytes(&word);
        let mut k: usize = 0;
        while k < 32
            invariant
                0 <= k <= 32,
                offset + 32 <= MEMORY_LIMIT,
                offset + 32 <= self.data@.len(),
                bytes@.len() == 32,
                self.data@.len() == grown.len(),
                forall|i: int|
                    0 <= i < grown.len() && !(offset <= i < offset + k) ==> self.data@[i]
                        == grown[i],
                forall|i: int| 0 <= i < k ==> self.data@[offset + i] == bytes@[i],
            decreases 32 - k,
        {
            self.data.set(offset + k, bytes[k]);
            k = k + 1;
        }
        proof {
            assert(self.data@.subrange(offset as int, offset + 32) =~= bytes@);
        }
        Ok(())
    }

    /// Loads the 32-byte big-endian word at `offset`, growing as needed so
    /// that a read beyond the end sees zero bytes.
    pub fn load_word(&mut self, offset: usize) -> (r: Result<Word, EvmErrors>)
        ensures
            match r {
                Ok(w) => {
                    &&& offset + 32 <= MEMORY_LIMIT
                    &&& final(self).data@ == grow_seq(old(self).data@, offset + 32)
                    &&& w.as_nat() == bytes_val(
                        final(self).data@.subrange(offset as int, offset + 32),
                    )
                },
                Err(e) => e == EvmErrors::MemoryLimitExceeded && offset + 32 > MEMORY_LIMIT
                    && *final(self) == *old(self),
            },
    {
        if offset > MEMORY_LIMIT - 32 {
            return Err(EvmErrors::MemoryLimitExceeded);
        }
        match self.ensure(offset + 32) {
            Ok(()) => {}
            Err(e) => {
                return Err(e);
            }
        }
        let mut bytes: Vec<u8> = Vec::new();
        let mut k: usize = 0;
        while k < 32
            invariant
                0 <= k <= 32,
                offset + 32 <= MEMORY_LIMIT,
                offset + 32 <= self.data@.len(),
                bytes@.len() == k,
                forall|i: int| 0 <= i < k ==> bytes@[i] == self.data@[offset + i],
            decreases 32 - k,
        {
            let b = self.data[offset + k];
            bytes.push(b);
            k = k + 1;
        }
        proof {
            assert(bytes@ =~= self.data@.subrange(offset as int, offset + 32));
        }
        Ok(word_from_be_bytes(&bytes))
    }

    /// Stores one byte at `offset`, growing as needed.
    pub fn store_byte(&mut self, offset: usize, byte: u8) -> (r: Result<(), EvmErrors>)
        ensures
            match r {
                Ok(()) => offset < MEMORY_LIMIT && final(self).data@ == grow_seq(
                    old(self).data@,
                    offset + 1,
                ).update(offset as int, byte),
                Err(e) => e == EvmErrors::MemoryLimitExceeded && offset >= MEMORY_LIMIT
                    && *final(self) == *old(self),
            },
    {
        if offset >= MEMORY_LIMIT {
            return Err(EvmErrors::MemoryLimitExceeded);
        }
        match self.ensure(offset + 1) {
            Ok(()) => {}
            Err(e) => {
                return Err(e);
            }
        }
        self.data.set(offset, byte);
        Ok(())
    }

    /// Reads the byte at `offset`; a read past the end sees the zero byte
    /// that growth would have put there, without growing.
    pub fn load_byte(&self, offset: usize) -> (r: u8)
        ensures
            r == byte_at(self.data@, offset as int),
    {
        if offset < self.data.len() {
            self.data[offset]
        } else {
            0
        }
    }

    /// Copies `length` bytes from `offset` to `dest`, growing so both
    /// regions exist.  Overlapping regions are handled as a move: the source
    /// bytes are read before any is overwritten.
    pub fn copy(&mut self, offset: usize, dest: usize, length: usize) -> (r: Result<
        (),
        EvmErrors,
    >)
        ensures
            match r {
                Ok(()) => {
                    let grown = grow_seq(
                        old(self).data@,
                        if offset + length > dest + length {
                            offset + length
                        } else {
                            dest + length
                        },
                    );
                    &&& offset + length <= MEMORY_LIMIT
                    &&& dest + length <= MEMORY_LIMIT
                    &&& final(self).data@.len() == grown.len()
                    &&& forall|i: int|
                        0 <= i < grown.len() && !(dest <= i < dest + length)
                            ==> #[trigger] final(self).data@[i] == grown[i]
                    &&& forall|i: int|
                        0 <= i < length ==> #[trigger] final(self).data@[dest + i] == grown[offset
                            + i]
                },
                Err(e) => e == EvmErrors::MemoryLimitExceeded && (offset + length > MEMORY_LIMIT
                    || dest + length > MEMORY_LIMIT) && *final(self) == *old(self),
            },
    {
        if length > MEMORY_LIMIT || offset > MEMORY_LIMIT - length || dest > MEMORY_LIMIT
            - length {
            return Err(EvmErrors::MemoryLimitExceeded);
        }
        let needed = if offset > dest {
            offset + length
        } else {
            dest + length
        };
        match self.ensure(needed) {
            Ok(()) => {}
            Err(e) => {
                return Err(e);
            }
        }
        let ghost grown = self.data@;
        let mut tmp: Vec<u8> = Vec::new();
        let mut k: usize = 0;
        while k < length
            invariant
                0 <= k <= length,
                offset + length <= MEMORY_LIMIT,
                offset + length <= self.data@.len(),
                tmp@.len() == k,
                self.data@ == grown,
                forall|i: int| 0 <= i < k ==> tmp@[i] == grown[offset + i],
            decreases length - k,
        {
            let b = self.data[offset + k];
            tmp.push(b);
            k = k + 1;
        }
        let mut j: usize = 0;
        while j < length
            invariant
                0 <= j <= length,
                dest + length <= MEMORY_LIMIT,
                dest + length <= self.data@.len(),
                tmp@.len() == length,
                self.data@.len() == grown.len(),
                forall|i: int| 0 <= i < length ==> tmp@[i] == grown[offset + i],
                forall|i: int|
                    0 <= i < grown.len() && !(dest <= i < dest + j) ==> self.data@[i] == grown[i],
                forall|i: int| 0 <= i < j ==> #[trigger] self.data@[dest + i] == grown[offset + i],
            decreases length - j,
        {
            let b = tmp[j];
            self.data.set(dest + j, b);
            j = j + 1;
        }
        Ok(())
    }
}

/// Round-trip law of the memory word window: a word stored at an offset and
/// read back from the same window is returned unchanged.  The two premises
/// are exactly what `store_word` ensures of the window and what `load_word`
/// ensures of its result.
pub proof fn lemma_store_load_round_trip(s: Seq<u8>, o: int, w: Word, r: Word)
    requires
        0 <= o,
        o + 32 <= s.len(),
        bytes_val(s.subrange(o, o + 32)) == w.as_nat(),
        r.as_nat() == bytes_val(s.subrange(o, o + 32)),
    ensures
        r == w,
{
    crate::word::lemma_as_nat_injective(r, w);
}

} // verus!
