//! Volatile memory: a byte-addressable, word-oriented buffer that
//! grows on demand and reads as zero past its current extent.

use vstd::prelude::*;
use crate::word::{nat_of_bytes_be, spec_bytes_of, Word};

verus! {

/// The byte a buffer shows at offset `i`: its own byte inside the
/// current extent, zero beyond it.
pub open spec fn spec_byte_at(m: Seq<u8>, i: int) -> u8 {
    if 0 <= i < m.len() {
        m[i]
    } else {
        0
    }
}

/// `len` bytes starting at `off`, zero-filled past the extent.
pub open spec fn spec_read_bytes(m: Seq<u8>, off: int, len: nat) -> Seq<u8> {
    Seq::new(len, |j: int| spec_byte_at(m, off + j))
}

/// The buffer grown with zeros to hold at least `n` bytes.
pub open spec fn spec_grow(m: Seq<u8>, n: int) -> Seq<u8> {
    Seq::new(
        if m.len() >= n {
            m.len()
        } else {
            n as nat
        },
        |i: int| spec_byte_at(m, i),
    )
}

/// The buffer after `bs` is written at offset `off`, grown as needed.
pub open spec fn spec_write_bytes(m: Seq<u8>, off: int, bs: Seq<u8>) -> Seq<u8> {
    Seq::new(
        if m.len() >= off + bs.len() {
            m.len()
        } else {
            (off + bs.len()) as nat
        },
        |i: int|
            if off <= i < off + bs.len() {
                bs[i - off]
            } else {
                spec_byte_at(m, i)
            },
    )
}

/// A linear byte buffer that grows on demand. Offsets are host
/// addresses; a word occupies 32 consecutive bytes, big-endian.
pub struct SimpleMemory {
    pub bytes: Vec<u8>,
}

impl View for SimpleMemory {
    type V = Seq<u8>;

    open spec fn view(&self) -> Seq<u8> {
        self.bytes@
    }
}

impl SimpleMemory {
    /// A fresh, empty memory.
    pub fn new() -> (r: SimpleMemory)
        ensures
            r@ == Seq::<u8>::empty(),
    {
        let r = SimpleMemory { bytes: Vec::new() };
        proof {
            assert(r@ =~= Seq::<u8>::empty());
        }
        r
    }

    /// The current extent of the buffer in bytes.
    pub fn size(&self) -> (r: usize)
        ensures
            r == self@.len(),
    {
        self.bytes.len()
    }

    /// Grows the buffer with zeros so that it holds at least `n` bytes.
    fn grow_to(&mut self, n: usize)
        ensures
            final(self)@ == spec_grow(old(self)@, n as int),
    {
        while self.bytes.len() < n
            invariant
                self@.len() >= old(self)@.len(),
                self@.len() <= n || self@.len() == old(self)@.len(),
                forall|i: int| 0 <= i < self@.len() ==> self@[i] == spec_byte_at(old(self)@, i),
            decreases n - self.bytes.len(),
        {
            self.bytes.push(0u8);
        }
        proof {
            assert(self@ =~= spec_grow(old(self)@, n as int));
        }
    }

    /// Writes one byte at `offset`, growing as needed.
    pub fn write_byte(&mut self, offset: usize, value: u8)
        requires
            offset < usize::MAX,
        ensures
            final(self)@ == spec_write_bytes(old(self)@, offset as int, seq![value]),
    {
        self.grow_to(offset + 1);
        self.bytes.set(offset, value);
        proof {
            assert(self@ =~= spec_write_bytes(old(self)@, offset as int, seq![value]));
        }
    }

    /// Writes the 32-byte big-endian spelling of `value` at `offset`,
    /// growing as needed.
    pub fn write(&mut self, offset: usize, value: &Word)
        requires
            offset + 32 <= usize::MAX,
        ensures
            final(self)@ == spec_write_bytes(old(self)@, offset as int, spec_bytes_of(value.as_nat())),
    {
        let bs = value.to_bytes_be();
        self.grow_to(offset + 32);
        let mut j: usize = 0;
        while j < 32
            invariant
                j <= 32,
                offset + 32 <= usize::MAX,
                bs@ == spec_bytes_of(value.as_nat()),
                bs@.len() == 32,
                self@.len() == spec_grow(old(self)@, offset + 32).len(),
                forall|t: int| 0 <= t < j ==> self@[offset + t] == bs@[t],
                forall|i: int|
                    0 <= i < self@.len() && !(offset <= i < offset + j) ==> self@[i]
                        == spec_byte_at(old(self)@, i),
            decreases 32 - j,
        {
            self.bytes.set(offset + j, bs[j]);
            j += 1;
        }
        proof {
            assert(self@ =~= spec_write_bytes(old(self)@, offset as int, spec_bytes_of(
                value.as_nat(),
            )));
        }
    }

    /// Reads the word whose 32 bytes start at `offset`, zero-filling
    /// past the current extent and growing the buffer to cover the
    /// range read.
    pub fn read(&mut self, offset: usize) -> (r: Word)
        requires
            offset + 32 <= usize::MAX,
        ensures
            r.as_nat() == nat_of_bytes_be(spec_read_bytes(old(self)@, offset as int, 32)),
            final(self)@ == spec_grow(old(self)@, offset + 32),
    {
        self.grow_to(offset + 32);
        let mut bs: Vec<u8> = Vec::new();
        let mut j: usize = 0;
        while j < 32
            invariant
                j <= 32,
                offset + 32 <= usize::MAX,
                bs@.len() == j,
                self@ == spec_grow(old(self)@, offset + 32),
                forall|t: int| 0 <= t < j ==> bs@[t] == spec_byte_at(old(self)@, offset + t),
            decreases 32 - j,
        {
            bs.push(self.bytes[offset + j]);
            j += 1;
        }
        proof {
            assert(bs@ =~= spec_read_bytes(old(self)@, offset as int, 32));
        }
        Word::from_bytes_be(&bs)
    }

    /// Returns `len` bytes starting at `offset`, zero-filled past the
    /// current extent; the buffer is left as it is.
    pub fn read_slice(&self, offset: usize, len: usize) -> (r: Vec<u8>)
        requires
            offset + len <= usize::MAX,
        ensures
            r@ == spec_read_bytes(self@, offset as int, len as nat),
    {
        let mut bs: Vec<u8> = Vec::new();
        let mut j: usize = 0;
        while j < len
            invariant
                j <= len,
                offset + len <= usize::MAX,
                bs@.len() == j,
                forall|t: int| 0 <= t < j ==> bs@[t] == spec_byte_at(self@, offset + t),
            decreases len - j,
        {
            if offset + j < self.bytes.len() {
                bs.push(self.bytes[offset + j]);
            } else {
                bs.push(0u8);
            }
            j += 1;
        }
        proof {
            assert(bs@ =~= spec_read_bytes(self@, offset as int, len as nat));
        }
        bs
    }
}

/// Reading a word back from the offset it was just written to returns
/// the word: the write puts down exactly the 32-byte spelling that the
/// read reassembles.
pub proof fn lemma_memory_round_trip(m: Seq<u8>, off: int, w: Word)
    requires
        0 <= off,
    ensures
        nat_of_bytes_be(
            spec_read_bytes(spec_write_bytes(m, off, spec_bytes_of(w.as_nat())), off, 32),
        ) == w.as_nat(),
{
    let written = spec_write_bytes(m, off, spec_bytes_of(w.as_nat()));
    assert(spec_read_bytes(written, off, 32) =~= spec_bytes_of(w.as_nat()));
    crate::word::lemma_word_below_modulus(w);
    crate::word::lemma_nat_of_spec_bytes(w.as_nat());
}

} // verus!
