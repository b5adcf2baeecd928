//! The header of a record.

use vstd::prelude::*;

verus! {

/// Set while a record is being filled.
pub const BUSY_FLAG: u32 = 0x8000_0000;

/// Set on a record that the consumer is to pass over.
pub const DISCARD_FLAG: u32 = 0x4000_0000;

/// How many bytes a header takes.
pub const HEADER_SIZE: usize = 8;

/// The header of a record: its length in the low half, its flags in the high
/// half.
#[derive(Clone, Copy, Debug, PartialEq, Eq, Structural)]
pub struct RecordHeader {
    pub word: u64,
}

impl RecordHeader {
    pub open spec fn spec_len(self) -> u32 {
        self.word as u32
    }

    pub open spec fn spec_flags(self) -> u32 {
        (self.word >> 32) as u32
    }

    /// The header of a record that is being filled.
    pub fn new(len: u32) -> (r: Self)
        ensures
            r.spec_len() == len,
            r.spec_flags() == BUSY_FLAG,
    {
        let word: u64 = (len as u64) | ((BUSY_FLAG as u64) << 32);
        assert(((len as u64) | ((0x8000_0000u32 as u64) << 32)) as u32 == len) by (bit_vector);
        assert(((((len as u64) | ((0x8000_0000u32 as u64) << 32)) >> 32) as u32) == 0x8000_0000u32)
            by (bit_vector);
        RecordHeader { word }
    }

    /// Marks the record as one to pass over.
    pub fn discard(&mut self)
        ensures
            final(self).spec_len() == old(self).spec_len(),
            final(self).spec_flags() == DISCARD_FLAG,
    {
        let len: u32 = self.word as u32;
        self.word = (len as u64) | ((DISCARD_FLAG as u64) << 32);
        assert(((len as u64) | ((0x4000_0000u32 as u64) << 32)) as u32 == len) by (bit_vector);
        assert(((((len as u64) | ((0x4000_0000u32 as u64) << 32)) >> 32) as u32) == 0x4000_0000u32)
            by (bit_vector);
    }

    /// Marks the record as complete.
    pub fn commit(&mut self)
        ensures
            final(self).spec_len() == old(self).spec_len(),
            final(self).spec_flags() == 0,
    {
        let len: u32 = self.word as u32;
        self.word = len as u64;
        assert((len as u64) as u32 == len) by (bit_vector);
        assert((((len as u64) >> 32) as u32) == 0u32) by (bit_vector);
    }

    pub fn is_discarded(&self) -> (r: bool)
        ensures
            r == (self.spec_flags() & DISCARD_FLAG != 0),
    {
        let flags: u32 = (self.word >> 32) as u32;
        flags & DISCARD_FLAG != 0
    }

    pub fn len_and_flags(&self) -> (r: (u32, u32))
        ensures
            r == (self.spec_len(), self.spec_flags()),
    {
        (self.word as u32, (self.word >> 32) as u32)
    }
}

/// What the flag tests give on the three flag words that are ever written.
pub proof fn lemma_flags()
    ensures
        BUSY_FLAG & BUSY_FLAG != 0,
        DISCARD_FLAG & BUSY_FLAG == 0,
        DISCARD_FLAG & DISCARD_FLAG != 0,
        0u32 & BUSY_FLAG == 0,
        0u32 & DISCARD_FLAG == 0,
        BUSY_FLAG & DISCARD_FLAG == 0,
{
    assert(0x8000_0000u32 & 0x8000_0000u32 != 0 && 0x4000_0000u32 & 0x8000_0000u32 == 0
        && 0x4000_0000u32 & 0x4000_0000u32 != 0 && 0u32 & 0x8000_0000u32 == 0 && 0u32
        & 0x4000_0000u32 == 0 && 0x8000_0000u32 & 0x4000_0000u32 == 0) by (bit_vector);
}

/// A length rounded up to a multiple of eight.
pub open spec fn rounded_up(len: int) -> int {
    ((len + 7) / 8) * 8
}

/// The room that a record of `len` bytes takes: header, data and padding.
pub open spec fn record_room(len: int) -> int {
    rounded_up(HEADER_SIZE + len)
}

pub fn round_up_to_8(len: usize) -> (r: usize)
    requires
        len <= usize::MAX - 7,
    ensures
        r == rounded_up(len as int),
        len <= r < len + 8,
        r % 8 == 0,
{
    ((len + 7) / 8) * 8
}

/// The room that a record takes whose header says `len`.
pub fn record_room_of(len: u32) -> (r: u64)
    ensures
        r == record_room(len as int),
{
    ((len as u64 + 8 + 7) / 8) * 8
}

} // verus!
