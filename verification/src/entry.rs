//! A directory entry: where one caption's text lies in the payload.

use vstd::prelude::*;
use crate::error::CaptionError;
use crate::wire::{
    i32_at, i32_bytes, lemma_i32_round_trip, lemma_u16_round_trip, lemma_u32_round_trip, read_i32,
    read_u16, read_u32, u16_at, u16_bytes, u32_at, u32_bytes, write_i32, write_u16, write_u32,
};

verus! {

/// The number of bytes a directory entry occupies.
pub const ENTRY_SIZE: usize = 12;

/// Description of a caption.
/// - `crc32` is the CRC-32 checksum of the caption's lowercase key.
/// - `block` is the index of the block the caption is in.
/// - `offset` is the distance from the beginning of that block.
/// - `length` is the size of the caption's text in bytes, terminator included.
#[derive(Debug, Clone, Copy, PartialEq, Eq, Structural)]
pub struct CaptionEntry {
    pub crc32: u32,
    pub block: i32,
    pub offset: u16,
    pub length: u16,
}

impl CaptionEntry {
    /// The 12 bytes that store this entry.
    pub open spec fn bytes(self) -> Seq<u8> {
        u32_bytes(self.crc32) + i32_bytes(self.block) + u16_bytes(self.offset) + u16_bytes(
            self.length,
        )
    }

    /// The entry stored in the 12 bytes of `bytes` that begin at `at`.
    pub open spec fn at(bytes: Seq<u8>, at: int) -> CaptionEntry {
        CaptionEntry {
            crc32: u32_at(bytes, at) as u32,
            block: i32_at(bytes, at + 4) as i32,
            offset: u16_at(bytes, at + 8) as u16,
            length: u16_at(bytes, at + 10) as u16,
        }
    }

    /// What the start of `bytes` holds: an entry, unless there are fewer
    /// than 12 bytes. Every bit pattern is an entry.
    pub open spec fn decoded(bytes: Seq<u8>) -> Result<CaptionEntry, CaptionError> {
        if bytes.len() < ENTRY_SIZE {
            Err(CaptionError::TruncatedInput)
        } else {
            Ok(CaptionEntry::at(bytes, 0))
        }
    }

    /// Reads the entry stored at `at`.
    pub fn read_at(bytes: &[u8], at: usize) -> (entry: Self)
        requires
            at + ENTRY_SIZE <= bytes.len(),
        ensures
            entry == CaptionEntry::at(bytes@, at as int),
    {
        CaptionEntry {
            crc32: read_u32(bytes, at),
            block: read_i32(bytes, at + 4),
            offset: read_u16(bytes, at + 8),
            length: read_u16(bytes, at + 10),
        }
    }

    /// Reads an entry from the start of `bytes`.
    ///
    /// # Errors
    ///
    /// `TruncatedInput` if there are fewer than 12 bytes.
    #[must_use]
    pub fn from_reader(bytes: &[u8]) -> (entry: Result<Self, CaptionError>)
        ensures
            entry == CaptionEntry::decoded(bytes@),
    {
        if bytes.len() < ENTRY_SIZE {
            Err(CaptionError::TruncatedInput)
        } else {
            Ok(CaptionEntry::read_at(bytes, 0))
        }
    }

    /// Appends the 12 bytes of this entry to `out`.
    pub fn write_to(&self, out: &mut Vec<u8>)
        ensures
            final(out)@ == old(out)@ + self.bytes(),
    {
        write_u32(out, self.crc32);
        write_i32(out, self.block);
        write_u16(out, self.offset);
        write_u16(out, self.length);
        assert(out@ =~= old(out)@ + self.bytes());
    }

    /// The 12 bytes that store this entry.
    pub fn to_bytes(&self) -> (bytes: Vec<u8>)
        ensures
            bytes@ == self.bytes(),
            bytes@.len() == ENTRY_SIZE,
    {
        let mut bytes: Vec<u8> = Vec::new();
        self.write_to(&mut bytes);
        assert(bytes@ =~= self.bytes());
        bytes
    }
}

impl Default for CaptionEntry {
    /// The entry whose fields are all zero.
    fn default() -> (entry: Self)
        ensures
            entry == (CaptionEntry { crc32: 0, block: 0, offset: 0, length: 0 }),
    {
        CaptionEntry { crc32: 0, block: 0, offset: 0, length: 0 }
    }
}

/// An entry that was written at `at` is read back unchanged from there.
pub proof fn lemma_entry_round_trip(bytes: Seq<u8>, at: int, entry: CaptionEntry)
    requires
        0 <= at,
        at + ENTRY_SIZE <= bytes.len(),
        bytes.subrange(at, at + ENTRY_SIZE) == entry.bytes(),
    ensures
        CaptionEntry::at(bytes, at) == entry,
{
    let stored = bytes.subrange(at, at + 12);
    assert(bytes.subrange(at, at + 4) =~= stored.subrange(0, 4));
    assert(bytes.subrange(at + 4, at + 8) =~= stored.subrange(4, 8));
    assert(bytes.subrange(at + 8, at + 10) =~= stored.subrange(8, 10));
    assert(bytes.subrange(at + 10, at + 12) =~= stored.subrange(10, 12));
    assert(stored.subrange(0, 4) =~= u32_bytes(entry.crc32));
    assert(stored.subrange(4, 8) =~= i32_bytes(entry.block));
    assert(stored.subrange(8, 10) =~= u16_bytes(entry.offset));
    assert(stored.subrange(10, 12) =~= u16_bytes(entry.length));
    lemma_u32_round_trip(bytes, at, entry.crc32);
    lemma_i32_round_trip(bytes, at + 4, entry.block);
    lemma_u16_round_trip(bytes, at + 8, entry.offset);
    lemma_u16_round_trip(bytes, at + 10, entry.length);
}

} // verus!
