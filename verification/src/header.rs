//! The container's header: six little-endian 32-bit fields.

use vstd::prelude::*;
use crate::error::CaptionError;
use crate::wire::{i32_at, i32_bytes, lemma_i32_round_trip, read_i32, write_i32};

verus! {

/// The number of bytes a header occupies.
pub const HEADER_SIZE: usize = 24;

/// The identifier that opens every container: the letters `VCCD`.
pub const MAGIC: i32 = 1145258838;

/// The only format revision there is.
pub const FORMAT_VERSION: i32 = 1;

/// The size of a payload block unless another is asked for.
pub const DEFAULT_BLOCK_SIZE: u16 = 8192;

/// Compiled caption identifier.
#[derive(Debug, Default, Clone, Copy, PartialEq, Eq, Structural)]
pub enum VCCD {
    #[default]
    Default,
}

impl VCCD {
    /// Accepts `value` if it is the container's identifier.
    #[must_use]
    pub fn new(value: i32) -> (vccd: Option<Self>)
        ensures
            vccd == (if value == MAGIC { Some(VCCD::Default) } else { None }),
    {
        if value == MAGIC {
            Some(VCCD::Default)
        } else {
            None
        }
    }

    /// The integer that stands for this identifier in a header.
    pub fn value(&self) -> (value: i32)
        ensures
            value == MAGIC,
    {
        MAGIC
    }
}

/// Compiled caption version.
#[derive(Debug, Default, Clone, Copy, PartialEq, Eq, Structural)]
pub enum Version {
    #[default]
    Default,
}

impl Version {
    /// Accepts `value` if it is the supported format revision.
    #[must_use]
    pub fn new(value: i32) -> (version: Option<Self>)
        ensures
            version == (if value == FORMAT_VERSION { Some(Version::Default) } else { None }),
    {
        if value == FORMAT_VERSION {
            Some(Version::Default)
        } else {
            None
        }
    }

    /// The integer that stands for this revision in a header.
    pub fn value(&self) -> (value: i32)
        ensures
            value == FORMAT_VERSION,
    {
        FORMAT_VERSION
    }
}

/// Compiled caption header.
/// - `vccd` is stored as 1145258838.
/// - `version` is stored as 1.
/// - `block_count` is the number of payload blocks.
/// - `block_size` is the size in bytes of every block.
/// - `dir_size` is the number of directory entries.
/// - `data_offset` is the position of the first block.
#[derive(Debug, Clone, Copy, PartialEq, Eq, Structural)]
pub struct Header {
    pub vccd: VCCD,
    pub version: Version,
    pub block_count: i32,
    pub block_size: i32,
    pub dir_size: i32,
    pub data_offset: i32,
}

impl Header {
    /// The 24 bytes that store this header.
    pub open spec fn bytes(self) -> Seq<u8> {
        i32_bytes(MAGIC) + i32_bytes(FORMAT_VERSION) + i32_bytes(self.block_count) + i32_bytes(
            self.block_size,
        ) + i32_bytes(self.dir_size) + i32_bytes(self.data_offset)
    }

    /// What the start of `bytes` holds: a header, or the reason why not.
    ///
    /// The length is looked at first, then the identifier, then the
    /// revision; the other four fields are taken as they are.
    pub open spec fn decoded(bytes: Seq<u8>) -> Result<Header, CaptionError> {
        if bytes.len() < HEADER_SIZE {
            Err(CaptionError::TruncatedInput)
        } else if i32_at(bytes, 0) != MAGIC {
            Err(CaptionError::InvalidMagic)
        } else if i32_at(bytes, 4) != FORMAT_VERSION {
            Err(CaptionError::InvalidVersion)
        } else {
            Ok(
                Header {
                    vccd: VCCD::Default,
                    version: Version::Default,
                    block_count: i32_at(bytes, 8) as i32,
                    block_size: i32_at(bytes, 12) as i32,
                    dir_size: i32_at(bytes, 16) as i32,
                    data_offset: i32_at(bytes, 20) as i32,
                },
            )
        }
    }

    /// Reads a header from the start of `bytes`.
    ///
    /// # Errors
    ///
    /// `TruncatedInput` if there are fewer than 24 bytes, `InvalidMagic` if
    /// the identifier is wrong, `InvalidVersion` if the revision is wrong.
    #[must_use]
    pub fn from_reader(bytes: &[u8]) -> (header: Result<Self, CaptionError>)
        ensures
            header == Header::decoded(bytes@),
    {
        if bytes.len() < HEADER_SIZE {
            return Err(CaptionError::TruncatedInput);
        }
        if VCCD::new(read_i32(bytes, 0)).is_none() {
            return Err(CaptionError::InvalidMagic);
        }
        if Version::new(read_i32(bytes, 4)).is_none() {
            return Err(CaptionError::InvalidVersion);
        }
        Ok(
            Header {
                vccd: VCCD::Default,
                version: Version::Default,
                block_count: read_i32(bytes, 8),
                block_size: read_i32(bytes, 12),
                dir_size: read_i32(bytes, 16),
                data_offset: read_i32(bytes, 20),
            },
        )
    }

    /// Appends the 24 bytes of this header to `out`.
    pub fn write_to(&self, out: &mut Vec<u8>)
        ensures
            final(out)@ == old(out)@ + self.bytes(),
    {
        write_i32(out, self.vccd.value());
        write_i32(out, self.version.value());
        write_i32(out, self.block_count);
        write_i32(out, self.block_size);
        write_i32(out, self.dir_size);
        write_i32(out, self.data_offset);
        assert(out@ =~= old(out)@ + self.bytes());
    }

    /// The 24 bytes that store this header.
    pub fn to_bytes(&self) -> (bytes: Vec<u8>)
        ensures
            bytes@ == self.bytes(),
            bytes@.len() == HEADER_SIZE,
    {
        let mut bytes: Vec<u8> = Vec::new();
        self.write_to(&mut bytes);
        assert(bytes@ =~= self.bytes());
        bytes
    }
}

impl Default for Header {
    /// A header of an empty directory, with blocks of the default size.
    fn default() -> (header: Self)
        ensures
            header == (Header {
                vccd: VCCD::Default,
                version: Version::Default,
                block_count: 0,
                block_size: 8192,
                dir_size: 0,
                data_offset: 0,
            }),
    {
        Header {
            vccd: VCCD::Default,
            version: Version::Default,
            block_count: 0,
            block_size: 8192,
            dir_size: 0,
            data_offset: 0,
        }
    }
}

/// A header that was written is read back unchanged, whatever follows it.
pub proof fn lemma_header_round_trip(header: Header, rest: Seq<u8>)
    ensures
        header.bytes().len() == HEADER_SIZE,
        Header::decoded(header.bytes() + rest) == Ok::<Header, CaptionError>(header),
{
    let bytes = header.bytes() + rest;
    assert(bytes.subrange(0, 4) =~= i32_bytes(MAGIC));
    assert(bytes.subrange(4, 8) =~= i32_bytes(FORMAT_VERSION));
    assert(bytes.subrange(8, 12) =~= i32_bytes(header.block_count));
    assert(bytes.subrange(12, 16) =~= i32_bytes(header.block_size));
    assert(bytes.subrange(16, 20) =~= i32_bytes(header.dir_size));
    assert(bytes.subrange(20, 24) =~= i32_bytes(header.data_offset));
    lemma_i32_round_trip(bytes, 0, MAGIC);
    lemma_i32_round_trip(bytes, 4, FORMAT_VERSION);
    lemma_i32_round_trip(bytes, 8, header.block_count);
    lemma_i32_round_trip(bytes, 12, header.block_size);
    lemma_i32_round_trip(bytes, 16, header.dir_size);
    lemma_i32_round_trip(bytes, 20, header.data_offset);
}

} // verus!
