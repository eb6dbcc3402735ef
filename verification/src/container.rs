//! Laying out a container: the header, the directory padded to a 512-byte
//! boundary, and the payload.

use vstd::prelude::*;
use crate::entry::{CaptionEntry, ENTRY_SIZE};
use crate::error::CaptionError;
use crate::header::{lemma_header_round_trip, Header, Version, HEADER_SIZE, VCCD};
use crate::packer::{
    block_count, directory, lemma_payload_len, pack, packing_error, pad_zeros, payload, zeros,
    Caption, CaptionView, Packed, MAX_CAPTIONS,
};

verus! {

/// The boundary that the payload is aligned to.
pub const ALIGNMENT: usize = 512;

/// Where a directory of `count` entries ends.
pub open spec fn directory_end(count: int) -> int {
    HEADER_SIZE + ENTRY_SIZE * count
}

/// The number of zero bytes behind a directory of `count` entries: as many
/// as lead to the next multiple of 512, and 512 if the directory ends on
/// one.
pub open spec fn directory_padding(count: int) -> int {
    ALIGNMENT - directory_end(count) % (ALIGNMENT as int)
}

/// Where the payload begins behind a directory of `count` entries.
pub open spec fn data_offset(count: int) -> int {
    directory_end(count) + directory_padding(count)
}

/// The bytes of a directory: those of its entries, one after the other.
pub open spec fn directory_bytes(entries: Seq<CaptionEntry>) -> Seq<u8>
    decreases entries.len(),
{
    if entries.len() == 0 {
        Seq::empty()
    } else {
        directory_bytes(entries.drop_last()) + entries.last().bytes()
    }
}

/// The header of a container with `count` entries and `blocks` blocks of
/// `block_size` bytes.
pub open spec fn header_for(count: int, blocks: int, block_size: int) -> Header {
    Header {
        vccd: VCCD::Default,
        version: Version::Default,
        block_count: blocks as i32,
        block_size: block_size as i32,
        dir_size: count as i32,
        data_offset: data_offset(count) as i32,
    }
}

/// The bytes of a container: header, directory, padding, payload.
pub open spec fn container_bytes(
    entries: Seq<CaptionEntry>,
    payload: Seq<u8>,
    blocks: int,
    block_size: int,
) -> Seq<u8> {
    header_for(entries.len() as int, blocks, block_size).bytes() + directory_bytes(entries) + zeros(
        directory_padding(entries.len() as int),
    ) + payload
}

/// The container that `captions` compile to.
#[verifier::opaque]
pub open spec fn compiled_captions(captions: Seq<CaptionView>, block_size: int) -> Seq<u8> {
    container_bytes(
        directory(captions, block_size),
        payload(captions, block_size),
        block_count(captions, block_size),
        block_size,
    )
}

/// A directory takes 12 bytes for each entry.
pub proof fn lemma_directory_bytes_len(entries: Seq<CaptionEntry>)
    ensures
        directory_bytes(entries).len() == ENTRY_SIZE * entries.len(),
    decreases entries.len(),
{
    if entries.len() > 0 {
        lemma_directory_bytes_len(entries.drop_last());
    }
}

/// Entry `k` of a directory is stored in the 12 bytes that begin at `12 * k`.
pub proof fn lemma_directory_bytes_entry(entries: Seq<CaptionEntry>, k: int)
    requires
        0 <= k < entries.len(),
    ensures
        ENTRY_SIZE * k + ENTRY_SIZE <= directory_bytes(entries).len(),
        directory_bytes(entries).subrange(ENTRY_SIZE * k, ENTRY_SIZE * k + ENTRY_SIZE)
            == entries[k].bytes(),
    decreases entries.len(),
{
    let rest = entries.drop_last();
    lemma_directory_bytes_len(entries);
    lemma_directory_bytes_len(rest);
    if k == entries.len() - 1 {
        assert(directory_bytes(entries).subrange(ENTRY_SIZE * k, ENTRY_SIZE * k + ENTRY_SIZE)
            =~= entries[k].bytes());
    } else {
        lemma_directory_bytes_entry(rest, k);
        assert(directory_bytes(entries).subrange(ENTRY_SIZE * k, ENTRY_SIZE * k + ENTRY_SIZE)
            =~= directory_bytes(rest).subrange(ENTRY_SIZE * k, ENTRY_SIZE * k + ENTRY_SIZE));
    }
}

/// The payload of a container begins on a multiple of 512 behind the
/// directory, and its position fits the header's field.
pub proof fn lemma_data_offset(count: int)
    requires
        0 <= count <= MAX_CAPTIONS,
    ensures
        directory_end(count) < data_offset(count) <= directory_end(count) + 512,
        data_offset(count) % 512 == 0,
        data_offset(count) <= i32::MAX,
{
}

/// The header of a compiled container is read back as it was written: it
/// announces one entry for each caption, the number and the size of the
/// blocks, and the position of the payload.
pub proof fn lemma_compiled_header(captions: Seq<CaptionView>, block_size: int)
    requires
        0 <= block_size <= u16::MAX,
        packing_error(captions, block_size) is None,
    ensures
        Header::decoded(compiled_captions(captions, block_size)) == Ok::<Header, CaptionError>(
            header_for(captions.len() as int, block_count(captions, block_size), block_size),
        ),
        header_for(
            captions.len() as int,
            block_count(captions, block_size),
            block_size,
        ).dir_size == captions.len(),
        header_for(
            captions.len() as int,
            block_count(captions, block_size),
            block_size,
        ).block_count == block_count(captions, block_size),
        header_for(
            captions.len() as int,
            block_count(captions, block_size),
            block_size,
        ).block_size == block_size,
        header_for(
            captions.len() as int,
            block_count(captions, block_size),
            block_size,
        ).data_offset == data_offset(captions.len() as int),
{
    reveal(compiled_captions);
    let count = captions.len() as int;
    let header = header_for(count, block_count(captions, block_size), block_size);
    let rest = directory_bytes(directory(captions, block_size)) + zeros(directory_padding(count))
        + payload(captions, block_size);
    lemma_payload_len(captions, block_size);
    lemma_data_offset(count);
    lemma_header_round_trip(header, rest);
    assert(compiled_captions(captions, block_size) =~= header.bytes() + rest);
}

/// The number of zero bytes behind a directory of `count` entries.
pub fn padding_behind_directory(count: usize) -> (padding: usize)
    ensures
        padding == directory_padding(count as int),
{
    // 128 entries take three times 512 bytes, so that only the entries
    // beyond a multiple of 128 move the directory's end off a boundary.
    let beyond: usize = count % 128;
    assert((HEADER_SIZE + ENTRY_SIZE * count) % (ALIGNMENT as int) == (HEADER_SIZE + ENTRY_SIZE
        * beyond) % (ALIGNMENT as int)) by {
        assert(count == 128 * (count / 128) + beyond);
        assert(HEADER_SIZE + ENTRY_SIZE * count == 512 * (3 * (count / 128)) + (HEADER_SIZE
            + ENTRY_SIZE * beyond));
    }
    ALIGNMENT - (HEADER_SIZE + ENTRY_SIZE * beyond) % ALIGNMENT
}

/// Lays out a container from what was packed.
///
/// The header is made here: it holds the number of entries, the given
/// number and size of the blocks, and the position of the payload. The
/// payload is taken as it is.
///
/// # Errors
///
/// `TooManyCaptions` if there are more than `MAX_CAPTIONS` entries.
pub fn write_container(packed: Packed, block_size: u16) -> (result: Result<Vec<u8>, CaptionError>)
    ensures
        match result {
            Ok(bytes) => {
                &&& packed.entries.len() <= MAX_CAPTIONS
                &&& bytes@ == container_bytes(
                    packed.entries@,
                    packed.payload@,
                    packed.block_count as int,
                    block_size as int,
                )
            },
            Err(error) => {
                &&& packed.entries.len() > MAX_CAPTIONS
                &&& error == CaptionError::TooManyCaptions
            },
        },
{
    let count: usize = packed.entries.len();
    if count > MAX_CAPTIONS {
        return Err(CaptionError::TooManyCaptions);
    }
    let end: usize = HEADER_SIZE + ENTRY_SIZE * count;
    let padding: usize = padding_behind_directory(count);
    let header = Header {
        vccd: VCCD::Default,
        version: Version::Default,
        block_count: packed.block_count,
        block_size: block_size as i32,
        dir_size: count as i32,
        data_offset: (end + padding) as i32,
    };
    let mut bytes: Vec<u8> = header.to_bytes();
    let mut i: usize = 0;
    assert(packed.entries@.take(0) =~= Seq::<CaptionEntry>::empty());
    while i < count
        invariant
            i <= count,
            count == packed.entries.len(),
            bytes@ == header.bytes() + directory_bytes(packed.entries@.take(i as int)),
        decreases count - i,
    {
        assert(packed.entries@.take(i + 1).drop_last() =~= packed.entries@.take(i as int));
        packed.entries[i].write_to(&mut bytes);
        i = i + 1;
        assert(bytes@ =~= header.bytes() + directory_bytes(packed.entries@.take(i as int)));
    }
    assert(packed.entries@.take(count as int) =~= packed.entries@);
    pad_zeros(&mut bytes, padding);
    let mut payload: Vec<u8> = packed.payload;
    bytes.append(&mut payload);
    Ok(bytes)
}

/// Compiles `captions` to a container with blocks of `block_size` bytes.
///
/// # Errors
///
/// `CaptionTooLarge` if the text of one of them, terminator included, takes
/// more than `block_size` bytes; otherwise `TooManyCaptions` if there are
/// more than `MAX_CAPTIONS`.
pub fn compile_captions(captions: &Vec<Caption>, block_size: u16) -> (result: Result<
    Vec<u8>,
    CaptionError,
>)
    ensures
        match result {
            Ok(bytes) => {
                &&& packing_error(captions.deep_view(), block_size as int) is None
                &&& bytes@ == compiled_captions(captions.deep_view(), block_size as int)
                &&& Header::decoded(bytes@) == Ok::<Header, CaptionError>(
                    header_for(
                        captions.len() as int,
                        block_count(captions.deep_view(), block_size as int),
                        block_size as int,
                    ),
                )
                &&& Header::decoded(bytes@)->Ok_0.dir_size == captions.len()
            },
            Err(error) => packing_error(captions.deep_view(), block_size as int) == Some(error),
        },
{
    reveal(compiled_captions);
    match pack(captions, block_size) {
        Ok(packed) => {
            proof {
                lemma_compiled_header(captions.deep_view(), block_size as int);
            }
            write_container(packed, block_size)
        },
        Err(error) => Err(error),
    }
}

} // verus!
