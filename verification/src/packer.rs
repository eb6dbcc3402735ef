//! Packing captions into blocks.
//!
//! Captions are placed one after the other, in the order given. A caption
//! that does not fit in what is left of the current block opens the next
//! one, so that no caption lies across a block boundary; what is left of a
//! block is filled with zeros.

use vstd::prelude::*;
use crate::entry::CaptionEntry;
use crate::error::CaptionError;
use crate::keys::{hash_key, key_hash};
use crate::text::{
    caption_bytes, caption_fits, encode_caption, lemma_caption_bytes_len, utf16_units,
};

verus! {

/// The largest number of captions a container holds: with one more, the
/// position of the payload would no longer fit the header's signed 32-bit
/// field.
pub const MAX_CAPTIONS: usize = 178_956_925;

/// A caption to be compiled: the key it is looked up by, and its text.
#[derive(Debug, Clone, PartialEq, Eq)]
pub struct Caption {
    pub key: String,
    pub text: String,
}

/// A caption as contracts see it.
pub struct CaptionView {
    pub key: Seq<char>,
    pub text: Seq<char>,
}

impl View for Caption {
    type V = CaptionView;

    open spec fn view(&self) -> CaptionView {
        CaptionView { key: self.key@, text: self.text@ }
    }
}

impl DeepView for Caption {
    type V = CaptionView;

    open spec fn deep_view(&self) -> CaptionView {
        self@
    }
}

/// A place in the payload: a block, and a distance from its beginning.
pub struct Cursor {
    pub block: int,
    pub offset: int,
}

/// `count` zero bytes.
pub open spec fn zeros(count: int) -> Seq<u8> {
    Seq::new(if count > 0 { count as nat } else { 0 }, |i: int| 0u8)
}

/// The number of bytes a caption's text takes in the payload.
pub open spec fn stored_len(caption: CaptionView) -> int {
    caption_bytes(caption.text).len() as int
}

/// Whether every caption fits in a block by itself.
pub open spec fn all_fit(captions: Seq<CaptionView>, block_size: int) -> bool {
    forall|k: int| 0 <= k < captions.len() ==> stored_len(#[trigger] captions[k]) <= block_size
}

/// Where a text of `len` bytes begins when the cursor stands at `cursor`:
/// there, or at the start of the next block if the rest of this one is too
/// short for it.
pub open spec fn place(cursor: Cursor, len: int, block_size: int) -> Cursor {
    if cursor.offset + len > block_size {
        Cursor { block: cursor.block + 1, offset: 0 }
    } else {
        cursor
    }
}

/// Where the cursor stands once `captions` are placed: behind the last of
/// them, or at the very start if there is none.
pub open spec fn cursor_after(captions: Seq<CaptionView>, block_size: int) -> Cursor
    decreases captions.len(),
{
    if captions.len() == 0 {
        Cursor { block: 0, offset: 0 }
    } else {
        let len = stored_len(captions.last());
        let start = place(cursor_after(captions.drop_last(), block_size), len, block_size);
        Cursor { block: start.block, offset: start.offset + len }
    }
}

/// Where caption `k` begins.
pub open spec fn start_of(captions: Seq<CaptionView>, k: int, block_size: int) -> Cursor {
    place(cursor_after(captions.take(k), block_size), stored_len(captions[k]), block_size)
}

/// The directory entry of caption `k`.
pub open spec fn entry_of(captions: Seq<CaptionView>, k: int, block_size: int) -> CaptionEntry {
    CaptionEntry {
        crc32: key_hash(captions[k].key),
        block: start_of(captions, k, block_size).block as i32,
        offset: start_of(captions, k, block_size).offset as u16,
        length: stored_len(captions[k]) as u16,
    }
}

/// The directory: one entry for each caption, in the captions' order.
pub open spec fn directory(captions: Seq<CaptionView>, block_size: int) -> Seq<CaptionEntry> {
    Seq::new(captions.len(), |k: int| entry_of(captions, k, block_size))
}

/// The payload up to the cursor: each caption's bytes where it begins, and
/// zeros from the end of one caption to the end of its block wherever the
/// next caption opened a new block.
pub open spec fn packed(captions: Seq<CaptionView>, block_size: int) -> Seq<u8>
    decreases captions.len(),
{
    if captions.len() == 0 {
        Seq::empty()
    } else {
        let before = cursor_after(captions.drop_last(), block_size);
        let bytes = caption_bytes(captions.last().text);
        if before.offset + bytes.len() > block_size {
            packed(captions.drop_last(), block_size) + zeros(block_size - before.offset) + bytes
        } else {
            packed(captions.drop_last(), block_size) + bytes
        }
    }
}

/// The number of blocks the captions take: at least one, even for none.
pub open spec fn block_count(captions: Seq<CaptionView>, block_size: int) -> int {
    cursor_after(captions, block_size).block + 1
}

/// The whole payload: the packed captions, and zeros to the end of the
/// last block.
pub open spec fn payload(captions: Seq<CaptionView>, block_size: int) -> Seq<u8> {
    packed(captions, block_size) + zeros(
        block_size - cursor_after(captions, block_size).offset,
    )
}

/// Why `captions` cannot be packed, if they cannot.
pub open spec fn packing_error(captions: Seq<CaptionView>, block_size: int) -> Option<
    CaptionError,
> {
    if !all_fit(captions, block_size) {
        Some(CaptionError::CaptionTooLarge)
    } else if captions.len() > MAX_CAPTIONS {
        Some(CaptionError::TooManyCaptions)
    } else {
        None
    }
}

/// A stored caption takes an even number of bytes, and at least the two of
/// its terminator.
pub proof fn lemma_stored_len(caption: CaptionView)
    ensures
        stored_len(caption) == 2 * utf16_units(caption.text).len() + 2,
{
    lemma_caption_bytes_len(caption.text);
}

/// A prefix of captions that all fit holds only captions that fit.
pub proof fn lemma_all_fit_take(captions: Seq<CaptionView>, block_size: int, count: int)
    requires
        all_fit(captions, block_size),
        0 <= count <= captions.len(),
    ensures
        all_fit(captions.take(count), block_size),
{
    assert forall|k: int| 0 <= k < count implies stored_len(#[trigger] captions.take(count)[k])
        <= block_size by {
        assert(captions.take(count)[k] == captions[k]);
    }
}

/// The cursor stays inside its block, a block is opened only for a
/// caption, and the packed bytes reach exactly to the cursor.
pub proof fn lemma_cursor(captions: Seq<CaptionView>, block_size: int)
    requires
        0 <= block_size,
        all_fit(captions, block_size),
    ensures
        0 <= cursor_after(captions, block_size).block <= captions.len(),
        0 <= cursor_after(captions, block_size).offset <= block_size,
        captions.len() > 0 ==> cursor_after(captions, block_size).block < captions.len(),
        captions.len() > 0 ==> cursor_after(captions, block_size).offset >= 2,
        cursor_after(captions, block_size).offset % 2 == 0,
        packed(captions, block_size).len() == cursor_after(captions, block_size).block
            * block_size + cursor_after(captions, block_size).offset,
    decreases captions.len(),
{
    if captions.len() > 0 {
        let rest = captions.drop_last();
        lemma_all_fit_take(captions, block_size, captions.len() - 1);
        assert(captions.take(captions.len() - 1) =~= rest);
        lemma_cursor(rest, block_size);
        lemma_stored_len(captions.last());
        let before = cursor_after(rest, block_size);
        assert((before.block + 1) * block_size == before.block * block_size + block_size)
            by (nonlinear_arith);
    }
}

/// No caption lies across a block boundary: every caption begins inside a
/// block and ends inside the same block. It begins an even number of bytes
/// from the beginning of the block.
pub proof fn lemma_no_straddle(captions: Seq<CaptionView>, block_size: int, k: int)
    requires
        0 <= block_size,
        all_fit(captions, block_size),
        0 <= k < captions.len(),
    ensures
        0 <= start_of(captions, k, block_size).block <= k,
        0 <= start_of(captions, k, block_size).offset,
        start_of(captions, k, block_size).offset % 2 == 0,
        start_of(captions, k, block_size).offset + stored_len(captions[k]) <= block_size,
{
    lemma_all_fit_take(captions, block_size, k);
    lemma_cursor(captions.take(k), block_size);
    lemma_stored_len(captions[k]);
}

/// What a directory entry holds: the checksum of its caption's key, and
/// the block, the offset and the length of its caption's text. The entry
/// ends inside its block.
pub proof fn lemma_entry_fields(captions: Seq<CaptionView>, block_size: int, k: int)
    requires
        0 <= block_size <= u16::MAX,
        captions.len() <= MAX_CAPTIONS,
        all_fit(captions, block_size),
        0 <= k < captions.len(),
    ensures
        entry_of(captions, k, block_size).crc32 == key_hash(captions[k].key),
        entry_of(captions, k, block_size).block == start_of(captions, k, block_size).block,
        entry_of(captions, k, block_size).offset == start_of(captions, k, block_size).offset,
        entry_of(captions, k, block_size).length == stored_len(captions[k]),
        entry_of(captions, k, block_size).offset + entry_of(captions, k, block_size).length
            <= block_size,
{
    lemma_no_straddle(captions, block_size, k);
    lemma_stored_len(captions[k]);
}

/// The text of caption `k` lies in the packed bytes where its entry says.
pub proof fn lemma_packed_holds(captions: Seq<CaptionView>, block_size: int, k: int)
    requires
        0 <= block_size,
        all_fit(captions, block_size),
        0 <= k < captions.len(),
    ensures
        ({
            let start = start_of(captions, k, block_size);
            let position = start.block * block_size + start.offset;
            &&& 0 <= position
            &&& position + stored_len(captions[k]) <= packed(captions, block_size).len()
            &&& packed(captions, block_size).subrange(
                position,
                position + stored_len(captions[k]),
            ) == caption_bytes(captions[k].text)
        }),
    decreases captions.len(),
{
    let rest = captions.drop_last();
    let start = start_of(captions, k, block_size);
    let position = start.block * block_size + start.offset;
    let len = stored_len(captions[k]);
    lemma_all_fit_take(captions, block_size, captions.len() - 1);
    assert(captions.take(captions.len() - 1) =~= rest);
    lemma_cursor(rest, block_size);
    lemma_cursor(captions, block_size);
    let before = cursor_after(rest, block_size);
    assert((before.block + 1) * block_size == before.block * block_size + block_size)
        by (nonlinear_arith);
    if k == captions.len() - 1 {
        assert(captions.take(k) =~= rest);
        assert(packed(captions, block_size).subrange(position, position + len) =~= caption_bytes(
            captions[k].text,
        ));
    } else {
        assert(rest.take(k) =~= captions.take(k));
        assert(rest[k] == captions[k]);
        lemma_packed_holds(rest, block_size, k);
        assert(packed(captions, block_size).subrange(position, position + len) =~= packed(
            rest,
            block_size,
        ).subrange(position, position + len));
    }
}

/// The payload is made of whole blocks, and the text of caption `k` lies
/// in it where its entry says.
pub proof fn lemma_payload_holds(captions: Seq<CaptionView>, block_size: int, k: int)
    requires
        0 <= block_size,
        all_fit(captions, block_size),
        0 <= k < captions.len(),
    ensures
        payload(captions, block_size).len() == block_count(captions, block_size) * block_size,
        ({
            let start = start_of(captions, k, block_size);
            let position = start.block * block_size + start.offset;
            &&& 0 <= position
            &&& position + stored_len(captions[k]) <= payload(captions, block_size).len()
            &&& payload(captions, block_size).subrange(
                position,
                position + stored_len(captions[k]),
            ) == caption_bytes(captions[k].text)
        }),
{
    lemma_payload_len(captions, block_size);
    lemma_packed_holds(captions, block_size, k);
    let start = start_of(captions, k, block_size);
    let position = start.block * block_size + start.offset;
    assert(payload(captions, block_size).subrange(position, position + stored_len(captions[k]))
        =~= packed(captions, block_size).subrange(position, position + stored_len(captions[k])));
}

/// The payload is made of whole blocks: its length is the number of blocks
/// times the size of one.
pub proof fn lemma_payload_len(captions: Seq<CaptionView>, block_size: int)
    requires
        0 <= block_size,
        all_fit(captions, block_size),
    ensures
        1 <= block_count(captions, block_size) <= captions.len() + 1,
        captions.len() > 0 ==> block_count(captions, block_size) <= captions.len(),
        payload(captions, block_size).len() == block_count(captions, block_size) * block_size,
{
    lemma_cursor(captions, block_size);
    let cursor = cursor_after(captions, block_size);
    assert((cursor.block + 1) * block_size == cursor.block * block_size + block_size)
        by (nonlinear_arith);
}

/// Whether the byte of the payload at `at` belongs to the text of
/// caption `k`.
pub open spec fn holds_byte(captions: Seq<CaptionView>, block_size: int, k: int, at: int) -> bool {
    let start = start_of(captions, k, block_size);
    let position = start.block * block_size + start.offset;
    position <= at < position + stored_len(captions[k])
}

/// What is packed holds nothing but the captions: a byte that belongs to
/// no caption's text is zero.
pub proof fn lemma_packed_padding(captions: Seq<CaptionView>, block_size: int, at: int)
    requires
        0 <= block_size,
        all_fit(captions, block_size),
        0 <= at < packed(captions, block_size).len(),
        forall|k: int| 0 <= k < captions.len() ==> !holds_byte(captions, block_size, k, at),
    ensures
        packed(captions, block_size)[at] == 0,
    decreases captions.len(),
{
    if captions.len() > 0 {
        let last = captions.len() - 1;
        let rest = captions.drop_last();
        lemma_all_fit_take(captions, block_size, last);
        assert(captions.take(last) =~= rest);
        lemma_cursor(rest, block_size);
        let before = cursor_after(rest, block_size);
        assert((before.block + 1) * block_size == before.block * block_size + block_size)
            by (nonlinear_arith);
        assert(!holds_byte(captions, block_size, last, at));
        if at < packed(rest, block_size).len() {
            assert forall|k: int| 0 <= k < rest.len() implies !holds_byte(
                rest,
                block_size,
                k,
                at,
            ) by {
                assert(rest.take(k) =~= captions.take(k));
                assert(rest[k] == captions[k]);
                assert(!holds_byte(captions, block_size, k, at));
            }
            lemma_packed_padding(rest, block_size, at);
        }
    }
}

/// The payload holds nothing but the captions: a byte that belongs to no
/// caption's text is zero.
pub proof fn lemma_payload_padding(captions: Seq<CaptionView>, block_size: int, at: int)
    requires
        0 <= block_size,
        all_fit(captions, block_size),
        0 <= at < payload(captions, block_size).len(),
        forall|k: int| 0 <= k < captions.len() ==> !holds_byte(captions, block_size, k, at),
    ensures
        payload(captions, block_size)[at] == 0,
{
    if at < packed(captions, block_size).len() {
        lemma_packed_padding(captions, block_size, at);
    }
}

/// Once caption `k` is placed, the cursor stands at its end.
pub proof fn lemma_cursor_behind(captions: Seq<CaptionView>, block_size: int, k: int)
    requires
        0 <= k < captions.len(),
    ensures
        cursor_after(captions.take(k + 1), block_size) == (Cursor {
            block: start_of(captions, k, block_size).block,
            offset: start_of(captions, k, block_size).offset + stored_len(captions[k]),
        }),
{
    assert(captions.take(k + 1).drop_last() =~= captions.take(k));
    assert(captions.take(k + 1).last() == captions[k]);
}

/// Blocks are filled in order: the cursor never goes back to an earlier
/// block.
pub proof fn lemma_cursor_monotone(captions: Seq<CaptionView>, block_size: int, i: int, j: int)
    requires
        0 <= i <= j <= captions.len(),
    ensures
        cursor_after(captions.take(i), block_size).block <= cursor_after(
            captions.take(j),
            block_size,
        ).block,
    decreases j - i,
{
    if i < j {
        lemma_cursor_monotone(captions, block_size, i, j - 1);
        lemma_cursor_behind(captions, block_size, j - 1);
    }
}

/// A caption that takes exactly one block has that block to itself: it
/// begins at the block's start, and no other caption lies in its block.
pub proof fn lemma_exact_fit(captions: Seq<CaptionView>, block_size: int, k: int)
    requires
        0 <= block_size,
        all_fit(captions, block_size),
        0 <= k < captions.len(),
        stored_len(captions[k]) == block_size,
    ensures
        start_of(captions, k, block_size).offset == 0,
        forall|j: int|
            0 <= j < captions.len() && j != k ==> (#[trigger] start_of(
                captions,
                j,
                block_size,
            )).block != start_of(captions, k, block_size).block,
{
    lemma_no_straddle(captions, block_size, k);
    assert forall|j: int| 0 <= j < captions.len() && j != k implies (#[trigger] start_of(
        captions,
        j,
        block_size,
    )).block != start_of(captions, k, block_size).block by {
        lemma_all_fit_take(captions, block_size, k);
        lemma_cursor(captions.take(k), block_size);
        lemma_all_fit_take(captions, block_size, j);
        lemma_cursor(captions.take(j), block_size);
        lemma_stored_len(captions[j]);
        if j < k {
            lemma_cursor_behind(captions, block_size, j);
            lemma_cursor_monotone(captions, block_size, j + 1, k);
        } else {
            lemma_cursor_behind(captions, block_size, k);
            lemma_cursor_monotone(captions, block_size, k + 1, j);
            if j > k + 1 {
                lemma_stored_len(captions[k + 1]);
                lemma_cursor_behind(captions, block_size, k + 1);
                lemma_cursor_monotone(captions, block_size, k + 2, j);
            }
        }
    }
}

/// What was packed, and where it ended.
pub struct Packed {
    /// One entry for each caption, in the captions' order.
    pub entries: Vec<CaptionEntry>,
    /// The blocks, one after the other.
    pub payload: Vec<u8>,
    /// The number of blocks.
    pub block_count: i32,
    /// The number of zero bytes that close the last block.
    pub padding: u16,
}

/// Appends `count` zero bytes to `out`.
pub fn pad_zeros(out: &mut Vec<u8>, count: usize)
    ensures
        final(out)@ == old(out)@ + zeros(count as int),
{
    let mut done: usize = 0;
    while done < count
        invariant
            done <= count,
            out@ == old(out)@ + zeros(done as int),
        decreases count - done,
    {
        out.push(0u8);
        done = done + 1;
        assert(out@ =~= old(out)@ + zeros(done as int));
    }
}

/// Whether every one of `captions` fits in a block of `block_size` bytes
/// by itself.
pub fn all_captions_fit(captions: &Vec<Caption>, block_size: u16) -> (fit: bool)
    ensures
        fit == all_fit(captions.deep_view(), block_size as int),
{
    let ghost all = captions.deep_view();
    let mut i: usize = 0;
    while i < captions.len()
        invariant
            i <= captions.len(),
            all == captions.deep_view(),
            forall|k: int| 0 <= k < i ==> stored_len(#[trigger] all[k]) <= block_size,
        decreases captions.len() - i,
    {
        assert(all[i as int] == captions[i as int]@);
        if !caption_fits(captions[i].text.as_str(), block_size) {
            return false;
        }
        i = i + 1;
    }
    true
}

/// Packs `captions` into blocks of `block_size` bytes.
///
/// Every caption gets one directory entry, in the captions' order. No
/// caption lies across a block boundary, and each begins an even number of
/// bytes from the beginning of its block.
///
/// # Errors
///
/// `CaptionTooLarge` if the text of one of them, terminator included, takes
/// more than `block_size` bytes; otherwise `TooManyCaptions` if there are
/// more than `MAX_CAPTIONS`.
pub fn pack(captions: &Vec<Caption>, block_size: u16) -> (result: Result<Packed, CaptionError>)
    ensures
        match result {
            Ok(packed) => {
                &&& packing_error(captions.deep_view(), block_size as int) is None
                &&& packed.entries@ == directory(captions.deep_view(), block_size as int)
                &&& packed.payload@ == payload(captions.deep_view(), block_size as int)
                &&& packed.block_count == block_count(captions.deep_view(), block_size as int)
                &&& packed.padding == block_size - cursor_after(
                    captions.deep_view(),
                    block_size as int,
                ).offset
                &&& packed.entries.len() == captions.len()
                &&& packed.payload.len() == packed.block_count * block_size
                &&& forall|k: int|
                    0 <= k < captions.len() ==> {
                        &&& (#[trigger] packed.entries[k]).crc32 == key_hash(captions[k].key@)
                        &&& packed.entries[k].length == stored_len(captions[k]@)
                        &&& packed.entries[k].offset % 2 == 0
                        &&& packed.entries[k].offset + packed.entries[k].length <= block_size
                    }
            },
            Err(error) => packing_error(captions.deep_view(), block_size as int) == Some(error),
        },
{
    if captions.len() > MAX_CAPTIONS {
        if all_captions_fit(captions, block_size) {
            return Err(CaptionError::TooManyCaptions);
        }
        return Err(CaptionError::CaptionTooLarge);
    }
    let ghost all = captions.deep_view();
    let ghost size = block_size as int;
    let mut entries: Vec<CaptionEntry> = Vec::new();
    let mut payload: Vec<u8> = Vec::new();
    let mut block: i32 = 0;
    let mut offset: u16 = 0;
    let mut i: usize = 0;
    assert(all.take(0) =~= Seq::<CaptionView>::empty());
    while i < captions.len()
        invariant
            i <= captions.len() <= MAX_CAPTIONS,
            all == captions.deep_view(),
            size == block_size as int,
            all_fit(all.take(i as int), size),
            cursor_after(all.take(i as int), size) == (Cursor {
                block: block as int,
                offset: offset as int,
            }),
            entries@.len() == i,
            forall|k: int| 0 <= k < i ==> #[trigger] entries@[k] == entry_of(all, k, size),
            payload@ == packed(all.take(i as int), size),
        decreases captions.len() - i,
    {
        let caption: &Caption = &captions[i];
        let ghost before = all.take(i as int);
        let ghost upto = all.take(i + 1);
        proof {
            assert(all[i as int] == caption@);
            assert(upto.drop_last() =~= before);
            assert(upto.last() == caption@);
            lemma_cursor(before, size);
            lemma_stored_len(caption@);
        }
        let mut bytes: Vec<u8> = encode_caption(caption.text.as_str());
        if bytes.len() > block_size as usize {
            assert(!all_fit(all, size)) by {
                assert(stored_len(all[i as int]) > size);
            }
            return Err(CaptionError::CaptionTooLarge);
        }
        let length: u16 = bytes.len() as u16;
        if offset as u32 + length as u32 > block_size as u32 {
            pad_zeros(&mut payload, (block_size - offset) as usize);
            block = block + 1;
            offset = 0;
        }
        entries.push(
            CaptionEntry { crc32: hash_key(caption.key.as_str()), block, offset, length },
        );
        payload.append(&mut bytes);
        offset = offset + length;
        proof {
            assert forall|k: int| 0 <= k < upto.len() implies stored_len(#[trigger] upto[k])
                <= size by {
                if k < i {
                    assert(upto[k] == before[k]);
                }
            }
        }
        i = i + 1;
    }
    proof {
        assert(all.take(i as int) =~= all);
        lemma_cursor(all, size);
        lemma_payload_len(all, size);
        assert(entries@ =~= directory(all, size));
        assert forall|k: int| 0 <= k < captions.len() implies {
            &&& (#[trigger] entries[k]).crc32 == key_hash(captions[k].key@)
            &&& entries[k].length == stored_len(captions[k]@)
            &&& entries[k].offset % 2 == 0
            &&& entries[k].offset + entries[k].length <= block_size
        } by {
            lemma_entry_fields(all, size, k);
            lemma_no_straddle(all, size, k);
        }
    }
    let padding: u16 = block_size - offset;
    pad_zeros(&mut payload, padding as usize);
    Ok(Packed { entries, payload, block_count: block + 1, padding })
}

} // verus!
