//! Reading a container: the header, then each directory entry and the
//! text it points to.

use vstd::prelude::*;
use vstd::slice::{slice_subrange, slice_to_vec};
use crate::entry::{CaptionEntry, ENTRY_SIZE};
use crate::error::CaptionError;
use crate::header::{Header, HEADER_SIZE};
use crate::text::{decode_utf16le, utf16le_text};

verus! {

/// A caption as it is stored: its directory entry, and the bytes of its
/// text, terminator included.
#[derive(Debug, Clone, PartialEq, Eq)]
pub struct StoredCaption {
    pub entry: CaptionEntry,
    pub bytes: Vec<u8>,
}

/// A stored caption as contracts see it.
pub struct StoredView {
    pub entry: CaptionEntry,
    pub bytes: Seq<u8>,
}

impl View for StoredCaption {
    type V = StoredView;

    open spec fn view(&self) -> StoredView {
        StoredView { entry: self.entry, bytes: self.bytes@ }
    }
}

impl DeepView for StoredCaption {
    type V = StoredView;

    open spec fn deep_view(&self) -> StoredView {
        self@
    }
}

/// A caption as it is shown: its directory entry, and its decoded text.
#[derive(Debug, Clone, PartialEq, Eq)]
pub struct DescribedCaption {
    pub entry: CaptionEntry,
    pub text: String,
}

/// A described caption as contracts see it.
pub struct DescribedView {
    pub entry: CaptionEntry,
    pub text: Seq<char>,
}

impl View for DescribedCaption {
    type V = DescribedView;

    open spec fn view(&self) -> DescribedView {
        DescribedView { entry: self.entry, text: self.text@ }
    }
}

impl DeepView for DescribedCaption {
    type V = DescribedView;

    open spec fn deep_view(&self) -> DescribedView {
        self@
    }
}

/// Where directory entry `k` begins.
pub open spec fn entry_position(k: int) -> int {
    HEADER_SIZE + ENTRY_SIZE * k
}

/// Where the text of `entry` begins, counted from the start of the
/// container.
pub open spec fn text_position(header: Header, entry: CaptionEntry) -> int {
    header.data_offset + entry.block * header.block_size + entry.offset
}

/// Whether entry `k` lies inside `bytes` and every byte of the text it
/// points to can be read.
///
/// A text begins at or behind the start of the container. A text without
/// bytes asks for no read, so that it is readable wherever it is said to
/// begin, behind the end too.
pub open spec fn readable(bytes: Seq<u8>, header: Header, k: int) -> bool {
    let entry = CaptionEntry::at(bytes, entry_position(k));
    &&& entry_position(k) + ENTRY_SIZE <= bytes.len()
    &&& 0 <= text_position(header, entry)
    &&& entry.length == 0 || text_position(header, entry) + entry.length <= bytes.len()
}

/// Caption `k` as `bytes` store it.
pub open spec fn stored_at(bytes: Seq<u8>, header: Header, k: int) -> StoredView {
    let entry = CaptionEntry::at(bytes, entry_position(k));
    StoredView {
        entry,
        bytes: if entry.length == 0 {
            Seq::empty()
        } else {
            bytes.subrange(
                text_position(header, entry),
                text_position(header, entry) + entry.length,
            )
        },
    }
}

/// The number of entries that the header announces; none if the field is
/// negative.
pub open spec fn entry_count(header: Header) -> nat {
    if header.dir_size > 0 {
        header.dir_size as nat
    } else {
        0
    }
}

/// The captions that a container stores, in the directory's order, or the
/// reason why it cannot be read.
///
/// A container is read only as a whole: if the header is refused, or one
/// of the announced entries or a byte of its text lies past the end, or a
/// text is said to begin before the start, there is no result at all.
pub open spec fn stored_captions(bytes: Seq<u8>) -> Result<Seq<StoredView>, CaptionError> {
    match Header::decoded(bytes) {
        Err(error) => Err(error),
        Ok(header) => if forall|k: int| 0 <= k < entry_count(header) ==> readable(bytes, header, k) {
            Ok(Seq::new(entry_count(header), |k: int| stored_at(bytes, header, k)))
        } else {
            Err(CaptionError::TruncatedInput)
        },
    }
}

/// A stored caption with its text decoded.
pub open spec fn shown(stored: StoredView) -> DescribedView {
    DescribedView { entry: stored.entry, text: utf16le_text(stored.bytes) }
}

/// The captions that a container describes, or the reason why it cannot
/// be read.
pub open spec fn described(bytes: Seq<u8>) -> Result<Seq<DescribedView>, CaptionError> {
    match stored_captions(bytes) {
        Err(error) => Err(error),
        Ok(stored) => Ok(Seq::new(stored.len(), |k: int| shown(stored[k]))),
    }
}

/// A container whose directory is announced longer than the bytes reach
/// is not read at all.
pub proof fn lemma_short_directory(bytes: Seq<u8>)
    requires
        Header::decoded(bytes) is Ok,
        Header::decoded(bytes)->Ok_0.dir_size > 0,
        entry_position(Header::decoded(bytes)->Ok_0.dir_size as int) > bytes.len(),
    ensures
        stored_captions(bytes) == Err::<Seq<StoredView>, CaptionError>(
            CaptionError::TruncatedInput,
        ),
{
    let header = Header::decoded(bytes)->Ok_0;
    assert(!readable(bytes, header, header.dir_size - 1));
}

/// Reads caption `k`, whose entry is known to lie inside `bytes`.
fn read_stored(bytes: &[u8], header: &Header, k: usize) -> (stored: Option<StoredCaption>)
    requires
        entry_position(k as int) + ENTRY_SIZE <= bytes.len(),
    ensures
        match stored {
            Some(caption) => readable(bytes@, *header, k as int) && caption@ == stored_at(
                bytes@,
                *header,
                k as int,
            ),
            None => !readable(bytes@, *header, k as int),
        },
{
    let entry: CaptionEntry = CaptionEntry::read_at(bytes, HEADER_SIZE + ENTRY_SIZE * k);
    assert(-0x4000_0000_0000_0000 <= entry.block * header.block_size <= 0x4000_0000_0000_0000)
        by (nonlinear_arith)
        requires
            -0x8000_0000 <= entry.block <= 0x7fff_ffff,
            -0x8000_0000 <= header.block_size <= 0x7fff_ffff,
    ;
    let position: i64 = header.data_offset as i64 + entry.block as i64 * header.block_size as i64
        + entry.offset as i64;
    if position < 0 {
        return None;
    }
    if entry.length == 0 {
        return Some(StoredCaption { entry, bytes: Vec::new() });
    }
    let begin: u64 = position as u64;
    let end: u64 = begin + entry.length as u64;
    if end > bytes.len() as u64 {
        return None;
    }
    let text: &[u8] = slice_subrange(bytes, begin as usize, end as usize);
    Some(StoredCaption { entry, bytes: slice_to_vec(text) })
}

/// Reads every caption of a container, in the directory's order.
///
/// # Errors
///
/// Those of the header; `TruncatedInput` if an entry that the header
/// announces, or a byte of the text that an entry points to, lies past the
/// end, or if a text is said to begin before the start.
pub fn read_captions(bytes: &[u8]) -> (result: Result<Vec<StoredCaption>, CaptionError>)
    ensures
        match result {
            Ok(captions) => {
                &&& stored_captions(bytes@) == Ok::<Seq<StoredView>, CaptionError>(
                    captions.deep_view(),
                )
                &&& forall|j: int|
                    0 <= j < captions.len() ==> (#[trigger] captions[j]).bytes.len()
                        == captions[j].entry.length
            },
            Err(error) => stored_captions(bytes@) == Err::<Seq<StoredView>, CaptionError>(error),
        },
{
    let header: Header = match Header::from_reader(bytes) {
        Ok(header) => header,
        Err(error) => {
            return Err(error);
        },
    };
    let count: u64 = if header.dir_size > 0 {
        header.dir_size as u64
    } else {
        0
    };
    let mut captions: Vec<StoredCaption> = Vec::new();
    let mut k: u64 = 0;
    while k < count
        invariant
            k <= count,
            count == entry_count(header),
            Header::decoded(bytes@) == Ok::<Header, CaptionError>(header),
            captions@.len() == k,
            forall|j: int| 0 <= j < k ==> readable(bytes@, header, j),
            forall|j: int| 0 <= j < k ==> (#[trigger] captions@[j])@ == stored_at(bytes@, header, j),
            forall|j: int|
                0 <= j < k ==> (#[trigger] captions@[j]).bytes.len() == captions@[j].entry.length,
        decreases count - k,
    {
        if HEADER_SIZE as u64 + ENTRY_SIZE as u64 * (k + 1) > bytes.len() as u64 {
            assert(!readable(bytes@, header, k as int));
            return Err(CaptionError::TruncatedInput);
        }
        match read_stored(bytes, &header, k as usize) {
            Some(caption) => {
                captions.push(caption);
            },
            None => {
                return Err(CaptionError::TruncatedInput);
            },
        }
        k = k + 1;
    }
    assert(captions.deep_view() =~= Seq::new(
        entry_count(header),
        |j: int| stored_at(bytes@, header, j),
    ));
    Ok(captions)
}

/// Describes a container: every caption's entry and decoded text, in the
/// directory's order.
///
/// The text is decoded from all the bytes that the entry counts, so that
/// it ends with the null character that was stored as its terminator.
/// Text that is not well-formed UTF-16 is no error: the decoder replaces
/// what it cannot read.
///
/// # Errors
///
/// Those of `read_captions`.
pub fn describe(bytes: &[u8]) -> (result: Result<Vec<DescribedCaption>, CaptionError>)
    ensures
        match result {
            Ok(captions) => described(bytes@) == Ok::<Seq<DescribedView>, CaptionError>(
                captions.deep_view(),
            ),
            Err(error) => described(bytes@) == Err::<Seq<DescribedView>, CaptionError>(error),
        },
{
    let stored: Vec<StoredCaption> = match read_captions(bytes) {
        Ok(stored) => stored,
        Err(error) => {
            return Err(error);
        },
    };
    let mut captions: Vec<DescribedCaption> = Vec::new();
    let mut k: usize = 0;
    while k < stored.len()
        invariant
            k <= stored.len(),
            stored_captions(bytes@) == Ok::<Seq<StoredView>, CaptionError>(stored.deep_view()),
            forall|j: int|
                0 <= j < stored.len() ==> (#[trigger] stored[j]).bytes.len()
                    == stored[j].entry.length,
            captions@.len() == k,
            forall|j: int| 0 <= j < k ==> (#[trigger] captions@[j])@ == shown(stored@[j]@),
        decreases stored.len() - k,
    {
        let caption: &StoredCaption = &stored[k];
        assert(caption@ == stored.deep_view()[k as int]);
        let text: String = decode_utf16le(caption.bytes.as_slice());
        captions.push(DescribedCaption { entry: caption.entry, text });
        k = k + 1;
    }
    assert(captions.deep_view() =~= Seq::new(
        stored.deep_view().len(),
        |j: int| shown(stored.deep_view()[j]),
    ));
    Ok(captions)
}

} // verus!
