//! Compiling and reading back: what is read from a container that this
//! library compiled.

use vstd::prelude::*;
use crate::compile::compiled_document;
use crate::keys::is_english;
use crate::source::{
    caption_of, is_localized, lemma_no_first_error, selected, token_error, tokens_of, SourceValue,
};
use crate::container::{
    compiled_captions, data_offset, directory_bytes, header_for, lemma_compiled_header,
    lemma_data_offset, lemma_directory_bytes_entry, lemma_directory_bytes_len,
};
use crate::entry::{lemma_entry_round_trip, ENTRY_SIZE};
use crate::error::CaptionError;
use crate::header::{lemma_header_round_trip, Header};
use crate::keys::key_hash;
use crate::packer::{
    block_count, directory, entry_of, lemma_entry_fields, lemma_payload_holds, lemma_payload_len,
    packing_error, payload, start_of, stored_len, CaptionView,
};
use crate::reader::{
    described, entry_count, entry_position, readable, shown, stored_at, stored_captions,
    text_position, DescribedView, StoredView,
};
use crate::text::caption_bytes;

verus! {

/// Caption `k` of a compiled container is read back from where its entry
/// says: its entry as the directory holds it, and the bytes of its text.
pub proof fn lemma_compiled_caption(captions: Seq<CaptionView>, block_size: int, k: int)
    requires
        0 <= block_size <= u16::MAX,
        packing_error(captions, block_size) is None,
        0 <= k < captions.len(),
    ensures
        ({
            let bytes = compiled_captions(captions, block_size);
            let header = header_for(
                captions.len() as int,
                block_count(captions, block_size),
                block_size,
            );
            &&& readable(bytes, header, k)
            &&& stored_at(bytes, header, k) == (StoredView {
                entry: entry_of(captions, k, block_size),
                bytes: caption_bytes(captions[k].text),
            })
        }),
{
    reveal(compiled_captions);
    let count = captions.len() as int;
    let bytes = compiled_captions(captions, block_size);
    let entries = directory(captions, block_size);
    let header = header_for(count, block_count(captions, block_size), block_size);
    let body = payload(captions, block_size);
    let entry = entry_of(captions, k, block_size);
    let at = entry_position(k);
    lemma_payload_len(captions, block_size);
    lemma_data_offset(count);
    lemma_header_round_trip(header, Seq::empty());
    lemma_directory_bytes_len(entries);
    lemma_directory_bytes_entry(entries, k);
    lemma_entry_fields(captions, block_size, k);
    lemma_payload_holds(captions, block_size, k);
    assert(bytes.len() == data_offset(count) + body.len());
    assert(bytes.subrange(at, at + ENTRY_SIZE) =~= directory_bytes(entries).subrange(
        ENTRY_SIZE * k,
        ENTRY_SIZE * k + ENTRY_SIZE,
    ));
    lemma_entry_round_trip(bytes, at, entry);
    let start = start_of(captions, k, block_size);
    let inside = start.block * block_size + start.offset;
    assert(text_position(header, entry) == data_offset(count) + inside) by {
        assert(entry.block * header.block_size == start.block * block_size);
    }
    assert(bytes.subrange(
        data_offset(count) + inside,
        data_offset(count) + inside + stored_len(captions[k]),
    ) =~= body.subrange(inside, inside + stored_len(captions[k])));
}

/// Whether entry `k` and its text can be read from `bytes`, and are `stored`.
pub open spec fn read_as(bytes: Seq<u8>, header: Header, k: int, stored: StoredView) -> bool {
    readable(bytes, header, k) && stored_at(bytes, header, k) == stored
}

/// A container whose header is accepted, and in which every announced
/// entry and its text can be read, stores the captions that are read.
pub proof fn lemma_stored_captions(bytes: Seq<u8>, header: Header, stored: Seq<StoredView>)
    requires
        Header::decoded(bytes) == Ok::<Header, CaptionError>(header),
        stored.len() == entry_count(header),
        forall|k: int| 0 <= k < stored.len() ==> #[trigger] read_as(bytes, header, k, stored[k]),
    ensures
        stored_captions(bytes) == Ok::<Seq<StoredView>, CaptionError>(stored),
        described(bytes) == Ok::<Seq<DescribedView>, CaptionError>(
            Seq::new(stored.len(), |k: int| shown(stored[k])),
        ),
{
    assert forall|k: int| 0 <= k < entry_count(header) implies readable(bytes, header, k) by {
        assert(read_as(bytes, header, k, stored[k]));
    }
    assert forall|k: int| 0 <= k < stored.len() implies stored_at(bytes, header, k)
        == stored[k] by {
        assert(read_as(bytes, header, k, stored[k]));
    }
    assert(Seq::new(entry_count(header), |k: int| stored_at(bytes, header, k)) =~= stored);
}

/// What a compiled container should be read back as: for each caption, in
/// the captions' order, its directory entry and the bytes of its text.
pub open spec fn stored_of(captions: Seq<CaptionView>, block_size: int) -> Seq<StoredView> {
    Seq::new(
        captions.len(),
        |k: int|
            StoredView {
                entry: entry_of(captions, k, block_size),
                bytes: caption_bytes(captions[k].text),
            },
    )
}

/// Compiling and reading back: a container compiled from captions that
/// can be packed is read without error, and holds for each caption, in the
/// captions' order, the checksum of its key, the place of its text, and
/// the very bytes that its text was encoded to.
pub proof fn lemma_round_trip(captions: Seq<CaptionView>, block_size: int)
    requires
        0 <= block_size <= u16::MAX,
        packing_error(captions, block_size) is None,
    ensures
        stored_captions(compiled_captions(captions, block_size)) == Ok::<
            Seq<StoredView>,
            CaptionError,
        >(stored_of(captions, block_size)),
        described(compiled_captions(captions, block_size)) == Ok::<
            Seq<DescribedView>,
            CaptionError,
        >(
            Seq::new(
                captions.len(),
                |k: int| shown(stored_of(captions, block_size)[k]),
            ),
        ),
        forall|k: int|
            0 <= k < captions.len() ==> (#[trigger] stored_of(captions, block_size)[k]).entry.crc32
                == key_hash(captions[k].key),
{
    let bytes = compiled_captions(captions, block_size);
    let header = header_for(captions.len() as int, block_count(captions, block_size), block_size);
    let expected = stored_of(captions, block_size);
    lemma_compiled_header(captions, block_size);
    assert forall|k: int| 0 <= k < expected.len() implies #[trigger] read_as(
        bytes,
        header,
        k,
        expected[k],
    ) by {
        lemma_compiled_caption(captions, block_size, k);
    }
    lemma_stored_captions(bytes, header, expected);
}

/// Compiling a document and reading back: the container holds one
/// caption for each token that is not marked as an English reference, in the
/// tokens' order, and none for a token that is; each is read back with the
/// checksum of its token's key and the bytes of its token's text.
pub proof fn lemma_document_round_trip(document: SourceValue, block_size: int)
    requires
        0 <= block_size <= u16::MAX,
        compiled_document(document, block_size) is Ok,
    ensures
        ({
            let kept = tokens_of(document)->0.filter(is_localized());
            let captions = selected(tokens_of(document)->0, block_size)->Ok_0;
            let bytes = compiled_document(document, block_size)->Ok_0;
            &&& captions.len() == kept.len()
            &&& forall|k: int|
                0 <= k < kept.len() ==> !is_english((#[trigger] kept[k]).key@) && caption_of(
                    kept[k],
                ) == Some(captions[k])
            &&& Header::decoded(bytes) is Ok
            &&& Header::decoded(bytes)->Ok_0.dir_size == kept.len()
            &&& stored_captions(bytes) == Ok::<Seq<StoredView>, CaptionError>(
                stored_of(captions, block_size),
            )
        }),
{
    let tokens = tokens_of(document)->0;
    let kept = tokens.filter(is_localized());
    let captions = selected(tokens, block_size)->Ok_0;
    lemma_no_first_error(kept, block_size, kept.len() as int);
    assert forall|k: int| 0 <= k < kept.len() implies !is_english((#[trigger] kept[k]).key@)
        && caption_of(kept[k]) == Some(captions[k]) by {
        tokens.lemma_filter_pred(is_localized(), k);
        assert(token_error(kept[k], block_size) is None);
    }
    lemma_compiled_header(captions, block_size);
    lemma_round_trip(captions, block_size);
}

} // verus!
