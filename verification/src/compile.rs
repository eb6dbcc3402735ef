//! Compiling a source to a container.

use vstd::prelude::*;
use crate::container::{compile_captions, compiled_captions};
use crate::error::CaptionError;
use crate::header::{Header, DEFAULT_BLOCK_SIZE};
use crate::packer::{packing_error, Caption};
use crate::source::{
    decode_text, decoded_source, find_tokens, is_localized, parse_document, select_captions,
    selected, tokens_of, SourcePair, SourceValue,
};

verus! {

/// The container that a document compiles to, or the reason why it does
/// not compile: its tokens are found, the captions are selected from them,
/// and the captions are packed and laid out.
///
/// Captions that were selected all fit in a block, so that the last step
/// fails only where there are too many of them.
pub open spec fn compiled_document(document: SourceValue, block_size: int) -> Result<
    Seq<u8>,
    CaptionError,
> {
    match tokens_of(document) {
        None => Err(CaptionError::MissingTokensSection),
        Some(tokens) => match selected(tokens, block_size) {
            Err(error) => Err(error),
            Ok(captions) => match packing_error(captions, block_size) {
                Some(error) => Err(error),
                None => Ok(compiled_captions(captions, block_size)),
            },
        },
    }
}

/// Compiles a document to a container with blocks of `block_size` bytes.
///
/// On success the container's header announces one entry for each token
/// that is not marked as an English reference.
///
/// # Errors
///
/// `MissingTokensSection` if the document has no section of tokens;
/// otherwise `MalformedSourceValue` or `CaptionTooLarge` as the first
/// token decides that cannot be compiled; otherwise `TooManyCaptions` if
/// there are more than `MAX_CAPTIONS` captions.
pub fn compile_document(document: &SourceValue, block_size: u16) -> (result: Result<
    Vec<u8>,
    CaptionError,
>)
    ensures
        match result {
            Ok(bytes) => {
                &&& compiled_document(*document, block_size as int) == Ok::<
                    Seq<u8>,
                    CaptionError,
                >(bytes@)
                &&& tokens_of(*document) is Some
                &&& Header::decoded(bytes@) is Ok
                &&& Header::decoded(bytes@)->Ok_0.dir_size == tokens_of(*document)->0.filter(
                    is_localized(),
                ).len()
            },
            Err(error) => compiled_document(*document, block_size as int) == Err::<
                Seq<u8>,
                CaptionError,
            >(error),
        },
{
    let tokens: &Vec<SourcePair> = match find_tokens(document) {
        Ok(tokens) => tokens,
        Err(error) => {
            return Err(error);
        },
    };
    let captions: Vec<Caption> = match select_captions(tokens, block_size) {
        Ok(captions) => captions,
        Err(error) => {
            return Err(error);
        },
    };
    compile_captions(&captions, block_size)
}

/// Whether there is a document that compiles, with blocks of the default
/// size, to `result`.
pub open spec fn some_document_gives(result: Result<Seq<u8>, CaptionError>) -> bool {
    exists|document: SourceValue|
        #[trigger] compiled_document(document, DEFAULT_BLOCK_SIZE as int) == result
}

/// Compiles a text to a container with blocks of the default size.
///
/// The text is handed to the parser as it is. Whether the parser accepts
/// it is not stated: it may refuse the same text in another process. What
/// comes back is `InvalidSource`, or what `compile_document` makes of the
/// document that was parsed.
///
/// # Errors
///
/// `InvalidSource` if the parser refuses the text; otherwise those of
/// `compile_document`.
pub fn compile_text(text: &str) -> (result: Result<Vec<u8>, CaptionError>)
    ensures
        match result {
            Ok(bytes) => some_document_gives(Ok(bytes@)),
            Err(error) => error == CaptionError::InvalidSource || some_document_gives(Err(error)),
        },
{
    match parse_document(text) {
        Ok(document) => compile_document(&document, DEFAULT_BLOCK_SIZE),
        Err(error) => Err(error),
    }
}

/// Compiles source bytes, which hold UTF-16LE text, to a container with
/// blocks of the default size.
///
/// The parser is handed the text that the bytes decode to; the rest is as
/// for `compile_text`.
///
/// # Errors
///
/// `InvalidSource` if the bytes cannot be read as text, or if the parser
/// refuses the text; otherwise those of `compile_document`.
pub fn compile(source: &[u8]) -> (result: Result<Vec<u8>, CaptionError>)
    ensures
        decoded_source(source@) is None ==> result == Err::<Vec<u8>, CaptionError>(
            CaptionError::InvalidSource,
        ),
        match result {
            Ok(bytes) => decoded_source(source@) is Some && some_document_gives(Ok(bytes@)),
            Err(error) => error == CaptionError::InvalidSource || (decoded_source(source@) is Some
                && some_document_gives(Err(error))),
        },
{
    match decode_text(source) {
        Ok(text) => compile_text(text.as_str()),
        Err(error) => Err(error),
    }
}

} // verus!
