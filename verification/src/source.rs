//! The source of a compilation: UTF-16 text that holds a key/value
//! document, and in it a section of tokens, one for each caption.

use vstd::prelude::*;
use crate::error::CaptionError;
use crate::keys::{has_english_marker, is_english};
use crate::packer::{all_fit, stored_len, Caption, CaptionView};
use crate::text::caption_fits;

verus! {

/// A value of a key/value document: a string, or a section of pairs.
#[derive(Debug, PartialEq, Eq)]
pub enum SourceValue {
    Text(String),
    Section(Vec<SourcePair>),
}

/// A key of a section, with the values that the section gives it, in the
/// order in which the document gives them.
///
/// A section that was parsed holds each key once, with at least one
/// value, and holds its keys in their order. Nothing here relies on that:
/// a key is looked up from the front, and a pair without a value has no
/// string for its first value.
#[derive(Debug, PartialEq, Eq)]
pub struct SourcePair {
    pub key: String,
    pub values: Vec<SourceValue>,
}

/// `keyvalues_parser::Value`, a parsed value, which this library only
/// copies.
#[verifier::external_type_specification]
#[verifier::external_body]
pub struct ExParsedValue<'a>(keyvalues_parser::Value<'a>);

/// `keyvalues_parser::error::Error`, the parser's refusal, which this
/// library only tells from success.
#[verifier::external_type_specification]
#[verifier::external_body]
pub struct ExParseError(keyvalues_parser::error::Error);

/// The text that `encoding_rs_io` reads from `bytes` when it is told that
/// they are UTF-16LE, if it reads any.
pub uninterp spec fn decoded_source(bytes: Seq<u8>) -> Option<Seq<char>>;

/// Reads `bytes` to the end through a `DecodeReaderBytes` of
/// `encoding_rs_io` that is built for UTF-16LE.
///
/// The reader drops a leading byte order mark and replaces malformed
/// sequences; what it yields is a function of the bytes alone, which the
/// contract names and does not define. A failed read leaves no text.
#[verifier::external_body]
fn decode_source(bytes: &[u8]) -> (text: Option<String>)
    ensures
        decoded_source(bytes@) == match text {
            Some(text) => Some(text@),
            None => None,
        },
{
    let mut reader = encoding_rs_io::DecodeReaderBytesBuilder::new()
        .encoding(Some(encoding_rs::UTF_16LE))
        .build(bytes);
    let mut text = String::new();
    match std::io::Read::read_to_string(&mut reader, &mut text) {
        Ok(_) => Some(text),
        Err(_) => None,
    }
}

/// Decodes source bytes, which hold UTF-16LE text.
///
/// # Errors
///
/// `InvalidSource` if the bytes cannot be read as text.
pub fn decode_text(source: &[u8]) -> (text: Result<String, CaptionError>)
    ensures
        match text {
            Ok(text) => decoded_source(source@) == Some(text@),
            Err(error) => error == CaptionError::InvalidSource && decoded_source(source@) is None,
        },
{
    match decode_source(source) {
        Some(text) => Ok(text),
        None => Err(CaptionError::InvalidSource),
    }
}

/// What a value that `keyvalues_parser` parsed holds.
pub uninterp spec fn value_contents(value: keyvalues_parser::Value<'_>) -> SourceValue;

/// Copies a value that `keyvalues_parser` parsed: a `Value::Str` becomes
/// a text, a `Value::Obj` a section whose pairs come in the order of
/// their keys, as the parser's map holds them. The contract names what is
/// copied and does not define it.
#[verifier::external_body]
fn copy_value(value: &keyvalues_parser::Value<'_>) -> (copy: SourceValue)
    ensures
        copy == value_contents(*value),
{
    match value {
        keyvalues_parser::Value::Str(text) => SourceValue::Text(text.to_string()),
        keyvalues_parser::Value::Obj(section) => SourceValue::Section(
            section.iter().map(|(key, values)| SourcePair {
                key: key.to_string(),
                values: values.iter().map(copy_value).collect(),
            }).collect(),
        ),
    }
}

/// Parses `text` with `keyvalues_parser::parse` and hands out the value of
/// the document's one top-level pair.
///
/// Nothing is claimed of the outcome. The parser refuses a text that its
/// grammar does not accept, and it also gives up where its budget of calls
/// is spent or the native stack runs short: both depend on the process,
/// not on the text, so that a text that parses in one call may be refused
/// in another.
#[verifier::external_body]
fn parse_value(text: &str) -> (parsed: Result<
    keyvalues_parser::Value<'_>,
    keyvalues_parser::error::Error,
>) {
    keyvalues_parser::parse(text).map(|document| document.value)
}

/// Parses a key/value document from `text`.
///
/// Whether a text is parsed is for the parser to say, and it may say
/// otherwise of the same text in another process. What holds of every
/// document, parsed or not, is stated where the document is used.
///
/// # Errors
///
/// `InvalidSource` if the parser refuses the text.
pub fn parse_document(text: &str) -> (document: Result<SourceValue, CaptionError>)
    ensures
        document matches Err(error) ==> error == CaptionError::InvalidSource,
{
    match parse_value(text) {
        Ok(value) => Ok(copy_value(&value)),
        Err(_) => Err(CaptionError::InvalidSource),
    }
}

/// The values of the first pair of `pairs` whose key is `key`.
pub open spec fn lookup(pairs: Seq<SourcePair>, key: Seq<char>) -> Option<Seq<SourceValue>>
    decreases pairs.len(),
{
    if pairs.len() == 0 {
        None
    } else if pairs[0].key@ == key {
        Some(pairs[0].values@)
    } else {
        lookup(pairs.drop_first(), key)
    }
}

/// The tokens of a document: the pairs of the section that is the first
/// value of the key `Tokens` in the document's top-level section.
pub open spec fn tokens_of(document: SourceValue) -> Option<Seq<SourcePair>> {
    match document {
        SourceValue::Text(_) => None,
        SourceValue::Section(members) => match lookup(members@, "Tokens"@) {
            None => None,
            Some(values) => if values.len() > 0 {
                match values[0] {
                    SourceValue::Text(_) => None,
                    SourceValue::Section(tokens) => Some(tokens@),
                }
            } else {
                None
            },
        },
    }
}

/// Finds the tokens of a document.
///
/// # Errors
///
/// `MissingTokensSection` if the document is no section, if the section
/// has no key `Tokens`, or if the first value of that key is no section.
pub fn find_tokens(document: &SourceValue) -> (tokens: Result<&Vec<SourcePair>, CaptionError>)
    ensures
        match tokens {
            Ok(tokens) => tokens_of(*document) == Some(tokens@),
            Err(error) => error == CaptionError::MissingTokensSection && tokens_of(*document)
                is None,
        },
{
    let members: &Vec<SourcePair> = match document {
        SourceValue::Section(members) => members,
        SourceValue::Text(_) => {
            return Err(CaptionError::MissingTokensSection);
        },
    };
    let wanted: String = "Tokens".to_owned();
    let mut i: usize = 0;
    assert(members@.skip(0) =~= members@);
    while i < members.len()
        invariant
            i <= members.len(),
            *document == SourceValue::Section(*members),
            wanted@ == "Tokens"@,
            lookup(members@, wanted@) == lookup(members@.skip(i as int), wanted@),
        decreases members.len() - i,
    {
        let member: &SourcePair = &members[i];
        assert(members@.skip(i as int)[0] == members@[i as int]);
        assert(members@.skip(i as int).drop_first() =~= members@.skip(i + 1));
        if member.key == wanted {
            if member.values.len() > 0 {
                match &member.values[0] {
                    SourceValue::Section(tokens) => {
                        return Ok(tokens);
                    },
                    SourceValue::Text(_) => {
                        return Err(CaptionError::MissingTokensSection);
                    },
                }
            }
            return Err(CaptionError::MissingTokensSection);
        }
        i = i + 1;
    }
    Err(CaptionError::MissingTokensSection)
}

/// Whether a token is compiled: whether its key does not mark it as an
/// English reference.
pub open spec fn is_localized() -> spec_fn(SourcePair) -> bool {
    |token: SourcePair| !is_english(token.key@)
}

/// The caption that a token gives: its key, and the string that is its
/// first value.
pub open spec fn caption_of(token: SourcePair) -> Option<CaptionView> {
    if token.values@.len() > 0 {
        match token.values@[0] {
            SourceValue::Text(text) => Some(CaptionView { key: token.key@, text: text@ }),
            SourceValue::Section(_) => None,
        }
    } else {
        None
    }
}

/// Why a token cannot be compiled into blocks of `block_size` bytes, if
/// it cannot: its first value is no string, or the string is too long to
/// be stored in one block.
pub open spec fn token_error(token: SourcePair, block_size: int) -> Option<CaptionError> {
    match caption_of(token) {
        None => Some(CaptionError::MalformedSourceValue),
        Some(caption) => if stored_len(caption) > block_size {
            Some(CaptionError::CaptionTooLarge)
        } else {
            None
        },
    }
}

/// Whether `k` is the first of `tokens` that cannot be compiled.
pub open spec fn is_first_error(tokens: Seq<SourcePair>, block_size: int, k: int) -> bool {
    &&& 0 <= k < tokens.len()
    &&& token_error(tokens[k], block_size) is Some
    &&& forall|j: int| 0 <= j < k ==> (#[trigger] token_error(tokens[j], block_size)) is None
}

/// The captions to compile from `tokens`: those of the tokens that are
/// not marked as English references, in the tokens' order. If one of these
/// cannot be compiled, the first that cannot decides the error.
pub open spec fn selected(tokens: Seq<SourcePair>, block_size: int) -> Result<
    Seq<CaptionView>,
    CaptionError,
> {
    let kept = tokens.filter(is_localized());
    if exists|k: int| is_first_error(kept, block_size, k) {
        let first = choose|k: int| is_first_error(kept, block_size, k);
        Err(token_error(kept[first], block_size)->0)
    } else {
        Ok(Seq::new(kept.len(), |k: int| caption_of(kept[k])->0))
    }
}

/// Tokens of which none is the first that cannot be compiled can all be
/// compiled.
pub proof fn lemma_no_first_error(tokens: Seq<SourcePair>, block_size: int, upto: int)
    requires
        forall|k: int| !is_first_error(tokens, block_size, k),
        0 <= upto <= tokens.len(),
    ensures
        forall|k: int| 0 <= k < upto ==> (#[trigger] token_error(tokens[k], block_size)) is None,
    decreases upto,
{
    if upto > 0 {
        lemma_no_first_error(tokens, block_size, upto - 1);
        assert(!is_first_error(tokens, block_size, upto - 1));
    }
}

/// Selects the captions to compile into blocks of `block_size` bytes:
/// drops the tokens whose key, in lowercase, begins with `[english]`, and
/// takes from each of the others its key and its text.
///
/// # Errors
///
/// The tokens that are not dropped are looked at in their order, and the
/// first that cannot be compiled decides: `MalformedSourceValue` if its
/// first value is no string, `CaptionTooLarge` if that string, as it is
/// stored, takes more than `block_size` bytes.
pub fn select_captions(tokens: &Vec<SourcePair>, block_size: u16) -> (captions: Result<
    Vec<Caption>,
    CaptionError,
>)
    ensures
        match captions {
            Ok(captions) => {
                &&& selected(tokens@, block_size as int) == Ok::<Seq<CaptionView>, CaptionError>(
                    captions.deep_view(),
                )
                &&& captions.len() == tokens@.filter(is_localized()).len()
                &&& all_fit(captions.deep_view(), block_size as int)
                &&& forall|k: int|
                    0 <= k < captions.len() ==> !is_english((#[trigger] captions[k]).key@)
            },
            Err(error) => selected(tokens@, block_size as int) == Err::<
                Seq<CaptionView>,
                CaptionError,
            >(error),
        },
{
    let ghost size = block_size as int;
    let ghost all = tokens@.filter(is_localized());
    let mut captions: Vec<Caption> = Vec::new();
    let mut i: usize = 0;
    proof {
        assert(tokens@.take(0) =~= Seq::<SourcePair>::empty());
        reveal(Seq::filter);
    }
    while i < tokens.len()
        invariant
            i <= tokens.len(),
            size == block_size as int,
            all == tokens@.filter(is_localized()),
            captions@.len() == tokens@.take(i as int).filter(is_localized()).len(),
            forall|k: int|
                0 <= k < captions@.len() ==> caption_of(
                    #[trigger] tokens@.take(i as int).filter(is_localized())[k],
                ) == Some(captions@[k]@),
            forall|k: int|
                0 <= k < captions@.len() ==> stored_len(#[trigger] captions@[k]@) <= size,
            forall|k: int| 0 <= k < captions.len() ==> !is_english((#[trigger] captions[k]).key@),
        decreases tokens.len() - i,
    {
        let token: &SourcePair = &tokens[i];
        let ghost before = tokens@.take(i as int).filter(is_localized());
        let ghost upto = tokens@.take(i + 1).filter(is_localized());
        proof {
            assert(tokens@.take(i + 1) =~= tokens@.take(i as int).push(*token));
            tokens@.take(i as int).lemma_filter_push(*token, is_localized());
            assert(tokens@ =~= tokens@.take(i + 1) + tokens@.skip(i + 1));
            Seq::filter_distributes_over_add(
                tokens@.take(i + 1),
                tokens@.skip(i + 1),
                is_localized(),
            );
        }
        if !has_english_marker(token.key.as_str()) {
            let text: Option<&String> = if token.values.len() > 0 {
                match &token.values[0] {
                    SourceValue::Text(text) => Some(text),
                    SourceValue::Section(_) => None,
                }
            } else {
                None
            };
            let error: Option<CaptionError> = match text {
                None => Some(CaptionError::MalformedSourceValue),
                Some(text) => if caption_fits(text.as_str(), block_size) {
                    captions.push(Caption { key: token.key.clone(), text: text.clone() });
                    None
                } else {
                    Some(CaptionError::CaptionTooLarge)
                },
            };
            if let Some(error) = error {
                proof {
                    let at = before.len() as int;
                    assert(all[at] == *token);
                    assert(token_error(all[at], size) == Some(error));
                    assert forall|j: int| 0 <= j < at implies (#[trigger] token_error(
                        all[j],
                        size,
                    )) is None by {
                        assert(all[j] == before[j]);
                        assert(caption_of(before[j]) == Some(captions@[j]@));
                    }
                    assert(is_first_error(all, size, at));
                    let first = choose|k: int| is_first_error(all, size, k);
                    assert(first == at) by {
                        if first < at {
                            assert(token_error(all[first], size) is None);
                        }
                        if first > at {
                            assert(token_error(all[at], size) is None);
                        }
                    }
                }
                return Err(error);
            }
        }
        i = i + 1;
    }
    proof {
        assert(tokens@.take(i as int) =~= tokens@);
        assert forall|k: int| !is_first_error(all, size, k) by {
            if 0 <= k < all.len() {
                assert(caption_of(all[k]) == Some(captions@[k]@));
                assert(stored_len(captions@[k]@) <= size);
            }
        }
        assert(captions.deep_view() =~= Seq::new(all.len(), |k: int| caption_of(all[k])->0));
        assert forall|k: int| 0 <= k < captions.deep_view().len() implies stored_len(
            #[trigger] captions.deep_view()[k],
        ) <= size by {
            assert(captions.deep_view()[k] == captions@[k]@);
        }
    }
    Ok(captions)
}

} // verus!
