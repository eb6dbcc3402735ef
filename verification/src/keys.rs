//! Caption keys: case folding, the marker of English reference captions, and
//! the checksum that stands for a key in the directory.

use vstd::prelude::*;
use vstd::utf8::encode_utf8;

verus! {

/// The text that `str::to_lowercase` makes of `text`.
pub uninterp spec fn lowercase_of(text: Seq<char>) -> Seq<char>;

/// `str::to_lowercase` returns the lowercase equivalent of a string, as
/// Unicode defines it: a function of the string alone, which the contract
/// names and does not define.
pub assume_specification[ str::to_lowercase ](text: &str) -> (lowered: String)
    ensures
        lowered@ == lowercase_of(text@),
;

/// The CRC-32 checksum that `crc32fast` computes of `bytes`.
pub uninterp spec fn crc32_of(bytes: Seq<u8>) -> u32;

/// `crc32fast::hash` computes the CRC-32 checksum of a byte slice: a
/// function of the bytes alone, which the contract names and does not define.
pub assume_specification[ crc32fast::hash ](buf: &[u8]) -> (sum: u32)
    ensures
        sum == crc32_of(buf@),
;

/// Whether a key marks its caption as an English reference: whether the key, in
/// lowercase, begins with `[english]`.
pub open spec fn is_english(key: Seq<char>) -> bool {
    "[english]"@.is_prefix_of(lowercase_of(key))
}

/// The checksum stored for a key: the CRC-32 of the UTF-8 bytes of the key
/// in lowercase, so that keys are found whatever their case.
pub open spec fn key_hash(key: Seq<char>) -> u32 {
    crc32_of(encode_utf8(lowercase_of(key)))
}

/// Whether `text` begins with `prefix`.
pub fn starts_with(text: &str, prefix: &str) -> (found: bool)
    ensures
        found == prefix@.is_prefix_of(text@),
{
    let wanted: usize = prefix.unicode_len();
    let mut matched: usize = 0;
    let mut same: bool = true;
    for c in it: text.chars()
        invariant
            it.seq() == text@,
            wanted == prefix@.len(),
            matched <= wanted,
            matched <= it.index(),
            matched < wanted ==> matched == it.index(),
            same <==> forall|j: int| 0 <= j < matched ==> text@[j] == prefix@[j],
    {
        if matched < wanted {
            if c != prefix.get_char(matched) {
                same = false;
            }
            matched = matched + 1;
        }
    }
    same && matched == wanted
}

/// Whether a key marks its caption as an English reference.
pub fn has_english_marker(key: &str) -> (marked: bool)
    ensures
        marked == is_english(key@),
{
    let lowered: String = key.to_lowercase();
    starts_with(lowered.as_str(), "[english]")
}

/// Computes the checksum stored for a key.
pub fn hash_key(key: &str) -> (hash: u32)
    ensures
        hash == key_hash(key@),
{
    let lowered: String = key.to_lowercase();
    crc32fast::hash(lowered.as_str().as_bytes())
}

} // verus!
