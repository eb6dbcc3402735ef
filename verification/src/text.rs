//! Caption text: how it is stored in a block, and how it is read back.

use vstd::prelude::*;
use crate::wire::{u16_bytes, write_u16};

verus! {

/// The UTF-16 code units of one character: the character itself, or a
/// surrogate pair for a character beyond the basic plane.
pub open spec fn char_units(c: char) -> Seq<u16> {
    if (c as int) < 0x1_0000 {
        seq![c as u16]
    } else {
        seq![
            (0xD800 + (c as int - 0x1_0000) / 0x400) as u16,
            (0xDC00 + (c as int - 0x1_0000) % 0x400) as u16,
        ]
    }
}

/// The UTF-16 code units of a text.
pub open spec fn utf16_units(text: Seq<char>) -> Seq<u16>
    decreases text.len(),
{
    if text.len() == 0 {
        Seq::empty()
    } else {
        utf16_units(text.drop_last()) + char_units(text.last())
    }
}

/// The bytes of a sequence of code units, each stored low byte first.
pub open spec fn units_bytes(units: Seq<u16>) -> Seq<u8>
    decreases units.len(),
{
    if units.len() == 0 {
        Seq::empty()
    } else {
        units_bytes(units.drop_last()) + u16_bytes(units.last())
    }
}

/// The bytes that store a caption's text: its UTF-16 code units, low byte
/// first, and one null code unit that ends it.
pub open spec fn caption_bytes(text: Seq<char>) -> Seq<u8> {
    units_bytes(utf16_units(text) + seq![0u16])
}

/// One code unit is stored as its two bytes.
pub proof fn lemma_units_bytes_one(unit: u16)
    ensures
        units_bytes(seq![unit]) == u16_bytes(unit),
{
    assert(seq![unit].drop_last() =~= Seq::<u16>::empty());
    assert(units_bytes(Seq::<u16>::empty()) =~= Seq::<u8>::empty());
    assert(units_bytes(seq![unit]) =~= u16_bytes(unit));
}

/// Appends the bytes of one character's code units to `out`.
fn write_char(out: &mut Vec<u8>, c: char)
    ensures
        final(out)@ == old(out)@ + units_bytes(char_units(c)),
{
    let point: u32 = c as u32;
    if point < 0x1_0000 {
        let unit: u16 = point as u16;
        write_u16(out, unit);
        proof {
            lemma_units_bytes_one(unit);
        }
    } else {
        let rest: u32 = point - 0x1_0000;
        let high: u16 = (0xD800 + rest / 0x400) as u16;
        let low: u16 = (0xDC00 + rest % 0x400) as u16;
        write_u16(out, high);
        write_u16(out, low);
        proof {
            lemma_units_bytes_one(high);
            assert(seq![high, low].drop_last() =~= seq![high]);
            assert(out@ =~= old(out)@ + units_bytes(char_units(c)));
        }
    }
}

/// The bytes of two runs of code units, one after the other, are the bytes
/// of the first followed by the bytes of the second.
pub proof fn lemma_units_bytes_concat(first: Seq<u16>, second: Seq<u16>)
    ensures
        units_bytes(first + second) == units_bytes(first) + units_bytes(second),
    decreases second.len(),
{
    if second.len() == 0 {
        assert(first + second =~= first);
        assert(units_bytes(first) + units_bytes(second) =~= units_bytes(first));
    } else {
        lemma_units_bytes_concat(first, second.drop_last());
        assert((first + second).drop_last() =~= first + second.drop_last());
        assert(units_bytes(first + second) =~= units_bytes(first) + units_bytes(second));
    }
}

/// Code units take two bytes each.
pub proof fn lemma_units_bytes_len(units: Seq<u16>)
    ensures
        units_bytes(units).len() == 2 * units.len(),
    decreases units.len(),
{
    if units.len() > 0 {
        lemma_units_bytes_len(units.drop_last());
    }
}

/// Encodes a caption's text as it is stored in a block: UTF-16, low byte
/// first, closed by a null code unit.
pub fn encode_caption(text: &str) -> (bytes: Vec<u8>)
    ensures
        bytes@ == caption_bytes(text@),
{
    let mut bytes: Vec<u8> = Vec::new();
    assert(text@.take(0) =~= Seq::<char>::empty());
    for c in it: text.chars()
        invariant
            it.seq() == text@,
            bytes@ == units_bytes(utf16_units(text@.take(it.index() as int))),
    {
        proof {
            let done = text@.take(it.index() as int);
            assert(text@.take(it.index() + 1).drop_last() =~= done);
            lemma_units_bytes_concat(utf16_units(done), char_units(c));
        }
        write_char(&mut bytes, c);
    }
    proof {
        assert(text@.take(text@.len() as int) =~= text@);
        lemma_units_bytes_concat(utf16_units(text@), seq![0u16]);
        lemma_units_bytes_one(0u16);
    }
    write_u16(&mut bytes, 0);
    bytes
}

/// The number of bytes that one character's code units take.
fn char_size(c: char) -> (size: usize)
    ensures
        size == 2 * char_units(c).len(),
        size == 2 || size == 4,
{
    if (c as u32) < 0x1_0000 {
        2
    } else {
        4
    }
}

/// A stored text takes two bytes for each code unit and two for its
/// terminator.
pub proof fn lemma_caption_bytes_len(text: Seq<char>)
    ensures
        caption_bytes(text).len() == 2 * utf16_units(text).len() + 2,
{
    lemma_units_bytes_len(utf16_units(text) + seq![0u16]);
}

/// Whether a caption's text, as it is stored, takes no more than `limit`
/// bytes. The text is measured, not encoded.
pub fn caption_fits(text: &str, limit: u16) -> (fits: bool)
    ensures
        fits == (caption_bytes(text@).len() <= limit),
{
    let mut size: usize = 2;
    let mut fits: bool = limit >= 2;
    assert(text@.take(0) =~= Seq::<char>::empty());
    for c in it: text.chars()
        invariant
            it.seq() == text@,
            fits ==> size == 2 * utf16_units(text@.take(it.index() as int)).len() + 2,
            fits ==> size <= limit,
            !fits ==> 2 * utf16_units(text@.take(it.index() as int)).len() + 2 > limit,
    {
        proof {
            assert(text@.take(it.index() + 1).drop_last() =~= text@.take(it.index() as int));
        }
        let more: usize = char_size(c);
        if fits {
            if size + more > limit as usize {
                fits = false;
            } else {
                size = size + more;
            }
        }
    }
    proof {
        assert(text@.take(text@.len() as int) =~= text@);
        lemma_caption_bytes_len(text@);
    }
    fits
}

/// The text that the UTF-16LE decoder of `encoding_rs` makes of `bytes`,
/// all of them: a byte order mark at their start is text like the rest.
pub uninterp spec fn utf16le_text(bytes: Seq<u8>) -> Seq<char>;

/// Decodes stored caption text with
/// `encoding_rs::UTF_16LE.decode_without_bom_handling`.
///
/// The decoder reads every byte as UTF-16LE and replaces malformed
/// sequences by U+FFFD, so it accepts every input; what it returns is a
/// function of the bytes alone, which the contract names and does not
/// define. Inputs longer than a directory entry can describe are left out:
/// the decoder sizes its buffer from the input's length and panics where
/// that overflows.
#[verifier::external_body]
pub(crate) fn decode_utf16le(bytes: &[u8]) -> (text: String)
    requires
        bytes@.len() <= u16::MAX,
    ensures
        text@ == utf16le_text(bytes@),
{
    let (text, _) = encoding_rs::UTF_16LE.decode_without_bom_handling(bytes);
    text.into_owned()
}

} // verus!
