//! Little-endian integers, as the container stores them.
//!
//! The layout is defined arithmetically, byte by byte, so that it does not
//! depend on the byte order of the machine that reads or writes it.

use vstd::prelude::*;

verus! {

/// The unsigned 16-bit integer stored at `at`, low byte first.
pub open spec fn u16_at(bytes: Seq<u8>, at: int) -> int {
    bytes[at] + 0x100 * bytes[at + 1]
}

/// The unsigned 32-bit integer stored at `at`, low byte first.
pub open spec fn u32_at(bytes: Seq<u8>, at: int) -> int {
    bytes[at] + 0x100 * bytes[at + 1] + 0x1_0000 * bytes[at + 2] + 0x100_0000 * bytes[at + 3]
}

/// The signed 32-bit integer stored at `at` in two's complement, low byte first.
pub open spec fn i32_at(bytes: Seq<u8>, at: int) -> int {
    if u32_at(bytes, at) < 0x8000_0000 {
        u32_at(bytes, at)
    } else {
        u32_at(bytes, at) - 0x1_0000_0000
    }
}

/// The two bytes that store `value`.
pub open spec fn u16_bytes(value: u16) -> Seq<u8> {
    seq![(value % 0x100) as u8, (value / 0x100) as u8]
}

/// The four bytes that store `value`.
pub open spec fn u32_bytes(value: u32) -> Seq<u8> {
    seq![
        (value % 0x100) as u8,
        (value / 0x100 % 0x100) as u8,
        (value / 0x1_0000 % 0x100) as u8,
        (value / 0x100_0000) as u8,
    ]
}

/// The unsigned integer with the same 32 bits as `value`.
pub open spec fn twos_complement(value: i32) -> u32 {
    if value >= 0 {
        value as u32
    } else {
        (value + 0x1_0000_0000) as u32
    }
}

/// The four bytes that store `value` in two's complement.
pub open spec fn i32_bytes(value: i32) -> Seq<u8> {
    u32_bytes(twos_complement(value))
}

/// Reading back what `u16_bytes` wrote gives the value again, wherever
/// the two bytes stand.
pub proof fn lemma_u16_round_trip(bytes: Seq<u8>, at: int, value: u16)
    requires
        0 <= at,
        at + 2 <= bytes.len(),
        bytes.subrange(at, at + 2) == u16_bytes(value),
    ensures
        u16_at(bytes, at) == value,
{
    let stored = bytes.subrange(at, at + 2);
    assert(stored[0] == bytes[at] && stored[1] == bytes[at + 1]);
}

/// Reading back what `u32_bytes` wrote gives the value again.
pub proof fn lemma_u32_round_trip(bytes: Seq<u8>, at: int, value: u32)
    requires
        0 <= at,
        at + 4 <= bytes.len(),
        bytes.subrange(at, at + 4) == u32_bytes(value),
    ensures
        u32_at(bytes, at) == value,
{
    let stored = bytes.subrange(at, at + 4);
    assert(stored[0] == bytes[at] && stored[1] == bytes[at + 1]);
    assert(stored[2] == bytes[at + 2] && stored[3] == bytes[at + 3]);
}

/// Reading back what `i32_bytes` wrote gives the value again.
pub proof fn lemma_i32_round_trip(bytes: Seq<u8>, at: int, value: i32)
    requires
        0 <= at,
        at + 4 <= bytes.len(),
        bytes.subrange(at, at + 4) == i32_bytes(value),
    ensures
        i32_at(bytes, at) == value,
{
    lemma_u32_round_trip(bytes, at, twos_complement(value));
}

/// Reads an unsigned 16-bit integer.
pub fn read_u16(bytes: &[u8], at: usize) -> (value: u16)
    requires
        at + 2 <= bytes.len(),
    ensures
        value == u16_at(bytes@, at as int),
{
    let low: u16 = bytes[at] as u16;
    let high: u16 = bytes[at + 1] as u16;
    low + 0x100 * high
}

/// Reads an unsigned 32-bit integer.
pub fn read_u32(bytes: &[u8], at: usize) -> (value: u32)
    requires
        at + 4 <= bytes.len(),
    ensures
        value == u32_at(bytes@, at as int),
{
    let b0: u32 = bytes[at] as u32;
    let b1: u32 = bytes[at + 1] as u32;
    let b2: u32 = bytes[at + 2] as u32;
    let b3: u32 = bytes[at + 3] as u32;
    b0 + 0x100 * b1 + 0x1_0000 * b2 + 0x100_0000 * b3
}

/// Reads a signed 32-bit integer.
pub fn read_i32(bytes: &[u8], at: usize) -> (value: i32)
    requires
        at + 4 <= bytes.len(),
    ensures
        value == i32_at(bytes@, at as int),
{
    let raw: u32 = read_u32(bytes, at);
    if raw < 0x8000_0000 {
        raw as i32
    } else {
        let low: i32 = (raw - 0x8000_0000) as i32;
        low + i32::MIN
    }
}

/// Appends the two bytes of `value` to `out`.
pub fn write_u16(out: &mut Vec<u8>, value: u16)
    ensures
        final(out)@ == old(out)@ + u16_bytes(value),
{
    out.push((value % 0x100) as u8);
    out.push((value / 0x100) as u8);
}

/// Appends the four bytes of `value` to `out`.
pub fn write_u32(out: &mut Vec<u8>, value: u32)
    ensures
        final(out)@ == old(out)@ + u32_bytes(value),
{
    out.push((value % 0x100) as u8);
    out.push((value / 0x100 % 0x100) as u8);
    out.push((value / 0x1_0000 % 0x100) as u8);
    out.push((value / 0x100_0000) as u8);
}

/// Appends the four bytes of `value`, in two's complement, to `out`.
pub fn write_i32(out: &mut Vec<u8>, value: i32)
    ensures
        final(out)@ == old(out)@ + i32_bytes(value),
{
    let raw: u32 = if value >= 0 {
        value as u32
    } else {
        let low: u32 = (value - i32::MIN) as u32;
        low + 0x8000_0000
    };
    write_u32(out, raw);
}

} // verus!
