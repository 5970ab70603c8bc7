//! Integers as bytes in memory, low byte first.

use vstd::arithmetic::div_mod::lemma_div_denominator;
use vstd::prelude::*;

verus! {

/// The two bytes of a 16-bit integer, low byte first.
pub open spec fn le_bytes_u16(value: u16) -> Seq<u8> {
    seq![(value % 256) as u8, (value / 256) as u8]
}

/// The four bytes of a 32-bit integer, low byte first.
pub open spec fn le_bytes_u32(value: u32) -> Seq<u8> {
    seq![
        (value % 256) as u8,
        (value / 0x100 % 256) as u8,
        (value / 0x1_0000 % 256) as u8,
        (value / 0x100_0000) as u8,
    ]
}

/// The eight bytes of a 64-bit integer, low byte first.
pub open spec fn le_bytes_u64(value: u64) -> Seq<u8> {
    seq![
        (value % 256) as u8,
        (value / 0x100 % 256) as u8,
        (value / 0x1_0000 % 256) as u8,
        (value / 0x100_0000 % 256) as u8,
        (value / 0x1_0000_0000 % 256) as u8,
        (value / 0x100_0000_0000 % 256) as u8,
        (value / 0x1_0000_0000_0000 % 256) as u8,
        (value / 0x100_0000_0000_0000) as u8,
    ]
}

/// The 16-bit integer whose bytes lie at offset `at` of `bytes`, low byte
/// first.
pub open spec fn u16_at(bytes: Seq<u8>, at: int) -> u16 {
    (bytes[at] + bytes[at + 1] * 0x100) as u16
}

/// The 32-bit integer whose bytes lie at offset `at` of `bytes`, low byte
/// first.
pub open spec fn u32_at(bytes: Seq<u8>, at: int) -> u32 {
    (bytes[at] + bytes[at + 1] * 0x100 + bytes[at + 2] * 0x1_0000 + bytes[at + 3] * 0x100_0000) as u32
}

/// The 64-bit integer whose bytes lie at offset `at` of `bytes`, low byte
/// first.
pub open spec fn u64_at(bytes: Seq<u8>, at: int) -> u64 {
    (bytes[at] + bytes[at + 1] * 0x100 + bytes[at + 2] * 0x1_0000 + bytes[at + 3] * 0x100_0000
        + bytes[at + 4] * 0x1_0000_0000 + bytes[at + 5] * 0x100_0000_0000 + bytes[at + 6]
        * 0x1_0000_0000_0000 + bytes[at + 7] * 0x100_0000_0000_0000) as u64
}

/// Dividing by 256 one more time is dividing by 256 times as much.
proof fn lemma_next_byte(value: int, weight: int)
    requires
        0 <= value,
        0 < weight,
    ensures
        (value / weight) / 256 == value / (weight * 256),
        value / weight == (value / weight) % 256 + 256 * (value / (weight * 256)),
{
    lemma_div_denominator(value, weight, 256);
}

/// An integer that is written out and read back is the same integer.
pub proof fn lemma_bytes_round_trip(small: u16, medium: u32, large: u64)
    ensures
        u16_at(le_bytes_u16(small), 0) == small,
        u32_at(le_bytes_u32(medium), 0) == medium,
        u64_at(le_bytes_u64(large), 0) == large,
{
    lemma_next_byte(medium as int, 0x100);
    lemma_next_byte(medium as int, 0x1_0000);
    lemma_next_byte(large as int, 0x100);
    lemma_next_byte(large as int, 0x1_0000);
    lemma_next_byte(large as int, 0x100_0000);
    lemma_next_byte(large as int, 0x1_0000_0000);
    lemma_next_byte(large as int, 0x100_0000_0000);
    lemma_next_byte(large as int, 0x1_0000_0000_0000);
}

/// Reading an integer looks only at its own bytes: the integer at offset
/// `at` of `bytes` is the integer at the start of the bytes from `at` on.
pub proof fn lemma_read_is_local(bytes: Seq<u8>, at: int)
    requires
        0 <= at,
    ensures
        at + 2 <= bytes.len() ==> u16_at(bytes, at) == u16_at(bytes.subrange(at, at + 2), 0),
        at + 4 <= bytes.len() ==> u32_at(bytes, at) == u32_at(bytes.subrange(at, at + 4), 0),
        at + 8 <= bytes.len() ==> u64_at(bytes, at) == u64_at(bytes.subrange(at, at + 8), 0),
{
}

/// Appends the bytes of a 16-bit integer.
pub fn push_u16(bytes: &mut Vec<u8>, value: u16)
    ensures
        final(bytes)@ == old(bytes)@ + le_bytes_u16(value),
{
    bytes.push((value % 256) as u8);
    bytes.push((value / 256) as u8);
    assert(bytes@ =~= old(bytes)@ + le_bytes_u16(value));
}

/// Appends the bytes of a 32-bit integer.
pub fn push_u32(bytes: &mut Vec<u8>, value: u32)
    ensures
        final(bytes)@ == old(bytes)@ + le_bytes_u32(value),
{
    bytes.push((value % 256) as u8);
    bytes.push((value / 0x100 % 256) as u8);
    bytes.push((value / 0x1_0000 % 256) as u8);
    bytes.push((value / 0x100_0000) as u8);
    assert(bytes@ =~= old(bytes)@ + le_bytes_u32(value));
}

/// Appends the bytes of a 64-bit integer.
pub fn push_u64(bytes: &mut Vec<u8>, value: u64)
    ensures
        final(bytes)@ == old(bytes)@ + le_bytes_u64(value),
{
    bytes.push((value % 256) as u8);
    bytes.push((value / 0x100 % 256) as u8);
    bytes.push((value / 0x1_0000 % 256) as u8);
    bytes.push((value / 0x100_0000 % 256) as u8);
    bytes.push((value / 0x1_0000_0000 % 256) as u8);
    bytes.push((value / 0x100_0000_0000 % 256) as u8);
    bytes.push((value / 0x1_0000_0000_0000 % 256) as u8);
    bytes.push((value / 0x100_0000_0000_0000) as u8);
    assert(bytes@ =~= old(bytes)@ + le_bytes_u64(value));
}

/// Reads the 16-bit integer at offset `at`.
pub fn read_u16(bytes: &[u8], at: usize) -> (value: u16)
    requires
        at + 2 <= bytes@.len(),
    ensures
        value == u16_at(bytes@, at as int),
{
    bytes[at] as u16 + (bytes[at + 1] as u16) * 0x100
}

/// Reads the 32-bit integer at offset `at`.
pub fn read_u32(bytes: &[u8], at: usize) -> (value: u32)
    requires
        at + 4 <= bytes@.len(),
    ensures
        value == u32_at(bytes@, at as int),
{
    bytes[at] as u32 + (bytes[at + 1] as u32) * 0x100 + (bytes[at + 2] as u32) * 0x1_0000 + (bytes[at
        + 3] as u32) * 0x100_0000
}

/// Reads the 64-bit integer at offset `at`.
pub fn read_u64(bytes: &[u8], at: usize) -> (value: u64)
    requires
        at + 8 <= bytes@.len(),
    ensures
        value == u64_at(bytes@, at as int),
{
    bytes[at] as u64 + (bytes[at + 1] as u64) * 0x100 + (bytes[at + 2] as u64) * 0x1_0000 + (bytes[at
        + 3] as u64) * 0x100_0000 + (bytes[at + 4] as u64) * 0x1_0000_0000 + (bytes[at + 5] as u64)
        * 0x100_0000_0000 + (bytes[at + 6] as u64) * 0x1_0000_0000_0000 + (bytes[at + 7] as u64)
        * 0x100_0000_0000_0000
}

} // verus!
