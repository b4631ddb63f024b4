//! Bit-field extraction from a 16-bit instruction word.
//!
//! Bits are numbered from the most significant end: bit 0 is the MSB of the
//! word, bit 15 the LSB. `extract(word, start, end)` reads the half-open bit
//! range `[start, end)` and packs it, MSB-first, into the low `end - start`
//! bits of the result. `nibble(word, offset)` reads the 4-bit field at nibble
//! position `offset` (0 = most significant nibble).

use vstd::prelude::*;

verus! {

/// The unsigned value of bits `[start, end)` of `word`, counted from the
/// most significant bit, packed MSB-first into the low bits of the result.
pub open spec fn spec_extract(word: u16, start: u16, end: u16) -> u16
    recommends
        start <= end <= 16,
{
    ((((word as u32) >> ((16 - end) as u32)) & (((1u32 << ((end - start) as u32)) - 1) as u32))
        as u16)
}

/// The 4-bit field at nibble position `offset` (0 = most significant).
pub open spec fn spec_nibble(word: u16, offset: u16) -> u16
    recommends
        offset < 4,
{
    spec_extract(word, (4 * offset) as u16, (4 * offset + 4) as u16)
}

/// Reads the half-open bit range `[start, end)` of `word`, bit 0 being the
/// most significant bit, as an unsigned integer.
pub fn extract(word: u16, start: u16, end: u16) -> (r: u16)
    requires
        start <= end <= 16,
    ensures
        r == spec_extract(word, start, end),
{
    let shifted: u32 = (word as u32) >> ((16 - end) as u32);
    let width: u32 = (end - start) as u32;
    proof {
        assert((1u32 << width) >= 1) by (bit_vector)
            requires
                width <= 16,
        ;
    }
    let mask: u32 = (1u32 << width) - 1;
    let r: u32 = shifted & mask;
    proof {
        assert(((word as u32) >> ((16 - end) as u32)) & ((((1u32 << ((end - start) as u32)) - 1)
            as u32)) < 0x10000) by (bit_vector)
            requires
                end <= 16,
        ;
    }
    r as u16
}

/// The 4-bit field of `word` at nibble position `offset` (0 = most
/// significant nibble, 3 = least significant).
pub fn nibble(word: u16, offset: u16) -> (r: u8)
    requires
        offset < 4,
    ensures
        r == spec_nibble(word, offset),
{
    let r = extract(word, 4 * offset, 4 * offset + 4);
    proof {
        lemma_nibble_bound(word, offset);
    }
    r as u8
}

/// Every nibble value fits in 4 bits.
pub proof fn lemma_nibble_bound(word: u16, offset: u16)
    requires
        offset < 4,
    ensures
        spec_nibble(word, offset) < 16,
{
    assert(spec_nibble(word, offset) < 16) by (bit_vector)
        requires
            offset < 4,
    ;
}

/// A 12-bit address field fits in 12 bits.
pub proof fn lemma_address_bound(word: u16)
    ensures
        spec_extract(word, 4, 16) < 4096,
{
    assert(spec_extract(word, 4, 16) < 4096) by (bit_vector);
}

/// An 8-bit immediate field fits in 8 bits.
pub proof fn lemma_immediate_bound(word: u16)
    ensures
        spec_extract(word, 8, 16) < 256,
{
    assert(spec_extract(word, 8, 16) < 256) by (bit_vector);
}

/// Extracting the full bit range of a word is the identity.
pub proof fn lemma_extract_full_is_identity(word: u16)
    ensures
        spec_extract(word, 0, 16) == word,
{
    assert(spec_extract(word, 0, 16) == word) by (bit_vector);
}

/// The four nibbles are the word's hexadecimal digits: each is the standard
/// digit-at-position reading, each is below 16, and the word is their
/// base-16 recomposition, most significant nibble first.
pub proof fn lemma_nibbles_are_hex_digits(word: u16)
    ensures
        spec_nibble(word, 0) == word / 0x1000 % 16,
        spec_nibble(word, 1) == word / 0x100 % 16,
        spec_nibble(word, 2) == word / 0x10 % 16,
        spec_nibble(word, 3) == word % 16,
        spec_nibble(word, 0) < 16,
        spec_nibble(word, 1) < 16,
        spec_nibble(word, 2) < 16,
        spec_nibble(word, 3) < 16,
        word == spec_nibble(word, 0) * 0x1000 + spec_nibble(word, 1) * 0x100 + spec_nibble(
            word,
            2,
        ) * 0x10 + spec_nibble(word, 3),
{
    assert(spec_nibble(word, 0) == word / 0x1000 % 16 && spec_nibble(word, 1) == word / 0x100 % 16
        && spec_nibble(word, 2) == word / 0x10 % 16 && spec_nibble(word, 3) == word % 16)
        by (bit_vector);
    assert(spec_nibble(word, 0) < 16 && spec_nibble(word, 1) < 16 && spec_nibble(word, 2) < 16
        && spec_nibble(word, 3) < 16 && word == spec_nibble(word, 0) * 0x1000 + spec_nibble(
        word,
        1,
    ) * 0x100 + spec_nibble(word, 2) * 0x10 + spec_nibble(word, 3)) by (bit_vector);
}

} // verus!
