//! Byte strings read as ASCII text: case folding, prefixes, hexadecimal.

use vstd::prelude::*;

verus! {

/// An ASCII capital letter becomes its small letter; every other byte stays.
pub open spec fn ascii_lower(b: u8) -> u8 {
    if 0x41 <= b <= 0x5a {
        (b + 0x20) as u8
    } else {
        b
    }
}

/// The bytes with every ASCII capital letter made small.
pub open spec fn lowered(bytes: Seq<u8>) -> Seq<u8> {
    Seq::new(bytes.len(), |k: int| ascii_lower(bytes[k]))
}

/// `bytes` begins with `prefix`.
pub open spec fn has_prefix(bytes: Seq<u8>, prefix: Seq<u8>) -> bool {
    prefix.len() <= bytes.len() && bytes.subrange(0, prefix.len() as int) == prefix
}

/// The byte is one of `0-9`, `a-f`, `A-F`.
pub open spec fn is_hex_digit(b: u8) -> bool {
    (0x30 <= b <= 0x39) || (0x61 <= b <= 0x66) || (0x41 <= b <= 0x46)
}

/// Every byte is a hexadecimal digit.
pub open spec fn all_hex_digits(bytes: Seq<u8>) -> bool {
    forall|k: int| 0 <= k < bytes.len() ==> is_hex_digit(#[trigger] bytes[k])
}

/// The small hexadecimal digit for a value below 16.
pub open spec fn hex_digit(nibble: u8) -> u8 {
    if nibble < 10 {
        (0x30 + nibble) as u8
    } else {
        (0x61 + nibble - 10) as u8
    }
}

/// Lowercase hexadecimal: two digits per byte, the high half first.
pub open spec fn lower_hex(data: Seq<u8>) -> Seq<u8> {
    Seq::new(
        2 * data.len(),
        |k: int|
            if k % 2 == 0 {
                hex_digit(data[k / 2] / 16)
            } else {
                hex_digit(data[k / 2] % 16)
            },
    )
}

/// Lowers one byte.
pub fn to_ascii_lower(b: u8) -> (low: u8)
    ensures
        low == ascii_lower(b),
{
    if 0x41 <= b && b <= 0x5a {
        b + 0x20
    } else {
        b
    }
}

/// Whether `text`, with its capitals made small, is exactly `expected`.
pub fn eq_lowered(text: &[u8], expected: &[u8]) -> (same: bool)
    ensures
        same == (lowered(text@) == expected@),
{
    if text.len() != expected.len() {
        return false;
    }
    let mut k: usize = 0;
    while k < text.len()
        invariant
            k <= text@.len(),
            text@.len() == expected@.len(),
            forall|j: int| 0 <= j < k ==> ascii_lower(#[trigger] text@[j]) == expected@[j],
        decreases text@.len() - k,
    {
        if to_ascii_lower(text[k]) != expected[k] {
            assert(lowered(text@)[k as int] != expected@[k as int]);
            return false;
        }
        k = k + 1;
    }
    assert(lowered(text@) =~= expected@);
    true
}

/// Whether `bytes` begins with `prefix`.
pub fn starts_with(bytes: &[u8], prefix: &[u8]) -> (found: bool)
    ensures
        found == has_prefix(bytes@, prefix@),
{
    if prefix.len() > bytes.len() {
        return false;
    }
    let mut k: usize = 0;
    while k < prefix.len()
        invariant
            k <= prefix@.len() <= bytes@.len(),
            forall|j: int| 0 <= j < k ==> #[trigger] bytes@[j] == prefix@[j],
        decreases prefix@.len() - k,
    {
        if bytes[k] != prefix[k] {
            assert(bytes@.subrange(0, prefix@.len() as int)[k as int] != prefix@[k as int]);
            return false;
        }
        k = k + 1;
    }
    assert(bytes@.subrange(0, prefix@.len() as int) =~= prefix@);
    true
}

/// Whether every byte is a hexadecimal digit.
pub fn only_hex_digits(bytes: &[u8]) -> (all: bool)
    ensures
        all == all_hex_digits(bytes@),
{
    let mut k: usize = 0;
    while k < bytes.len()
        invariant
            k <= bytes@.len(),
            forall|j: int| 0 <= j < k ==> is_hex_digit(#[trigger] bytes@[j]),
        decreases bytes@.len() - k,
    {
        let b: u8 = bytes[k];
        let digit = (0x30 <= b && b <= 0x39) || (0x61 <= b && b <= 0x66) || (0x41 <= b && b
            <= 0x46);
        if !digit {
            return false;
        }
        k = k + 1;
    }
    true
}

} // verus!
