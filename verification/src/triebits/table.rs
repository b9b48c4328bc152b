//! The code of each byte in a trie key
//!
//! A byte of a label becomes one or two bytes of a trie key, each of them a
//! bit position in a node of the trie, between [`SHIFT_BITMAP`] and
//! [`SHIFT_OFFSET`]. The characters usual in host names take one byte; the
//! others take two, an escape and a second byte that tells those with the
//! same escape apart. Upper case letters have the code of their lower case
//! letters. Apart from them, a greater byte has a greater code.
//!
//! A few characters that are not usual in host names (between `-` and the
//! digits, and between `_` and the lower case letters) are treated like
//! those that are, which keeps the ranges of escaped bytes few.

use vstd::prelude::*;

verus! {

/// The bit position that marks a branch node of the trie; no key holds it.
pub const SHIFT_BRANCH: u8 = 0;

/// The bit position that stands for the end of a label.
pub const SHIFT_NOBYTE: u8 = 1;

/// The lowest bit position that stands for a byte of a label.
pub const SHIFT_BITMAP: u8 = 2;

/// One more than the highest bit position that stands for a byte of a label.
pub const SHIFT_OFFSET: u8 = 48;

/// An ASCII upper case letter.
pub open spec fn is_upper(byte: u8) -> bool {
    0x41 <= byte <= 0x5A
}

/// A character that takes one byte in a trie key: `-` to `9` and `_` to
/// `z`, and the upper case letters, which count as their lower case ones.
pub open spec fn is_common(byte: u8) -> bool {
    0x2D <= byte <= 0x39 || 0x5F <= byte <= 0x7A || is_upper(byte)
}

/// The code of a byte: its first byte and, if it has one, its second;
/// otherwise zero.
///
/// Codes are given out in the order of the bytes. A common character gets
/// the next free first byte. A run of other bytes shares one first byte, an
/// escape, and counts the second byte up from [`SHIFT_BITMAP`]; when that
/// would reach [`SHIFT_OFFSET`], the run goes on with the next escape.
pub open spec fn byte_bits(byte: u8) -> (u8, u8) {
    if byte < 0x2D {
        (2, (2 + byte) as u8)
    } else if byte <= 0x39 {
        ((3 + (byte - 0x2D)) as u8, 0)
    } else if byte < 0x41 {
        (16, (2 + (byte - 0x3A)) as u8)
    } else if byte <= 0x5A {
        ((19 + (byte - 0x41)) as u8, 0)
    } else if byte < 0x5F {
        (16, (9 + (byte - 0x5B)) as u8)
    } else if byte <= 0x7A {
        ((17 + (byte - 0x5F)) as u8, 0)
    } else if byte < 0xA9 {
        (45, (2 + (byte - 0x7B)) as u8)
    } else if byte < 0xD7 {
        (46, (2 + (byte - 0xA9)) as u8)
    } else {
        (47, (2 + (byte - 0xD7)) as u8)
    }
}

/// The byte that has the code `(one, two)` and is no upper case letter, if
/// there is one.
pub open spec fn bits_byte(one: u8, two: u8) -> Option<u8> {
    if one == 2 && 2 <= two <= 46 {
        Some((two - 2) as u8)
    } else if 3 <= one <= 15 && two == 0 {
        Some((0x2D + (one - 3)) as u8)
    } else if one == 16 && 2 <= two <= 8 {
        Some((0x3A + (two - 2)) as u8)
    } else if one == 16 && 9 <= two <= 12 {
        Some((0x5B + (two - 9)) as u8)
    } else if 17 <= one <= 44 && two == 0 {
        Some((0x5F + (one - 17)) as u8)
    } else if one == 45 && 2 <= two <= 47 {
        Some((0x7B + (two - 2)) as u8)
    } else if one == 46 && 2 <= two <= 47 {
        Some((0xA9 + (two - 2)) as u8)
    } else if one == 47 && 2 <= two <= 42 {
        Some((0xD7 + (two - 2)) as u8)
    } else {
        None
    }
}

/// One pair of bytes comes before another: their first bytes decide, and
/// between equal first bytes the second.
pub open spec fn bits_before(a: (u8, u8), b: (u8, u8)) -> bool {
    a.0 < b.0 || (a.0 == b.0 && a.1 < b.1)
}

/// The code of a byte.
pub fn byte_to_bits(byte: u8) -> (bits: (u8, u8))
    ensures
        bits == byte_bits(byte),
{
    if byte < 0x2D {
        (2, 2 + byte)
    } else if byte <= 0x39 {
        (3 + (byte - 0x2D), 0)
    } else if byte < 0x41 {
        (16, 2 + (byte - 0x3A))
    } else if byte <= 0x5A {
        (19 + (byte - 0x41), 0)
    } else if byte < 0x5F {
        (16, 9 + (byte - 0x5B))
    } else if byte <= 0x7A {
        (17 + (byte - 0x5F), 0)
    } else if byte < 0xA9 {
        (45, 2 + (byte - 0x7B))
    } else if byte < 0xD7 {
        (46, 2 + (byte - 0xA9))
    } else {
        (47, 2 + (byte - 0xD7))
    }
}

/// The byte with the code `(one, two)`, if there is one. An upper case
/// letter is never the answer: its code gives the lower case letter.
pub fn bits_to_byte(one: u8, two: u8) -> (byte: Option<u8>)
    ensures
        byte == bits_byte(one, two),
{
    if one == 2 && 2 <= two && two <= 46 {
        Some(two - 2)
    } else if 3 <= one && one <= 15 && two == 0 {
        Some(0x2D + (one - 3))
    } else if one == 16 && 2 <= two && two <= 8 {
        Some(0x3A + (two - 2))
    } else if one == 16 && 9 <= two && two <= 12 {
        Some(0x5B + (two - 9))
    } else if 17 <= one && one <= 44 && two == 0 {
        Some(0x5F + (one - 17))
    } else if one == 45 && 2 <= two && two <= 47 {
        Some(0x7B + (two - 2))
    } else if one == 46 && 2 <= two && two <= 47 {
        Some(0xA9 + (two - 2))
    } else if one == 47 && 2 <= two && two <= 42 {
        Some(0xD7 + (two - 2))
    } else {
        None
    }
}

/// Generate the table that maps bytes in DNS names to bit positions.
///
/// The bit positions have to be between SHIFT_BITMAP and SHIFT_OFFSET.
/// Escaped byte ranges mostly fit in this space, except for those
/// above 'z', so when we reach the max we roll over to the next escape
/// character.
pub fn gen_byte_to_bits() -> (table: [(u8, u8); 256])
    ensures
        forall|byte: u8| (#[trigger] table@[byte as int]) == byte_bits(byte),
{
    let mut bit_one: u8 = SHIFT_BITMAP;
    let mut bit_two: u8 = SHIFT_BITMAP;
    let mut escaping = true;
    let mut table: [(u8, u8); 256] = [(0u8, 0u8);256];
    let mut byte: u8 = 0;
    loop
        invariant
            forall|b: u8| b < byte ==> (#[trigger] table@[b as int]) == byte_bits(b),
            // where the walk stands before the next byte
            byte < 0x2D ==> escaping && bit_one == 2 && bit_two == 2 + byte,
            byte == 0x2D ==> escaping && bit_one == 2,
            0x2D < byte <= 0x3A ==> !escaping && bit_one == 3 + (byte - 0x2E),
            0x3A < byte <= 0x41 ==> escaping && bit_one == 16 && bit_two == 2 + (byte - 0x3A),
            0x41 < byte <= 0x5B ==> escaping && bit_one == 16 && bit_two == 9,
            0x5B < byte <= 0x5F ==> escaping && bit_one == 16 && bit_two == 9 + (byte - 0x5B),
            0x5F < byte <= 0x7B ==> !escaping && bit_one == 17 + (byte - 0x60),
            0x7B < byte <= 0xA9 ==> escaping && bit_one == 45 && bit_two == 2 + (byte - 0x7B),
            0xA9 < byte <= 0xD7 ==> escaping && bit_one == 46 && bit_two == 2 + (byte - 0xA9),
            0xD7 < byte ==> escaping && bit_one == 47 && bit_two == 2 + (byte - 0xD7),
        decreases 255 - byte,
    {
        let i = byte as usize;
        if (0x2D <= byte && byte <= 0x39) || (0x5F <= byte && byte <= 0x7A) {
            // common characters
            escaping = false;
            bit_one += 1;
            table[i] = (bit_one, 0);
        } else if 0x41 <= byte && byte <= 0x5A {
            // map upper case to lower case:
            // bump past escape character, skip non-letters, count the alphabet
            table[i] = ((bit_one + 1) + (0x61 - 0x5F) + (byte - 0x41), 0);
        } else {
            // non-hostname characters need to be escaped
            if !escaping || bit_two >= SHIFT_OFFSET {
                // bump to the next escape character
                escaping = true;
                bit_one += 1;
                bit_two = SHIFT_BITMAP;
            }
            table[i] = (bit_one, bit_two);
            bit_two += 1;
        }
        if byte == 255 {
            return table;
        } else {
            byte += 1;
        }
    }
}

/// What the table of bytes holds for a pair of bit positions: the byte
/// with that code, and zero where the pair is no code.
pub open spec fn bits_entry(one: u8, two: u8) -> u8 {
    match bits_byte(one, two) {
        Some(byte) => byte,
        None => 0,
    }
}

/// What the table of bytes holds for a pair of bit positions while only
/// the bytes below `next` are entered.
pub open spec fn entry_below(one: u8, two: u8, next: u8) -> u8 {
    match bits_byte(one, two) {
        Some(byte) => if byte < next {
            byte
        } else {
            0
        },
        None => 0,
    }
}

/// Generate the table that maps bit positions back to bytes in DNS names:
/// the row is the first byte of a code, the column its second. An entry
/// that belongs to no code is zero.
pub fn gen_bits_to_byte() -> (table: [[u8; 48]; 48])
    ensures
        forall|one: u8, two: u8|
            one < 48 && two < 48 ==> (#[trigger] table@[one as int]@[two as int]) == bits_entry(
                one,
                two,
            ),
{
    let mut table: [[u8; 48]; 48] = [[0u8;48];48];
    let mut byte: u8 = 0;
    loop
        invariant
            forall|one: u8, two: u8|
                one < 48 && two < 48 ==> (#[trigger] table@[one as int]@[two as int])
                    == entry_below(one, two, byte),
            !is_upper(byte),
        decreases 255 - byte,
    {
        let (one, two) = byte_to_bits(byte);
        let mut row = table[one as usize];
        row[two as usize] = byte;
        table[one as usize] = row;
        if byte == 255 {
            return table;
        } else {
            byte += 1;
        }
        if byte == 0x41 {
            byte += 26;
        }
    }
}

/// A byte has the code of its lower case form: upper case letters have the
/// codes of their lower case letters.
pub proof fn lemma_bits_lower(byte: u8)
    ensures
        byte_bits(byte) == byte_bits(crate::dnsname::lower_byte(byte)),
        !is_upper(crate::dnsname::lower_byte(byte)),
{
}

/// The first byte of a code is a bit position for a byte of a label, and
/// so is the second where there is one. Common characters have no second
/// byte, and no other byte shares a first byte with one of them.
pub proof fn lemma_bits_range(byte: u8)
    ensures
        SHIFT_BITMAP <= byte_bits(byte).0 < SHIFT_OFFSET,
        byte_bits(byte).1 == 0 || SHIFT_BITMAP <= byte_bits(byte).1 < SHIFT_OFFSET,
        byte_bits(byte).1 == 0 <==> is_common(byte),
{
}

/// First bytes of codes are not shared between common characters and
/// escaped ones.
pub proof fn lemma_bits_apart(a: u8, b: u8)
    requires
        byte_bits(a).0 == byte_bits(b).0,
    ensures
        is_common(a) == is_common(b),
{
}

/// Apart from the upper case letters, codes keep the order of the bytes.
pub proof fn lemma_bits_monotonic(a: u8, b: u8)
    requires
        a < b,
        !is_upper(a),
        !is_upper(b),
    ensures
        bits_before(byte_bits(a), byte_bits(b)),
{
}

/// A code gives back its byte, unless that is an upper case letter, for
/// which it gives the lower case one.
pub proof fn lemma_bits_inverse(byte: u8)
    ensures
        bits_byte(byte_bits(byte).0, byte_bits(byte).1) == Some(
            if is_upper(byte) {
                (byte + 0x20) as u8
            } else {
                byte
            },
        ),
{
}

/// The first byte of a code of two bytes is no code by itself.
pub proof fn lemma_bits_escape(byte: u8)
    requires
        byte_bits(byte).1 != 0,
    ensures
        bits_byte(byte_bits(byte).0, 0) is None,
{
}

/// Only a code gives a byte, and it is the code of that byte.
pub proof fn lemma_bits_onto(one: u8, two: u8)
    requires
        bits_byte(one, two) is Some,
    ensures
        byte_bits(bits_byte(one, two).unwrap()) == (one, two),
        !is_upper(bits_byte(one, two).unwrap()),
{
}

} // verus!
