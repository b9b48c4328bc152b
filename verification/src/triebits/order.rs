//! The order of keys is the order of names
//!
//! Comparing the trie keys of two names byte by byte gives the canonical
//! order of the names.

use core::cmp::Ordering;
use crate::dnsname::lower_byte;
use crate::dnsname::order::bytes_order;
use crate::dnsname::order::label_order;
use crate::dnsname::order::name_order;
use crate::triebits::byte_key;
use crate::triebits::label_key;
use crate::triebits::labels_key;
use crate::triebits::name_key;
use crate::triebits::roundtrip::lemma_label_key_front;
use crate::triebits::table::bits_before;
use crate::triebits::table::byte_bits;
use crate::triebits::table::lemma_bits_apart;
use crate::triebits::table::lemma_bits_lower;
use crate::triebits::table::lemma_bits_monotonic;
use crate::triebits::table::lemma_bits_range;
use crate::triebits::table::SHIFT_NOBYTE;
use vstd::prelude::*;

verus! {

/// What two strings begin with alike does not decide their order.
pub proof fn lemma_bytes_order_prefix(common: Seq<u8>, a: Seq<u8>, b: Seq<u8>)
    ensures
        bytes_order(common + a, common + b) == bytes_order(a, b),
    decreases common.len(),
{
    if common.len() == 0 {
        assert(common + a =~= a);
        assert(common + b =~= b);
    } else {
        let rest = common.skip(1);
        assert((common + a).skip(1) =~= rest + a);
        assert((common + b).skip(1) =~= rest + b);
        assert((common + a)[0] == (common + b)[0]);
        lemma_bytes_order_prefix(rest, a, b);
    }
}

/// One code before another puts whatever begins with the one before
/// whatever begins with the other.
pub proof fn lemma_bits_before_order(x: u8, y: u8, a: Seq<u8>, b: Seq<u8>)
    requires
        bits_before(byte_bits(x), byte_bits(y)),
    ensures
        bytes_order(byte_key(x) + a, byte_key(y) + b) == Ordering::Less,
        bytes_order(byte_key(y) + b, byte_key(x) + a) == Ordering::Greater,
{
    let left = byte_key(x) + a;
    let right = byte_key(y) + b;
    lemma_bits_range(x);
    lemma_bits_range(y);
    assert(left[0] == byte_bits(x).0);
    assert(right[0] == byte_bits(y).0);
    if byte_bits(x).0 == byte_bits(y).0 {
        lemma_bits_apart(x, y);
        assert(left[1] == byte_bits(x).1);
        assert(right[1] == byte_bits(y).1);
        assert(left.skip(1)[0] == left[1]);
        assert(right.skip(1)[0] == right[1]);
        assert(bytes_order(left.skip(1), right.skip(1)) == Ordering::Less);
        assert(bytes_order(right.skip(1), left.skip(1)) == Ordering::Greater);
    }
}

/// Two bytes that differ in lower case have codes that put them, and
/// whatever follows them, in the order of their lower case forms; two that
/// do not differ in lower case have the same code.
pub proof fn lemma_byte_key_order(x: u8, y: u8, a: Seq<u8>, b: Seq<u8>)
    ensures
        lower_byte(x) < lower_byte(y) ==> bytes_order(byte_key(x) + a, byte_key(y) + b)
            == Ordering::Less,
        lower_byte(x) > lower_byte(y) ==> bytes_order(byte_key(x) + a, byte_key(y) + b)
            == Ordering::Greater,
        lower_byte(x) == lower_byte(y) ==> byte_key(x) == byte_key(y),
{
    lemma_bits_lower(x);
    lemma_bits_lower(y);
    if lower_byte(x) < lower_byte(y) {
        lemma_bits_monotonic(lower_byte(x), lower_byte(y));
        lemma_bits_before_order(x, y, a, b);
    } else if lower_byte(x) > lower_byte(y) {
        lemma_bits_monotonic(lower_byte(y), lower_byte(x));
        lemma_bits_before_order(y, x, b, a);
    }
}

/// The parts of two keys for one label each are in the order of the
/// labels; where the labels are the same in lower case, what follows the
/// parts decides.
pub proof fn lemma_label_key_order(a: Seq<u8>, b: Seq<u8>, after_a: Seq<u8>, after_b: Seq<u8>)
    ensures
        bytes_order(
            label_key(a) + seq![SHIFT_NOBYTE] + after_a,
            label_key(b) + seq![SHIFT_NOBYTE] + after_b,
        ) == (match label_order(a, b) {
            Ordering::Equal => bytes_order(after_a, after_b),
            Ordering::Less => Ordering::Less,
            Ordering::Greater => Ordering::Greater,
        }),
    decreases a.len(),
{
    let end = seq![SHIFT_NOBYTE];
    let left = label_key(a) + end + after_a;
    let right = label_key(b) + end + after_b;
    if a.len() > 0 {
        assert(a =~= seq![a[0]] + a.skip(1));
        lemma_label_key_front(a[0], a.skip(1));
        lemma_bits_range(a[0]);
        assert(left =~= byte_key(a[0]) + (label_key(a.skip(1)) + end + after_a));
        assert(left[0] == byte_bits(a[0]).0);
    } else {
        assert(left =~= end + after_a);
        assert(left[0] == SHIFT_NOBYTE);
    }
    if b.len() > 0 {
        assert(b =~= seq![b[0]] + b.skip(1));
        lemma_label_key_front(b[0], b.skip(1));
        lemma_bits_range(b[0]);
        assert(right =~= byte_key(b[0]) + (label_key(b.skip(1)) + end + after_b));
        assert(right[0] == byte_bits(b[0]).0);
    } else {
        assert(right =~= end + after_b);
        assert(right[0] == SHIFT_NOBYTE);
    }
    if a.len() == 0 && b.len() == 0 {
        lemma_bytes_order_prefix(end, after_a, after_b);
    } else if a.len() > 0 && b.len() > 0 {
        let rest_a = label_key(a.skip(1)) + end + after_a;
        let rest_b = label_key(b.skip(1)) + end + after_b;
        lemma_byte_key_order(a[0], b[0], rest_a, rest_b);
        if lower_byte(a[0]) == lower_byte(b[0]) {
            lemma_bytes_order_prefix(byte_key(a[0]), rest_a, rest_b);
            lemma_label_key_order(a.skip(1), b.skip(1), after_a, after_b);
        }
    }
}

/// The parts of two keys for some labels each, and the end of a key behind
/// them, are in the canonical order of the labels.
pub proof fn lemma_labels_key_order(a: Seq<Seq<u8>>, b: Seq<Seq<u8>>)
    ensures
        bytes_order(labels_key(a) + seq![SHIFT_NOBYTE], labels_key(b) + seq![SHIFT_NOBYTE])
            == name_order(a, b),
    decreases a.len(),
{
    let end = seq![SHIFT_NOBYTE];
    let left = labels_key(a) + end;
    let right = labels_key(b) + end;
    let none = Seq::<u8>::empty();
    if a.len() == 0 && b.len() == 0 {
        assert(left =~= right);
        lemma_bytes_order_prefix(left, none, none);
        assert(left + none =~= left);
    } else if a.len() == 0 {
        let rest = labels_key(b.drop_last()) + end;
        assert(left =~= label_key(none) + end + none);
        assert(right =~= label_key(b.last()) + end + rest);
        lemma_label_key_order(none, b.last(), none, rest);
        assert(rest[rest.len() - 1] == SHIFT_NOBYTE);
    } else if b.len() == 0 {
        let rest = labels_key(a.drop_last()) + end;
        assert(right =~= label_key(none) + end + none);
        assert(left =~= label_key(a.last()) + end + rest);
        lemma_label_key_order(a.last(), none, rest, none);
        assert(rest[rest.len() - 1] == SHIFT_NOBYTE);
    } else {
        let rest_a = labels_key(a.drop_last()) + end;
        let rest_b = labels_key(b.drop_last()) + end;
        assert(left =~= label_key(a.last()) + end + rest_a);
        assert(right =~= label_key(b.last()) + end + rest_b);
        lemma_label_key_order(a.last(), b.last(), rest_a, rest_b);
        lemma_labels_key_order(a.drop_last(), b.drop_last());
    }
}

/// The trie keys of two names, each of which ends with the root label,
/// are in the canonical order of the names.
pub proof fn lemma_key_order(a: Seq<Seq<u8>>, b: Seq<Seq<u8>>)
    requires
        a.len() > 0,
        b.len() > 0,
        a.last().len() == 0,
        b.last().len() == 0,
    ensures
        bytes_order(name_key(a), name_key(b)) == name_order(a, b),
{
    lemma_labels_key_order(a.drop_last(), b.drop_last());
}

} // verus!
