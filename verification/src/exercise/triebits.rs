//! Names and their trie keys checked against each other
//!
//! Two names are read from the wire and compared in three ways: as they
//! were read, by their trie keys, and as the names that their trie keys
//! give back.

use core::cmp::Ordering;
use crate::dnsname::DnsLabels;
use crate::dnsname::order::bytes_order;
use crate::dnsname::order::cmp_any_names;
use crate::dnsname::order::eq_any_names;
use crate::dnsname::order::lemma_name_order_equal;
use crate::dnsname::order::lemma_name_order_lower;
use crate::dnsname::scratch::ScratchName;
use crate::triebits::order::lemma_key_order;
use crate::triebits::roundtrip::lemma_key_round_trip;
use crate::triebits::TrieName;
use vstd::prelude::*;

verus! {

/// Two buffers, each of which may hold a name in wire format.
#[derive(Debug)]
pub struct Vecs {
    pub one: Vec<u8>,
    pub two: Vec<u8>,
}

/// Compare two strings of bytes, byte by byte.
pub fn cmp_bytes(aa: &[u8], bb: &[u8]) -> (order: Ordering)
    ensures
        order == bytes_order(aa@, bb@),
{
    let mut at: usize = 0;
    let ghost mut done: int = 0;
    assert(aa@.skip(0) =~= aa@ && bb@.skip(0) =~= bb@);
    loop
        invariant
            done == at,
            at <= aa@.len(),
            at <= bb@.len(),
            bytes_order(aa@.skip(done), bb@.skip(done)) == bytes_order(aa@, bb@),
        decreases aa@.len() - at,
    {
        if at >= aa.len() || at >= bb.len() {
            if at < bb.len() {
                return Ordering::Less;
            } else if at < aa.len() {
                return Ordering::Greater;
            } else {
                return Ordering::Equal;
            }
        }
        if aa[at] < bb[at] {
            return Ordering::Less;
        } else if aa[at] > bb[at] {
            return Ordering::Greater;
        }
        proof {
            assert(aa@.skip(done).skip(1) =~= aa@.skip(done + 1));
            assert(bb@.skip(done).skip(1) =~= bb@.skip(done + 1));
            done = done + 1;
        }
        at += 1;
    }
}

/// Whether two orders are the same.
pub fn same_order(left: Ordering, right: Ordering) -> (same: bool)
    ensures
        same == (left == right),
{
    match (left, right) {
        (Ordering::Less, Ordering::Less) => true,
        (Ordering::Equal, Ordering::Equal) => true,
        (Ordering::Greater, Ordering::Greater) => true,
        _ => false,
    }
}

/// Read a name from each buffer. Where both hold one, compare the names,
/// their trie keys, and the names that their trie keys give back, and say
/// whether the trie keys gave back the names and whether all three orders
/// were the same. They always are.
pub fn exercise_vecs(vecs: Vecs) -> (same: bool)
    ensures
        same,
{
    let mut scratch1 = ScratchName::new();
    let mut scratch2 = ScratchName::new();
    match scratch1.from_wire(vecs.one.as_slice(), 0) {
        Ok(_) => {},
        Err(_) => {
            return true;
        },
    }
    match scratch2.from_wire(vecs.two.as_slice(), 0) {
        Ok(_) => {},
        Err(_) => {
            return true;
        },
    }
    proof {
        lemma_key_order(scratch1.labels(), scratch2.labels());
        lemma_key_round_trip(scratch1.labels());
        lemma_key_round_trip(scratch2.labels());
        lemma_name_order_lower(scratch1.labels(), scratch1.labels());
        lemma_name_order_lower(scratch2.labels(), scratch2.labels());
        lemma_name_order_equal(scratch1.labels(), scratch1.labels());
        lemma_name_order_equal(scratch2.labels(), scratch2.labels());
        lemma_name_order_lower(scratch1.labels(), scratch2.labels());
        lemma_name_order_lower(scratch1.labels(), crate::dnsname::lower_name(scratch2.labels()));
    }
    let scratch_ord = cmp_any_names(&scratch1, &scratch2);
    let mut triename1 = TrieName::new();
    let mut triename2 = TrieName::new();
    match triename1.from_dns_name(&scratch1) {
        Ok(()) => {},
        Err(_) => {
            return false;
        },
    }
    match triename2.from_dns_name(&scratch2) {
        Ok(()) => {},
        Err(_) => {
            return false;
        },
    }
    let slice_ord = cmp_bytes(triename1.as_slice(), triename2.as_slice());
    if !same_order(scratch_ord, slice_ord) {
        return false;
    }
    let heap1 = match triename1.make_dns_name() {
        Ok(heap) => heap,
        Err(_) => {
            return false;
        },
    };
    let heap2 = match triename2.make_dns_name() {
        Ok(heap) => heap,
        Err(_) => {
            return false;
        },
    };
    if !eq_any_names(&heap1, &scratch1) || !eq_any_names(&heap2, &scratch2) {
        return false;
    }
    let heap_ord = cmp_any_names(&heap1, &heap2);
    same_order(slice_ord, heap_ord)
}

} // verus!
