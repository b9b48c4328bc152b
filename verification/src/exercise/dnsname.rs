//! The representations of a name checked against each other
//!
//! A name is read from the wire into each representation, written as text
//! and read again, and whatever should be the same name is compared.

use crate::dnsname::agree::lemma_parsers_agree;
use crate::dnsname::DnsLabels;
use crate::dnsname::DnsName;
use crate::dnsname::FromWire;
use crate::dnsname::heap::HeapName;
use crate::dnsname::lower_byte;
use crate::dnsname::lower_label;
use crate::dnsname::lower_name;
use crate::dnsname::order::eq_any_names;
use crate::dnsname::order::lemma_name_order_equal;
use crate::dnsname::order::lemma_name_order_lower;
use crate::dnsname::retext::lemma_name_text_lower;
use crate::dnsname::retext::lemma_text_round_trip;
use crate::dnsname::retext::lemma_valid_lower;
use crate::dnsname::roundtrip::lemma_scratch_reads_name;
use crate::dnsname::roundtrip::lemma_wire_of_len;
use crate::dnsname::same_bytes;
use crate::dnsname::scratch::ScratchName;
use crate::dnsname::to_lower;
use crate::dnsname::wire::WireLabels;
use crate::dnsname::wire_of;
use crate::error::Error;
use vstd::prelude::*;
use vstd::string::StringSliceAdditionalSpecFns;

verus! {

/// A copy of some bytes with ASCII upper case letters in lower case.
pub fn lower_bytes(bytes: &[u8]) -> (lower: Vec<u8>)
    ensures
        lower@ == lower_label(bytes@),
{
    let mut lower: Vec<u8> = Vec::new();
    let mut i: usize = 0;
    while i < bytes.len()
        invariant
            i <= bytes@.len(),
            lower@.len() == i,
            forall|k: int| 0 <= k < i ==> lower@[k] == lower_byte(bytes@[k]),
        decreases bytes@.len() - i,
    {
        lower.push(to_lower(bytes[i]));
        i += 1;
    }
    assert(lower@ =~= lower_label(bytes@));
    lower
}

/// Read the name that starts where the first byte of `wire` says, once
/// keeping its place on the wire and once as a copy in lower case. Where
/// there is a name, make owned names of both, write them as text, read the
/// text again, read the name from its own bytes again, and say whether all
/// of these gave the same name. They always do.
pub fn exercise_wire(wire: &[u8]) -> (same: bool)
    ensures
        same,
{
    if wire.len() < 1 {
        return true;
    }
    let start = usize::from(wire[0]);
    let ghost at: int = start - 0;
    let mut wire_labels = WireLabels::<u16>::new();
    match wire_labels.from_wire(wire, start) {
        Ok(_) => {},
        Err(_) => {
            return true;
        },
    }
    let ghost labels = wire_labels.labels();
    let ghost lower = lower_name(labels);
    proof {
        lemma_parsers_agree::<u16>(wire@, at);
        lemma_valid_lower(labels);
        lemma_name_order_equal(labels, lower);
        lemma_name_order_equal(lower, lower);
        lemma_name_order_equal(lower, labels);
        lemma_name_order_lower(labels, lower);
        lemma_name_text_lower(labels, labels.len() - 0);
        lemma_text_round_trip(lower);
        lemma_wire_of_len(lower);
        assert(wire_of(lower).subrange(0, wire_of(lower).len() - 0) =~= wire_of(lower));
        lemma_scratch_reads_name(wire_of(lower), 0, lower);
    }
    let mut scratch1 = ScratchName::new();
    match scratch1.from_wire(wire, start) {
        Ok(_) => {},
        Err(_) => {
            return false;
        },
    }
    if !eq_any_names(&wire_labels, &scratch1) {
        return false;
    }
    let heap1 = HeapName::from(&wire_labels);
    let heap2 = HeapName::from(&scratch1);
    if !same_bytes(heap1.name(), heap2.name()) {
        return false;
    }
    if !eq_any_names(&heap1, &heap2) || !eq_any_names(&wire_labels, &heap2) || !eq_any_names(
        &heap1,
        &scratch1,
    ) {
        return false;
    }
    let text1 = lower_bytes(wire_labels.text_bytes().as_slice());
    let text2 = scratch1.text_bytes();
    if !same_bytes(text1.as_slice(), text2.as_slice()) {
        return false;
    }
    let mut scratch2 = ScratchName::new();
    match scratch2.from_text(text1.as_slice()) {
        Ok(_) => {},
        Err(_) => {
            return false;
        },
    }
    if !eq_any_names(&scratch1, &scratch2) {
        return false;
    }
    let string2 = scratch1.to_text();
    let heap3 = match HeapName::try_from(string2.as_str()) {
        Ok(heap) => heap,
        Err(_) => {
            return false;
        },
    };
    if !eq_any_names(&scratch2, &heap3) || !eq_any_names(&wire_labels, &heap3) {
        return false;
    }
    let string3 = heap3.to_text();
    proof {
        vstd::utf8::is_ascii_chars_encode_utf8(string2@);
        vstd::utf8::is_ascii_chars_encode_utf8(string3@);
        assert(string2@ =~= string3@);
    }
    if string2 != string3 {
        return false;
    }
    let heap4 = match HeapName::try_from(scratch1.name()) {
        Ok(heap) => heap,
        Err(_) => {
            return false;
        },
    };
    eq_any_names(&scratch1, &heap4) && eq_any_names(&heap3, &heap4)
}

/// Read a name from `text` as a scratch name and as an owned name, and say
/// whether they agreed: on the same name where the name is all of the
/// text, and else on the owned name being refused for what follows the
/// name. They always do.
pub fn exercise_text(text: &str) -> (same: bool)
    ensures
        same,
{
    let bytes = text.as_bytes();
    let mut scratch = ScratchName::new();
    match scratch.from_text(bytes) {
        Ok(len) => {
            proof {
                lemma_name_order_equal(scratch.labels(), scratch.labels());
            }
            match HeapName::try_from(text) {
                Ok(heap) => len == bytes.len() && eq_any_names(&scratch, &heap),
                Err(Error::NameTrailing) => len != bytes.len(),
                Err(_) => false,
            }
        },
        Err(_) => HeapName::try_from(text).is_err(),
    }
}

} // verus!
