//! DNS names
//!
//! A DNS name is a sequence of labels, the last of which is the empty label
//! of the root zone. This module holds what the representations of a name
//! share: the limits of the protocol, the mathematical model of a name, the
//! traits through which a name is read, and the state machine that walks a
//! name on the wire.
//!
//! Terminology:
//!
//!   * label: the text of a label, without its length byte
//!   * labs: the number of labels in a name, the root included
//!   * llen: the length of a label
//!   * lpos: the positions of the labels of a name
//!   * nlen: the length of a name in uncompressed wire format
//!   * wire: a slice of untrustworthy data

use crate::dnsname::text::dot_text;
use crate::dnsname::text::is_ascii_text;
use crate::dnsname::text::label_text;
use crate::dnsname::text::labels_text;
use crate::dnsname::text::name_text;
use crate::dnsname::text::write_text;
use crate::error::Error;
use vstd::prelude::*;

pub mod agree;
pub mod heap;
pub mod index;
pub mod order;
pub mod retext;
pub mod roundtrip;
pub mod scan;
pub mod scratch;
pub mod text;
pub mod wire;

verus! {

/// Maximum length of a DNS name, in octets on the wire.
pub const MAX_NAME: usize = 255;

/// Maximum length of a DNS label, in octets on the wire.
pub const MAX_LLEN: usize = 0x3F;

/// Maximum number of labels in a DNS name.
///
/// Calculated by removing one octet for the root zone, dividing by
/// the smallest possible label, then adding back the root.
pub const MAX_LABS: usize = (MAX_NAME - 1) / 2 + 1;

/// ASCII upper case letters become lower case; every other byte stays.
pub open spec fn lower_byte(b: u8) -> u8 {
    if 0x41 <= b <= 0x5A {
        (b + 0x20) as u8
    } else {
        b
    }
}

/// A label with each of its bytes in lower case.
pub open spec fn lower_label(label: Seq<u8>) -> Seq<u8> {
    Seq::new(label.len(), |i: int| lower_byte(label[i]))
}

/// A name with each of its labels in lower case: its canonical form.
pub open spec fn lower_name(labels: Seq<Seq<u8>>) -> Seq<Seq<u8>> {
    Seq::new(labels.len(), |i: int| lower_label(labels[i]))
}

/// The length of a sequence of labels in uncompressed wire format: one
/// length byte for each label, and its text.
pub open spec fn wire_len(labels: Seq<Seq<u8>>) -> nat
    decreases labels.len(),
{
    if labels.len() == 0 {
        0
    } else {
        wire_len(labels.drop_last()) + 1 + labels.last().len()
    }
}

/// A sequence of labels in uncompressed wire format.
pub open spec fn wire_of(labels: Seq<Seq<u8>>) -> Seq<u8>
    decreases labels.len(),
{
    if labels.len() == 0 {
        Seq::empty()
    } else {
        wire_of(labels.drop_last()) + seq![labels.last().len() as u8] + labels.last()
    }
}

/// The offset of each label's length byte in uncompressed wire format.
pub open spec fn starts_of(labels: Seq<Seq<u8>>) -> Seq<int> {
    Seq::new(labels.len(), |i: int| wire_len(labels.take(i)) as int)
}

/// What makes a sequence of labels a DNS name: it ends with the root label,
/// which is its only empty label; no label is longer than 63 bytes; there
/// are at most 128 labels, and at most 255 bytes on the wire.
pub open spec fn valid_name(labels: Seq<Seq<u8>>) -> bool {
    &&& 1 <= labels.len() <= MAX_LABS
    &&& labels.last().len() == 0
    &&& forall|i: int| 0 <= i < labels.len() - 1 ==> 1 <= (#[trigger] labels[i]).len() <= MAX_LLEN
    &&& wire_len(labels) <= MAX_NAME
}

/// Convert an ASCII upper case letter to lower case.
pub fn to_lower(byte: u8) -> (lower: u8)
    ensures
        lower == lower_byte(byte),
{
    if 0x41 <= byte && byte <= 0x5A {
        byte + 0x20
    } else {
        byte
    }
}

/// An index of the labels of a DNS name
pub trait DnsLabels {
    /// The value is in a state that its own functions leave it in.
    spec fn wf(&self) -> bool;

    /// The text of each label, first label first; empty where no name has
    /// been read.
    spec fn labels(&self) -> Seq<Seq<u8>>;

    /// The number of labels in the name
    fn labs(&self) -> (labs: usize)
        requires
            self.wf(),
        ensures
            labs == self.labels().len(),
    ;

    /// The length of the name in uncompressed wire format
    fn nlen(&self) -> (nlen: usize)
        requires
            self.wf(),
        ensures
            nlen == wire_len(self.labels()),
    ;

    /// A slice covering a label's text, counting from 0 on the left.
    ///
    /// Returns `None` if the label is out of range.
    fn label(&self, lab: usize) -> (label: Option<&[u8]>)
        requires
            self.wf(),
        ensures
            match label {
                Some(text) => lab < self.labels().len() && text@ == self.labels()[lab as int],
                None => lab >= self.labels().len(),
            },
    ;

    /// A slice covering a label's text, counting from the right where 0 is
    /// the root zone.
    ///
    /// Returns `None` if the label is out of range.
    fn rlabel(&self, lab: usize) -> (label: Option<&[u8]>)
        requires
            self.wf(),
        ensures
            match label {
                Some(text) => lab < self.labels().len() && text@ == self.labels()[
                    self.labels().len() - 1 - lab],
                None => lab >= self.labels().len(),
            },
    {
        let labs = self.labs();
        if lab < labs {
            self.label(labs - 1 - lab)
        } else {
            None
        }
    }

    /// The name as text, in ASCII bytes: labels separated by dots, and
    /// whatever is not a letter, a digit, `*`, `-` or `_` escaped with a
    /// backslash.
    fn text_bytes(&self) -> (text: Vec<u8>)
        requires
            self.wf(),
        ensures
            text@ == name_text(self.labels()),
            is_ascii_text(text@),
    {
        let mut text: Vec<u8> = Vec::new();
        let labs = self.labs();
        let mut lab: usize = 0;
        while lab < labs
            invariant
                self.wf(),
                labs == self.labels().len(),
                lab <= labs,
                text@ == labels_text(self.labels(), lab as int),
                is_ascii_text(text@),
            decreases labs - lab,
        {
            let label = self.label(lab).unwrap();
            write_text(&mut text, label);
            if lab == 0 || (labs >= 2 && lab < labs - 2) {
                text.push(0x2E);
            }
            proof {
                assert(text@ =~= labels_text(self.labels(), lab as int) + label_text(label@)
                    + dot_text(lab as int, labs as int));
            }
            lab += 1;
        }
        text
    }

    /// The name as text: labels separated by dots, and whatever is not a
    /// letter, a digit, `*`, `-` or `_` escaped with a backslash. The text is
    /// all ASCII, so its bytes are its characters.
    fn to_text(&self) -> (text: String)
        requires
            self.wf(),
        ensures
            vstd::utf8::is_ascii_chars(text@),
            vstd::utf8::encode_utf8(text@) == name_text(self.labels()),
    {
        let bytes = self.text_bytes();
        let text = string_from_ascii(bytes);
        proof {
            assert(vstd::utf8::is_ascii_chars(text@)) by {
                assert forall|i: int| 0 <= i < text@.len() implies '\0' <= #[trigger] text@[i]
                    <= '\u{7f}' by {
                    assert(bytes@[i] < 0x80);
                }
            }
            vstd::utf8::is_ascii_chars_encode_utf8(text@);
            assert(vstd::utf8::encode_utf8(text@) =~= bytes@);
        }
        text
    }
}

/// `String::from_utf8` turns bytes that are valid UTF-8 into a string of
/// the characters that they encode. ASCII bytes are valid UTF-8, and each
/// encodes the character with its own value.
#[verifier::external_body]
fn string_from_ascii(bytes: Vec<u8>) -> (text: String)
    requires
        is_ascii_text(bytes@),
    ensures
        text@.len() == bytes@.len(),
        forall|i: int| 0 <= i < bytes@.len() ==> (#[trigger] text@[i]) == bytes@[i] as char,
{
    String::from_utf8(bytes).unwrap()
}

/// A DNS name in uncompressed lowercase wire format.
pub trait DnsName: DnsLabels {
    /// A slice covering the name.
    fn name(&self) -> (name: &[u8])
        requires
            self.wf(),
        ensures
            name@ == wire_of(self.labels()),
    ;

    /// A slice containing the positions of the labels in the name.
    fn lpos(&self) -> (lpos: &[u8])
        requires
            self.wf(),
        ensures
            lpos@.map_values(|p: u8| p as int) == starts_of(self.labels()),
    ;
}

/// Parse a DNS name from the wire
pub trait FromWire<'w>: DnsLabels {
    /// What reading the name at `pos` of `wire` comes to: its labels as this
    /// type keeps them and the index behind the name, or the reason why
    /// there is no such name.
    spec fn parsed(wire: Seq<u8>, pos: int) -> Result<(Seq<Seq<u8>>, int), Error>;

    /// Read the name at `pos` of `wire`. On success the result is the index
    /// behind the name. On failure nothing is left of the attempt.
    fn from_wire(&mut self, wire: &'w [u8], pos: usize) -> (r: Result<usize, Error>)
        ensures
            final(self).wf(),
            match Self::parsed(wire@, pos as int) {
                Ok((labels, end)) => {
                    &&& r matches Ok(index) && index == end
                    &&& final(self).labels() == labels
                    &&& valid_name(labels)
                },
                Err(e) => r == Err::<usize, Error>(e) && final(self).labels().len() == 0,
            },
    ;
}

/// Whether two strings of bytes are the same.
pub fn same_bytes(left: &[u8], right: &[u8]) -> (same: bool)
    ensures
        same == (left@ == right@),
{
    if left.len() != right.len() {
        return false;
    }
    let mut i: usize = 0;
    while i < left.len()
        invariant
            left@.len() == right@.len(),
            i <= left@.len(),
            left@.take(i as int) == right@.take(i as int),
        decreases left@.len() - i,
    {
        if left[i] != right[i] {
            return false;
        }
        assert(left@.take(i + 1) =~= left@.take(i as int).push(left@[i as int]));
        assert(right@.take(i + 1) =~= right@.take(i as int).push(right@[i as int]));
        i += 1;
    }
    assert(left@.take(left@.len() as int) =~= left@);
    assert(right@.take(right@.len() as int) =~= right@);
    true
}

/// Wrapper for panic-free indexing into untrusted data
#[derive(Clone, Copy, Debug)]
pub struct Dodgy<'u> {
    pub bytes: &'u [u8],
}

impl<'u> Dodgy<'u> {
    /// The byte at `pos`, if the data reaches that far.
    pub fn get(self, pos: usize) -> (r: Result<u8, Error>)
        ensures
            match r {
                Ok(byte) => pos < self.bytes@.len() && byte == self.bytes@[pos as int],
                Err(e) => e == Error::NameTruncated && pos >= self.bytes@.len(),
            },
    {
        if pos < self.bytes.len() {
            Ok(self.bytes[pos])
        } else {
            Err(Error::NameTruncated)
        }
    }

    /// The `len` bytes from `pos` on, if the data reaches that far.
    pub fn slice(self, pos: usize, len: usize) -> (r: Result<&'u [u8], Error>)
        ensures
            match r {
                Ok(part) => pos + len <= self.bytes@.len() && part@ == self.bytes@.subrange(
                    pos as int,
                    pos + len,
                ),
                Err(e) => e == Error::NameTruncated && pos + len > self.bytes@.len(),
            },
    {
        if pos <= self.bytes.len() && len <= self.bytes.len() - pos {
            Ok(vstd::slice::slice_subrange(self.bytes, pos, pos + len))
        } else {
            Err(Error::NameTruncated)
        }
    }
}

} // verus!
