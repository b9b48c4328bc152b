//! Temporary copy of a DNS name
//!
//! This kind of name is decompressed and canonicalized to lower case. The
//! name and the positions of its labels are stored in scratch pads, so
//! making one needs no allocation once the pads exist.

use crate::dnsname::DnsLabels;
use crate::dnsname::DnsName;
use crate::dnsname::Dodgy;
use crate::dnsname::FromWire;
use crate::dnsname::index::all_lower;
use crate::dnsname::index::indexed;
use crate::dnsname::index::indexed_labels;
use crate::dnsname::index::lemma_indexed_push;
use crate::dnsname::index::lemma_indexed_starts;
use crate::dnsname::index::lemma_indexed_unique;
use crate::dnsname::index::lemma_indexed_wire;
use crate::dnsname::lower_byte;
use crate::dnsname::lower_label;
use crate::dnsname::lower_name;
use crate::dnsname::MAX_LABS;
use crate::dnsname::MAX_LLEN;
use crate::dnsname::MAX_NAME;
use crate::dnsname::same_bytes;
use crate::dnsname::scan::dodgy_from_wire;
use crate::dnsname::scan::label_at;
use crate::dnsname::scan::LabelFromWire;
use crate::dnsname::scan::labels_at;
use crate::dnsname::scan::scan_name;
use crate::dnsname::scan::spots_inside;
use crate::dnsname::scan::spots_len;
use crate::dnsname::text::escape_byte;
use crate::dnsname::text::has_empty;
use crate::dnsname::text::is_digit;
use crate::dnsname::text::parse_text;
use crate::dnsname::text::text_label;
use crate::dnsname::text::text_name;
use crate::dnsname::to_lower;
use crate::dnsname::valid_name;
use crate::error::Error;
use crate::scratchpad::ScratchPad;
use vstd::prelude::*;

verus! {

/// A DNS name in lower case, held in scratch pads.
#[derive(Debug)]
pub struct ScratchName {
    lpos: ScratchPad<u8, MAX_LABS>,
    name: ScratchPad<u8, MAX_NAME>,
}

/// A scratch name, by the name that says what it is for: a temporary copy
/// of a DNS name.
pub type TempName = ScratchName;

/// Why a scratch name that holds `labs` labels in `nlen` bytes does not take
/// a label of `llen` bytes of which only `avail` can be read; `None` where
/// it takes the label.
///
/// The label is copied byte by byte, so of a label that is both cut short
/// and too long for the pad, whichever shows first is reported.
pub open spec fn scratch_refusal(labs: int, nlen: int, avail: int, llen: int) -> Option<Error> {
    let fits = MAX_NAME - nlen - 1;
    if labs >= MAX_LABS || nlen >= MAX_NAME {
        Some(Error::ScratchOverflow)
    } else if llen <= avail && llen <= fits {
        None
    } else if avail <= fits {
        Some(Error::NameTruncated)
    } else {
        Some(Error::ScratchOverflow)
    }
}

impl ScratchName {
    /// The bytes of the name in uncompressed wire format.
    pub closed spec fn name_bytes(&self) -> Seq<u8> {
        self.name@
    }

    /// The position of each label in the name.
    pub closed spec fn label_index(&self) -> Seq<u8> {
        self.lpos@
    }

    /// An empty scratch name, to be filled by one of the parsers.
    pub fn new() -> (scratch: Self)
        ensures
            scratch.wf(),
            scratch.labels().len() == 0,
    {
        ScratchName { lpos: ScratchPad::new(), name: ScratchPad::new() }
    }

    /// Forget the name.
    pub fn clear(&mut self)
        ensures
            final(self).wf(),
            final(self).labels().len() == 0,
    {
        self.lpos.clear();
        self.name.clear();
    }

    /// Forget the name, and hand the error on.
    pub fn clear_err(&mut self, err: Error) -> (e: Error)
        ensures
            e == err,
            final(self).wf(),
            final(self).labels().len() == 0,
    {
        self.clear();
        err
    }

    /// Append the label of `llen` bytes that starts at `rpos`, in lower
    /// case. A refused label may leave a part of itself behind: the caller
    /// clears the name.
    fn add_label(&mut self, dodgy: Dodgy, rpos: usize, llen: u8) -> (r: Result<(), Error>)
        requires
            old(self).wf(),
            llen <= MAX_LLEN,
            rpos <= dodgy.bytes@.len(),
        ensures
            match r {
                Ok(()) => {
                    &&& scratch_refusal(
                        old(self).labels().len() as int,
                        old(self).name_bytes().len() as int,
                        dodgy.bytes@.len() - rpos,
                        llen as int,
                    ) is None
                    &&& rpos + llen <= dodgy.bytes@.len()
                    &&& final(self).wf()
                    &&& final(self).labels() == old(self).labels().push(
                        lower_label(dodgy.bytes@.subrange(rpos as int, rpos + llen)),
                    )
                    &&& final(self).name_bytes().len() == old(self).name_bytes().len() + 1 + llen
                },
                Err(e) => Some(e) == scratch_refusal(
                    old(self).labels().len() as int,
                    old(self).name_bytes().len() as int,
                    dodgy.bytes@.len() - rpos,
                    llen as int,
                ),
            },
    {
        let nlen = self.name.len();
        let len = dodgy.bytes.len();
        // the pad holds no more than fits in a byte
        let wpos = nlen as u8;
        match self.lpos.push(wpos) {
            Ok(()) => {},
            Err(e) => {
                return Err(e);
            },
        }
        match self.name.push(llen) {
            Ok(()) => {},
            Err(e) => {
                return Err(e);
            },
        }
        let mut i: usize = 0;
        while i < llen as usize
            invariant
                i <= llen,
                len == dodgy.bytes@.len(),
                rpos <= len,
                nlen == old(self).name@.len(),
                nlen < MAX_NAME,
                self.lpos@ == old(self).lpos@.push(wpos),
                self.lpos.wf(),
                self.name.wf(),
                rpos + i <= len,
                self.name@ == old(self).name@ + seq![llen] + lower_label(
                    dodgy.bytes@.subrange(rpos as int, rpos + i),
                ),
            decreases llen - i,
        {
            if i >= len - rpos {
                return Err(Error::NameTruncated);
            }
            let byte = dodgy.bytes[rpos + i];
            match self.name.push(to_lower(byte)) {
                Ok(()) => {},
                Err(e) => {
                    return Err(e);
                },
            }
            assert(lower_label(dodgy.bytes@.subrange(rpos as int, rpos + i + 1)) =~= lower_label(
                dodgy.bytes@.subrange(rpos as int, rpos + i),
            ).push(lower_byte(byte)));
            i += 1;
        }
        proof {
            let label = lower_label(dodgy.bytes@.subrange(rpos as int, rpos + llen));
            lemma_indexed_push(old(self).lpos@, old(self).name@, label);
            assert(self.name@ =~= old(self).name@ + seq![label.len() as u8] + label);
        }
        Ok(())
    }

    /// Read the name at `pos` of `wire`, following compression pointers,
    /// and keep it in lower case. On success the result is the index behind
    /// the name. On failure nothing is left of the attempt.
    pub fn from_wire(&mut self, wire: &[u8], pos: usize) -> (r: Result<usize, Error>)
        ensures
            final(self).wf(),
            match scan_name::<ScratchName>(wire@, true, pos as int) {
                Ok((spots, end)) => {
                    &&& r matches Ok(index) && index == end
                    &&& end <= wire@.len()
                    &&& final(self).labels() == lower_name(labels_at(wire@, spots))
                    &&& valid_name(final(self).labels())
                },
                Err(e) => r == Err::<usize, Error>(e) && final(self).labels().len() == 0,
            },
    {
        let dodgy = Dodgy { bytes: wire };
        self.clear();
        assert(self.labels() =~= lower_name(labels_at(wire@, Seq::empty())));
        match dodgy_from_wire(self, dodgy, pos, true) {
            Ok(end) => {
                proof {
                    lemma_indexed_wire(self.lpos@, self.name@);
                }
                Ok(end)
            },
            Err(err) => Err(self.clear_err(err)),
        }
    }
}

impl ScratchName {
    /// Read a name from the start of `text`, and keep it in lower case. On
    /// success the result is the index at which the name ended: that of a
    /// terminator, or the length of the text. On failure nothing is left of
    /// the attempt.
    pub fn from_text(&mut self, text: &[u8]) -> (r: Result<usize, Error>)
        ensures
            final(self).wf(),
            match parse_text(text@) {
                Ok((labels, end)) => {
                    &&& r matches Ok(index) && index == end
                    &&& end <= text@.len()
                    &&& final(self).labels() == labels
                    &&& valid_name(labels)
                },
                Err(e) => r == Err::<usize, Error>(e) && final(self).labels().len() == 0,
            },
    {
        let dodgy = Dodgy { bytes: text };
        self.clear();
        match self.dodgy_from_text(dodgy) {
            Ok(end) => Ok(end),
            Err(err) => Err(self.clear_err(err)),
        }
    }

    fn dodgy_from_text(&mut self, dodgy: Dodgy) -> (r: Result<usize, Error>)
        requires
            old(self).wf(),
            old(self).labels().len() == 0,
        ensures
            match parse_text(dodgy.bytes@) {
                Ok((labels, end)) => {
                    &&& r matches Ok(index) && index == end
                    &&& end <= dodgy.bytes@.len()
                    &&& final(self).wf()
                    &&& final(self).labels() == labels
                    &&& valid_name(labels)
                },
                Err(e) => r == Err::<usize, Error>(e),
            },
    {
        let ghost text = dodgy.bytes@;
        let mut label = ScratchPad::<u8, MAX_LLEN>::new();
        let mut root: usize = 0;
        let mut pos: usize = 0;
        assert(self.labels() =~= Seq::<Seq<u8>>::empty());
        loop
            invariant
                text == dodgy.bytes@,
                self.wf(),
                label.wf(),
                pos <= text.len(),
                root <= self.labels().len(),
                root > 0 <==> has_empty(self.labels()),
                forall|i: int|
                    0 <= i < self.labels().len() ==> (#[trigger] self.labels()[i]).len()
                        <= MAX_LLEN,
                text_name(text, pos as int, self.labels()) == parse_text(text),
            decreases MAX_LABS - self.labels().len(),
        {
            let ghost before = self.labels();
            let more = match label_from_text(&mut label, dodgy, &mut pos) {
                Ok(more) => more,
                Err(e) => {
                    return Err(e);
                },
            };
            if !more {
                let labs = self.labs();
                proof {
                    lemma_indexed_wire(self.lpos@, self.name@);
                }
                if root > 1 || (root > 0 && labs > 1) || labs == 0 {
                    return Err(Error::NameSyntax);
                } else if root == 0 {
                    label.clear();
                    let sound = Dodgy { bytes: label.as_slice() };
                    match self.add_label(sound, 0, 0) {
                        Ok(()) => {},
                        Err(e) => {
                            return Err(e);
                        },
                    }
                    proof {
                        assert(lower_label(sound.bytes@.subrange(0, 0)) =~= Seq::<u8>::empty());
                        lemma_indexed_wire(self.lpos@, self.name@);
                        assert forall|i: int| 0 <= i < self.labels().len() - 1 implies 1 <= (
                        #[trigger] self.labels()[i]).len() <= MAX_LLEN by {
                            assert(self.labels()[i] == before[i]);
                        }
                    }
                }
                return Ok(pos);
            }
            let llen = label.len() as u8;
            let sound = Dodgy { bytes: label.as_slice() };
            proof {
                lemma_indexed_wire(self.lpos@, self.name@);
                assert(sound.bytes@.subrange(0, llen as int) =~= label@);
            }
            match self.add_label(sound, 0, llen) {
                Ok(()) => {},
                Err(e) => {
                    return Err(e);
                },
            }
            if llen == 0 {
                root += 1;
            }
            proof {
                let after = self.labels();
                assert(after.last().len() == llen);
                if has_empty(before) {
                    let i = choose|i: int|
                        0 <= i < before.len() && (#[trigger] before[i]).len() == 0;
                    assert(after[i].len() == 0);
                }
                if has_empty(after) && llen != 0 {
                    let i = choose|i: int| 0 <= i < after.len() && (#[trigger] after[i]).len() == 0;
                    assert(before[i].len() == 0);
                }
            }
        }
    }
}

/// Read one label of a name in text, from `pos` on, into `label`.
///
/// The result says whether there was a label; `pos` is left behind the dot
/// that ended the label, or at the terminator or end of text that did.
pub fn label_from_text(label: &mut ScratchPad<u8, MAX_LLEN>, dodgy: Dodgy, pos: &mut usize) -> (r:
    Result<bool, Error>)
    ensures
        final(label).wf(),
        match text_label(dodgy.bytes@, *old(pos) as int, Seq::empty()) {
            Ok((text, next, more)) => {
                &&& r == Ok::<bool, Error>(more)
                &&& final(label)@ == text
                &&& *final(pos) == next
                &&& *old(pos) <= next
                &&& *old(pos) <= dodgy.bytes@.len() ==> next <= dodgy.bytes@.len()
            },
            Err(e) => r == Err::<bool, Error>(e),
        },
{
    let ghost text = dodgy.bytes@;
    let len = dodgy.bytes.len();
    label.clear();
    loop
        invariant
            text == dodgy.bytes@,
            len == text.len(),
            label.wf(),
            *old(pos) <= *pos,
            *old(pos) <= len ==> *pos <= len,
            text_label(text, *pos as int, label@) == text_label(
                text,
                *old(pos) as int,
                Seq::empty(),
            ),
        decreases len - *pos,
    {
        let byte = match dodgy.get(*pos) {
            Ok(byte) => byte,
            Err(_) => {
                return Ok(!label.is_empty());
            },
        };
        *pos += 1;
        if byte == 0x5C {
            let esc = match dodgy.get(*pos) {
                Ok(esc) => esc,
                Err(e) => {
                    return Err(e);
                },
            };
            if 0x30 <= esc && esc <= 0x39 {
                // RFC 1035 peculiar decimal (not octal!) escapes
                let code = match dodgy.slice(*pos, 3) {
                    Ok(code) => code,
                    Err(e) => {
                        return Err(e);
                    },
                };
                let value = match byte_from_decimal(code[0], code[1], code[2]) {
                    Ok(value) => value,
                    Err(e) => {
                        return Err(e);
                    },
                };
                match label.push(value) {
                    Ok(()) => {},
                    Err(_) => {
                        return Err(Error::LabelLength);
                    },
                }
                *pos += 3;
            } else {
                match label.push(esc) {
                    Ok(()) => {},
                    Err(_) => {
                        return Err(Error::LabelLength);
                    },
                }
                *pos += 1;
            }
        } else if byte == 0x22 {
            // RFC 1035 suggests that a label can be a quoted string,
            // but it seems better to treat that as an error
            return Err(Error::NameQuotes);
        } else if byte == 0x09 || byte == 0x0A || byte == 0x0D || byte == 0x20 || byte == 0x28
            || byte == 0x29 || byte == 0x3B {
            // terminated by RFC 1035 zone file special characters
            *pos -= 1;  // unget terminator
            return Ok(!label.is_empty());
        } else if byte == 0x2E {
            // always add a label when we see a delimiter
            return Ok(true);
        } else {
            match label.push(byte) {
                Ok(()) => {},
                Err(_) => {
                    return Err(Error::LabelLength);
                },
            }
        }
    }
}

/// The byte that three characters stand for as a decimal number, the first
/// of which is a digit.
fn byte_from_decimal(a: u8, b: u8, c: u8) -> (r: Result<u8, Error>)
    requires
        is_digit(a),
    ensures
        r == escape_byte(a, b, c),
{
    let hundreds: u16 = (a - 0x30) as u16;
    if !(0x30 <= b && b <= 0x39) {
        return Err(Error::EscapeBad(hundreds));
    }
    let tens: u16 = hundreds * 10 + (b - 0x30) as u16;
    if !(0x30 <= c && c <= 0x39) {
        return Err(Error::EscapeBad(tens));
    }
    let value: u16 = tens * 10 + (c - 0x30) as u16;
    if value > 255 {
        Err(Error::EscapeBad(value))
    } else {
        Ok(value as u8)
    }
}

impl LabelFromWire for ScratchName {
    open spec fn holds(&self, wire: Seq<u8>, spots: Seq<int>) -> bool {
        &&& self.wf()
        &&& spots_inside(wire, spots)
        &&& self.labels() == lower_name(labels_at(wire, spots))
        &&& self.name_bytes().len() == spots_len(wire, spots)
    }

    open spec fn refusal(wire: Seq<u8>, spots: Seq<int>, pos: int) -> Option<Error> {
        scratch_refusal(
            spots.len() as int,
            spots_len(wire, spots),
            wire.len() - (pos + 1),
            wire[pos] as int,
        )
    }

    fn label_from_wire(
        &mut self,
        dodgy: Dodgy,
        pos: usize,
        llen: u8,
        Ghost(spots): Ghost<Seq<int>>,
    ) -> (r: Result<(), Error>) {
        let len = dodgy.bytes.len();
        // skip length byte
        let r = self.add_label(dodgy, pos + 1, llen);
        proof {
            if r is Ok {
                let more = spots.push(pos as int);
                assert(more.drop_last() =~= spots);
                assert(lower_name(labels_at(dodgy.bytes@, more)) =~= lower_name(
                    labels_at(dodgy.bytes@, spots),
                ).push(lower_label(label_at(dodgy.bytes@, pos as int))));
            }
        }
        r
    }
}

impl DnsLabels for ScratchName {
    open spec fn wf(&self) -> bool {
        &&& self.label_index().len() <= MAX_LABS
        &&& self.name_bytes().len() <= MAX_NAME
        &&& indexed(self.label_index(), self.name_bytes())
        &&& all_lower(self.name_bytes())
    }

    open spec fn labels(&self) -> Seq<Seq<u8>> {
        indexed_labels(self.label_index(), self.name_bytes())
    }

    fn labs(&self) -> (labs: usize) {
        self.lpos.len()
    }

    fn nlen(&self) -> (nlen: usize) {
        proof {
            lemma_indexed_wire(self.lpos@, self.name@);
        }
        self.name.len()
    }

    fn label(&self, lab: usize) -> (label: Option<&[u8]>) {
        let lpos = self.lpos.as_slice();
        let name = self.name.as_slice();
        if lab < lpos.len() {
            let pos = lpos[lab] as usize;
            let len = name[pos] as usize;
            proof {
                if lab + 1 < lpos@.len() {
                    assert(lpos@[lab as int] + 1 + name@[pos as int] == lpos@[lab + 1]);
                } else {
                    assert(lpos@[lab as int] == lpos@.last());
                }
            }
            Some(vstd::slice::slice_subrange(name, pos + 1, pos + 1 + len))
        } else {
            None
        }
    }
}

impl PartialEq for ScratchName {
    /// Two scratch names are equal when they hold the same bytes.
    fn eq(&self, other: &Self) -> (same: bool) {
        same_bytes(self.name.as_slice(), other.name.as_slice())
    }
}

impl vstd::std_specs::cmp::PartialEqSpecImpl for ScratchName {
    open spec fn obeys_eq_spec() -> bool {
        true
    }

    open spec fn eq_spec(&self, other: &Self) -> bool {
        self.name_bytes() == other.name_bytes()
    }
}

impl ScratchName {
    /// Scratch names hold the same bytes just when they hold the same
    /// labels.
    pub proof fn lemma_eq_is_same_labels(&self, other: &Self)
        requires
            self.wf(),
            other.wf(),
        ensures
            (self.name_bytes() == other.name_bytes()) == (self.labels() == other.labels()),
    {
        lemma_indexed_wire(self.lpos@, self.name@);
        lemma_indexed_wire(other.lpos@, other.name@);
        if self.name@ == other.name@ {
            lemma_indexed_unique(self.lpos@, other.lpos@, self.name@);
        }
    }
}

impl DnsName for ScratchName {
    fn name(&self) -> (name: &[u8]) {
        proof {
            lemma_indexed_wire(self.lpos@, self.name@);
        }
        self.name.as_slice()
    }

    fn lpos(&self) -> (lpos: &[u8]) {
        proof {
            lemma_indexed_starts(self.lpos@, self.name@);
        }
        self.lpos.as_slice()
    }
}

impl<'w> FromWire<'w> for ScratchName {
    open spec fn parsed(wire: Seq<u8>, pos: int) -> Result<(Seq<Seq<u8>>, int), Error> {
        match scan_name::<ScratchName>(wire, true, pos) {
            Ok((spots, end)) => Ok((lower_name(labels_at(wire, spots)), end)),
            Err(e) => Err(e),
        }
    }

    fn from_wire(&mut self, wire: &'w [u8], pos: usize) -> (r: Result<usize, Error>) {
        ScratchName::from_wire(self, wire, pos)
    }
}

} // verus!
