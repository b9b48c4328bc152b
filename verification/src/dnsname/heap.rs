//! A DNS name owned and allocated on the heap
//!
//! A `HeapName` is intended to be reasonably efficient:
//!
//!   * it includes an index of the label positions, so it doesn't
//!     need to be re-parsed;
//!
//!   * the label index and name share a single allocation, made in
//!     one shot without reallocation.
//!
//! # Layout
//!
//! The allocation contains one byte for the label count, that many bytes
//! for the label positions, then the bytes of the name in lower case.
//! Label positions are counted from the start of the name (a byte is only
//! just big enough for that). The last label is the root zone, so its
//! position is the length of the name minus one.
//!
//! The largest allocation is [`MAX_NAME`] plus [`MAX_LABS`] plus a byte for
//! the label count, 384 bytes in all; the smallest, for the root zone, is
//! two bytes. A `HeapName` is never empty.

use crate::dnsname::DnsLabels;
use crate::dnsname::DnsName;
use crate::dnsname::index::all_lower;
use crate::dnsname::index::indexed;
use crate::dnsname::index::indexed_labels;
use crate::dnsname::index::lemma_indexed_lower;
use crate::dnsname::index::lemma_indexed_push;
use crate::dnsname::index::lemma_indexed_starts;
use crate::dnsname::index::lemma_indexed_wire;
use crate::dnsname::index::lemma_wire_len_take;
use crate::dnsname::lower_byte;
use crate::dnsname::lower_label;
use crate::dnsname::lower_name;
use crate::dnsname::MAX_LABS;
use crate::dnsname::MAX_LLEN;
use crate::dnsname::MAX_NAME;
use crate::dnsname::same_bytes;
use crate::dnsname::scan::labels_at;
use crate::dnsname::scan::scan_name;
use crate::dnsname::scratch::ScratchName;
use crate::dnsname::text::parse_text;
use crate::dnsname::to_lower;
use crate::dnsname::valid_name;
use crate::dnsname::wire_len;
use crate::error::Error;
use vstd::prelude::*;
use vstd::string::StringSliceAdditionalSpecFns;

verus! {

/// A DNS name owned and allocated on the heap
#[derive(Debug)]
pub struct HeapName {
    mem: Vec<u8>,
}

impl HeapName {
    /// The bytes of the allocation: label count, label positions, name.
    pub closed spec fn bytes(&self) -> Seq<u8> {
        self.mem@
    }

    /// The part of the allocation that holds the label positions.
    pub open spec fn index_part(&self) -> Seq<u8> {
        self.bytes().subrange(1, 1 + self.bytes()[0])
    }

    /// The part of the allocation that holds the name.
    pub open spec fn name_part(&self) -> Seq<u8> {
        self.bytes().subrange(1 + self.bytes()[0], self.bytes().len() as int)
    }

    /// Make an owned copy, in lower case, of a name in any representation.
    pub fn from<N: DnsLabels>(name: &N) -> (heap: HeapName)
        requires
            name.wf(),
            valid_name(name.labels()),
        ensures
            heap.wf(),
            heap.labels() == lower_name(name.labels()),
    {
        let ghost labels = name.labels();
        let labs = name.labs();
        let nlen = name.nlen();
        let mut mem: Vec<u8> = Vec::with_capacity(1 + labs + nlen);
        mem.push(labs as u8);
        let ghost head = mem@;
        let mut pos: usize = 0;
        let mut lab: usize = 0;
        while lab < labs
            invariant
                name.wf(),
                labels == name.labels(),
                valid_name(labels),
                labs == labels.len(),
                lab <= labs,
                head == seq![labs as u8],
                pos == wire_len(labels.take(lab as int)),
                mem@.len() == 1 + lab,
                mem@.subrange(0, 1) == head,
                forall|i: int|
                    0 <= i < lab ==> (#[trigger] mem@[1 + i]) == wire_len(labels.take(i)),
            decreases labs - lab,
        {
            proof {
                lemma_wire_len_take(labels, lab as int);
                lemma_wire_len_take(labels, lab + 1);
            }
            let text = name.label(lab).unwrap();
            mem.push(pos as u8);
            pos = pos + 1 + text.len();
            lab += 1;
        }
        let ghost index = mem@.subrange(1, 1 + labs);
        let ghost mut lp: Seq<u8> = Seq::empty();
        let ghost mut nm: Seq<u8> = Seq::empty();
        assert forall|i: int| 0 <= i < labs implies (#[trigger] index[i]) == wire_len(
            labels.take(i),
        ) by {
            assert(index[i] == mem@[1 + i]);
        }
        assert(mem@ =~= head + index + nm);
        assert(indexed_labels(lp, nm) =~= lower_name(labels).take(0));
        lab = 0;
        while lab < labs
            invariant
                name.wf(),
                labels == name.labels(),
                valid_name(labels),
                labs == labels.len(),
                lab <= labs,
                head == seq![labs as u8],
                index.len() == labs,
                forall|i: int| 0 <= i < labs ==> (#[trigger] index[i]) == wire_len(labels.take(i)),
                mem@ == head + index + nm,
                nm.len() == wire_len(labels.take(lab as int)),
                lp == index.take(lab as int),
                indexed(lp, nm),
                all_lower(nm),
                indexed_labels(lp, nm) == lower_name(labels).take(lab as int),
            decreases labs - lab,
        {
            proof {
                lemma_wire_len_take(labels, lab as int);
                lemma_wire_len_take(labels, lab + 1);
            }
            let text = name.label(lab).unwrap();
            let llen = text.len();
            assert(llen <= MAX_LLEN) by {
                if lab + 1 < labs {
                    assert(labels[lab as int].len() <= MAX_LLEN);
                } else {
                    assert(labels[lab as int] == labels.last());
                }
            }
            mem.push(llen as u8);
            let mut i: usize = 0;
            while i < llen
                invariant
                    i <= llen,
                    llen == text@.len(),
                    llen <= MAX_LLEN,
                    mem@ == head + index + nm + seq![llen as u8] + lower_label(
                        text@.subrange(0, i as int),
                    ),
                decreases llen - i,
            {
                mem.push(to_lower(text[i]));
                assert(lower_label(text@.subrange(0, i + 1)) =~= lower_label(
                    text@.subrange(0, i as int),
                ).push(lower_byte(text@[i as int])));
                i += 1;
            }
            proof {
                let label = lower_label(text@);
                assert(text@.subrange(0, llen as int) =~= text@);
                lemma_indexed_push(lp, nm, label);
                assert(index.take(lab + 1) =~= index.take(lab as int).push(index[lab as int]));
                assert(lower_name(labels).take(lab + 1) =~= lower_name(labels).take(
                    lab as int,
                ).push(label));
                let nm2 = nm + seq![label.len() as u8] + label;
                assert forall|j: int| 0 <= j < nm2.len() implies lower_byte(#[trigger] nm2[j])
                    == nm2[j] by {
                    if j < nm.len() {
                        assert(nm2[j] == nm[j]);
                    }
                }
                lp = lp.push(nm.len() as u8);
                nm = nm2;
                assert(mem@ =~= head + index + nm);
            }
            lab += 1;
        }
        proof {
            assert(lab == labs);
            assert(lp =~= index);
            assert(labels.take(labs as int) =~= labels);
            assert(lower_name(labels).take(labs as int) =~= lower_name(labels));
            lemma_indexed_wire(lp, nm);
            assert(mem@[0] == labs);
            assert(mem@.subrange(1, 1 + labs) =~= lp);
            assert(mem@.subrange(1 + labs, mem@.len() as int) =~= nm);
        }
        HeapName { mem }
    }

    /// The size of the allocation: a byte for the label count, one for each
    /// label, and the name.
    pub fn heap_len(&self) -> (len: usize)
        requires
            self.wf(),
        ensures
            len == self.bytes().len(),
            len == 1 + self.labels().len() + wire_len(self.labels()),
            2 <= len <= 1 + MAX_LABS + MAX_NAME,
    {
        proof {
            lemma_indexed_wire(self.index_part(), self.name_part());
        }
        self.mem.len()
    }

    /// The allocation as it lies in memory.
    pub fn as_bytes(&self) -> (bytes: &[u8])
        ensures
            bytes@ == self.bytes(),
    {
        self.mem.as_slice()
    }
}

impl DnsLabels for HeapName {
    open spec fn wf(&self) -> bool {
        &&& self.bytes().len() >= 2
        &&& 1 <= self.bytes()[0] <= MAX_LABS
        &&& self.bytes().len() > 1 + self.bytes()[0]
        &&& indexed(self.index_part(), self.name_part())
        &&& all_lower(self.name_part())
        &&& valid_name(self.labels())
    }

    open spec fn labels(&self) -> Seq<Seq<u8>> {
        indexed_labels(self.index_part(), self.name_part())
    }

    fn labs(&self) -> (labs: usize) {
        self.mem[0] as usize
    }

    fn nlen(&self) -> (nlen: usize) {
        proof {
            lemma_indexed_wire(self.index_part(), self.name_part());
        }
        let labs = self.mem[0] as usize;
        assert(self.index_part().last() == self.mem@[labs as int]);
        assert(self.labels().last().len() == 0);
        self.mem[labs] as usize + 1
    }

    fn label(&self, lab: usize) -> (label: Option<&[u8]>) {
        let labs = self.mem[0] as usize;
        if lab < labs {
            let ghost lpos = self.index_part();
            let ghost name = self.name_part();
            let pos = self.mem[1 + lab] as usize;
            assert(pos == lpos[lab as int]);
            let len = self.mem[1 + labs + pos] as usize;
            assert(len == name[pos as int]);
            proof {
                if lab + 1 < lpos.len() {
                    assert(lpos[lab as int] + 1 + name[pos as int] == lpos[lab + 1]);
                } else {
                    assert(lpos[lab as int] == lpos.last());
                }
            }
            let start = 1 + labs + pos + 1;
            let text = vstd::slice::slice_subrange(self.mem.as_slice(), start, start + len);
            assert(text@ =~= self.labels()[lab as int]);
            Some(text)
        } else {
            None
        }
    }
}

impl PartialEq for HeapName {
    /// Two owned names are equal when their allocations hold the same
    /// bytes.
    fn eq(&self, other: &Self) -> (same: bool) {
        same_bytes(self.mem.as_slice(), other.mem.as_slice())
    }
}

impl vstd::std_specs::cmp::PartialEqSpecImpl for HeapName {
    open spec fn obeys_eq_spec() -> bool {
        true
    }

    open spec fn eq_spec(&self, other: &Self) -> bool {
        self.bytes() == other.bytes()
    }
}

impl HeapName {
    /// Owned names hold the same bytes just when they hold the same
    /// labels.
    pub proof fn lemma_eq_is_same_labels(&self, other: &Self)
        requires
            self.wf(),
            other.wf(),
        ensures
            (self.bytes() == other.bytes()) == (self.labels() == other.labels()),
    {
        lemma_indexed_wire(self.index_part(), self.name_part());
        lemma_indexed_wire(other.index_part(), other.name_part());
        lemma_indexed_starts(self.index_part(), self.name_part());
        lemma_indexed_starts(other.index_part(), other.name_part());
        if self.labels() == other.labels() {
            assert(self.index_part().len() == other.index_part().len());
            assert(self.index_part() =~= other.index_part()) by {
                assert forall|i: int| 0 <= i < self.index_part().len() implies self.index_part()[i]
                    == other.index_part()[i] by {
                    assert(self.index_part().map_values(|p: u8| p as int)[i]
                        == other.index_part().map_values(|p: u8| p as int)[i]);
                }
            }
            assert(self.bytes() =~= seq![self.bytes()[0]] + self.index_part() + self.name_part());
            assert(other.bytes() =~= seq![other.bytes()[0]] + other.index_part()
                + other.name_part());
        }
    }
}

impl DnsName for HeapName {
    fn name(&self) -> (name: &[u8]) {
        proof {
            lemma_indexed_wire(self.index_part(), self.name_part());
        }
        let labs = self.mem[0] as usize;
        vstd::slice::slice_subrange(self.mem.as_slice(), 1 + labs, self.mem.len())
    }

    fn lpos(&self) -> (lpos: &[u8]) {
        proof {
            lemma_indexed_starts(self.index_part(), self.name_part());
        }
        let labs = self.mem[0] as usize;
        vstd::slice::slice_subrange(self.mem.as_slice(), 1, 1 + labs)
    }
}

impl core::convert::TryFrom<&[u8]> for HeapName {
    type Error = Error;

    /// Read the name at the start of `wire`, following compression
    /// pointers, into a name of its own.
    fn try_from(wire: &[u8]) -> (r: Result<HeapName, Error>)
        ensures
            match scan_name::<ScratchName>(wire@, true, 0) {
                Ok((spots, end)) => r matches Ok(heap) && heap.wf() && heap.labels()
                    == lower_name(labels_at(wire@, spots)),
                Err(e) => r matches Err(err) && err == e,
            },
    {
        let mut scratch = ScratchName::new();
        match scratch.from_wire(wire, 0) {
            Ok(_) => {
                proof {
                    lemma_indexed_lower(scratch.label_index(), scratch.name_bytes());
                }
                Ok(HeapName::from(&scratch))
            },
            Err(e) => Err(e),
        }
    }
}

/// What the conversion gives is said where it is made, over the labels of
/// the name: no spec function can hand out the owned name itself.
impl vstd::std_specs::convert::TryFromSpecImpl<&[u8]> for HeapName {
    open spec fn obeys_try_from_spec() -> bool {
        false
    }

    open spec fn try_from_spec(wire: &[u8]) -> Result<HeapName, Error> {
        Err(Error::NameTruncated)
    }
}

impl core::convert::TryFrom<&str> for HeapName {
    type Error = Error;

    /// Read a name from `text`, all of which must belong to the name.
    fn try_from(text: &str) -> (r: Result<HeapName, Error>)
        ensures
            match parse_text(text.spec_bytes()) {
                Ok((labels, end)) => if end == text.spec_bytes().len() {
                    r matches Ok(heap) && heap.wf() && heap.labels() == labels
                } else {
                    r matches Err(err) && err == Error::NameTrailing
                },
                Err(e) => r matches Err(err) && err == e,
            },
    {
        let mut scratch = ScratchName::new();
        let bytes = text.as_bytes();
        match scratch.from_text(bytes) {
            Ok(end) => {
                if end == bytes.len() {
                    proof {
                        lemma_indexed_lower(scratch.label_index(), scratch.name_bytes());
                    }
                    Ok(HeapName::from(&scratch))
                } else {
                    Err(Error::NameTrailing)
                }
            },
            Err(e) => Err(e),
        }
    }
}

/// What the conversion gives is said where it is made, over the labels of
/// the name: no spec function can hand out the owned name itself.
impl vstd::std_specs::convert::TryFromSpecImpl<&str> for HeapName {
    open spec fn obeys_try_from_spec() -> bool {
        false
    }

    open spec fn try_from_spec(text: &str) -> Result<HeapName, Error> {
        Err(Error::NameTruncated)
    }
}

} // verus!
