//! Bitmap layout for DNS qp-trie
//!
//! A name is turned into a trie key: a string of bit positions whose order,
//! byte by byte, is the canonical order of DNS names. The labels of the
//! name are taken from the root end towards the head, the root label
//! itself left out. Each byte of a label becomes its code, and each label is
//! followed by [`SHIFT_NOBYTE`]; one more [`SHIFT_NOBYTE`] ends the key.

use crate::dnsname::DnsLabels;
use crate::dnsname::MAX_NAME;
use crate::dnsname::wire_len;
use crate::error::Error;
use crate::scratchpad::ScratchPad;
use crate::triebits::table::byte_bits;
use crate::triebits::table::byte_to_bits;
use crate::triebits::table::SHIFT_BITMAP;
use crate::triebits::table::SHIFT_NOBYTE;
use crate::triebits::table::SHIFT_OFFSET;
use vstd::prelude::*;

pub mod decode;
pub mod order;
pub mod roundtrip;
pub mod table;

verus! {

/// The most bytes that a trie key is given room for: a slight over-estimate
/// of what the longest name needs.
pub const MAX_TRIENAME: usize = MAX_NAME * 2 + 2;

/// The code of a byte as it stands in a key: one byte or two.
pub open spec fn byte_key(byte: u8) -> Seq<u8> {
    if byte_bits(byte).1 == 0 {
        seq![byte_bits(byte).0]
    } else {
        seq![byte_bits(byte).0, byte_bits(byte).1]
    }
}

/// The codes of the bytes of a label, in their order.
pub open spec fn label_key(label: Seq<u8>) -> Seq<u8>
    decreases label.len(),
{
    if label.len() == 0 {
        Seq::empty()
    } else {
        label_key(label.drop_last()) + byte_key(label.last())
    }
}

/// The part of a key that stands for `labels`: last label first, and
/// [`SHIFT_NOBYTE`] behind each.
pub open spec fn labels_key(labels: Seq<Seq<u8>>) -> Seq<u8>
    decreases labels.len(),
{
    if labels.len() == 0 {
        Seq::empty()
    } else {
        label_key(labels.last()) + seq![SHIFT_NOBYTE] + labels_key(labels.drop_last())
    }
}

/// The trie key of a name: its labels but for the root label, which is the
/// last, and the [`SHIFT_NOBYTE`] that ends the key.
pub open spec fn name_key(labels: Seq<Seq<u8>>) -> Seq<u8> {
    if labels.len() == 0 {
        seq![SHIFT_NOBYTE]
    } else {
        labels_key(labels.drop_last()) + seq![SHIFT_NOBYTE]
    }
}

/// The codes of the first bytes of a label start the codes of the label.
pub proof fn lemma_label_key_take(label: Seq<u8>, j: int)
    requires
        0 <= j <= label.len(),
    ensures
        label_key(label.take(j)).len() <= label_key(label).len(),
        j < label.len() ==> label_key(label.take(j + 1)) == label_key(label.take(j)) + byte_key(
            label[j],
        ),
        label_key(label).len() <= 2 * label.len(),
    decreases label.len() - j,
{
    if j < label.len() {
        lemma_label_key_take(label, j + 1);
        assert(label.take(j + 1).drop_last() =~= label.take(j));
        if j == 0 {
            assert(label.take(0) =~= Seq::<u8>::empty());
        }
    } else {
        assert(label.take(j) =~= label);
        lemma_label_key_len(label);
    }
}

/// No byte takes more than two bytes of a key.
pub proof fn lemma_label_key_len(label: Seq<u8>)
    ensures
        label_key(label).len() <= 2 * label.len(),
    decreases label.len(),
{
    if label.len() > 0 {
        lemma_label_key_len(label.drop_last());
    }
}

/// The part of a key for the labels from one on is followed by the part for
/// the label before it.
pub proof fn lemma_labels_key_skip(labels: Seq<Seq<u8>>, a: int)
    requires
        0 <= a <= labels.len(),
    ensures
        labels_key(labels.skip(a)).len() <= labels_key(labels).len(),
        a < labels.len() ==> labels_key(labels.skip(a)) == labels_key(labels.skip(a + 1))
            + label_key(labels[a]) + seq![SHIFT_NOBYTE],
    decreases a,
{
    if a < labels.len() {
        lemma_labels_key_front(labels[a], labels.skip(a + 1));
        assert(seq![labels[a]] + labels.skip(a + 1) =~= labels.skip(a));
    }
    if a > 0 {
        lemma_labels_key_skip(labels, a - 1);
    } else {
        assert(labels.skip(0) =~= labels);
    }
}

/// The part of a key for a label and those behind it is the part for those
/// behind it, and then the label.
pub proof fn lemma_labels_key_front(first: Seq<u8>, rest: Seq<Seq<u8>>)
    ensures
        labels_key(seq![first] + rest) == labels_key(rest) + label_key(first) + seq![
            SHIFT_NOBYTE,
        ],
    decreases rest.len(),
{
    let all = seq![first] + rest;
    if rest.len() == 0 {
        assert(all.drop_last() =~= Seq::<Seq<u8>>::empty());
        assert(all.last() == first);
        assert(labels_key(all.drop_last()) =~= Seq::<u8>::empty());
        assert(labels_key(rest) =~= Seq::<u8>::empty());
        assert(labels_key(all) == label_key(first) + seq![SHIFT_NOBYTE] + labels_key(
            all.drop_last(),
        ));
        assert(labels_key(all) =~= labels_key(rest) + label_key(first) + seq![SHIFT_NOBYTE]);
    } else {
        lemma_labels_key_front(first, rest.drop_last());
        assert(all.drop_last() =~= seq![first] + rest.drop_last());
        assert(all.last() == rest.last());
        let tail = labels_key(rest.drop_last());
        let head = label_key(rest.last()) + seq![SHIFT_NOBYTE];
        let more = label_key(first) + seq![SHIFT_NOBYTE];
        assert(labels_key(all) == head + labels_key(all.drop_last()));
        assert(labels_key(all.drop_last()) =~= tail + more);
        assert(labels_key(rest) == head + tail);
        assert(head + (tail + more) =~= (head + tail) + more);
        assert(labels_key(rest) + label_key(first) + seq![SHIFT_NOBYTE] =~= (head + tail) + more);
    }
}

/// A key is less than twice as long as the name on the wire.
pub proof fn lemma_labels_key_len(labels: Seq<Seq<u8>>)
    ensures
        labels_key(labels).len() <= 2 * wire_len(labels),
    decreases labels.len(),
{
    if labels.len() > 0 {
        lemma_labels_key_len(labels.drop_last());
        lemma_label_key_len(labels.last());
    }
}

/// A byte of a key is the end of a label or the bit position of a code.
pub open spec fn is_key_byte(byte: u8) -> bool {
    byte == SHIFT_NOBYTE || SHIFT_BITMAP <= byte < SHIFT_OFFSET
}

/// Every byte in the part of a key for some labels is the end of a label
/// or the bit position of a code; the bit position that marks a branch is
/// not among them.
pub proof fn lemma_key_alphabet(labels: Seq<Seq<u8>>)
    ensures
        forall|i: int|
            0 <= i < labels_key(labels).len() ==> is_key_byte(#[trigger] labels_key(labels)[i]),
        forall|i: int|
            0 <= i < name_key(labels).len() ==> is_key_byte(#[trigger] name_key(labels)[i]),
    decreases labels.len(),
{
    if labels.len() > 0 {
        lemma_key_alphabet(labels.drop_last());
        lemma_label_alphabet(labels.last());
        let first = label_key(labels.last());
        let rest = labels_key(labels.drop_last());
        assert forall|i: int| 0 <= i < labels_key(labels).len() implies is_key_byte(
            #[trigger] labels_key(labels)[i],
        ) by {
            if i < first.len() {
                assert(labels_key(labels)[i] == first[i]);
            } else if i > first.len() {
                assert(labels_key(labels)[i] == rest[i - first.len() - 1]);
            }
        }
        assert forall|i: int| 0 <= i < name_key(labels).len() implies is_key_byte(
            #[trigger] name_key(labels)[i],
        ) by {
            if i < rest.len() {
                assert(name_key(labels)[i] == rest[i]);
            }
        }
    }
}

/// Every byte among the codes of a label is the bit position of a code.
pub proof fn lemma_label_alphabet(label: Seq<u8>)
    ensures
        forall|i: int|
            0 <= i < label_key(label).len() ==> SHIFT_BITMAP <= (#[trigger] label_key(label)[i])
                < SHIFT_OFFSET,
    decreases label.len(),
{
    if label.len() > 0 {
        lemma_label_alphabet(label.drop_last());
        crate::triebits::table::lemma_bits_range(label.last());
        let front = label_key(label.drop_last());
        let code = byte_key(label.last());
        assert forall|i: int| 0 <= i < label_key(label).len() implies SHIFT_BITMAP <= (
        #[trigger] label_key(label)[i]) < SHIFT_OFFSET by {
            if i < front.len() {
                assert(label_key(label)[i] == front[i]);
            } else {
                assert(label_key(label)[i] == code[i - front.len()]);
            }
        }
    }
}

/// A DNS name as a trie key.
#[derive(Debug)]
pub struct TrieName {
    key: ScratchPad<u8, MAX_TRIENAME>,
}

impl TrieName {
    /// The bytes of the key.
    pub closed spec fn view(&self) -> Seq<u8> {
        self.key@
    }

    /// The key is no longer than the room that it is given.
    pub open spec fn wf(&self) -> bool {
        self@.len() <= MAX_TRIENAME
    }

    /// An empty key, to be filled from a name.
    pub fn new() -> (key: Self)
        ensures
            key.wf(),
            key@.len() == 0,
    {
        TrieName { key: ScratchPad::new() }
    }

    /// A slice covering the key.
    pub fn as_slice(&self) -> (slice: &[u8])
        ensures
            slice@ == self@,
    {
        self.key.as_slice()
    }

    /// Forget the key.
    pub fn clear(&mut self)
        ensures
            final(self).wf(),
            final(self)@.len() == 0,
    {
        self.key.clear();
    }

    /// Append the code of one byte to the key.
    fn push_byte(&mut self, byte: u8) -> (r: Result<(), Error>)
        requires
            old(self).wf(),
        ensures
            final(self).wf(),
            match r {
                Ok(()) => final(self)@ == old(self)@ + byte_key(byte),
                Err(e) => e == Error::ScratchOverflow && old(self)@.len() + byte_key(byte).len()
                    > MAX_TRIENAME,
            },
    {
        let (one, two) = byte_to_bits(byte);
        match self.key.push(one) {
            Ok(()) => {},
            Err(e) => {
                return Err(e);
            },
        }
        if two > 0 {
            match self.key.push(two) {
                Ok(()) => {},
                Err(e) => {
                    return Err(e);
                },
            }
        }
        assert(self.key@ =~= old(self).key@ + byte_key(byte));
        Ok(())
    }

    /// Make the key of a name, in place of what the key was before.
    ///
    /// The key of a DNS name always fits. The labels of something longer
    /// than a DNS name may not, and then the key is left empty.
    pub fn from_dns_name<T: DnsLabels>(&mut self, name: &T) -> (r: Result<(), Error>)
        requires
            name.wf(),
        ensures
            final(self).wf(),
            match r {
                Ok(()) => final(self)@ == name_key(name.labels()),
                Err(e) => e == Error::ScratchOverflow && name_key(name.labels()).len()
                    > MAX_TRIENAME && final(self)@.len() == 0,
            },
            wire_len(name.labels()) <= MAX_NAME ==> r is Ok,
    {
        let ghost labels = name.labels();
        let ghost inner = if labels.len() > 0 {
            labels.drop_last()
        } else {
            labels
        };
        self.clear();
        let labs = name.labs();
        proof {
            if labs > 0 {
                lemma_labels_key_len(inner);
                assert(inner.skip(inner.len() as int) =~= Seq::<Seq<u8>>::empty());
                crate::dnsname::index::lemma_wire_len_take(labels, labs - 1);
                assert(labels.take(labs - 1) =~= inner);
            }
        }
        // Skip the root label by starting at label 1
        let mut lab: usize = 1;
        while lab < labs
            invariant
                name.wf(),
                labels == name.labels(),
                labs == labels.len(),
                labs > 0 ==> inner == labels.drop_last(),
                wire_len(labels) <= MAX_NAME ==> labels_key(inner).len() < MAX_TRIENAME,
                1 <= lab,
                labs > 0 ==> lab <= labs,
                self.wf(),
                labs > 0 ==> self@ == labels_key(inner.skip(labs - lab)),
                labs == 0 ==> self@.len() == 0,
            decreases labs - lab,
        {
            let ghost at = labs - 1 - lab;
            let text = name.rlabel(lab).unwrap();
            let ghost before = self@;
            proof {
                assert(text@ == inner[at]);
                lemma_labels_key_skip(inner, at);
                lemma_labels_key_skip(inner, at + 1);
                assert(text@.take(0) =~= Seq::<u8>::empty());
            }
            let mut i: usize = 0;
            while i < text.len()
                invariant
                    i <= text@.len(),
                    self.wf(),
                    self@ == before + label_key(text@.take(i as int)),
                    labels_key(inner).len() >= before.len() + label_key(text@).len() + 1,
                    labels.len() > 0,
                    labels == name.labels(),
                    inner == labels.drop_last(),
                    wire_len(labels) <= MAX_NAME ==> labels_key(inner).len() < MAX_TRIENAME,
                decreases text@.len() - i,
            {
                proof {
                    lemma_label_key_take(text@, i as int);
                    lemma_label_key_take(text@, i + 1);
                }
                match self.push_byte(text[i]) {
                    Ok(()) => {},
                    Err(e) => {
                        self.clear();
                        return Err(e);
                    },
                }
                i += 1;
            }
            proof {
                assert(text@.take(text@.len() as int) =~= text@);
            }
            match self.key.push(SHIFT_NOBYTE) {
                Ok(()) => {},
                Err(e) => {
                    self.clear();
                    return Err(e);
                },
            }
            lab += 1;
        }
        proof {
            if labs > 0 {
                assert(inner.skip(0) =~= inner);
            }
        }
        // terminator is a double NOBYTE
        match self.key.push(SHIFT_NOBYTE) {
            Ok(()) => Ok(()),
            Err(e) => {
                self.clear();
                Err(e)
            },
        }
    }
}

} // verus!
