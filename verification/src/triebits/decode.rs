//! From a trie key back to the name
//!
//! A key is read label by label. Its labels stand in the order in which
//! they were written, from the root end of the name to its head, so the
//! first label read is the last of the name. Whatever is not the key of a
//! DNS name is refused.

use crate::dnsname::DnsLabels;
use crate::dnsname::heap::HeapName;
use crate::dnsname::lower_label;
use crate::dnsname::lower_name;
use crate::dnsname::MAX_LABS;
use crate::dnsname::MAX_LLEN;
use crate::dnsname::MAX_NAME;
use crate::dnsname::wire_len;
use crate::error::Error;
use crate::triebits::table::bits_byte;
use crate::triebits::table::bits_to_byte;
use crate::triebits::table::lemma_bits_onto;
use crate::triebits::table::SHIFT_NOBYTE;
use crate::triebits::TrieName;
use vstd::prelude::*;

verus! {

/// The label of which `label` has been read, the key standing at `pos`: the
/// whole label and the position behind the [`SHIFT_NOBYTE`] that ends it.
///
/// A byte that is a code by itself gives one byte of the label; any other
/// must be a code together with the byte behind it. There is no label
/// where the key ends before the label does, where a byte belongs to no
/// code, or where the label would be longer than 63 bytes.
pub open spec fn key_label(key: Seq<u8>, pos: int, label: Seq<u8>) -> Option<(Seq<u8>, int)>
    decreases key.len() - pos,
{
    if !(0 <= pos < key.len()) {
        None
    } else if key[pos] == SHIFT_NOBYTE {
        Some((label, pos + 1))
    } else if label.len() >= MAX_LLEN {
        None
    } else if bits_byte(key[pos], 0) is Some {
        key_label(key, pos + 1, label.push(bits_byte(key[pos], 0).unwrap()))
    } else if pos + 1 < key.len() && bits_byte(key[pos], key[pos + 1]) is Some {
        key_label(key, pos + 2, label.push(bits_byte(key[pos], key[pos + 1]).unwrap()))
    } else {
        None
    }
}

/// The labels of a name before its root label, of which `labels` have been
/// read and take `nlen` bytes on the wire, the key standing at `pos`.
///
/// A [`SHIFT_NOBYTE`] where a label would start ends the key, and nothing
/// may follow it. Each label read goes in front of those read before.
/// There are no such labels where, with the root label, they would be more
/// than 128 or take more than 255 bytes.
pub open spec fn key_labels(key: Seq<u8>, pos: int, labels: Seq<Seq<u8>>, nlen: int) -> Option<
    Seq<Seq<u8>>,
>
    decreases MAX_LABS - labels.len(),
{
    if !(0 <= pos < key.len()) {
        None
    } else if key[pos] == SHIFT_NOBYTE {
        if pos + 1 == key.len() {
            Some(labels)
        } else {
            None
        }
    } else if labels.len() + 1 >= MAX_LABS {
        None
    } else {
        match key_label(key, pos, Seq::empty()) {
            None => None,
            Some((label, next)) => if nlen + label.len() + 2 > MAX_NAME {
                None
            } else {
                key_labels(key, next, seq![label] + labels, nlen + 1 + label.len())
            },
        }
    }
}

/// The name that a trie key stands for, if it is the key of a name.
pub open spec fn key_name(key: Seq<u8>) -> Option<Seq<Seq<u8>>> {
    match key_labels(key, 0, Seq::empty(), 0) {
        Some(labels) => Some(labels.push(Seq::empty())),
        None => None,
    }
}

/// A label in front of others takes its length byte and its text more on
/// the wire.
pub proof fn lemma_wire_len_front(first: Seq<u8>, rest: Seq<Seq<u8>>)
    ensures
        wire_len(seq![first] + rest) == 1 + first.len() + wire_len(rest),
    decreases rest.len(),
{
    let all = seq![first] + rest;
    if rest.len() == 0 {
        assert(all.drop_last() =~= Seq::<Seq<u8>>::empty());
        assert(wire_len(all.drop_last()) == 0);
    } else {
        lemma_wire_len_front(first, rest.drop_last());
        assert(all.drop_last() =~= seq![first] + rest.drop_last());
    }
}

/// The labels read from a key, in the order of the key.
struct KeyLabels {
    texts: Vec<Vec<u8>>,
    root: Vec<u8>,
    nlen: usize,
}

impl KeyLabels {
    /// The labels before the root label, in the order of the name.
    closed spec fn inner(&self) -> Seq<Seq<u8>> {
        Seq::new(self.texts@.len(), |i: int| self.texts@[self.texts@.len() - 1 - i]@)
    }
}

impl DnsLabels for KeyLabels {
    closed spec fn wf(&self) -> bool {
        &&& self.texts@.len() < MAX_LABS
        &&& self.root@.len() == 0
        &&& self.nlen == wire_len(self.labels())
    }

    closed spec fn labels(&self) -> Seq<Seq<u8>> {
        self.inner().push(Seq::empty())
    }

    fn labs(&self) -> (labs: usize) {
        self.texts.len() + 1
    }

    fn nlen(&self) -> (nlen: usize) {
        self.nlen
    }

    fn label(&self, lab: usize) -> (label: Option<&[u8]>) {
        let count = self.texts.len();
        if lab < count {
            Some(self.texts[count - 1 - lab].as_slice())
        } else if lab == count {
            Some(self.root.as_slice())
        } else {
            None
        }
    }
}

/// Read one label of a key, from `pos` on.
fn label_from_key(key: &[u8], pos: usize) -> (r: Result<(Vec<u8>, usize), Error>)
    ensures
        match key_label(key@, pos as int, Seq::empty()) {
            Some((label, next)) => {
                &&& r matches Ok(found) && found.0@ == label && found.1 == next
                &&& pos < next <= key@.len()
                &&& label.len() <= MAX_LLEN
                &&& key@[pos as int] != SHIFT_NOBYTE ==> label.len() >= 1
                &&& lower_label(label) == label
            },
            None => r matches Err(e) && e == Error::BugTrieName,
        },
{
    let len = key.len();
    let mut label: Vec<u8> = Vec::new();
    let mut at = pos;
    assert(lower_label(label@) =~= label@);
    loop
        invariant
            len == key@.len(),
            pos <= at,
            at == pos ==> label@.len() == 0,
            at > pos ==> label@.len() >= 1 && pos < len && key@[pos as int] != SHIFT_NOBYTE,
            label@.len() <= MAX_LLEN,
            lower_label(label@) == label@,
            key_label(key@, at as int, label@) == key_label(key@, pos as int, Seq::empty()),
        decreases len - at,
    {
        if at >= len {
            return Err(Error::BugTrieName);
        }
        let one = key[at];
        if one == SHIFT_NOBYTE {
            return Ok((label, at + 1));
        }
        if label.len() >= MAX_LLEN {
            return Err(Error::BugTrieName);
        }
        let byte = match bits_to_byte(one, 0) {
            Some(byte) => {
                proof {
                    lemma_bits_onto(one, 0);
                }
                at = at + 1;
                byte
            },
            None => {
                if at + 1 >= len {
                    return Err(Error::BugTrieName);
                }
                let two = key[at + 1];
                match bits_to_byte(one, two) {
                    Some(byte) => {
                        proof {
                            lemma_bits_onto(one, two);
                        }
                        at = at + 2;
                        byte
                    },
                    None => {
                        return Err(Error::BugTrieName);
                    },
                }
            },
        };
        assert(lower_label(label@.push(byte)) =~= label@.push(byte));
        label.push(byte);
    }
}

impl TrieName {
    /// The name that the key stands for, unless it is the key of no name.
    pub fn make_dns_name(&self) -> (r: Result<HeapName, Error>)
        ensures
            match key_name(self@) {
                Some(labels) => r matches Ok(name) && name.wf() && name.labels() == labels,
                None => r matches Err(e) && e == Error::BugTrieName,
            },
    {
        let key = self.as_slice();
        let len = key.len();
        let mut found = KeyLabels { texts: Vec::new(), root: Vec::new(), nlen: 1 };
        let mut pos: usize = 0;
        proof {
            assert(found.inner() =~= Seq::<Seq<u8>>::empty());
            assert(found.labels().drop_last() =~= found.inner());
        }
        loop
            invariant
                key@ == self@,
                len == key@.len(),
                found.texts@.len() < MAX_LABS,
                found.root@.len() == 0,
                found.nlen == wire_len(found.inner()) + 1,
                found.nlen <= MAX_NAME,
                forall|i: int|
                    0 <= i < found.inner().len() ==> 1 <= (#[trigger] found.inner()[i]).len()
                        <= MAX_LLEN,
                lower_name(found.inner()) == found.inner(),
                key_labels(key@, pos as int, found.inner(), found.nlen - 1) == key_labels(
                    key@,
                    0,
                    Seq::empty(),
                    0,
                ),
            decreases MAX_LABS - found.texts@.len(),
        {
            if pos >= len {
                return Err(Error::BugTrieName);
            }
            if key[pos] == SHIFT_NOBYTE {
                if pos + 1 != len {
                    return Err(Error::BugTrieName);
                }
                proof {
                    let labels = found.labels();
                    assert(labels.drop_last() =~= found.inner());
                    assert forall|i: int| 0 <= i < labels.len() - 1 implies 1 <= (
                    #[trigger] labels[i]).len() <= MAX_LLEN by {
                        assert(labels[i] == found.inner()[i]);
                    }
                    assert(lower_label(Seq::<u8>::empty()) =~= Seq::<u8>::empty());
                    assert(lower_name(labels) =~= labels) by {
                        assert forall|i: int| 0 <= i < labels.len() implies lower_name(labels)[i]
                            == labels[i] by {
                            if i < labels.len() - 1 {
                                assert(lower_name(found.inner())[i] == found.inner()[i]);
                            }
                        }
                    }
                }
                return Ok(HeapName::from(&found));
            }
            if found.texts.len() + 2 > MAX_LABS {
                return Err(Error::BugTrieName);
            }
            let (label, next) = match label_from_key(key, pos) {
                Ok(read) => read,
                Err(e) => {
                    return Err(e);
                },
            };
            if found.nlen + label.len() + 1 > MAX_NAME {
                return Err(Error::BugTrieName);
            }
            proof {
                let before = found.inner();
                let after = seq![label@] + before;
                lemma_wire_len_front(label@, before);
                assert(lower_name(after) =~= after) by {
                    assert forall|i: int| 0 <= i < after.len() implies lower_name(after)[i]
                        == after[i] by {
                        if i > 0 {
                            assert(lower_name(before)[i - 1] == before[i - 1]);
                        }
                    }
                }
                assert forall|i: int| 0 <= i < after.len() implies 1 <= (#[trigger] after[i]).len()
                    <= MAX_LLEN by {
                    if i > 0 {
                        assert(after[i] == before[i - 1]);
                    }
                }
            }
            let ghost before = found.inner();
            found.nlen = found.nlen + 1 + label.len();
            found.texts.push(label);
            pos = next;
            assert(found.inner() =~= seq![label@] + before);
        }
    }
}

} // verus!
