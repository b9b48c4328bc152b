//! A name with an index of its labels
//!
//! Two of the representations keep a name as its bytes in uncompressed wire
//! format, beside the position of each label's length byte. This module says
//! when such a pair belongs together, and what follows from that.

use crate::dnsname::lower_byte;
use crate::dnsname::lower_label;
use crate::dnsname::lower_name;
use crate::dnsname::MAX_LLEN;
use crate::dnsname::scan::label_at;
use crate::dnsname::starts_of;
use crate::dnsname::wire_len;
use crate::dnsname::wire_of;
use vstd::prelude::*;

verus! {

/// `lpos` holds the positions of the labels of which `name` is made: the
/// first label starts the name, each label ends where the next starts, the
/// last ends the name, and none is longer than a label may be.
pub open spec fn indexed(lpos: Seq<u8>, name: Seq<u8>) -> bool {
    &&& lpos.len() == 0 ==> name.len() == 0
    &&& lpos.len() > 0 ==> lpos[0] == 0 && lpos.last() + 1 + name[lpos.last() as int]
        == name.len()
    &&& forall|i: int|
        0 <= i < lpos.len() ==> (#[trigger] lpos[i]) < name.len() && name[lpos[i] as int]
            <= MAX_LLEN
    &&& forall|i: int, j: int|
        0 <= i < lpos.len() && j == i + 1 && j < lpos.len() ==> (#[trigger] lpos[i]) + 1
            + name[lpos[i] as int] == #[trigger] lpos[j]
}

/// The texts of the labels of an indexed name.
pub open spec fn indexed_labels(lpos: Seq<u8>, name: Seq<u8>) -> Seq<Seq<u8>> {
    Seq::new(lpos.len(), |i: int| label_at(name, lpos[i] as int))
}

/// Appending a label to an indexed name, and its position to the index,
/// gives an indexed name with that one label more.
pub proof fn lemma_indexed_push(lpos: Seq<u8>, name: Seq<u8>, label: Seq<u8>)
    requires
        indexed(lpos, name),
        label.len() <= MAX_LLEN,
        name.len() <= u8::MAX,
    ensures
        indexed(lpos.push(name.len() as u8), name + seq![label.len() as u8] + label),
        indexed_labels(lpos.push(name.len() as u8), name + seq![label.len() as u8] + label)
            == indexed_labels(lpos, name).push(label),
{
    let lpos2 = lpos.push(name.len() as u8);
    let name2 = name + seq![label.len() as u8] + label;
    assert forall|i: int| 0 <= i < lpos2.len() implies (#[trigger] lpos2[i]) < name2.len()
        && name2[lpos2[i] as int] <= MAX_LLEN by {
        if i < lpos.len() {
            assert(lpos2[i] == lpos[i]);
            assert(name2[lpos[i] as int] == name[lpos[i] as int]);
        }
    }
    assert forall|i: int, j: int|
        0 <= i < lpos2.len() && j == i + 1 && j < lpos2.len() implies (#[trigger] lpos2[i]) + 1
        + name2[lpos2[i] as int] == #[trigger] lpos2[j] by {
        assert(lpos2[i] == lpos[i]);
        assert(name2[lpos[i] as int] == name[lpos[i] as int]);
        if j < lpos.len() {
            assert(lpos2[j] == lpos[j]);
        }
    }
    if lpos.len() > 0 {
        assert(lpos2[0] == lpos[0]);
    }
    assert forall|i: int| 0 <= i < lpos2.len() implies indexed_labels(lpos2, name2)[i]
        == indexed_labels(lpos, name).push(label)[i] by {
        if i < lpos.len() {
            assert(lpos2[i] == lpos[i]);
            assert(name2[lpos[i] as int] == name[lpos[i] as int]);
            if i + 1 < lpos.len() {
                assert(lpos[i] + 1 + name[lpos[i] as int] == lpos[i + 1]);
            } else {
                assert(lpos[i] == lpos.last());
            }
            assert(label_at(name2, lpos[i] as int) =~= label_at(name, lpos[i] as int));
        } else {
            assert(label_at(name2, name.len() as int) =~= label);
        }
    }
    assert(indexed_labels(lpos2, name2) =~= indexed_labels(lpos, name).push(label));
}

/// In an indexed name a label ends before any later label starts.
pub proof fn lemma_indexed_order(lpos: Seq<u8>, name: Seq<u8>, i: int, j: int)
    requires
        indexed(lpos, name),
        0 <= i < j < lpos.len(),
    ensures
        lpos[i] + 1 + name[lpos[i] as int] <= lpos[j],
    decreases j - i,
{
    if i + 1 < j {
        lemma_indexed_order(lpos, name, i + 1, j);
        assert(lpos[i] + 1 + name[lpos[i] as int] == lpos[i + 1]);
    }
}

/// An indexed name without its last label is an indexed name.
pub proof fn lemma_indexed_drop_last(lpos: Seq<u8>, name: Seq<u8>)
    requires
        indexed(lpos, name),
        lpos.len() > 0,
    ensures
        indexed(lpos.drop_last(), name.take(lpos.last() as int)),
        indexed_labels(lpos.drop_last(), name.take(lpos.last() as int)) == indexed_labels(
            lpos,
            name,
        ).drop_last(),
        name == name.take(lpos.last() as int) + seq![
            indexed_labels(lpos, name).last().len() as u8,
        ] + indexed_labels(lpos, name).last(),
{
    let k = lpos.len() - 1;
    let lpos0 = lpos.drop_last();
    let cut = lpos[k] as int;
    let name0 = name.take(cut);
    assert forall|i: int| 0 <= i < lpos0.len() implies (#[trigger] lpos0[i]) < name0.len()
        && name0[lpos0[i] as int] <= MAX_LLEN by {
        lemma_indexed_order(lpos, name, i, k);
        assert(lpos0[i] == lpos[i]);
    }
    assert forall|i: int, j: int|
        0 <= i < lpos0.len() && j == i + 1 && j < lpos0.len() implies (#[trigger] lpos0[i]) + 1
        + name0[lpos0[i] as int] == #[trigger] lpos0[j] by {
        lemma_indexed_order(lpos, name, i, k);
        assert(lpos0[i] == lpos[i]);
        assert(lpos0[j] == lpos[j]);
    }
    if k > 0 {
        assert(lpos0.last() == lpos[k - 1]);
        assert(lpos[k - 1] + 1 + name[lpos[k - 1] as int] == lpos[k]);
    }
    if k > 0 {
        lemma_indexed_order(lpos, name, 0, k);
    }
    assert forall|i: int| 0 <= i < lpos0.len() implies indexed_labels(lpos0, name0)[i]
        == indexed_labels(lpos, name).drop_last()[i] by {
        lemma_indexed_order(lpos, name, i, k);
        assert(lpos0[i] == lpos[i]);
        assert(label_at(name0, lpos[i] as int) =~= label_at(name, lpos[i] as int));
    }
    assert(indexed_labels(lpos0, name0) =~= indexed_labels(lpos, name).drop_last());
    let last = indexed_labels(lpos, name).last();
    assert(last == label_at(name, cut));
    assert(name =~= name0 + seq![last.len() as u8] + last);
}

/// An indexed name is the uncompressed wire format of its labels.
pub proof fn lemma_indexed_wire(lpos: Seq<u8>, name: Seq<u8>)
    requires
        indexed(lpos, name),
    ensures
        wire_of(indexed_labels(lpos, name)) == name,
        wire_len(indexed_labels(lpos, name)) == name.len(),
    decreases lpos.len(),
{
    let labels = indexed_labels(lpos, name);
    if lpos.len() == 0 {
        assert(wire_of(labels) =~= name);
    } else {
        lemma_indexed_drop_last(lpos, name);
        lemma_indexed_wire(lpos.drop_last(), name.take(lpos.last() as int));
    }
}

/// The index of an indexed name holds the offset of each label in the
/// uncompressed wire format of its labels.
pub proof fn lemma_indexed_starts(lpos: Seq<u8>, name: Seq<u8>)
    requires
        indexed(lpos, name),
    ensures
        starts_of(indexed_labels(lpos, name)) == lpos.map_values(|p: u8| p as int),
    decreases lpos.len(),
{
    let labels = indexed_labels(lpos, name);
    let starts = lpos.map_values(|p: u8| p as int);
    if lpos.len() > 0 {
        let k = lpos.len() - 1;
        let lpos0 = lpos.drop_last();
        let name0 = name.take(lpos.last() as int);
        lemma_indexed_drop_last(lpos, name);
        lemma_indexed_starts(lpos0, name0);
        lemma_indexed_wire(lpos0, name0);
        assert forall|i: int| 0 <= i < labels.len() implies starts_of(labels)[i] == starts[i] by {
            if i < k {
                assert(labels.take(i) =~= labels.drop_last().take(i));
                assert(starts_of(labels.drop_last())[i] == lpos0.map_values(|p: u8| p as int)[i]);
            } else {
                assert(labels.take(i) =~= labels.drop_last());
            }
        }
    }
    assert(starts_of(labels) =~= starts);
}

/// The bytes of an indexed name decide its index: two indexes of the same
/// name agree on every label that both have.
pub proof fn lemma_indexed_same(first: Seq<u8>, second: Seq<u8>, name: Seq<u8>, i: int)
    requires
        indexed(first, name),
        indexed(second, name),
        0 <= i < first.len(),
        i < second.len(),
    ensures
        first[i] == second[i],
    decreases i,
{
    if i > 0 {
        lemma_indexed_same(first, second, name, i - 1);
        assert(first[i - 1] + 1 + name[first[i - 1] as int] == first[i]);
        assert(second[i - 1] + 1 + name[second[i - 1] as int] == second[i]);
    }
}

/// The bytes of an indexed name decide its index, and so its labels.
pub proof fn lemma_indexed_unique(first: Seq<u8>, second: Seq<u8>, name: Seq<u8>)
    requires
        indexed(first, name),
        indexed(second, name),
    ensures
        first == second,
{
    if first.len() > 0 && second.len() > 0 {
        if first.len() < second.len() {
            let k = first.len() - 1;
            lemma_indexed_same(first, second, name, k);
            assert(first[k] == first.last());
            assert(second[k] + 1 + name[second[k] as int] == second[k + 1]);
        } else if second.len() < first.len() {
            let k = second.len() - 1;
            lemma_indexed_same(first, second, name, k);
            assert(second[k] == second.last());
            assert(first[k] + 1 + name[first[k] as int] == first[k + 1]);
        }
    }
    assert forall|i: int| 0 <= i < first.len() implies first[i] == second[i] by {
        lemma_indexed_same(first, second, name, i);
    }
    assert(first =~= second);
}

/// No byte of the name is an ASCII upper case letter.
pub open spec fn all_lower(name: Seq<u8>) -> bool {
    forall|i: int| 0 <= i < name.len() ==> lower_byte(#[trigger] name[i]) == name[i]
}

/// The labels of an indexed name without upper case letters are in lower
/// case.
pub proof fn lemma_indexed_lower(lpos: Seq<u8>, name: Seq<u8>)
    requires
        indexed(lpos, name),
        all_lower(name),
    ensures
        lower_name(indexed_labels(lpos, name)) == indexed_labels(lpos, name),
{
    let labels = indexed_labels(lpos, name);
    assert forall|i: int| 0 <= i < labels.len() implies lower_label(#[trigger] labels[i])
        == labels[i] by {
        if i + 1 < lpos.len() {
            assert(lpos[i] + 1 + name[lpos[i] as int] == lpos[i + 1]);
        } else {
            assert(lpos[i] == lpos.last());
        }
        assert(lower_label(labels[i]) =~= labels[i]);
    }
    assert(lower_name(labels) =~= labels);
}

/// The first labels of a name take no more bytes than all of them, and one
/// label more takes its length byte and its text more.
pub proof fn lemma_wire_len_take(labels: Seq<Seq<u8>>, k: int)
    requires
        0 <= k <= labels.len(),
    ensures
        wire_len(labels.take(k)) <= wire_len(labels),
        k < labels.len() ==> wire_len(labels.take(k + 1)) == wire_len(labels.take(k)) + 1
            + labels[k].len(),
    decreases labels.len() - k,
{
    if k < labels.len() {
        lemma_wire_len_take(labels, k + 1);
        assert(labels.take(k + 1).drop_last() =~= labels.take(k));
    } else {
        assert(labels.take(k) =~= labels);
    }
}

} // verus!
