//! A name on the wire reads back as itself
//!
//! Where the uncompressed wire format of a DNS name stands in a buffer,
//! each of the parsers finds that name there, and ends behind it.

use crate::dnsname::FromWire;
use crate::dnsname::index::lemma_wire_len_take;
use crate::dnsname::lower_name;
use crate::dnsname::MAX_LLEN;
use crate::dnsname::MAX_NAME;
use crate::dnsname::scan::label_at;
use crate::dnsname::scan::LabelFromWire;
use crate::dnsname::scan::labels_at;
use crate::dnsname::scan::scan;
use crate::dnsname::scan::scan_name;
use crate::dnsname::scan::spots_len;
use crate::dnsname::scratch::ScratchName;
use crate::dnsname::valid_name;
use crate::dnsname::wire::WireLabels;
use crate::dnsname::wire::WirePos;
use crate::dnsname::wire_len;
use crate::dnsname::wire_of;
use crate::error::Error;
use vstd::prelude::*;

verus! {

/// The uncompressed wire format of `labels` stands at `at` in `wire`.
pub open spec fn name_at(wire: Seq<u8>, at: int, labels: Seq<Seq<u8>>) -> bool {
    &&& 0 <= at
    &&& at + wire_of(labels).len() <= wire.len()
    &&& wire.subrange(at, at + wire_of(labels).len()) == wire_of(labels)
}

/// Where each label of a name stands in a buffer in which the name stands
/// at `at`.
pub open spec fn spots_of(labels: Seq<Seq<u8>>, at: int) -> Seq<int> {
    Seq::new(labels.len(), |i: int| at + wire_len(labels.take(i)))
}

/// The wire format of some labels is as long as [`wire_len`] says.
pub proof fn lemma_wire_of_len(labels: Seq<Seq<u8>>)
    ensures
        wire_of(labels).len() == wire_len(labels),
    decreases labels.len(),
{
    if labels.len() > 0 {
        lemma_wire_of_len(labels.drop_last());
    }
}

/// In the wire format of some labels, none longer than a label may be,
/// each label stands where the labels before it end: first its length,
/// then its text.
pub proof fn lemma_wire_of_label(labels: Seq<Seq<u8>>, k: int)
    requires
        0 <= k < labels.len(),
        forall|i: int| 0 <= i < labels.len() ==> (#[trigger] labels[i]).len() <= MAX_LLEN,
    ensures
        wire_len(labels.take(k)) + 1 + labels[k].len() <= wire_of(labels).len(),
        wire_of(labels)[wire_len(labels.take(k)) as int] == labels[k].len(),
        label_at(wire_of(labels), wire_len(labels.take(k)) as int) == labels[k],
    decreases labels.len(),
{
    let front = labels.drop_last();
    let last = labels.last();
    let wire = wire_of(labels);
    lemma_wire_of_len(front);
    lemma_wire_of_len(labels);
    if k == labels.len() - 1 {
        assert(labels.take(k) =~= front);
        assert(label_at(wire, wire_len(front) as int) =~= last);
    } else {
        assert(labels.take(k) =~= front.take(k));
        lemma_wire_of_label(front, k);
        let start = wire_len(front.take(k)) as int;
        assert(wire[start] == wire_of(front)[start]);
        assert(label_at(wire, start) =~= label_at(wire_of(front), start));
    }
}

/// Where a name stands in a buffer, each of its labels stands at its spot.
pub proof fn lemma_name_at_label(wire: Seq<u8>, at: int, labels: Seq<Seq<u8>>, k: int)
    requires
        name_at(wire, at, labels),
        0 <= k < labels.len(),
        forall|i: int| 0 <= i < labels.len() ==> (#[trigger] labels[i]).len() <= MAX_LLEN,
    ensures
        0 <= spots_of(labels, at)[k],
        spots_of(labels, at)[k] + 1 + labels[k].len() <= at + wire_len(labels),
        at + wire_len(labels) <= wire.len(),
        wire[spots_of(labels, at)[k]] == labels[k].len(),
        label_at(wire, spots_of(labels, at)[k]) == labels[k],
{
    lemma_wire_of_label(labels, k);
    lemma_wire_of_len(labels);
    let inner = wire_of(labels);
    let start = wire_len(labels.take(k)) as int;
    assert(wire.subrange(at, at + inner.len())[start] == inner[start]);
    assert(label_at(wire, at + start) =~= label_at(inner, start)) by {
        assert forall|i: int| 0 <= i < labels[k].len() implies label_at(wire, at + start)[i]
            == label_at(inner, start)[i] by {
            assert(wire.subrange(at, at + inner.len())[start + 1 + i] == inner[start + 1 + i]);
        }
    }
}

/// The labels at the spots of a name take as many bytes as the name does
/// up to there, and are the labels of the name.
pub proof fn lemma_spots_of(wire: Seq<u8>, at: int, labels: Seq<Seq<u8>>, k: int)
    requires
        name_at(wire, at, labels),
        0 <= k <= labels.len(),
        forall|i: int| 0 <= i < labels.len() ==> (#[trigger] labels[i]).len() <= MAX_LLEN,
    ensures
        spots_len(wire, spots_of(labels, at).take(k)) == wire_len(labels.take(k)),
        labels_at(wire, spots_of(labels, at)) == labels,
    decreases k,
{
    let spots = spots_of(labels, at);
    if k > 0 {
        lemma_spots_of(wire, at, labels, k - 1);
        lemma_name_at_label(wire, at, labels, k - 1);
        lemma_wire_len_take(labels, k - 1);
        assert(spots.take(k).drop_last() =~= spots.take(k - 1));
        assert(spots.take(k).last() == spots[k - 1]);
    }
    assert forall|i: int| 0 <= i < labels.len() implies labels_at(wire, spots)[i] == labels[i] by {
        lemma_name_at_label(wire, at, labels, i);
    }
    assert(labels_at(wire, spots) =~= labels);
}

/// Where a DNS name stands in a buffer and the sink refuses none of its
/// labels, the walk from any of its labels on finds all its labels and
/// ends behind the name.
pub proof fn lemma_scan_name_at<L: LabelFromWire>(
    wire: Seq<u8>,
    squeezed: bool,
    at: int,
    labels: Seq<Seq<u8>>,
    k: int,
)
    requires
        name_at(wire, at, labels),
        valid_name(labels),
        0 <= k < labels.len(),
        forall|j: int|
            k <= j < labels.len() ==> L::refusal(
                wire,
                spots_of(labels, at).take(j),
                #[trigger] spots_of(labels, at)[j],
            ) is None,
    ensures
        scan::<L>(
            wire,
            squeezed,
            spots_of(labels, at)[k],
            at,
            spots_of(labels, at)[k],
            spots_of(labels, at).take(k),
        ) == Ok::<(Seq<int>, int), Error>((spots_of(labels, at), at + wire_len(labels))),
    decreases labels.len() - k,
{
    let spots = spots_of(labels, at);
    let pos = spots[k];
    assert forall|i: int| 0 <= i < labels.len() implies (#[trigger] labels[i]).len()
        <= MAX_LLEN by {
        if i == labels.len() - 1 {
            assert(labels[i] == labels.last());
        }
    }
    lemma_name_at_label(wire, at, labels, k);
    lemma_wire_len_take(labels, k);
    assert(L::refusal(wire, spots.take(k), spots[k]) is None);
    assert(spots.take(k).push(pos) =~= spots.take(k + 1));
    if k == labels.len() - 1 {
        assert(labels[k] == labels.last());
        assert(labels.take(k + 1) =~= labels);
        assert(spots.take(k + 1) =~= spots);
    } else {
        assert(labels[k].len() >= 1);
        lemma_scan_name_at::<L>(wire, squeezed, at, labels, k + 1);
    }
}

/// A scratch name reads a DNS name that stands in a buffer as that name
/// in lower case, and ends behind it.
pub proof fn lemma_scratch_reads_name(wire: Seq<u8>, at: int, labels: Seq<Seq<u8>>)
    requires
        name_at(wire, at, labels),
        valid_name(labels),
    ensures
        <ScratchName as FromWire>::parsed(wire, at) == Ok::<(Seq<Seq<u8>>, int), Error>(
            (lower_name(labels), at + wire_len(labels)),
        ),
{
    let spots = spots_of(labels, at);
    assert forall|i: int| 0 <= i < labels.len() implies (#[trigger] labels[i]).len()
        <= MAX_LLEN by {
        if i == labels.len() - 1 {
            assert(labels[i] == labels.last());
        }
    }
    assert forall|j: int| 0 <= j < labels.len() implies <ScratchName as LabelFromWire>::refusal(
        wire,
        spots.take(j),
        #[trigger] spots[j],
    ) is None by {
        lemma_spots_of(wire, at, labels, j);
        lemma_name_at_label(wire, at, labels, j);
        lemma_wire_len_take(labels, j);
        lemma_wire_len_take(labels, j + 1);
    }
    lemma_scan_name_at::<ScratchName>(wire, true, at, labels, 0);
    lemma_spots_of(wire, at, labels, 0);
    assert(labels.take(0) =~= Seq::<Seq<u8>>::empty());
    assert(spots.take(0) =~= Seq::<int>::empty());
}

/// Wire labels whose positions can be as great as the name is far into
/// its buffer read a DNS name that stands in the buffer as that name, in
/// either wire format, and end behind it.
pub proof fn lemma_wire_reads_name<'w, P: WirePos>(
    wire: Seq<u8>,
    squeezed: bool,
    at: int,
    labels: Seq<Seq<u8>>,
)
    requires
        name_at(wire, at, labels),
        valid_name(labels),
        forall|pos: int| 0 <= pos < at + MAX_NAME ==> P::fits(pos),
    ensures
        scan_name::<WireLabels<'w, P>>(wire, squeezed, at) == Ok::<(Seq<int>, int), Error>(
            (spots_of(labels, at), at + wire_len(labels)),
        ),
        labels_at(wire, spots_of(labels, at)) == labels,
{
    let spots = spots_of(labels, at);
    assert forall|i: int| 0 <= i < labels.len() implies (#[trigger] labels[i]).len()
        <= MAX_LLEN by {
        if i == labels.len() - 1 {
            assert(labels[i] == labels.last());
        }
    }
    assert forall|j: int| 0 <= j < labels.len() implies <WireLabels<
        'w,
        P,
    > as LabelFromWire>::refusal(wire, spots.take(j), #[trigger] spots[j]) is None by {
        lemma_spots_of(wire, at, labels, j);
        lemma_name_at_label(wire, at, labels, j);
        lemma_wire_len_take(labels, j);
        lemma_wire_len_take(labels, j + 1);
    }
    lemma_scan_name_at::<WireLabels<'w, P>>(wire, squeezed, at, labels, 0);
    lemma_spots_of(wire, at, labels, 0);
    assert(labels.take(0) =~= Seq::<Seq<u8>>::empty());
    assert(spots.take(0) =~= Seq::<int>::empty());
}

} // verus!
