//! A name in text reads back as itself
//!
//! Writing a DNS name as text and reading the text gives the name in
//! lower case, and the reading ends with the text.

use crate::dnsname::index::lemma_wire_len_take;
use crate::dnsname::lower_byte;
use crate::dnsname::lower_label;
use crate::dnsname::lower_name;
use crate::dnsname::MAX_LLEN;
use crate::dnsname::scratch::scratch_refusal;
use crate::dnsname::text::byte_text;
use crate::dnsname::text::dot_text;
use crate::dnsname::text::has_empty;
use crate::dnsname::text::is_plain;
use crate::dnsname::text::label_text;
use crate::dnsname::text::labels_text;
use crate::dnsname::text::name_text;
use crate::dnsname::text::parse_text;
use crate::dnsname::text::text_finish;
use crate::dnsname::text::text_label;
use crate::dnsname::text::text_name;
use crate::dnsname::valid_name;
use crate::dnsname::wire_len;
use crate::error::Error;
use vstd::prelude::*;

verus! {

/// The bytes of `text` from `pos` on begin with `part`.
pub open spec fn text_at(text: Seq<u8>, pos: int, part: Seq<u8>) -> bool {
    &&& 0 <= pos
    &&& pos + part.len() <= text.len()
    &&& forall|i: int| 0 <= i < part.len() ==> text[pos + i] == #[trigger] part[i]
}

/// Where a text begins with two parts, it begins with the first, and goes
/// on with the second.
pub proof fn lemma_text_at_split(text: Seq<u8>, pos: int, first: Seq<u8>, second: Seq<u8>)
    requires
        text_at(text, pos, first + second),
    ensures
        text_at(text, pos, first),
        text_at(text, pos + first.len(), second),
{
    let both = first + second;
    assert forall|i: int| 0 <= i < first.len() implies text[pos + i] == #[trigger] first[i] by {
        assert(both[i] == first[i]);
    }
    assert forall|i: int| 0 <= i < second.len() implies text[pos + first.len() + i]
        == #[trigger] second[i] by {
        assert(both[first.len() + i] == second[i]);
    }
}

/// The text of a label is the text of its first byte and then the text of
/// the others.
pub proof fn lemma_label_text_front(first: u8, rest: Seq<u8>)
    ensures
        label_text(seq![first] + rest) == byte_text(first) + label_text(rest),
    decreases rest.len(),
{
    let all = seq![first] + rest;
    if rest.len() == 0 {
        assert(all.drop_last() =~= Seq::<u8>::empty());
        assert(label_text(all.drop_last()) =~= Seq::<u8>::empty());
        assert(label_text(rest) =~= Seq::<u8>::empty());
        assert(label_text(all) =~= byte_text(first) + label_text(rest));
    } else {
        lemma_label_text_front(first, rest.drop_last());
        assert(all.drop_last() =~= seq![first] + rest.drop_last());
        assert(all.last() == rest.last());
        assert(label_text(all) =~= byte_text(first) + label_text(rest));
    }
}

/// Reading a label where the text of some bytes stands takes those bytes,
/// and goes on behind them.
pub proof fn lemma_text_label_reads(text: Seq<u8>, pos: int, read: Seq<u8>, rest: Seq<u8>)
    requires
        text_at(text, pos, label_text(rest)),
        read.len() + rest.len() <= MAX_LLEN,
    ensures
        text_label(text, pos, read) == text_label(text, pos + label_text(rest).len(), read + rest),
    decreases rest.len(),
{
    if rest.len() == 0 {
        assert(read + rest =~= read);
    } else {
        let byte = rest[0];
        let tail = rest.skip(1);
        let part = byte_text(byte);
        assert(rest =~= seq![byte] + tail);
        lemma_label_text_front(byte, tail);
        lemma_text_at_split(text, pos, part, label_text(tail));
        assert(text[pos + 0] == part[0]);
        assert(read.push(byte) + tail =~= read + rest);
        if is_plain(byte) {
        } else if 0x21 <= byte <= 0x7E {
            assert(text[pos + 1] == part[1]);
        } else {
            assert(text[pos + 1] == part[1]);
            assert(text[pos + 2] == part[2]);
            assert(text[pos + 3] == part[3]);
            assert((byte / 100) * 100 + ((byte / 10) % 10) * 10 + byte % 10 == byte);
        }
        lemma_text_label_reads(text, pos + part.len(), read.push(byte), tail);
    }
}

/// The text of the first labels of a name begins the text of more of
/// them, and goes on with the text of the next label and its dot.
pub proof fn lemma_labels_text_at(labels: Seq<Seq<u8>>, k: int, upto: int)
    requires
        0 <= k < upto <= labels.len(),
    ensures
        text_at(
            labels_text(labels, upto),
            labels_text(labels, k).len() as int,
            label_text(labels[k]) + dot_text(k, labels.len() as int),
        ),
        labels_text(labels, k + 1).len() == labels_text(labels, k).len() + label_text(
            labels[k],
        ).len() + dot_text(k, labels.len() as int).len(),
        labels_text(labels, k + 1).len() <= labels_text(labels, upto).len(),
    decreases upto - k,
{
    let part = label_text(labels[k]) + dot_text(k, labels.len() as int);
    assert(labels_text(labels, k + 1) =~= labels_text(labels, k) + part);
    if k + 1 < upto {
        lemma_labels_text_at(labels, k + 1, upto);
        lemma_labels_text_at(labels, k, upto - 1);
        let before = labels_text(labels, upto - 1);
        let whole = labels_text(labels, upto);
        assert forall|i: int| 0 <= i < part.len() implies whole[labels_text(labels, k).len() + i]
            == #[trigger] part[i] by {
            assert(before[labels_text(labels, k).len() + i] == part[i]);
            assert(whole[labels_text(labels, k).len() + i] == before[labels_text(labels, k).len()
                + i]);
        }
    }
}

/// Lower case does not change the length of a name on the wire.
pub proof fn lemma_wire_len_lower(labels: Seq<Seq<u8>>)
    ensures
        wire_len(lower_name(labels)) == wire_len(labels),
    decreases labels.len(),
{
    if labels.len() > 0 {
        lemma_wire_len_lower(labels.drop_last());
        assert(lower_name(labels).drop_last() =~= lower_name(labels.drop_last()));
    }
}

/// A DNS name in lower case is a DNS name.
pub proof fn lemma_valid_lower(labels: Seq<Seq<u8>>)
    requires
        valid_name(labels),
    ensures
        valid_name(lower_name(labels)),
        lower_name(lower_name(labels)) == lower_name(labels),
{
    lemma_wire_len_lower(labels);
    let lower = lower_name(labels);
    assert(lower.last() == lower_label(labels.last()));
    assert forall|i: int| 0 <= i < lower.len() - 1 implies 1 <= (#[trigger] lower[i]).len()
        <= MAX_LLEN by {
        assert(labels[i].len() >= 1);
    }
    assert forall|i: int| 0 <= i < lower.len() implies lower_label(#[trigger] lower[i])
        == lower[i] by {
        assert(lower_label(lower[i]) =~= lower[i]);
    }
    assert(lower_name(lower) =~= lower);
}

/// The text of a label in lower case is the text of the label with its
/// letters in lower case.
pub proof fn lemma_label_text_lower(label: Seq<u8>)
    ensures
        label_text(lower_label(label)) == lower_label(label_text(label)),
    decreases label.len(),
{
    if label.len() == 0 {
        assert(label_text(lower_label(label)) =~= lower_label(label_text(label)));
    } else {
        let front = label.drop_last();
        let byte = label.last();
        lemma_label_text_lower(front);
        assert(lower_label(label).drop_last() =~= lower_label(front));
        assert(lower_label(label).last() == lower_byte(byte));
        assert(byte_text(lower_byte(byte)) =~= lower_label(byte_text(byte)));
        assert(lower_label(label_text(front) + byte_text(byte)) =~= lower_label(label_text(front))
            + lower_label(byte_text(byte)));
    }
}

/// The text of a name in lower case is the text of the name with its
/// letters in lower case.
pub proof fn lemma_name_text_lower(labels: Seq<Seq<u8>>, upto: int)
    requires
        0 <= upto <= labels.len(),
    ensures
        labels_text(lower_name(labels), upto) == lower_label(labels_text(labels, upto)),
        upto == labels.len() ==> name_text(lower_name(labels)) == lower_label(name_text(labels)),
    decreases upto,
{
    if upto == 0 {
        assert(labels_text(lower_name(labels), upto) =~= lower_label(labels_text(labels, upto)));
    } else {
        lemma_name_text_lower(labels, upto - 1);
        lemma_label_text_lower(labels[upto - 1]);
        let dot = dot_text(upto - 1, labels.len() as int);
        assert(lower_label(dot) =~= dot);
        assert(lower_label(labels_text(labels, upto - 1) + label_text(labels[upto - 1]) + dot)
            =~= lower_label(labels_text(labels, upto - 1)) + lower_label(
            label_text(labels[upto - 1]),
        ) + lower_label(dot));
    }
}

/// Reading the text of a name from where the text of its first labels
/// ends, with those labels read, gives the whole name in lower case and
/// ends with the text.
pub proof fn lemma_text_name_reads(labels: Seq<Seq<u8>>, k: int)
    requires
        valid_name(labels),
        labels.len() >= 2,
        0 <= k <= labels.len() - 1,
    ensures
        text_name(
            name_text(labels),
            labels_text(labels, k).len() as int,
            lower_name(labels.take(k)),
        ) == Ok::<(Seq<Seq<u8>>, int), Error>((lower_name(labels), name_text(labels).len() as int)),
    decreases labels.len() - k,
{
    let n = labels.len() as int;
    let text = name_text(labels);
    let read = lower_name(labels.take(k));
    let pos = labels_text(labels, k).len() as int;
    let none = Seq::<u8>::empty();
    // the root label adds nothing to the text
    assert(labels[n - 1] == labels.last());
    assert(label_text(labels[n - 1]) =~= none);
    assert(text =~= labels_text(labels, n - 1));
    lemma_wire_len_lower(labels.take(k));
    lemma_wire_len_take(labels, k);
    lemma_wire_len_take(labels, n - 1);
    assert(labels.take(n) =~= labels);
    if k == n - 1 {
        assert(text_label(text, pos, none) == Ok::<(Seq<u8>, int, bool), Error>(
            (none, pos, false),
        ));
        assert(!has_empty(read)) by {
            if has_empty(read) {
                let i = choose|i: int| 0 <= i < read.len() && (#[trigger] read[i]).len() == 0;
                assert(labels[i].len() >= 1);
            }
        }
        assert(scratch_refusal(read.len() as int, wire_len(read) as int, 0, 0) is None);
        assert(lower_label(none) =~= none);
        assert(read.push(none) =~= lower_name(labels));
    } else {
        let label = labels[k];
        let dot = dot_text(k, n);
        lemma_labels_text_at(labels, k, n - 1);
        lemma_text_at_split(text, pos, label_text(label), dot);
        lemma_text_label_reads(text, pos, none, label);
        assert(none + label =~= label);
        let behind = pos + label_text(label).len();
        if dot.len() > 0 {
            assert(text[behind + 0] == dot[0]);
        } else {
            // only the last label before the root has no dot behind it
            assert(k == n - 2);
            assert(labels_text(labels, k + 1).len() == text.len());
        }
        assert(text_label(text, pos, none) == Ok::<(Seq<u8>, int, bool), Error>(
            (label, behind + dot.len(), true),
        ));
        lemma_wire_len_take(labels, k + 1);
        assert(scratch_refusal(
            read.len() as int,
            wire_len(read) as int,
            label.len() as int,
            label.len() as int,
        ) is None);
        assert(read.push(lower_label(label)) =~= lower_name(labels.take(k + 1)));
        lemma_text_name_reads(labels, k + 1);
    }
}

/// Reading the text of a DNS name gives the name in lower case, and ends
/// with the text.
pub proof fn lemma_text_round_trip(labels: Seq<Seq<u8>>)
    requires
        valid_name(labels),
    ensures
        parse_text(name_text(labels)) == Ok::<(Seq<Seq<u8>>, int), Error>(
            (lower_name(labels), name_text(labels).len() as int),
        ),
{
    let none = Seq::<u8>::empty();
    let text = name_text(labels);
    if labels.len() == 1 {
        // the root is a dot
        assert(labels[0] == labels.last());
        assert(label_text(labels[0]) =~= none);
        assert(labels_text(labels, 0) =~= none);
        assert(text =~= seq![0x2Eu8]);
        let read = seq![lower_label(none)];
        assert(lower_label(none) =~= none);
        assert(text_label(text, 0, none) == Ok::<(Seq<u8>, int, bool), Error>((none, 1, true)));
        assert(wire_len(Seq::<Seq<u8>>::empty()) == 0);
        assert(Seq::<Seq<u8>>::empty().push(lower_label(none)) =~= read);
        assert(text_label(text, 1, none) == Ok::<(Seq<u8>, int, bool), Error>((none, 1, false)));
        assert(read[0].len() == 0);
        assert(has_empty(read));
        assert(text_finish(read) == Ok::<Seq<Seq<u8>>, Error>(read));
        assert(lower_label(labels[0]) =~= none);
        assert(lower_name(labels) =~= read);
        assert(text_name(text, 1, read) == Ok::<(Seq<Seq<u8>>, int), Error>((read, 1)));
    } else {
        assert(labels.take(0) =~= Seq::<Seq<u8>>::empty());
        assert(lower_name(labels.take(0)) =~= Seq::<Seq<u8>>::empty());
        lemma_text_name_reads(labels, 0);
    }
}

} // verus!
