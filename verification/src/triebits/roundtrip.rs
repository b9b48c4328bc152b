//! A key gives back its name
//!
//! Reading the key of a name gives the name in lower case: nothing of a
//! name is lost in its key but the case of its letters.

use crate::dnsname::lower_byte;
use crate::dnsname::lower_label;
use crate::dnsname::lower_name;
use crate::dnsname::MAX_LABS;
use crate::dnsname::MAX_LLEN;
use crate::dnsname::MAX_NAME;
use crate::dnsname::valid_name;
use crate::dnsname::wire_len;
use crate::triebits::byte_key;
use crate::triebits::decode::key_label;
use crate::triebits::decode::key_labels;
use crate::triebits::decode::key_name;
use crate::triebits::label_key;
use crate::triebits::labels_key;
use crate::triebits::name_key;
use crate::triebits::table::byte_bits;
use crate::triebits::table::lemma_bits_escape;
use crate::triebits::table::lemma_bits_inverse;
use crate::triebits::table::lemma_bits_range;
use crate::triebits::table::SHIFT_NOBYTE;
use vstd::prelude::*;

verus! {

/// The bytes of `key` from `pos` on begin with `part`.
pub open spec fn begins_at(key: Seq<u8>, pos: int, part: Seq<u8>) -> bool {
    &&& 0 <= pos
    &&& pos + part.len() <= key.len()
    &&& key.subrange(pos, pos + part.len()) == part
}

/// Where a key begins with two parts, it begins with the first, and goes
/// on with the second.
pub proof fn lemma_begins_split(key: Seq<u8>, pos: int, first: Seq<u8>, second: Seq<u8>)
    requires
        begins_at(key, pos, first + second),
    ensures
        begins_at(key, pos, first),
        begins_at(key, pos + first.len(), second),
        forall|i: int| 0 <= i < first.len() ==> key[pos + i] == first[i],
{
    let both = first + second;
    assert(key.subrange(pos, pos + first.len()) =~= first) by {
        assert forall|i: int| 0 <= i < first.len() implies key.subrange(pos, pos + first.len())[i]
            == first[i] by {
            assert(key.subrange(pos, pos + both.len())[i] == both[i]);
        }
    }
    assert(key.subrange(pos + first.len(), pos + first.len() + second.len()) =~= second) by {
        assert forall|i: int| 0 <= i < second.len() implies key.subrange(
            pos + first.len(),
            pos + first.len() + second.len(),
        )[i] == second[i] by {
            assert(key.subrange(pos, pos + both.len())[first.len() + i] == both[first.len() + i]);
        }
    }
    assert forall|i: int| 0 <= i < first.len() implies key[pos + i] == first[i] by {
        assert(key.subrange(pos, pos + both.len())[i] == both[i]);
    }
}

/// The codes of a label are the code of its first byte and then the codes
/// of the others.
pub proof fn lemma_label_key_front(first: u8, rest: Seq<u8>)
    ensures
        label_key(seq![first] + rest) == byte_key(first) + label_key(rest),
    decreases rest.len(),
{
    let all = seq![first] + rest;
    if rest.len() == 0 {
        assert(all.drop_last() =~= Seq::<u8>::empty());
        assert(label_key(all.drop_last()) =~= Seq::<u8>::empty());
        assert(label_key(rest) =~= Seq::<u8>::empty());
        assert(label_key(all) =~= byte_key(first) + label_key(rest));
    } else {
        lemma_label_key_front(first, rest.drop_last());
        assert(all.drop_last() =~= seq![first] + rest.drop_last());
        assert(all.last() == rest.last());
        assert(label_key(all) =~= byte_key(first) + label_key(rest));
    }
}

/// Reading a key where the codes of a label and the end of a label stand
/// gives that label in lower case.
pub proof fn lemma_key_label_reads(key: Seq<u8>, pos: int, read: Seq<u8>, rest: Seq<u8>)
    requires
        begins_at(key, pos, label_key(rest) + seq![SHIFT_NOBYTE]),
        read.len() + rest.len() <= MAX_LLEN,
    ensures
        key_label(key, pos, read) == Some(
            (read + lower_label(rest), pos + label_key(rest).len() + 1),
        ),
    decreases rest.len(),
{
    lemma_begins_split(key, pos, label_key(rest), seq![SHIFT_NOBYTE]);
    if rest.len() == 0 {
        assert(key.subrange(pos, pos + 1)[0] == SHIFT_NOBYTE);
        assert(read + lower_label(rest) =~= read);
    } else {
        let byte = rest[0];
        let tail = rest.skip(1);
        let code = byte_key(byte);
        assert(rest =~= seq![byte] + tail);
        lemma_label_key_front(byte, tail);
        lemma_bits_range(byte);
        lemma_bits_inverse(byte);
        assert((code + label_key(tail)) + seq![SHIFT_NOBYTE] =~= code + (label_key(tail) + seq![
            SHIFT_NOBYTE,
        ]));
        lemma_begins_split(key, pos, code, label_key(tail) + seq![SHIFT_NOBYTE]);
        assert(key[pos + 0] == code[0]);
        let more = read.push(lower_byte(byte));
        assert(more + lower_label(tail) =~= read + lower_label(rest));
        if byte_bits(byte).1 != 0 {
            lemma_bits_escape(byte);
            assert(key[pos + 1] == code[1]);
        }
        lemma_key_label_reads(key, pos + code.len(), more, tail);
    }
}

/// Reading a key where the parts for some labels and the end of the key
/// stand puts those labels, in lower case, in front of the labels read
/// before.
pub proof fn lemma_key_labels_reads(
    key: Seq<u8>,
    pos: int,
    read: Seq<Seq<u8>>,
    nlen: int,
    rest: Seq<Seq<u8>>,
)
    requires
        begins_at(key, pos, labels_key(rest) + seq![SHIFT_NOBYTE]),
        pos + labels_key(rest).len() + 1 == key.len(),
        forall|i: int| 0 <= i < rest.len() ==> 1 <= (#[trigger] rest[i]).len() <= MAX_LLEN,
        read.len() + rest.len() + 1 <= MAX_LABS,
        0 <= nlen,
        nlen + wire_len(rest) + 1 <= MAX_NAME,
    ensures
        key_labels(key, pos, read, nlen) == Some(lower_name(rest) + read),
    decreases rest.len(),
{
    lemma_begins_split(key, pos, labels_key(rest), seq![SHIFT_NOBYTE]);
    if rest.len() == 0 {
        assert(key.subrange(pos, pos + 1)[0] == SHIFT_NOBYTE);
        assert(lower_name(rest) + read =~= read);
    } else {
        let last = rest.last();
        let front = rest.drop_last();
        let part = label_key(last) + seq![SHIFT_NOBYTE];
        assert(labels_key(rest) + seq![SHIFT_NOBYTE] =~= part + (labels_key(front) + seq![
            SHIFT_NOBYTE,
        ]));
        lemma_begins_split(key, pos, part, labels_key(front) + seq![SHIFT_NOBYTE]);
        // the label is not empty, so its part of the key starts with a code
        let byte = last[0];
        assert(last =~= seq![byte] + last.skip(1));
        lemma_label_key_front(byte, last.skip(1));
        lemma_bits_range(byte);
        assert(part[0] == byte_key(byte)[0]);
        assert(key[pos + 0] == part[0]);
        lemma_key_label_reads(key, pos, Seq::empty(), last);
        assert(Seq::<u8>::empty() + lower_label(last) =~= lower_label(last));
        let more = seq![lower_label(last)] + read;
        assert(lower_name(front) + more =~= lower_name(rest) + read);
        lemma_key_labels_reads(key, pos + part.len(), more, nlen + 1 + last.len(), front);
    }
}

/// Reading the key of a name gives the name in lower case.
pub proof fn lemma_key_round_trip(labels: Seq<Seq<u8>>)
    requires
        valid_name(labels),
    ensures
        key_name(name_key(labels)) == Some(lower_name(labels)),
{
    let inner = labels.drop_last();
    let key = name_key(labels);
    assert(key.subrange(0, key.len() as int) =~= key);
    assert forall|i: int| 0 <= i < inner.len() implies 1 <= (#[trigger] inner[i]).len()
        <= MAX_LLEN by {
        assert(inner[i] == labels[i]);
    }
    lemma_key_labels_reads(key, 0, Seq::empty(), 0, inner);
    assert(lower_name(inner) + Seq::<Seq<u8>>::empty() =~= lower_name(inner));
    assert(lower_label(labels.last()) =~= Seq::<u8>::empty());
    assert(lower_name(inner).push(Seq::empty()) =~= lower_name(labels));
}

} // verus!
