//! The canonical order of DNS names
//!
//! Names are ordered as RFC 4034 has it: label by label from the root end,
//! each label byte by byte with ASCII upper case letters taken as lower
//! case. Where one label, or one name, is the beginning of the other, the
//! shorter one comes first. The order does not depend on how a name is
//! represented.

use core::cmp::Ordering;
use crate::dnsname::DnsLabels;
use crate::dnsname::lower_byte;
use crate::dnsname::lower_label;
use crate::dnsname::lower_name;
use crate::dnsname::to_lower;
use vstd::prelude::*;

verus! {

/// The order of two strings of bytes: that of the first byte in which they
/// differ; a string that is the beginning of another comes first.
pub open spec fn bytes_order(a: Seq<u8>, b: Seq<u8>) -> Ordering
    decreases a.len(),
{
    if a.len() == 0 && b.len() == 0 {
        Ordering::Equal
    } else if a.len() == 0 {
        Ordering::Less
    } else if b.len() == 0 {
        Ordering::Greater
    } else if a[0] < b[0] {
        Ordering::Less
    } else if a[0] > b[0] {
        Ordering::Greater
    } else {
        bytes_order(a.skip(1), b.skip(1))
    }
}

/// The order of two labels: that of their bytes in lower case.
pub open spec fn label_order(a: Seq<u8>, b: Seq<u8>) -> Ordering
    decreases a.len(),
{
    if a.len() == 0 && b.len() == 0 {
        Ordering::Equal
    } else if a.len() == 0 {
        Ordering::Less
    } else if b.len() == 0 {
        Ordering::Greater
    } else if lower_byte(a[0]) < lower_byte(b[0]) {
        Ordering::Less
    } else if lower_byte(a[0]) > lower_byte(b[0]) {
        Ordering::Greater
    } else {
        label_order(a.skip(1), b.skip(1))
    }
}

/// The canonical order of two names: that of the last label in which they
/// differ, counted from the root end; a name whose labels end another
/// name's comes first.
pub open spec fn name_order(a: Seq<Seq<u8>>, b: Seq<Seq<u8>>) -> Ordering
    decreases a.len(),
{
    if a.len() == 0 && b.len() == 0 {
        Ordering::Equal
    } else if a.len() == 0 {
        Ordering::Less
    } else if b.len() == 0 {
        Ordering::Greater
    } else {
        match label_order(a.last(), b.last()) {
            Ordering::Equal => name_order(a.drop_last(), b.drop_last()),
            Ordering::Less => Ordering::Less,
            Ordering::Greater => Ordering::Greater,
        }
    }
}

/// The order that is the other way round.
pub open spec fn reversed(order: Ordering) -> Ordering {
    match order {
        Ordering::Less => Ordering::Greater,
        Ordering::Equal => Ordering::Equal,
        Ordering::Greater => Ordering::Less,
    }
}

/// The case of its letters does not change where a label stands in the
/// order.
pub proof fn lemma_label_order_lower(a: Seq<u8>, b: Seq<u8>)
    ensures
        label_order(lower_label(a), b) == label_order(a, b),
        label_order(a, lower_label(b)) == label_order(a, b),
    decreases a.len(),
{
    if a.len() > 0 && b.len() > 0 {
        lemma_label_order_lower(a.skip(1), b.skip(1));
        assert(lower_label(a).skip(1) =~= lower_label(a.skip(1)));
        assert(lower_label(b).skip(1) =~= lower_label(b.skip(1)));
    }
}

/// The case of its letters does not change where a name stands in the
/// canonical order: a name as it was on the wire and its copy in lower case
/// compare alike with every name.
pub proof fn lemma_name_order_lower(a: Seq<Seq<u8>>, b: Seq<Seq<u8>>)
    ensures
        name_order(lower_name(a), b) == name_order(a, b),
        name_order(a, lower_name(b)) == name_order(a, b),
    decreases a.len(),
{
    if a.len() > 0 && b.len() > 0 {
        lemma_name_order_lower(a.drop_last(), b.drop_last());
        lemma_label_order_lower(a.last(), b.last());
        assert(lower_name(a).drop_last() =~= lower_name(a.drop_last()));
        assert(lower_name(b).drop_last() =~= lower_name(b.drop_last()));
    }
}

/// Two labels are equal in the order just when they are the same in lower
/// case, and comparing them the other way round reverses the order.
pub proof fn lemma_label_order_equal(a: Seq<u8>, b: Seq<u8>)
    ensures
        label_order(a, b) == Ordering::Equal <==> lower_label(a) == lower_label(b),
        label_order(b, a) == reversed(label_order(a, b)),
    decreases a.len(),
{
    if a.len() > 0 && b.len() > 0 {
        lemma_label_order_equal(a.skip(1), b.skip(1));
        assert(lower_label(a).skip(1) =~= lower_label(a.skip(1)));
        assert(lower_label(b).skip(1) =~= lower_label(b.skip(1)));
        assert(lower_label(a)[0] == lower_byte(a[0]));
        assert(lower_label(b)[0] == lower_byte(b[0]));
        if lower_label(a.skip(1)) == lower_label(b.skip(1)) && lower_byte(a[0]) == lower_byte(
            b[0],
        ) {
            assert(lower_label(a) =~= seq![lower_byte(a[0])] + lower_label(a.skip(1)));
            assert(lower_label(b) =~= seq![lower_byte(b[0])] + lower_label(b.skip(1)));
        }
    } else {
        assert(lower_label(a).len() == a.len());
        assert(lower_label(b).len() == b.len());
        if a.len() == 0 && b.len() == 0 {
            assert(lower_label(a) =~= lower_label(b));
        }
    }
}

/// Two names are equal in the canonical order just when they are the same
/// in lower case, and comparing them the other way round reverses the
/// order.
pub proof fn lemma_name_order_equal(a: Seq<Seq<u8>>, b: Seq<Seq<u8>>)
    ensures
        name_order(a, b) == Ordering::Equal <==> lower_name(a) == lower_name(b),
        name_order(b, a) == reversed(name_order(a, b)),
    decreases a.len(),
{
    if a.len() > 0 && b.len() > 0 {
        lemma_name_order_equal(a.drop_last(), b.drop_last());
        lemma_label_order_equal(a.last(), b.last());
        assert(lower_name(a).drop_last() =~= lower_name(a.drop_last()));
        assert(lower_name(b).drop_last() =~= lower_name(b.drop_last()));
        assert(lower_name(a).last() == lower_label(a.last()));
        assert(lower_name(b).last() == lower_label(b.last()));
        if lower_name(a.drop_last()) == lower_name(b.drop_last()) && lower_label(a.last())
            == lower_label(b.last()) {
            assert(lower_name(a) =~= lower_name(a.drop_last()).push(lower_label(a.last())));
            assert(lower_name(b) =~= lower_name(b.drop_last()).push(lower_label(b.last())));
        }
    } else {
        assert(lower_name(a).len() == a.len());
        assert(lower_name(b).len() == b.len());
        if a.len() == 0 && b.len() == 0 {
            assert(lower_name(a) =~= lower_name(b));
        }
    }
}

/// Names that have the same labels, whatever the case of their letters and
/// whatever their representations, are equal in the canonical order, and
/// each of them compares with any third name as the other does.
pub proof fn lemma_same_name_same_order(a: Seq<Seq<u8>>, b: Seq<Seq<u8>>, c: Seq<Seq<u8>>)
    requires
        lower_name(a) == lower_name(b),
    ensures
        name_order(a, b) == Ordering::Equal,
        name_order(a, c) == name_order(b, c),
        name_order(c, a) == name_order(c, b),
{
    lemma_name_order_equal(a, b);
    lemma_name_order_lower(a, c);
    lemma_name_order_lower(b, c);
    lemma_name_order_lower(c, a);
    lemma_name_order_lower(c, b);
}

/// Compare two labels, ignoring the case of ASCII letters.
pub fn cmp_any_labels(aa: &[u8], bb: &[u8]) -> (order: Ordering)
    ensures
        order == label_order(aa@, bb@),
{
    let mut chr: usize = 0;
    let ghost mut done: int = 0;
    assert(aa@.skip(0) =~= aa@ && bb@.skip(0) =~= bb@);
    loop
        invariant
            done == chr,
            chr <= aa@.len(),
            chr <= bb@.len(),
            label_order(aa@.skip(done), bb@.skip(done)) == label_order(aa@, bb@),
        decreases aa@.len() - chr,
    {
        if chr >= aa.len() || chr >= bb.len() {
            if chr < bb.len() {
                return Ordering::Less;
            } else if chr < aa.len() {
                return Ordering::Greater;
            } else {
                return Ordering::Equal;
            }
        }
        let a = to_lower(aa[chr]);
        let b = to_lower(bb[chr]);
        if a < b {
            return Ordering::Less;
        } else if a > b {
            return Ordering::Greater;
        }
        proof {
            assert(aa@.skip(done).skip(1) =~= aa@.skip(done + 1));
            assert(bb@.skip(done).skip(1) =~= bb@.skip(done + 1));
            done = done + 1;
        }
        chr += 1;
    }
}

/// Compare two names in canonical order, whatever their representations.
pub fn cmp_any_names<A: DnsLabels, B: DnsLabels>(aa: &A, bb: &B) -> (order: Ordering)
    requires
        aa.wf(),
        bb.wf(),
    ensures
        order == name_order(aa.labels(), bb.labels()),
{
    let labs = aa.labs();
    let mut lab: usize = 0;
    let ghost mut left: int = aa.labels().len() - 0;
    let ghost mut right: int = bb.labels().len() - 0;
    assert(aa.labels().take(left) =~= aa.labels() && bb.labels().take(right) =~= bb.labels());
    loop
        invariant
            aa.wf(),
            bb.wf(),
            labs == aa.labels().len(),
            left == aa.labels().len() - lab,
            right == bb.labels().len() - lab,
            left >= 0,
            right >= 0,
            name_order(aa.labels().take(left), bb.labels().take(right)) == name_order(
                aa.labels(),
                bb.labels(),
            ),
        decreases left,
    {
        let order = match (aa.rlabel(lab), bb.rlabel(lab)) {
            (None, None) => {
                return Ordering::Equal;
            },
            (None, Some(_)) => {
                return Ordering::Less;
            },
            (Some(_), None) => {
                return Ordering::Greater;
            },
            (Some(a), Some(b)) => cmp_any_labels(a, b),
        };
        proof {
            assert(aa.labels().take(left).drop_last() =~= aa.labels().take(left - 1));
            assert(bb.labels().take(right).drop_last() =~= bb.labels().take(right - 1));
        }
        match order {
            Ordering::Equal => {},
            Ordering::Less => {
                return Ordering::Less;
            },
            Ordering::Greater => {
                return Ordering::Greater;
            },
        }
        proof {
            left = left - 1;
            right = right - 1;
        }
        lab += 1;
    }
}

/// Whether two names are the same but for the case of ASCII letters,
/// whatever their representations.
pub fn eq_any_names<A: DnsLabels, B: DnsLabels>(aa: &A, bb: &B) -> (same: bool)
    requires
        aa.wf(),
        bb.wf(),
    ensures
        same == (name_order(aa.labels(), bb.labels()) == Ordering::Equal),
{
    match cmp_any_names(aa, bb) {
        Ordering::Equal => true,
        Ordering::Less => false,
        Ordering::Greater => false,
    }
}

} // verus!
