//! Equality of bitmap-packed vectors
//!
//! Two vectors are equal when they are made of equal parts: the same
//! bitmap, and elements that are equal one by one. For elements that
//! compare by their values that is to hold the same in every slot.

use crate::bmpvec::BmpVec;
use crate::bmpvec::lemma_slots_decide;
use vstd::prelude::*;
use vstd::std_specs::cmp::PartialEqSpec;

verus! {

impl<T: PartialEq> PartialEq for BmpVec<T> {
    /// Two vectors are equal when their bitmaps are, and their elements one
    /// by one.
    fn eq(&self, other: &Self) -> (same: bool) {
        self.bmp == other.bmp && self.vals == other.vals
    }
}

impl<T: PartialEq> vstd::std_specs::cmp::PartialEqSpecImpl for BmpVec<T> {
    open spec fn obeys_eq_spec() -> bool {
        T::obeys_eq_spec()
    }

    closed spec fn eq_spec(&self, other: &Self) -> bool {
        self.bmp == other.bmp && PartialEqSpec::eq_spec(&self.vals, &other.vals)
    }
}

impl<T: PartialEq> BmpVec<T> {
    /// Two vectors whose elements compare by their values are equal just
    /// when their slots hold the same.
    pub proof fn lemma_eq_is_same_slots(&self, other: &Self)
        requires
            self.wf(),
            other.wf(),
            forall|a: T, b: T| #[trigger] a.eq_spec(&b) == (a == b),
        ensures
            self.eq_spec(other) == (self@ == other@),
    {
        if self@ == other@ {
            lemma_slots_decide(
                self.bmp.word(),
                self.vals@,
                other.bmp.word(),
                other.vals@,
            );
            self.bmp.lemma_word_decides(other.bmp);
            assert forall|i: int| 0 <= i < self.vals.len() implies PartialEqSpec::eq_spec(
                &self.vals[i],
                &other.vals[i],
            ) by {
                assert(self.vals[i] == other.vals[i]);
            }
            assert(PartialEqSpec::eq_spec(&self.vals, &other.vals));
        }
        if self.eq_spec(other) {
            assert(PartialEqSpec::eq_spec(&self.vals, &other.vals));
            assert forall|i: int| 0 <= i < self.vals.len() implies self.vals[i]
                == other.vals[i] by {
                assert(PartialEqSpec::eq_spec(&self.vals[i], &other.vals[i]));
            }
            assert(self.vals@ =~= other.vals@);
        }
    }
}

} // verus!
