//! Equality of plain sparse vectors
//!
//! Two vectors are equal when their slots are, one by one. For elements
//! that compare by their values that is to hold the same in every slot.

use crate::blimpvec::BlimpVec;
use vstd::prelude::*;
use vstd::std_specs::cmp::PartialEqSpec;

verus! {

impl<T: PartialEq> PartialEq for BlimpVec<T> {
    /// Two vectors are equal when they hold as many elements, and their
    /// slots are equal one by one.
    fn eq(&self, other: &Self) -> (same: bool) {
        self.len == other.len && self.vec == other.vec
    }
}

impl<T: PartialEq> vstd::std_specs::cmp::PartialEqSpecImpl for BlimpVec<T> {
    open spec fn obeys_eq_spec() -> bool {
        T::obeys_eq_spec()
    }

    closed spec fn eq_spec(&self, other: &Self) -> bool {
        self.len == other.len && PartialEqSpec::eq_spec(&self.vec, &other.vec)
    }
}

impl<T: PartialEq> BlimpVec<T> {
    /// Two vectors whose elements compare by their values are equal just
    /// when their slots hold the same.
    pub proof fn lemma_eq_is_same_slots(&self, other: &Self)
        requires
            self.wf(),
            other.wf(),
            forall|a: T, b: T| #[trigger] a.eq_spec(&b) == (a == b),
        ensures
            self.eq_spec(other) == (self@ == other@),
    {
        if self@ == other@ {
            assert forall|i: int| 0 <= i < self.vec.len() implies PartialEqSpec::eq_spec(
                &self.vec[i],
                &other.vec[i],
            ) by {
                assert(self.vec[i] == other.vec[i]);
            }
            assert(PartialEqSpec::eq_spec(&self.vec, &other.vec));
        }
        if self.eq_spec(other) {
            assert(PartialEqSpec::eq_spec(&self.vec, &other.vec));
            assert forall|i: int| 0 <= i < self.vec.len() implies self.vec[i] == other.vec[i] by {
                assert(PartialEqSpec::eq_spec(&self.vec[i], &other.vec[i]));
            }
            assert(self.vec@ =~= other.vec@);
        }
    }
}

} // verus!
