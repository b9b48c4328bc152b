//! Reading a [`BmpVec`] without owning it
//!
//! A [`BmpSlice`] is the read-only counterpart of a [`BmpVec`]: a bitmap
//! and a borrowed slice of the packed elements. An [`Iter`] visits the
//! elements of either in the order of their positions.

use crate::bmpvec::bmp::bitmask;
use crate::bmpvec::bmp::Bmp;
use crate::bmpvec::bmp::lemma_rank_clear;
use crate::bmpvec::bmp::lemma_rank_step;
use crate::bmpvec::bmp::popcount;
use crate::bmpvec::bmp::rank;
use crate::bmpvec::BmpVec;
use crate::bmpvec::count_some;
use crate::bmpvec::keys_of;
use crate::bmpvec::lemma_slots_packed;
use crate::bmpvec::slots;
use crate::bmpvec::values_of;
use vstd::prelude::*;

verus! {

/// A [`BmpSlice`] is the read-only counterpart of a [`BmpVec`]
#[derive(Debug)]
pub struct BmpSlice<'t, T> {
    bmp: Bmp,
    vals: &'t [T],
}

impl<'t, T> Clone for BmpSlice<'t, T> {
    fn clone(&self) -> (copy: Self)
        ensures
            copy == *self,
    {
        BmpSlice { bmp: self.bmp, vals: self.vals }
    }
}

impl<'t, T> Copy for BmpSlice<'t, T> {

}

impl<'t, T> BmpSlice<'t, T> {
    /// The bitmap of the positions that hold an element.
    pub closed spec fn bitmap(&self) -> Bmp {
        self.bmp
    }

    /// The elements, packed in the order of their positions.
    pub closed spec fn packed(&self) -> Seq<T> {
        self.vals@
    }

    /// There are as many elements as the bitmap has set bits.
    pub open spec fn wf(&self) -> bool {
        self.packed().len() == popcount(self.bitmap().word())
    }

    /// The 64 slots of the vector, each with its element or without one.
    pub open spec fn view(&self) -> Seq<Option<T>> {
        slots(self.bitmap().word(), self.packed())
    }

    /// Construct a `BmpSlice` from a pair of a bitmap and slice: the
    /// elements for the set bits of the bitmap, in the order of the bits.
    pub fn from_cooked_parts(bmp: Bmp, slice: &'t [T]) -> (made: BmpSlice<'t, T>)
        requires
            popcount(bmp.word()) == slice@.len(),
        ensures
            made.wf(),
            made.bitmap() == bmp,
            made.packed() == slice@,
    {
        BmpSlice { bmp, vals: slice }
    }

    /// Returns `true` if there are no elements in the `BmpSlice`
    pub fn is_empty(&self) -> (empty: bool)
        requires
            self.wf(),
        ensures
            empty == (count_some(self@, 64) == 0),
    {
        proof {
            lemma_slots_packed(self.bmp.word(), self.vals@, 64);
        }
        self.bmp.is_empty()
    }

    /// Returns the number of elements in the `BmpSlice`
    pub fn len(&self) -> (len: usize)
        requires
            self.wf(),
        ensures
            len == count_some(self@, 64),
            len <= 64,
    {
        proof {
            lemma_slots_packed(self.bmp.word(), self.vals@, 64);
        }
        self.bmp.len()
    }

    /// Returns `true` if there is an element at the given `pos`ition.
    pub fn contains(&self, pos: u8) -> (found: bool)
        ensures
            found == (pos < 64 && self@[pos as int] is Some),
    {
        match bitmask(pos) {
            Some((bit, _)) => self.bmp & bit,
            None => false,
        }
    }

    /// Get a reference to an element in the `BmpSlice`
    ///
    /// This returns `None` if there is no element at `pos`.
    pub fn get(&self, pos: u8) -> (found: Option<&'t T>)
        requires
            self.wf(),
        ensures
            match found {
                Some(elem) => pos < 64 && self@[pos as int] == Some(*elem),
                None => pos >= 64 || self@[pos as int] is None,
            },
    {
        match bitmask(pos) {
            Some((bit, mask)) => {
                if self.bmp & bit {
                    proof {
                        lemma_rank_step(self.bmp.word(), pos as nat, 64);
                    }
                    Some(&self.vals[self.bmp & mask])
                } else {
                    None
                }
            },
            None => None,
        }
    }

    /// The position of each element in the `BmpSlice`, in ascending order.
    pub fn keys(&self) -> (keys: Vec<u8>)
        requires
            self.wf(),
        ensures
            keys@ == keys_of(self@, 64),
    {
        proof {
            lemma_slots_packed(self.bmp.word(), self.vals@, 64);
        }
        self.bmp.keys()
    }

    /// The elements in the `BmpSlice`, in the order of their positions.
    pub fn values(&self) -> (values: &'t [T])
        requires
            self.wf(),
        ensures
            values@ == values_of(self@, 64),
    {
        proof {
            lemma_slots_packed(self.bmp.word(), self.vals@, 64);
            assert(self.vals@.take(self.vals@.len() as int) =~= self.vals@);
        }
        self.vals
    }

    /// An iterator visiting the position and value of each element, in the
    /// order of the positions.
    pub fn iter(&self) -> (iter: Iter<'t, T>)
        requires
            self.wf(),
        ensures
            iter.wf(),
            iter.slots() == self@,
            iter.pos() == 0,
    {
        Iter { keys: self.bmp.iter(), vals: self.vals, at: 0 }
    }
}

impl<T> BmpVec<T> {
    /// A read-only view of the `BmpVec`, which shares its elements.
    pub fn borrow(&self) -> (slice: BmpSlice<'_, T>)
        requires
            self.wf(),
        ensures
            slice.wf(),
            slice@ == self@,
    {
        BmpSlice::from_cooked_parts(self.bmp, self.vals.as_slice())
    }

    /// An iterator visiting the position and value of each element, in the
    /// order of the positions.
    pub fn iter(&self) -> (iter: Iter<'_, T>)
        requires
            self.wf(),
        ensures
            iter.wf(),
            iter.slots() == self@,
            iter.pos() == 0,
    {
        Iter { keys: self.bmp.iter(), vals: self.vals.as_slice(), at: 0 }
    }
}

/// An iterator visiting each element in a `BmpVec`.
///
/// Returned by [`BmpVec::iter()`]
#[derive(Debug)]
pub struct Iter<'t, T> {
    keys: crate::bmpvec::bmp::Iter,
    vals: &'t [T],
    at: usize,
}

impl<'t, T> Iter<'t, T> {
    /// The slots of the vector that is visited.
    pub closed spec fn slots(&self) -> Seq<Option<T>> {
        slots(self.keys.bmp().word(), self.vals@)
    }

    /// The position from which on the elements are still to come.
    pub closed spec fn pos(&self) -> int {
        self.keys.pos()
    }

    /// The iterator stands where the elements passed over say.
    pub closed spec fn wf(&self) -> bool {
        &&& self.keys.wf()
        &&& self.vals@.len() == popcount(self.keys.bmp().word())
        &&& self.at == rank(self.keys.bmp().word(), self.keys.pos() as nat)
    }

    /// The next element and its position: the one at the lowest position
    /// from where the iterator stands.
    pub fn next(&mut self) -> (r: Option<(u8, &'t T)>)
        requires
            old(self).wf(),
        ensures
            final(self).wf(),
            final(self).slots() == old(self).slots(),
            match r {
                Some((key, elem)) => {
                    &&& old(self).pos() <= key < 64
                    &&& final(self).pos() == key + 1
                    &&& old(self).slots()[key as int] == Some(*elem)
                    &&& forall|at: int|
                        old(self).pos() <= at < key ==> (#[trigger] old(self).slots()[at])
                            is None
                },
                None => {
                    &&& final(self).pos() == old(self).pos()
                    &&& forall|at: int|
                        old(self).pos() <= at < 64 ==> (#[trigger] old(self).slots()[at]) is None
                },
            },
    {
        let ghost word = self.keys.bmp().word();
        let ghost from = self.keys.pos();
        match self.keys.next() {
            Some(key) => {
                proof {
                    assert forall|at: u64| from <= at < key implies !crate::bmpvec::bmp::bit_at(
                        word,
                        at,
                    ) by {
                        assert(!self.keys.bmp().has(at as int));
                    }
                    lemma_rank_clear(word, from as nat, key as nat);
                    lemma_rank_step(word, key as nat, 64);
                    assert forall|at: int| from <= at < key implies (#[trigger] old(
                        self,
                    ).slots()[at]) is None by {
                        assert(!self.keys.bmp().has(at));
                    }
                }
                let elem = &self.vals[self.at];
                self.at = self.at + 1;
                Some((key, elem))
            },
            None => {
                proof {
                    assert forall|at: int| from <= at < 64 implies (#[trigger] old(
                        self,
                    ).slots()[at]) is None by {
                        assert(!self.keys.bmp().has(at));
                    }
                }
                None
            },
        }
    }
}

} // verus!
