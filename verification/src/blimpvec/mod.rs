//! BlimpVec, a plain counterpart of BmpVec
//!
//! This is a container type that works the same as a
//! [`BmpVec`][crate::bmpvec::BmpVec], but it's simpler: no compression,
//! just 64 slots one after the other. What either of them holds is a
//! sequence of 64 optional elements, and each operation does the same to
//! that sequence and returns the same from it, so one can be checked
//! against the other.

use crate::bmpvec::BmpVec;
use crate::bmpvec::count_some;
use crate::bmpvec::keys_of;
use crate::bmpvec::values_of;
use vstd::prelude::*;

pub mod equal;

verus! {

/// Filling or emptying one slot changes the number of elements by one, and
/// changing what a slot holds leaves it as it was.
pub proof fn lemma_count_update<T>(slots: Seq<Option<T>>, pos: int, val: Option<T>, upto: nat)
    requires
        0 <= pos < slots.len(),
        upto <= slots.len(),
    ensures
        upto <= pos ==> count_some(slots.update(pos, val), upto) == count_some(slots, upto),
        upto > pos ==> count_some(slots.update(pos, val), upto) + (if slots[pos] is Some {
            1nat
        } else {
            0nat
        }) == count_some(slots, upto) + (if val is Some {
            1nat
        } else {
            0nat
        }),
        count_some(slots, upto) <= upto,
    decreases upto,
{
    if upto > 0 {
        lemma_count_update(slots, pos, val, (upto - 1) as nat);
    }
}

/// A sparse vector of up to 64 elements, numbered from 0 through 63, that
/// keeps a slot for each of them.
#[derive(Debug)]
pub struct BlimpVec<T> {
    len: usize,
    vec: Vec<Option<T>>,
}

impl<T> BlimpVec<T> {
    /// The slots of the vector, each with its element or without one.
    pub closed spec fn view(&self) -> Seq<Option<T>> {
        self.vec@
    }

    /// The number of elements that is kept beside the slots.
    pub closed spec fn count(&self) -> nat {
        self.len as nat
    }

    /// There are 64 slots, and the count is that of the elements in them.
    pub open spec fn wf(&self) -> bool {
        self@.len() == 64 && self.count() == count_some(self@, 64)
    }

    /// Constructs a new, empty `BlimpVec`.
    pub fn new() -> (blimp: BlimpVec<T>)
        ensures
            blimp.wf(),
            blimp@ == Seq::new(64, |pos: int| None::<T>),
    {
        let mut vec: Vec<Option<T>> = Vec::new();
        let mut pos: usize = 0;
        while pos <= 63
            invariant
                pos <= 64,
                vec@ == Seq::new(pos as nat, |at: int| None::<T>),
            decreases 64 - pos,
        {
            vec.push(None);
            pos += 1;
            assert(vec@ =~= Seq::new(pos as nat, |at: int| None::<T>));
        }
        proof {
            lemma_count_none::<T>(64);
        }
        BlimpVec { len: 0, vec }
    }

    /// Returns `true` if there are no elements in the `BlimpVec`
    pub fn is_empty(&self) -> (empty: bool)
        requires
            self.wf(),
        ensures
            empty == (count_some(self@, 64) == 0),
    {
        self.len == 0
    }

    /// Returns the number of elements in the `BlimpVec`
    pub fn len(&self) -> (len: usize)
        requires
            self.wf(),
        ensures
            len == count_some(self@, 64),
            len <= 64,
    {
        proof {
            lemma_count_update(self@, 0, self@[0], 64);
        }
        self.len
    }

    /// The slot for a position, if there is one.
    fn get_pos(&self, pos: u8) -> (at: Option<usize>)
        ensures
            match at {
                Some(at) => at == pos && at < self@.len(),
                None => pos >= self@.len(),
            },
    {
        let at = pos as usize;
        if at < self.vec.len() {
            Some(at)
        } else {
            None
        }
    }

    /// Returns `true` if there is an element at the given `pos`ition.
    pub fn contains(&self, pos: u8) -> (found: bool)
        ensures
            found == (pos < self@.len() && self@[pos as int] is Some),
    {
        self.get(pos).is_some()
    }

    /// Get a reference to an element in the `BlimpVec`
    ///
    /// This returns `None` if there is no element at `pos`.
    pub fn get(&self, pos: u8) -> (found: Option<&T>)
        ensures
            match found {
                Some(elem) => pos < self@.len() && self@[pos as int] == Some(*elem),
                None => pos >= self@.len() || self@[pos as int] is None,
            },
    {
        match self.get_pos(pos) {
            Some(at) => self.vec[at].as_ref(),
            None => None,
        }
    }

    /// Get a mutable reference to an element in the `BlimpVec`
    ///
    /// This returns `None` if there is no element at `pos`.
    pub fn get_mut(&mut self, pos: u8) -> (found: Option<&mut T>)
        requires
            old(self).wf(),
        ensures
            final(self).wf(),
            match found {
                Some(elem) => {
                    &&& pos < 64
                    &&& old(self)@[pos as int] == Some(*elem)
                    &&& final(self)@ == old(self)@.update(pos as int, Some(*final(elem)))
                },
                None => (pos >= 64 || old(self)@[pos as int] is None) && final(self)@ == old(
                    self,
                )@,
            },
    {
        match self.get_pos(pos) {
            Some(at) => {
                if self.vec[at].is_none() {
                    return None;
                }
                let slot = &mut self.vec[at];
                proof {
                    lemma_count_update(old(self)@, at as int, *final(slot), 64);
                }
                slot.as_mut()
            },
            None => None,
        }
    }

    /// Set the `val`ue of the element at the given `pos`ition, which must
    /// be between 0 and 63, and return what was there.
    pub fn insert(&mut self, pos: u8, val: T) -> (was: Option<T>)
        requires
            old(self).wf(),
            pos <= 63,
        ensures
            final(self).wf(),
            was == old(self)@[pos as int],
            final(self)@ == old(self)@.update(pos as int, Some(val)),
    {
        self.set(pos, Some(val))
    }

    /// Remove the element at the given `pos`ition, which must be between 0
    /// and 63, and return it if there was one.
    pub fn remove(&mut self, pos: u8) -> (was: Option<T>)
        requires
            old(self).wf(),
            pos <= 63,
        ensures
            final(self).wf(),
            was == old(self)@[pos as int],
            final(self)@ == old(self)@.update(pos as int, None),
    {
        self.set(pos, None)
    }

    /// Set or clear the `val`ue of the element at the given `pos`ition,
    /// which must be between 0 and 63, and return what was there.
    pub fn set(&mut self, pos: u8, val: Option<T>) -> (was: Option<T>)
        requires
            old(self).wf(),
            pos <= 63,
        ensures
            final(self).wf(),
            was == old(self)@[pos as int],
            final(self)@ == old(self)@.update(pos as int, val),
    {
        let somenew = val.is_some();
        let at = pos as usize;
        proof {
            lemma_count_update(self@, at as int, val, 64);
        }
        let mut old = val;
        core::mem::swap(&mut self.vec[at], &mut old);
        let someold = old.is_some();
        if !someold && somenew {
            self.len += 1;
        } else if someold && !somenew {
            self.len -= 1;
        }
        old
    }

    /// The position of each element in the `BlimpVec`, in ascending order.
    pub fn keys(&self) -> (keys: Vec<u8>)
        requires
            self.wf(),
        ensures
            keys@ == keys_of(self@, 64),
    {
        let mut keys: Vec<u8> = Vec::new();
        let mut pos: u8 = 0;
        while pos < 64
            invariant
                pos <= 64,
                self@.len() == 64,
                keys@ == keys_of(self@, pos as nat),
            decreases 64 - pos,
        {
            if self.vec[pos as usize].is_some() {
                keys.push(pos);
            }
            pos += 1;
        }
        keys
    }

    /// The elements in the `BlimpVec`, in the order of their positions.
    pub fn values(&self) -> (values: Vec<&T>)
        requires
            self.wf(),
        ensures
            values@.map_values(|elem: &T| *elem) == values_of(self@, 64),
    {
        let mut values: Vec<&T> = Vec::new();
        let mut pos: usize = 0;
        assert(values@.map_values(|elem: &T| *elem) =~= values_of(self@, 0));
        while pos < 64
            invariant
                pos <= 64,
                self@.len() == 64,
                values@.map_values(|elem: &T| *elem) == values_of(self@, pos as nat),
            decreases 64 - pos,
        {
            let ghost before = values@;
            match self.vec[pos].as_ref() {
                Some(elem) => {
                    values.push(elem);
                    assert(values@.map_values(|elem: &T| *elem) =~= before.map_values(
                        |elem: &T| *elem,
                    ).push(*elem));
                },
                None => {},
            }
            pos += 1;
        }
        values
    }

    /// The position and value of each element, in the order of the
    /// positions.
    pub fn iter(&self) -> (pairs: Vec<(u8, &T)>)
        requires
            self.wf(),
        ensures
            pairs@.map_values(|pair: (u8, &T)| pair.0) == keys_of(self@, 64),
            pairs@.map_values(|pair: (u8, &T)| *pair.1) == values_of(self@, 64),
    {
        let mut pairs: Vec<(u8, &T)> = Vec::new();
        let mut pos: u8 = 0;
        assert(pairs@.map_values(|pair: (u8, &T)| pair.0) =~= keys_of(self@, 0));
        assert(pairs@.map_values(|pair: (u8, &T)| *pair.1) =~= values_of(self@, 0));
        while pos < 64
            invariant
                pos <= 64,
                self@.len() == 64,
                pairs@.map_values(|pair: (u8, &T)| pair.0) == keys_of(self@, pos as nat),
                pairs@.map_values(|pair: (u8, &T)| *pair.1) == values_of(self@, pos as nat),
            decreases 64 - pos,
        {
            let ghost before = pairs@;
            match self.vec[pos as usize].as_ref() {
                Some(elem) => {
                    pairs.push((pos, elem));
                    assert(pairs@.map_values(|pair: (u8, &T)| pair.0) =~= before.map_values(
                        |pair: (u8, &T)| pair.0,
                    ).push(pos));
                    assert(pairs@.map_values(|pair: (u8, &T)| *pair.1) =~= before.map_values(
                        |pair: (u8, &T)| *pair.1,
                    ).push(*elem));
                },
                None => {},
            }
            pos += 1;
        }
        pairs
    }
}

impl<T: Copy> BlimpVec<T> {
    /// A `BlimpVec` with the elements of a `BmpVec`, each at its position.
    pub fn from(bmp: &BmpVec<T>) -> (blimp: BlimpVec<T>)
        requires
            bmp.wf(),
        ensures
            blimp.wf(),
            blimp@ == bmp@,
    {
        let mut blimp = BlimpVec::new();
        let mut pos: u8 = 0;
        while pos < 64
            invariant
                pos <= 64,
                bmp.wf(),
                blimp.wf(),
                forall|at: int| 0 <= at < pos ==> (#[trigger] blimp@[at]) == bmp@[at],
                forall|at: int| pos <= at < 64 ==> (#[trigger] blimp@[at]) is None,
            decreases 64 - pos,
        {
            match bmp.get(pos) {
                Some(elem) => {
                    blimp.insert(pos, *elem);
                },
                None => {},
            }
            pos += 1;
        }
        assert(blimp@ =~= bmp@);
        blimp
    }
}

impl<T: Copy> BmpVec<T> {
    /// A `BmpVec` with the elements of a `BlimpVec`, each at its position.
    pub fn from(blimp: &BlimpVec<T>) -> (bmp: BmpVec<T>)
        requires
            blimp.wf(),
        ensures
            bmp.wf(),
            bmp@ == blimp@,
    {
        let mut bmp = BmpVec::new();
        let mut pos: u8 = 0;
        while pos < 64
            invariant
                pos <= 64,
                bmp.wf(),
                blimp.wf(),
                forall|at: int| 0 <= at < pos ==> (#[trigger] bmp@[at]) == blimp@[at],
                forall|at: int| pos <= at < 64 ==> (#[trigger] bmp@[at]) is None,
            decreases 64 - pos,
        {
            match blimp.get(pos) {
                Some(elem) => {
                    bmp.insert(pos, *elem);
                },
                None => {},
            }
            pos += 1;
        }
        assert(bmp@ =~= blimp@);
        bmp
    }
}

/// Slots without elements count none.
pub proof fn lemma_count_none<T>(upto: nat)
    requires
        upto <= 64,
    ensures
        count_some(Seq::new(64, |pos: int| None::<T>), upto) == 0,
    decreases upto,
{
    if upto > 0 {
        lemma_count_none::<T>((upto - 1) as nat);
    }
}

} // verus!
