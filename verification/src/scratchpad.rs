//! Scratch space for various kinds of DNS name
//!
//! A [`ScratchPad`] is an append-only area with a fixed capacity. It can be
//! cleared and used again. An append that does not fit is refused with
//! [`Error::ScratchOverflow`] and leaves the pad as it was, so a pad sized to
//! a protocol limit enforces that limit by itself.
//!
//! The room for all its elements is set aside when the pad is made, and
//! nothing is allocated after that.

use crate::error::Error;
use vstd::prelude::*;

verus! {

/// An append-only buffer that holds at most `SIZE` elements.
#[derive(Debug)]
pub struct ScratchPad<T, const SIZE: usize> {
    items: Vec<T>,
}

impl<T, const SIZE: usize> ScratchPad<T, SIZE> {
    /// The elements appended so far, oldest first.
    pub closed spec fn view(&self) -> Seq<T> {
        self.items@
    }

    /// The pad never holds more than its capacity.
    pub open spec fn wf(&self) -> bool {
        self@.len() <= SIZE
    }

    /// Create a new empty scratch pad.
    pub fn new() -> (pad: Self)
        ensures
            pad.wf(),
            pad@ == Seq::<T>::empty(),
    {
        ScratchPad { items: Vec::with_capacity(SIZE) }
    }

    /// Reset the scratch pad to empty.
    pub fn clear(&mut self)
        ensures
            final(self).wf(),
            final(self)@ == Seq::<T>::empty(),
    {
        self.items.clear();
    }

    /// Is the scratch pad empty?
    pub fn is_empty(&self) -> (empty: bool)
        ensures
            empty == (self@.len() == 0),
    {
        self.items.len() == 0
    }

    /// The number of elements in the scratch pad.
    pub fn len(&self) -> (len: usize)
        ensures
            len == self@.len(),
    {
        self.items.len()
    }

    /// A slice covering the elements in the scratch pad.
    pub fn as_slice(&self) -> (slice: &[T])
        ensures
            slice@ == self@,
    {
        self.items.as_slice()
    }

    /// Append one element, unless the pad is full.
    pub fn push(&mut self, elem: T) -> (r: Result<(), Error>)
        requires
            old(self).wf(),
        ensures
            final(self).wf(),
            match r {
                Ok(()) => old(self)@.len() < SIZE && final(self)@ == old(self)@.push(elem),
                Err(e) => e == Error::ScratchOverflow && old(self)@.len() == SIZE && final(self)@
                    == old(self)@,
            },
    {
        if self.items.len() < SIZE {
            self.items.push(elem);
            Ok(())
        } else {
            Err(Error::ScratchOverflow)
        }
    }
}

impl<T: Copy, const SIZE: usize> ScratchPad<T, SIZE> {
    /// Append all of `elems`, unless they do not all fit; then none is added.
    pub fn append(&mut self, elems: &[T]) -> (r: Result<(), Error>)
        requires
            old(self).wf(),
        ensures
            final(self).wf(),
            match r {
                Ok(()) => old(self)@.len() + elems@.len() <= SIZE && final(self)@ == old(self)@
                    + elems@,
                Err(e) => e == Error::ScratchOverflow && old(self)@.len() + elems@.len() > SIZE
                    && final(self)@ == old(self)@,
            },
    {
        if elems.len() > SIZE - self.items.len() {
            return Err(Error::ScratchOverflow);
        }
        let mut i: usize = 0;
        while i < elems.len()
            invariant
                i <= elems@.len(),
                old(self)@.len() + elems@.len() <= SIZE,
                self@ == old(self)@ + elems@.subrange(0, i as int),
            decreases elems@.len() - i,
        {
            self.items.push(elems[i]);
            i += 1;
            assert(elems@.subrange(0, i as int) == elems@.subrange(0, i - 1).push(elems@[i - 1]));
        }
        assert(elems@.subrange(0, elems@.len() as int) == elems@);
        Ok(())
    }
}

impl<T, const SIZE: usize> Default for ScratchPad<T, SIZE> {
    fn default() -> (pad: Self)
        ensures
            pad.wf(),
            pad@ == Seq::<T>::empty(),
    {
        Self::new()
    }
}

} // verus!
