//! Short bitmap-packed vectors
//!
//! A [`BmpVec`] is a sparse vector of up to 64 elements. It only stores the
//! elements that are present, not the gaps between them. A bitmap ("bmp" for
//! short) indicates which elements are present or not.
//!
//! There is a trick to find an element in the underlying vector: create a
//! bitmask covering the bits in the bitmap less than the element we are
//! looking for, then count how many bits covered by the mask are set. This
//! can be done quickly with the `popcount` instruction, aka "population
//! count" or "Hamming weight", or (in Rust) `count_ones`, or "sideways add"
//! according to Knuth.
//!
//! See also "Hacker's Delight" by Henry S. Warren Jr, section 5-1.

use crate::bmpvec::bmp::bit_at;
use crate::bmpvec::bmp::bitmask;
use crate::bmpvec::bmp::Bmp;
use crate::bmpvec::bmp::keys_below;
use crate::bmpvec::bmp::lemma_rank_step;
use crate::bmpvec::bmp::lemma_toggle_rank;
use crate::bmpvec::bmp::popcount;
use crate::bmpvec::bmp::rank;
use vstd::prelude::*;

pub mod bmp;
pub mod equal;
pub mod slice;

verus! {

/// The 64 slots that a bitmap and its packed elements stand for: slot
/// `pos` holds an element where bit `pos` is set, and that element is the
/// one at the rank of `pos`.
pub open spec fn slots<T>(word: u64, vals: Seq<T>) -> Seq<Option<T>> {
    Seq::new(
        64,
        |pos: int|
            if bit_at(word, pos as u64) {
                Some(vals[rank(word, pos as nat) as int])
            } else {
                None
            },
    )
}

/// The number of slots below `upto` that hold an element.
pub open spec fn count_some<T>(slots: Seq<Option<T>>, upto: nat) -> nat
    decreases upto,
{
    if upto == 0 {
        0
    } else {
        count_some(slots, (upto - 1) as nat) + if slots[upto - 1] is Some {
            1nat
        } else {
            0nat
        }
    }
}

/// The positions of the slots below `upto` that hold an element, in
/// ascending order.
pub open spec fn keys_of<T>(slots: Seq<Option<T>>, upto: nat) -> Seq<u8>
    decreases upto,
{
    if upto == 0 {
        Seq::empty()
    } else if slots[upto - 1] is Some {
        keys_of(slots, (upto - 1) as nat).push((upto - 1) as u8)
    } else {
        keys_of(slots, (upto - 1) as nat)
    }
}

/// The elements in the slots below `upto`, in the order of their positions.
pub open spec fn values_of<T>(slots: Seq<Option<T>>, upto: nat) -> Seq<T>
    decreases upto,
{
    if upto == 0 {
        Seq::empty()
    } else if slots[upto - 1] is Some {
        values_of(slots, (upto - 1) as nat).push(slots[upto - 1].unwrap())
    } else {
        values_of(slots, (upto - 1) as nat)
    }
}

/// The slots of a bitmap and its elements hold as many elements as the
/// bitmap has set bits, at the positions of those bits, and they are the
/// packed elements in their order.
pub proof fn lemma_slots_packed<T>(word: u64, vals: Seq<T>, upto: nat)
    requires
        upto <= 64,
        vals.len() == popcount(word),
    ensures
        count_some(slots(word, vals), upto) == rank(word, upto),
        keys_of(slots(word, vals), upto) == keys_below(word, upto),
        values_of(slots(word, vals), upto) == vals.take(rank(word, upto) as int),
    decreases upto,
{
    if upto > 0 {
        let below = (upto - 1) as nat;
        lemma_slots_packed(word, vals, below);
        lemma_rank_step(word, below, 64);
        lemma_rank_step(word, 0, below);
        if bit_at(word, below as u64) {
            assert(vals.take(rank(word, upto) as int) =~= vals.take(rank(word, below) as int).push(
                vals[rank(word, below) as int],
            ));
        }
    } else {
        assert(vals.take(0) =~= Seq::<T>::empty());
    }
}

/// Putting an element into an empty slot inserts it among the packed
/// elements at the rank of its position.
pub proof fn lemma_slots_insert<T>(word: u64, vals: Seq<T>, pos: u64, val: T)
    requires
        pos < 64,
        !bit_at(word, pos),
        vals.len() == popcount(word),
    ensures
        rank(word, pos as nat) <= vals.len(),
        popcount(word ^ (1u64 << pos)) == vals.len() + 1,
        slots(word ^ (1u64 << pos), vals.insert(rank(word, pos as nat) as int, val)) == slots(
            word,
            vals,
        ).update(pos as int, Some(val)),
{
    let flipped = word ^ (1u64 << pos);
    let at = rank(word, pos as nat) as int;
    let more = vals.insert(at, val);
    lemma_rank_step(word, pos as nat, 64);
    lemma_toggle_rank(word, pos, 64);
    crate::bmpvec::bmp::lemma_toggle_bits(word, pos);
    assert forall|q: int| 0 <= q < 64 implies slots(flipped, more)[q] == slots(word, vals).update(
        pos as int,
        Some(val),
    )[q] by {
        lemma_toggle_rank(word, pos, q as nat);
        assert(bit_at(flipped, q as u64) == (bit_at(word, q as u64) != (q as u64 == pos)));
        if q < pos {
            lemma_rank_step(word, q as nat, pos as nat);
        } else if q > pos {
            lemma_rank_step(word, (pos + 1) as nat, q as nat);
            lemma_rank_step(word, q as nat, 64);
            assert(rank(word, (pos + 1) as nat) == rank(word, pos as nat));
        }
    }
    assert(slots(flipped, more) =~= slots(word, vals).update(pos as int, Some(val)));
}

/// Taking an element out of its slot removes it from among the packed
/// elements at the rank of its position.
pub proof fn lemma_slots_remove<T>(word: u64, vals: Seq<T>, pos: u64)
    requires
        pos < 64,
        bit_at(word, pos),
        vals.len() == popcount(word),
    ensures
        rank(word, pos as nat) < vals.len(),
        popcount(word ^ (1u64 << pos)) == vals.len() - 1,
        slots(word, vals)[pos as int] == Some(vals[rank(word, pos as nat) as int]),
        slots(word ^ (1u64 << pos), vals.remove(rank(word, pos as nat) as int)) == slots(
            word,
            vals,
        ).update(pos as int, None),
{
    let flipped = word ^ (1u64 << pos);
    let at = rank(word, pos as nat) as int;
    let less = vals.remove(at);
    lemma_rank_step(word, pos as nat, 64);
    lemma_toggle_rank(word, pos, 64);
    crate::bmpvec::bmp::lemma_toggle_bits(word, pos);
    assert forall|q: int| 0 <= q < 64 implies slots(flipped, less)[q] == slots(word, vals).update(
        pos as int,
        None,
    )[q] by {
        lemma_toggle_rank(word, pos, q as nat);
        assert(bit_at(flipped, q as u64) == (bit_at(word, q as u64) != (q as u64 == pos)));
        if q < pos {
            lemma_rank_step(word, q as nat, pos as nat);
        } else if q > pos {
            lemma_rank_step(word, (pos + 1) as nat, q as nat);
            lemma_rank_step(word, q as nat, 64);
            assert(rank(word, (pos + 1) as nat) == rank(word, pos as nat) + 1);
        }
    }
    assert(slots(flipped, less) =~= slots(word, vals).update(pos as int, None));
}

/// Changing the element in a slot changes the packed element at the rank
/// of its position, and no other slot.
pub proof fn lemma_slots_update<T>(word: u64, vals: Seq<T>, pos: u64, val: T)
    requires
        pos < 64,
        bit_at(word, pos),
        vals.len() == popcount(word),
    ensures
        rank(word, pos as nat) < vals.len(),
        slots(word, vals)[pos as int] == Some(vals[rank(word, pos as nat) as int]),
        slots(word, vals.update(rank(word, pos as nat) as int, val)) == slots(word, vals).update(
            pos as int,
            Some(val),
        ),
{
    let at = rank(word, pos as nat) as int;
    lemma_rank_step(word, pos as nat, 64);
    assert forall|q: int| 0 <= q < 64 implies slots(word, vals.update(at, val))[q] == slots(
        word,
        vals,
    ).update(pos as int, Some(val))[q] by {
        if q < pos {
            lemma_rank_step(word, q as nat, pos as nat);
        } else if q > pos {
            lemma_rank_step(word, pos as nat, q as nat);
            lemma_rank_step(word, q as nat, 64);
        }
    }
    assert(slots(word, vals.update(at, val)) =~= slots(word, vals).update(pos as int, Some(val)));
}

/// The positions of the elements come in strictly ascending order, the
/// elements come in the order of their positions, and each position that
/// holds an element is among them.
pub proof fn lemma_keys_in_order<T>(slots: Seq<Option<T>>, upto: nat)
    requires
        upto <= slots.len(),
        upto <= 256,
    ensures
        keys_of(slots, upto).len() == count_some(slots, upto),
        values_of(slots, upto).len() == count_some(slots, upto),
        forall|i: int|
            0 <= i < keys_of(slots, upto).len() ==> (#[trigger] keys_of(slots, upto)[i]) < upto
                && slots[keys_of(slots, upto)[i] as int] == Some(values_of(slots, upto)[i]),
        forall|i: int, j: int|
            0 <= i < j < keys_of(slots, upto).len() ==> (#[trigger] keys_of(slots, upto)[i]) < (
            #[trigger] keys_of(slots, upto)[j]),
        forall|pos: int|
            0 <= pos < upto && (#[trigger] slots[pos]) is Some ==> keys_of(slots, upto).contains(
                pos as u8,
            ),
    decreases upto,
{
    if upto > 0 {
        let below = (upto - 1) as nat;
        lemma_keys_in_order(slots, below);
        let keys = keys_of(slots, upto);
        if slots[upto - 1] is Some {
            assert(keys.last() == below as u8);
            assert(keys[keys.len() - 1] == below as u8);
        }
        assert forall|pos: int|
            0 <= pos < upto && (#[trigger] slots[pos]) is Some implies keys.contains(pos as u8) by {
            if pos < below {
                let i = choose|i: int|
                    0 <= i < keys_of(slots, below).len() && keys_of(slots, below)[i] == pos as u8;
                assert(keys[i] == pos as u8);
            } else {
                assert(keys[keys.len() - 1] == pos as u8);
            }
        }
    }
}

/// Two words with the same bits are the same word.
pub proof fn lemma_same_bits(a: u64, b: u64)
    requires
        forall|pos: u64| pos < 64 ==> bit_at(a, pos) == bit_at(b, pos),
    ensures
        a == b,
{
    if a != b {
        let both = a ^ b;
        assert(both != 0) by (bit_vector)
            requires
                a != b,
                both == a ^ b,
        ;
        let pos = crate::bmpvec::bmp::lemma_set_bit(both);
        assert(((a >> pos) & 1 == 1) != ((b >> pos) & 1 == 1)) by (bit_vector)
            requires
                pos < 64,
                both == a ^ b,
                (both >> pos) & 1 == 1,
        ;
        assert(bit_at(a, pos) == bit_at(b, pos));
    }
}

/// What the slots hold decides the bitmap and the packed elements: two
/// vectors with the same slots are made of the same parts.
pub proof fn lemma_slots_decide<T>(word_a: u64, vals_a: Seq<T>, word_b: u64, vals_b: Seq<T>)
    requires
        vals_a.len() == popcount(word_a),
        vals_b.len() == popcount(word_b),
        slots(word_a, vals_a) == slots(word_b, vals_b),
    ensures
        word_a == word_b,
        vals_a == vals_b,
{
    assert forall|pos: u64| pos < 64 implies bit_at(word_a, pos) == bit_at(word_b, pos) by {
        assert(slots(word_a, vals_a)[pos as int] is Some == bit_at(word_a, pos));
        assert(slots(word_b, vals_b)[pos as int] is Some == bit_at(word_b, pos));
    }
    lemma_same_bits(word_a, word_b);
    lemma_slots_packed(word_a, vals_a, 64);
    lemma_slots_packed(word_b, vals_b, 64);
    assert(vals_a.take(vals_a.len() as int) =~= vals_a);
    assert(vals_b.take(vals_b.len() as int) =~= vals_b);
}

/// `Vec::shrink_to_fit` gives back what a vector has allocated beyond what
/// its elements need, as far as the allocator lets it, and leaves the
/// elements as they are.
#[verifier::external_body]
fn shrink_to_fit<T>(vec: &mut Vec<T>)
    ensures
        final(vec)@ == old(vec)@,
{
    vec.shrink_to_fit()
}

/// A [`BmpVec`] is a sparse vector of up to 64 elements.
///
/// The elements are numbered from 0 through 63.
///
/// The `BmpVec` only stores the elements that are present, not the gaps
/// between them. Unlike a [`Vec`], there is no extra capacity: compactness
/// is prioritized more than speed of mutation.
#[derive(Debug)]
pub struct BmpVec<T> {
    bmp: Bmp,
    vals: Vec<T>,
}

impl<T> BmpVec<T> {
    /// The bitmap of the positions that hold an element.
    pub closed spec fn bitmap(&self) -> Bmp {
        self.bmp
    }

    /// The elements, packed in the order of their positions.
    pub closed spec fn packed(&self) -> Seq<T> {
        self.vals@
    }

    /// There are as many elements as the bitmap has set bits.
    pub open spec fn wf(&self) -> bool {
        self.packed().len() == popcount(self.bitmap().word())
    }

    /// The 64 slots of the vector, each with its element or without one.
    pub open spec fn view(&self) -> Seq<Option<T>> {
        slots(self.bitmap().word(), self.packed())
    }

    /// Constructs a new, empty `BmpVec`.
    pub fn new() -> (vec: BmpVec<T>)
        ensures
            vec.wf(),
            vec@ == Seq::new(64, |pos: int| None::<T>),
            vec.bitmap().word() == 0,
            vec.packed().len() == 0,
    {
        let vec = BmpVec { bmp: Bmp::new(), vals: Vec::new() };
        proof {
            crate::bmpvec::bmp::lemma_rank_zero(64);
            assert(vec@ =~= Seq::new(64, |pos: int| None::<T>)) by {
                assert forall|pos: int| 0 <= pos < 64 implies vec@[pos] is None by {
                    assert(!vec.bmp.has(pos));
                }
            }
        }
        vec
    }

    /// Construct a `BmpVec` from a pair of a bitmap and vector: the
    /// elements for the set bits of the bitmap, in the order of the bits.
    ///
    /// Gives back the memory of the vector if there is any excess capacity.
    pub fn from_cooked_parts(bmp: Bmp, vec: Vec<T>) -> (made: BmpVec<T>)
        requires
            popcount(bmp.word()) == vec@.len(),
        ensures
            made.wf(),
            made.bitmap() == bmp,
            made.packed() == vec@,
    {
        let mut vals = vec;
        // ensure there is no excess capacity
        shrink_to_fit(&mut vals);
        BmpVec { bmp, vals }
    }

    /// Consume a `BmpVec` and expand it into a pair of a bitmap and vector.
    pub fn into_cooked_parts(self) -> (parts: (Bmp, Vec<T>))
        ensures
            parts.0 == self.bitmap(),
            parts.1@ == self.packed(),
    {
        (self.bmp, self.vals)
    }

    /// Turn a `BmpVec` into a pair of a bitmap and vector, and leave it
    /// empty.
    pub fn take_cooked_parts(&mut self) -> (parts: (Bmp, Vec<T>))
        ensures
            parts.0 == old(self).bitmap(),
            parts.1@ == old(self).packed(),
            final(self).wf(),
            final(self)@ == Seq::new(64, |pos: int| None::<T>),
    {
        let mut taken = BmpVec::new();
        core::mem::swap(self, &mut taken);
        taken.into_cooked_parts()
    }

    /// Construct a `BmpVec` from the word of a bitmap and the elements for
    /// its set bits, in the order of the bits.
    ///
    /// This is the inverse of [`BmpVec::into_raw_parts()`]: the two are for
    /// keeping a `BmpVec` inside something else, such as a node of a trie,
    /// that has its own use for the spare bits of the word.
    pub fn from_raw_parts(bmp: u64, vec: Vec<T>) -> (made: BmpVec<T>)
        requires
            popcount(bmp) == vec@.len(),
        ensures
            made.wf(),
            made.bitmap().word() == bmp,
            made.packed() == vec@,
            made@ == slots(bmp, vec@),
    {
        BmpVec::from_cooked_parts(Bmp::from_raw_parts(bmp), vec)
    }

    /// Unpack a `BmpVec` into the word of its bitmap and its elements.
    ///
    /// This consumes the `BmpVec`. What it gives makes the same `BmpVec`
    /// again.
    pub fn into_raw_parts(self) -> (parts: (u64, Vec<T>))
        ensures
            parts.0 == self.bitmap().word(),
            parts.1@ == self.packed(),
            self@ == slots(parts.0, parts.1@),
            self.wf() ==> popcount(parts.0) == parts.1@.len(),
    {
        (self.bmp.into_raw_parts(), self.vals)
    }

    /// Returns `true` if there are no elements in the `BmpVec`
    pub fn is_empty(&self) -> (empty: bool)
        requires
            self.wf(),
        ensures
            empty == (count_some(self@, 64) == 0),
    {
        proof {
            lemma_slots_packed(self.bmp.word(), self.vals@, 64);
        }
        self.bmp.is_empty()
    }

    /// Returns the number of elements in the `BmpVec`
    pub fn len(&self) -> (len: usize)
        requires
            self.wf(),
        ensures
            len == count_some(self@, 64),
            len <= 64,
    {
        proof {
            lemma_slots_packed(self.bmp.word(), self.vals@, 64);
        }
        self.bmp.len()
    }

    /// Returns `true` if there is an element at the given `pos`ition.
    pub fn contains(&self, pos: u8) -> (found: bool)
        ensures
            found == (pos < 64 && self@[pos as int] is Some),
    {
        match bitmask(pos) {
            Some((bit, _)) => self.bmp & bit,
            None => false,
        }
    }

    /// Get a reference to an element in the `BmpVec`
    ///
    /// This returns `None` if there is no element at `pos`.
    pub fn get(&self, pos: u8) -> (found: Option<&T>)
        requires
            self.wf(),
        ensures
            match found {
                Some(elem) => pos < 64 && self@[pos as int] == Some(*elem),
                None => pos >= 64 || self@[pos as int] is None,
            },
    {
        match bitmask(pos) {
            Some((bit, mask)) => {
                if self.bmp & bit {
                    proof {
                        lemma_rank_step(self.bmp.word(), pos as nat, 64);
                    }
                    Some(&self.vals[self.bmp & mask])
                } else {
                    None
                }
            },
            None => None,
        }
    }

    /// Get a mutable reference to an element in the `BmpVec`
    ///
    /// This returns `None` if there is no element at `pos`.
    pub fn get_mut(&mut self, pos: u8) -> (found: Option<&mut T>)
        requires
            old(self).wf(),
        ensures
            final(self).wf(),
            match found {
                Some(elem) => {
                    &&& pos < 64
                    &&& old(self)@[pos as int] == Some(*elem)
                    &&& final(self)@ == old(self)@.update(pos as int, Some(*final(elem)))
                },
                None => (pos >= 64 || old(self)@[pos as int] is None) && final(self)@ == old(
                    self,
                )@,
            },
    {
        match bitmask(pos) {
            Some((bit, mask)) => {
                if self.bmp & bit {
                    let at = self.bmp & mask;
                    proof {
                        lemma_rank_step(self.bmp.word(), pos as nat, 64);
                    }
                    let elem = &mut self.vals[at];
                    proof {
                        lemma_slots_update(
                            old(self).bmp.word(),
                            old(self).vals@,
                            pos as u64,
                            *final(elem),
                        );
                    }
                    Some(elem)
                } else {
                    None
                }
            },
            None => None,
        }
    }

    /// Set the `val`ue of the element at the given `pos`ition.
    ///
    /// If there was previously no element at the given `pos`ition then
    /// `None` is returned.
    ///
    /// If there was an element, then it is replaced with the new value and
    /// the old value is returned.
    ///
    /// `pos` must be between 0 and 63.
    pub fn insert(&mut self, pos: u8, val: T) -> (was: Option<T>)
        requires
            old(self).wf(),
            pos <= 63,
        ensures
            final(self).wf(),
            was == old(self)@[pos as int],
            final(self)@ == old(self)@.update(pos as int, Some(val)),
    {
        self.set(pos, Some(val))
    }

    /// Remove the element at the given `pos`ition.
    ///
    /// Returns the value of the element if there was one, or `None` if
    /// there was not, or if there is no such position.
    pub fn remove(&mut self, pos: u8) -> (was: Option<T>)
        requires
            old(self).wf(),
        ensures
            final(self).wf(),
            pos <= 63 ==> was == old(self)@[pos as int] && final(self)@ == old(self)@.update(
                pos as int,
                None,
            ),
            pos > 63 ==> was is None && final(self)@ == old(self)@,
    {
        self.set(pos, None)
    }

    /// Set or clear the `val`ue of the element at the given `pos`ition.
    ///
    /// The old value of the element (or `None`) is returned.
    ///
    /// To set a value, `pos` must be between 0 and 63.
    pub fn set(&mut self, pos: u8, val: Option<T>) -> (was: Option<T>)
        requires
            old(self).wf(),
            val is Some ==> pos <= 63,
        ensures
            final(self).wf(),
            pos <= 63 ==> was == old(self)@[pos as int] && final(self)@ == old(self)@.update(
                pos as int,
                val,
            ),
            pos > 63 ==> was is None && final(self)@ == old(self)@,
    {
        let (bit, mask) = match bitmask(pos) {
            Some(found) => found,
            None => {
                return None;
            },
        };
        let present = self.bmp & bit;
        let at = self.bmp & mask;
        match val {
            Some(val) => {
                if present {
                    proof {
                        lemma_slots_update(self.bmp.word(), self.vals@, pos as u64, val);
                    }
                    let mut val = val;
                    core::mem::swap(&mut self.vals[at], &mut val);
                    Some(val)
                } else {
                    proof {
                        lemma_slots_insert(self.bmp.word(), self.vals@, pos as u64, val);
                    }
                    self.vals.insert(at, val);
                    shrink_to_fit(&mut self.vals);
                    self.bmp = self.bmp ^ bit;
                    None
                }
            },
            None => {
                if present {
                    proof {
                        lemma_slots_remove(self.bmp.word(), self.vals@, pos as u64);
                    }
                    let old = self.vals.remove(at);
                    shrink_to_fit(&mut self.vals);
                    self.bmp = self.bmp ^ bit;
                    Some(old)
                } else {
                    assert(self@ =~= old(self)@.update(pos as int, None));
                    None
                }
            },
        }
    }

    /// The position of each element in the `BmpVec`, in ascending order.
    pub fn keys(&self) -> (keys: Vec<u8>)
        requires
            self.wf(),
        ensures
            keys@ == keys_of(self@, 64),
    {
        proof {
            lemma_slots_packed(self.bmp.word(), self.vals@, 64);
        }
        self.bmp.keys()
    }

    /// The elements in the `BmpVec`, in the order of their positions.
    pub fn values(&self) -> (values: &[T])
        requires
            self.wf(),
        ensures
            values@ == values_of(self@, 64),
    {
        proof {
            lemma_slots_packed(self.bmp.word(), self.vals@, 64);
            assert(self.vals@.take(self.vals@.len() as int) =~= self.vals@);
        }
        self.vals.as_slice()
    }
}

impl<T> Default for BmpVec<T> {
    fn default() -> (vec: Self)
        ensures
            vec.wf(),
            vec@ == Seq::new(64, |pos: int| None::<T>),
    {
        Self::new()
    }
}

} // verus!
