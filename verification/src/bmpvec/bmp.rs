//! 64-bit bitmaps
//!
//! These types keep apart the three things that a 64-bit word is used for
//! in a [`BmpVec`][super::BmpVec], to make it harder to use the wrong value
//! in the wrong context. [`Bmp`] is the only type with methods.
//!
//! There are a few operators with slightly weird but convenient behaviour:
//!
//!   * `Bmp & Mask -> usize` : count set bits covered by the mask
//!
//!   * `Bmp & Bit -> bool` : test whether a `Bit` is present
//!
//! The other operator is `Bmp ^ Bit` which is not weird.

use vstd::prelude::*;

verus! {

/// Bit `pos` of `word` is set.
pub open spec fn bit_at(word: u64, pos: u64) -> bool {
    (word >> pos) & 1 == 1
}

/// The number of set bits of `word` below `pos`.
pub open spec fn rank(word: u64, pos: nat) -> nat
    decreases pos,
{
    if pos == 0 {
        0
    } else {
        rank(word, (pos - 1) as nat) + if bit_at(word, (pos - 1) as u64) {
            1nat
        } else {
            0nat
        }
    }
}

/// The number of set bits of `word`.
pub open spec fn popcount(word: u64) -> nat {
    rank(word, 64)
}

/// `u64::count_ones` returns the number of ones in the binary
/// representation of its argument: as many as there are set bits among all
/// 64 positions.
pub assume_specification[ u64::count_ones ](word: u64) -> (ones: u32)
    ensures
        ones == popcount(word),
;

/// The positions of the set bits of `word` below `pos`, in ascending order.
pub open spec fn keys_below(word: u64, pos: nat) -> Seq<u8>
    decreases pos,
{
    if pos == 0 {
        Seq::empty()
    } else if bit_at(word, (pos - 1) as u64) {
        keys_below(word, (pos - 1) as nat).push((pos - 1) as u8)
    } else {
        keys_below(word, (pos - 1) as nat)
    }
}

/// A bitmap to identify which elements are present in a
/// [`BmpVec`][super::BmpVec]
#[derive(Clone, Copy, Debug, PartialEq, Eq, Structural)]
pub struct Bmp(u64);

/// exactly one bit set to identify a particular element
///
/// constructed by [`bitmask()`]
#[derive(Clone, Copy, Debug, PartialEq, Eq, Structural)]
pub struct Bit(u64);

/// all the bits less than the accompanying [`Bit`]
///
/// constructed by [`bitmask()`]
#[derive(Clone, Copy, Debug, PartialEq, Eq, Structural)]
pub struct Mask(u64);

impl Bit {
    /// The word with the one bit.
    pub closed spec fn word(self) -> u64 {
        self.0
    }

    /// This is the bit of position `pos`.
    pub open spec fn at(self, pos: u8) -> bool {
        pos < 64 && self.word() == 1u64 << pos
    }
}

impl Mask {
    /// The word with the bits of the mask.
    pub closed spec fn word(self) -> u64 {
        self.0
    }

    /// This is the mask of all positions below `pos`.
    pub open spec fn below(self, pos: u8) -> bool {
        pos < 64 && self.word() == ((1u64 << pos) - 1) as u64
    }
}

/// Get the [`Bit`] at a given `pos`ition, and a [`Mask`] covering the
/// lesser bits. Both are `None` if the position is out of bounds.
pub fn bitmask(pos: u8) -> (r: Option<(Bit, Mask)>)
    ensures
        match r {
            Some((bit, mask)) => pos <= 63 && bit.at(pos) && mask.below(pos),
            None => pos > 63,
        },
{
    if pos <= 63 {
        let bit = 1u64 << pos;
        assert(bit >= 1) by (bit_vector)
            requires
                bit == 1u64 << pos,
                pos < 64,
        ;
        Some((Bit(bit), Mask(bit - 1)))
    } else {
        None
    }
}

impl Bmp {
    /// The word with the bits of the bitmap.
    pub closed spec fn word(self) -> u64 {
        self.0
    }

    /// Position `pos` is in the bitmap.
    pub open spec fn has(self, pos: int) -> bool {
        0 <= pos < 64 && bit_at(self.word(), pos as u64)
    }

    /// `other` is this bitmap with position `pos` flipped: in it if it
    /// was not, and not in it if it was.
    pub open spec fn flipped(self, other: Bmp, pos: u8) -> bool {
        &&& pos < 64
        &&& other.word() == self.word() ^ (1u64 << pos)
        &&& forall|at: int| other.has(at) == (self.has(at) != (at == pos))
    }

    /// Bitmaps with the same word are the same bitmap.
    pub proof fn lemma_word_decides(self, other: Bmp)
        requires
            self.word() == other.word(),
        ensures
            self == other,
    {
    }

    /// Create an empty bitmap
    pub fn new() -> (bmp: Bmp)
        ensures
            bmp.word() == 0,
            forall|pos: int| !bmp.has(pos),
    {
        assert forall|pos: u64| pos < 64 implies !bit_at(0, pos) by {
            assert((0u64 >> pos) & 1 == 0) by (bit_vector);
        }
        Bmp(0)
    }

    /// Get the bit at a given `pos`ition, and a mask covering the
    /// lesser bits. Both are `None` if the position is out of bounds.
    pub fn bitmask(pos: u8) -> (r: Option<(Bit, Mask)>)
        ensures
            match r {
                Some((bit, mask)) => pos <= 63 && bit.at(pos) && mask.below(pos),
                None => pos > 63,
            },
    {
        bitmask(pos)
    }

    /// Create a bitmap from the word of one.
    pub fn from_raw_parts(word: u64) -> (bmp: Bmp)
        ensures
            bmp.word() == word,
    {
        Bmp(word)
    }

    /// Get hold of the word of the bitmap.
    pub fn into_raw_parts(self) -> (word: u64)
        ensures
            word == self.word(),
    {
        self.0
    }

    /// Is the bitmap empty?
    pub fn is_empty(self) -> (empty: bool)
        ensures
            empty == (popcount(self.word()) == 0),
            empty == (self.word() == 0),
            empty == (forall|pos: int| !self.has(pos)),
    {
        proof {
            if self.0 == 0 {
                lemma_rank_zero(64);
                assert forall|pos: int| !self.has(pos) by {
                    if 0 <= pos < 64 {
                        let at = pos as u64;
                        assert((0u64 >> at) & 1 == 0) by (bit_vector);
                    }
                }
            } else {
                let pos = lemma_set_bit(self.0);
                assert(self.has(pos as int));
                lemma_rank_step(self.0, pos as nat, 64);
            }
        }
        self.0 == 0
    }

    /// Number of bits set in the bitmap
    pub fn len(self) -> (len: usize)
        ensures
            len == popcount(self.word()),
            len <= 64,
    {
        proof {
            lemma_rank_step(self.0, 0, 64);
        }
        self.0.count_ones() as usize
    }

    /// An iterator visiting the index of each set bit in the bitmap,
    /// from 0 through 63.
    pub fn iter(self) -> (iter: Iter)
        ensures
            iter.wf(),
            iter.bmp() == self,
            iter.pos() == 0,
    {
        Iter { bmp: self, pos: 0 }
    }

    /// The index of each set bit in the bitmap, in ascending order.
    pub fn keys(self) -> (keys: Vec<u8>)
        ensures
            keys@ == keys_below(self.word(), 64),
    {
        let mut keys: Vec<u8> = Vec::new();
        let mut iter = self.iter();
        loop
            invariant
                iter.wf(),
                iter.bmp() == self,
                keys@ == keys_below(self.word(), iter.pos() as nat),
            decreases 64 - iter.pos(),
        {
            let ghost from = iter.pos();
            match iter.next() {
                Some(key) => {
                    proof {
                        assert forall|at: u64| from <= at < key implies !bit_at(self.0, at) by {
                            assert(!self.has(at as int));
                        }
                        lemma_keys_clear(self.0, from as nat, key as nat);
                    }
                    keys.push(key);
                },
                None => {
                    proof {
                        assert forall|at: u64| from <= at < 64 implies !bit_at(self.0, at) by {
                            assert(!self.has(at as int));
                        }
                        lemma_keys_clear(self.0, from as nat, 64);
                    }
                    return keys;
                },
            }
        }
    }
}

impl core::ops::BitAnd<Bit> for Bmp {
    type Output = bool;

    /// Test whether a bit is present.
    fn bitand(self, bit: Bit) -> (present: bool)
        ensures
            forall|pos: u8| bit.at(pos) ==> present == self.has(pos as int),
    {
        proof {
            assert forall|pos: u8| bit.at(pos) implies (self.0 & bit.0 != 0) == self.has(
                pos as int,
            ) by {
                lemma_bit_test(self.0, pos as u64);
            }
        }
        self.0 & bit.0 != 0
    }
}

impl vstd::std_specs::ops::BitAndSpecImpl<Bit> for Bmp {
    open spec fn obeys_bitand_spec() -> bool {
        true
    }

    open spec fn bitand_req(self, bit: Bit) -> bool {
        true
    }

    open spec fn bitand_spec(self, bit: Bit) -> bool {
        self.word() & bit.word() != 0
    }
}

impl core::ops::BitAnd<Mask> for Bmp {
    type Output = usize;

    /// Count the set bits covered by the mask.
    fn bitand(self, mask: Mask) -> (count: usize)
        ensures
            forall|pos: u8| mask.below(pos) ==> count == rank(self.word(), pos as nat),
    {
        proof {
            assert forall|pos: u8| mask.below(pos) implies popcount(self.0 & mask.0) == rank(
                self.0,
                pos as nat,
            ) by {
                lemma_rank_mask(self.0, pos as u64);
            }
        }
        (self.0 & mask.0).count_ones() as usize
    }
}

impl vstd::std_specs::ops::BitAndSpecImpl<Mask> for Bmp {
    open spec fn obeys_bitand_spec() -> bool {
        true
    }

    open spec fn bitand_req(self, mask: Mask) -> bool {
        true
    }

    open spec fn bitand_spec(self, mask: Mask) -> usize {
        popcount(self.word() & mask.word()) as usize
    }
}

impl core::ops::BitXor<Bit> for Bmp {
    type Output = Bmp;

    /// Flip a bit.
    fn bitxor(self, bit: Bit) -> (flipped: Bmp)
        ensures
            forall|pos: u8| #[trigger] bit.at(pos) ==> self.flipped(flipped, pos),
    {
        let flipped = Bmp(self.0 ^ bit.0);
        proof {
            assert forall|pos: u8| #[trigger] bit.at(pos) implies self.flipped(flipped, pos) by {
                lemma_toggle_bits(self.0, pos as u64);
                assert forall|at: int| flipped.has(at) == (self.has(at) != (at == pos)) by {
                    if 0 <= at < 64 {
                        assert(bit_at(self.0 ^ (1u64 << pos), at as u64) == (bit_at(
                            self.0,
                            at as u64,
                        ) != (at as u64 == pos as u64)));
                    }
                }
            }
        }
        flipped
    }
}

impl vstd::std_specs::ops::BitXorSpecImpl<Bit> for Bmp {
    open spec fn obeys_bitxor_spec() -> bool {
        true
    }

    open spec fn bitxor_req(self, bit: Bit) -> bool {
        true
    }

    closed spec fn bitxor_spec(self, bit: Bit) -> Bmp {
        Bmp(self.0 ^ bit.0)
    }
}

/// An iterator visiting the index of each set bit in the bitmap,
/// from 0 through 63.
#[derive(Clone, Copy, Debug)]
pub struct Iter {
    bmp: Bmp,
    pos: u8,
}

impl Iter {
    /// The bitmap that is walked.
    pub closed spec fn bmp(self) -> Bmp {
        self.bmp
    }

    /// The position from which on the set bits are still to come.
    pub closed spec fn pos(self) -> int {
        self.pos as int
    }

    /// The walk has not gone beyond the bitmap.
    pub open spec fn wf(self) -> bool {
        0 <= self.pos() <= 64
    }

    /// The next set bit: the lowest from where the walk stands.
    pub fn next(&mut self) -> (r: Option<u8>)
        requires
            old(self).wf(),
        ensures
            final(self).wf(),
            final(self).bmp() == old(self).bmp(),
            match r {
                Some(key) => {
                    &&& old(self).pos() <= key < 64
                    &&& final(self).pos() == key + 1
                    &&& old(self).bmp().has(key as int)
                    &&& forall|at: int| old(self).pos() <= at < key ==> !old(self).bmp().has(at)
                },
                None => {
                    &&& final(self).pos() == old(self).pos()
                    &&& forall|at: int| old(self).pos() <= at < 64 ==> !old(self).bmp().has(at)
                },
            },
    {
        let mut i: u8 = self.pos;
        while i <= 63
            invariant
                self.pos <= i <= 64,
                *self == *old(self),
                forall|at: int| self.pos <= at < i ==> !self.bmp.has(at),
            decreases 64 - i,
        {
            proof {
                lemma_bit_test(self.bmp.0, i as u64);
            }
            if (self.bmp.0 & (1u64 << i)) != 0 {
                self.pos = i + 1;
                return Some(i);
            }
            i += 1;
        }
        None
    }
}

/// The number of set bits below a position grows with the position, by one
/// for each set bit.
pub proof fn lemma_rank_step(word: u64, lo: nat, hi: nat)
    requires
        lo <= hi <= 64,
    ensures
        rank(word, lo) <= rank(word, hi) <= rank(word, lo) + (hi - lo),
        lo < hi && bit_at(word, lo as u64) ==> rank(word, lo) < rank(word, hi),
    decreases hi - lo,
{
    if lo < hi {
        lemma_rank_step(word, lo, (hi - 1) as nat);
        if lo + 1 < hi {
            lemma_rank_step(word, lo + 1, hi);
        }
    }
}

/// Words with the same bits below a position have the same rank there.
pub proof fn lemma_rank_same(a: u64, b: u64, pos: nat)
    requires
        pos <= 64,
        forall|i: u64| i < pos ==> bit_at(a, i) == bit_at(b, i),
    ensures
        rank(a, pos) == rank(b, pos),
    decreases pos,
{
    if pos > 0 {
        lemma_rank_same(a, b, (pos - 1) as nat);
    }
}

/// Positions without a set bit add nothing to the rank.
pub proof fn lemma_rank_clear(word: u64, lo: nat, hi: nat)
    requires
        lo <= hi <= 64,
        forall|i: u64| lo <= i < hi ==> !bit_at(word, i),
    ensures
        rank(word, hi) == rank(word, lo),
    decreases hi - lo,
{
    if lo < hi {
        lemma_rank_clear(word, lo, (hi - 1) as nat);
    }
}

/// The set bits of a word that a mask of the bits below `pos` leaves are
/// as many as the word has below `pos`.
pub proof fn lemma_rank_mask(word: u64, pos: u64)
    requires
        pos < 64,
    ensures
        popcount(word & (((1u64 << pos) - 1) as u64)) == rank(word, pos as nat),
{
    let mask = ((1u64 << pos) - 1) as u64;
    let low = word & mask;
    assert forall|i: u64| i < 64 implies bit_at(low, i) == (i < pos && bit_at(word, i)) by {
        assert(((word & (((1u64 << pos) - 1) as u64)) >> i) & 1 == 1 <==> (i < pos && (word >> i)
            & 1 == 1))
            by (bit_vector)
            requires
                i < 64,
                pos < 64,
        ;
        assert(1u64 << pos >= 1) by (bit_vector)
            requires
                pos < 64,
        ;
    }
    lemma_rank_same(low, word, pos as nat);
    lemma_rank_clear(low, pos as nat, 64);
}

/// Toggling bit `pos` changes that bit and no other.
pub proof fn lemma_toggle_bits(word: u64, pos: u64)
    requires
        pos < 64,
    ensures
        forall|i: u64|
            i < 64 ==> bit_at(word ^ (1u64 << pos), i) == (bit_at(word, i) != (i == pos)),
{
    assert forall|i: u64| i < 64 implies bit_at(word ^ (1u64 << pos), i) == (bit_at(word, i) != (i
        == pos)) by {
        assert((((word ^ (1u64 << pos)) >> i) & 1 == 1) == (((word >> i) & 1 == 1) != (i == pos)))
            by (bit_vector)
            requires
                i < 64,
                pos < 64,
        ;
    }
}

/// Toggling bit `pos` leaves the rank up to `pos` as it was; above it the
/// rank is one more if the bit was clear, and one less if it was set.
pub proof fn lemma_toggle_rank(word: u64, pos: u64, at: nat)
    requires
        pos < 64,
        at <= 64,
    ensures
        at <= pos ==> rank(word ^ (1u64 << pos), at) == rank(word, at),
        at > pos && !bit_at(word, pos) ==> rank(word ^ (1u64 << pos), at) == rank(word, at) + 1,
        at > pos && bit_at(word, pos) ==> rank(word ^ (1u64 << pos), at) + 1 == rank(word, at),
    decreases at,
{
    lemma_toggle_bits(word, pos);
    if at > 0 {
        lemma_toggle_rank(word, pos, (at - 1) as nat);
        assert(bit_at(word ^ (1u64 << pos), (at - 1) as u64) == (bit_at(word, (at - 1) as u64) != (
        at - 1 == pos)));
    }
}

/// The word of a single bit tests that bit.
pub proof fn lemma_bit_test(word: u64, pos: u64)
    requires
        pos < 64,
    ensures
        (word & (1u64 << pos) != 0) == bit_at(word, pos),
{
    assert((word & (1u64 << pos) != 0) == ((word >> pos) & 1 == 1)) by (bit_vector)
        requires
            pos < 64,
    ;
}

/// Positions without a set bit add no key; a set bit adds its position.
pub proof fn lemma_keys_clear(word: u64, lo: nat, hi: nat)
    requires
        lo <= hi <= 64,
        forall|at: u64| lo <= at < hi ==> !bit_at(word, at),
    ensures
        keys_below(word, hi) == keys_below(word, lo),
        hi < 64 && bit_at(word, hi as u64) ==> keys_below(word, hi + 1) == keys_below(
            word,
            lo,
        ).push(hi as u8),
    decreases hi - lo,
{
    if lo < hi {
        lemma_keys_clear(word, lo, (hi - 1) as nat);
        assert(!bit_at(word, (hi - 1) as u64));
    }
    if hi < 64 && bit_at(word, hi as u64) {
        let next = (hi + 1) as nat;
        assert((next - 1) as nat == hi);
        assert(keys_below(word, next) == keys_below(word, hi).push(hi as u8));
    }
}

/// The empty word has no set bit.
pub proof fn lemma_rank_zero(pos: nat)
    requires
        pos <= 64,
    ensures
        rank(0, pos) == 0,
    decreases pos,
{
    if pos > 0 {
        lemma_rank_zero((pos - 1) as nat);
        let i = (pos - 1) as u64;
        assert((0u64 >> i) & 1 == 0) by (bit_vector);
    }
}

/// A word other than the empty word has a set bit: the result is the
/// position of one.
pub proof fn lemma_set_bit(word: u64) -> (pos: u64)
    requires
        word != 0,
    ensures
        pos < 64,
        bit_at(word, pos),
    decreases word,
{
    if word & 1 == 1 {
        assert((word >> 0) & 1 == word & 1) by (bit_vector);
        0
    } else {
        let half = word >> 1;
        assert(half != 0 && half < word) by (bit_vector)
            requires
                word != 0,
                word & 1 != 1,
                half == word >> 1,
        ;
        let below = lemma_set_bit(half);
        assert(below < 63 && (word >> ((below + 1) as u64)) & 1 == 1) by (bit_vector)
            requires
                below < 64,
                half == word >> 1,
                (half >> below) & 1 == 1,
        ;
        (below + 1) as u64
    }
}

} // verus!
