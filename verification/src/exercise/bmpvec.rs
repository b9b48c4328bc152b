//! One vector checked against the other
//!
//! A [`BmpVec`] and a [`BlimpVec`] are taken through the same actions, and
//! what they return is compared at every step.

use crate::blimpvec::BlimpVec;
use crate::bmpvec::BmpVec;
use crate::bmpvec::keys_of;
use crate::bmpvec::lemma_keys_in_order;
use crate::bmpvec::values_of;
use crate::dnsname::same_bytes;
use vstd::prelude::*;

verus! {

/// One thing to do to both vectors. A position is taken modulo 64.
#[derive(Clone, Copy, Debug)]
pub enum Action {
    /// Ask whether there is an element at the position.
    Contains(u8),
    /// Put the byte at its position.
    Insert(u8),
    /// Take out the element at the position.
    Remove(u8),
    /// Look at the element at the position.
    Get(u8),
    /// Look at the element at the position, and put the byte in its place.
    GetMut(u8),
    /// Ask for the number of elements.
    Len,
    /// Ask whether there is no element.
    IsEmpty,
    /// Look up each element of the `BmpVec` in the `BlimpVec`.
    BmpIter,
    /// Look up each element of the `BlimpVec` in the `BmpVec`.
    BlimpIter,
    /// Ask for the positions of the elements.
    Keys,
    /// Ask for the elements.
    Values,
    /// Make a `BmpVec` of the `BlimpVec`.
    FromBlimp,
    /// Make a `BlimpVec` of the `BmpVec`.
    FromBmp,
    /// Render both for debugging; how that reads is not a matter of this
    /// library, so nothing is compared.
    Format,
    /// Take out every element.
    Clear,
}

/// The low six bits of a byte: a position.
fn low_six(byte: u8) -> (pos: u8)
    ensures
        pos == byte & 63,
        pos <= 63,
{
    assert(byte & 63 <= 63) by (bit_vector);
    byte & 63
}

/// What the slots of a vector hold after an action. Inserting puts the
/// byte at its position, changing an element puts the byte where there
/// was one, removing and clearing take elements out, and every other
/// action only looks.
pub open spec fn slots_after(slots: Seq<Option<u8>>, action: Action) -> Seq<Option<u8>> {
    match action {
        Action::Insert(byte) => slots.update((byte & 63) as int, Some(byte)),
        Action::Remove(byte) => slots.update((byte & 63) as int, None),
        Action::GetMut(byte) => if slots[(byte & 63) as int] is Some {
            slots.update((byte & 63) as int, Some(byte))
        } else {
            slots
        },
        Action::Clear => Seq::new(64, |pos: int| None::<u8>),
        _ => slots,
    }
}

/// Do one action to both vectors, and say whether they agreed. They always
/// do, and what the action does to the one it does to the other.
fn exercise_action(bmp: &mut BmpVec<u8>, blimp: &mut BlimpVec<u8>, action: Action) -> (same: bool)
    requires
        old(bmp).wf(),
        old(blimp).wf(),
        old(bmp)@ == old(blimp)@,
    ensures
        same,
        final(bmp).wf(),
        final(blimp).wf(),
        final(bmp)@ == slots_after(old(bmp)@, action),
        final(blimp)@ == slots_after(old(blimp)@, action),
{
    match action {
        Action::Contains(byte) => {
            let pos = low_six(byte);
            bmp.contains(pos) == blimp.contains(pos)
        },
        Action::Insert(byte) => {
            let pos = low_six(byte);
            bmp.insert(pos, byte) == blimp.insert(pos, byte)
        },
        Action::Remove(byte) => {
            let pos = low_six(byte);
            bmp.remove(pos) == blimp.remove(pos)
        },
        Action::Get(byte) => {
            let pos = low_six(byte);
            match (bmp.get(pos), blimp.get(pos)) {
                (None, None) => true,
                (Some(left), Some(right)) => *left == *right,
                _ => false,
            }
        },
        Action::GetMut(byte) => {
            let pos = low_six(byte);
            match (bmp.get_mut(pos), blimp.get_mut(pos)) {
                (None, None) => true,
                (Some(left), Some(right)) => {
                    let same = *left == *right;
                    *left = byte;
                    *right = byte;
                    same
                },
                _ => false,
            }
        },
        Action::Len => bmp.len() == blimp.len(),
        Action::IsEmpty => bmp.is_empty() == blimp.is_empty(),
        Action::BmpIter => {
            let mut iter = bmp.iter();
            loop
                invariant
                    iter.wf(),
                    iter.slots() == blimp@,
                    0 <= iter.pos() <= 64,
                    bmp.wf(),
                    blimp.wf(),
                    bmp@ == blimp@,
                    bmp@ == old(bmp)@,
                    blimp@ == old(blimp)@,
                    action is BmpIter,
                decreases 64 - iter.pos(),
            {
                match iter.next() {
                    Some((pos, elem)) => {
                        match blimp.get(pos) {
                            Some(other) => {
                                if *other != *elem {
                                    return false;
                                }
                            },
                            None => {
                                return false;
                            },
                        }
                    },
                    None => {
                        return true;
                    },
                }
            }
        },
        Action::BlimpIter => {
            let pairs = blimp.iter();
            proof {
                lemma_keys_in_order(blimp@, 64);
            }
            let mut i: usize = 0;
            while i < pairs.len()
                invariant
                    bmp.wf(),
                    bmp@ == blimp@,
                    bmp@ == old(bmp)@,
                    *bmp == *old(bmp),
                    *blimp == *old(blimp),
                    pairs@.map_values(|pair: (u8, &u8)| pair.0) == keys_of(blimp@, 64),
                    pairs@.map_values(|pair: (u8, &u8)| *pair.1) == values_of(blimp@, 64),
                    forall|k: int|
                        0 <= k < keys_of(blimp@, 64).len() ==> (#[trigger] keys_of(blimp@, 64)[k])
                            < 64 && blimp@[keys_of(blimp@, 64)[k] as int] == Some(
                            values_of(blimp@, 64)[k],
                        ),
                decreases pairs@.len() - i,
            {
                let (pos, elem) = pairs[i];
                proof {
                    let keys = pairs@.map_values(|pair: (u8, &u8)| pair.0);
                    let values = pairs@.map_values(|pair: (u8, &u8)| *pair.1);
                    assert(keys[i as int] == pos);
                    assert(values[i as int] == *elem);
                }
                match bmp.get(pos) {
                    Some(other) => {
                        if *other != *elem {
                            return false;
                        }
                    },
                    None => {
                        return false;
                    },
                }
                i += 1;
            }
            true
        },
        Action::Keys => {
            let left = bmp.keys();
            let right = blimp.keys();
            same_bytes(left.as_slice(), right.as_slice())
        },
        Action::Values => {
            let left = bmp.values();
            let right = blimp.values();
            assert(right@.map_values(|elem: &u8| *elem).len() == right@.len());
            if left.len() != right.len() {
                return false;
            }
            let mut i: usize = 0;
            while i < left.len()
                invariant
                    left@.len() == right@.len(),
                    left@ == right@.map_values(|elem: &u8| *elem),
                    bmp.wf(),
                    blimp.wf(),
                    bmp@ == blimp@,
                    *bmp == *old(bmp),
                    *blimp == *old(blimp),
                decreases left@.len() - i,
            {
                assert(right@.map_values(|elem: &u8| *elem)[i as int] == *right@[i as int]);
                if left[i] != *right[i] {
                    return false;
                }
                i += 1;
            }
            true
        },
        Action::FromBlimp => {
            let from_blimp = BmpVec::from(&*blimp);
            proof {
                bmp.lemma_eq_is_same_slots(&from_blimp);
            }
            *bmp == from_blimp
        },
        Action::FromBmp => {
            let from_bmp = BlimpVec::from(&*bmp);
            proof {
                from_bmp.lemma_eq_is_same_slots(&*blimp);
            }
            from_bmp == *blimp
        },
        Action::Format => true,
        Action::Clear => {
            let mut pos: u8 = 0;
            while pos <= 63
                invariant
                    pos <= 64,
                    bmp.wf(),
                    blimp.wf(),
                    bmp@ == blimp@,
                    forall|at: int| 0 <= at < pos ==> (#[trigger] bmp@[at]) is None,
                decreases 64 - pos,
            {
                if bmp.remove(pos) != blimp.remove(pos) {
                    return false;
                }
                pos += 1;
            }
            assert(bmp@ =~= Seq::new(64, |pos: int| None::<u8>));
            true
        },
    }
}

/// Take an empty `BmpVec` and an empty `BlimpVec` through the actions, and
/// say whether they agreed at every step. They always do.
pub fn exercise_actions(actions: &[Action]) -> (same: bool)
    ensures
        same,
{
    let mut bmp: BmpVec<u8> = BmpVec::new();
    let mut blimp: BlimpVec<u8> = BlimpVec::new();
    let mut i: usize = 0;
    while i < actions.len()
        invariant
            bmp.wf(),
            blimp.wf(),
            bmp@ == blimp@,
        decreases actions@.len() - i,
    {
        if !exercise_action(&mut bmp, &mut blimp, actions[i]) {
            return false;
        }
        i += 1;
    }
    true
}

/// The action that a byte stands for: its high two bits choose between
/// insert, remove, get and the rest, of which the byte modulo 11 picks
/// one, and its low six bits are the position.
pub open spec fn byte_action(byte: u8) -> Action {
    let pos = byte & 63;
    if byte >> 6 == 0 {
        Action::Insert(pos)
    } else if byte >> 6 == 1 {
        Action::Remove(pos)
    } else if byte >> 6 == 2 {
        Action::Get(pos)
    } else if byte % 11 == 0 {
        Action::Len
    } else if byte % 11 == 1 {
        Action::IsEmpty
    } else if byte % 11 == 2 {
        Action::Contains(pos)
    } else if byte % 11 == 3 {
        Action::BmpIter
    } else if byte % 11 == 4 {
        Action::BlimpIter
    } else if byte % 11 == 5 {
        Action::Keys
    } else if byte % 11 == 6 {
        Action::Values
    } else if byte % 11 == 7 {
        Action::FromBlimp
    } else if byte % 11 == 8 {
        Action::FromBmp
    } else if byte % 11 == 9 {
        Action::Format
    } else {
        Action::Clear
    }
}

/// The action that a byte stands for.
pub fn action_of(byte: u8) -> (action: Action)
    ensures
        action == byte_action(byte),
{
    let pos = low_six(byte);
    let kind = byte >> 6;
    let rest = byte % 11;
    if kind == 0 {
        Action::Insert(pos)
    } else if kind == 1 {
        Action::Remove(pos)
    } else if kind == 2 {
        Action::Get(pos)
    } else if rest == 0 {
        Action::Len
    } else if rest == 1 {
        Action::IsEmpty
    } else if rest == 2 {
        Action::Contains(pos)
    } else if rest == 3 {
        Action::BmpIter
    } else if rest == 4 {
        Action::BlimpIter
    } else if rest == 5 {
        Action::Keys
    } else if rest == 6 {
        Action::Values
    } else if rest == 7 {
        Action::FromBlimp
    } else if rest == 8 {
        Action::FromBmp
    } else if rest == 9 {
        Action::Format
    } else {
        Action::Clear
    }
}

/// Take an empty `BmpVec` and an empty `BlimpVec` through the actions that
/// the bytes stand for, and say whether they agreed at every step. They
/// always do.
pub fn bmpvec_blimpvec(data: &[u8]) -> (same: bool)
    ensures
        same,
{
    let mut bmp: BmpVec<u8> = BmpVec::new();
    let mut blimp: BlimpVec<u8> = BlimpVec::new();
    let mut i: usize = 0;
    while i < data.len()
        invariant
            bmp.wf(),
            blimp.wf(),
            bmp@ == blimp@,
        decreases data@.len() - i,
    {
        if !exercise_action(&mut bmp, &mut blimp, action_of(data[i])) {
            return false;
        }
        i += 1;
    }
    true
}

} // verus!
