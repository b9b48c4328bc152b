use dnstrie::bitmask;
use dnstrie::bmpvec_blimpvec;
use dnstrie::exercise_actions;
use dnstrie::Action;
use dnstrie::BlimpVec;
use dnstrie::Bmp;
use dnstrie::BmpSlice;
use dnstrie::BmpVec;

fn actions_of(bytes: &[u8]) -> Vec<Action> {
    let mut actions = Vec::new();
    let mut pairs = bytes.chunks_exact(2);
    for pair in &mut pairs {
        let pos = pair[1];
        actions.push(match pair[0] % 15 {
            0 => Action::Contains(pos),
            1 => Action::Insert(pos),
            2 => Action::Remove(pos),
            3 => Action::Get(pos),
            4 => Action::GetMut(pos),
            5 => Action::Len,
            6 => Action::IsEmpty,
            7 => Action::BmpIter,
            8 => Action::BlimpIter,
            9 => Action::Keys,
            10 => Action::Values,
            11 => Action::FromBlimp,
            12 => Action::FromBmp,
            13 => Action::Format,
            _ => Action::Clear,
        });
    }
    actions
}

#[test]
fn bmpvec_test() {
    fastrand::seed(0x0b3f);
    let mut rand = [0u8; 10000];
    rand.fill_with(|| fastrand::u8(..));
    let actions = actions_of(&rand[..]);
    assert!(exercise_actions(&actions[..]));
}

#[test]
fn exercise_test() {
    fastrand::seed(0xb11f);
    let v: Vec<u8> = std::iter::repeat_with(|| fastrand::u8(..)).take(1000).collect();
    assert!(bmpvec_blimpvec(&v[..]));
}

fn popcount_is_storage_len(bmp: &BmpVec<u8>, slots: &[Option<u8>; 64]) {
    let count = slots.iter().filter(|slot| slot.is_some()).count();
    assert_eq!(bmp.len(), count);
    assert_eq!(bmp.values().len(), count);
    assert_eq!(bmp.keys().len(), count);
    assert_eq!(bmp.is_empty(), count == 0);
}

#[test]
fn stress_against_an_array() {
    fastrand::seed(0x5eed);
    let mut bmp: BmpVec<u8> = BmpVec::new();
    let mut blimp: BlimpVec<u8> = BlimpVec::new();
    let mut slots: [Option<u8>; 64] = [None; 64];
    for step in 0..10000 {
        let pos = fastrand::u8(0..64);
        let val = fastrand::u8(..);
        match fastrand::u8(0..3) {
            0 => {
                let was = slots[pos as usize].replace(val);
                assert_eq!(bmp.insert(pos, val), was, "step {}", step);
                assert_eq!(blimp.insert(pos, val), was, "step {}", step);
            }
            1 => {
                let was = slots[pos as usize].take();
                assert_eq!(bmp.remove(pos), was, "step {}", step);
                assert_eq!(blimp.remove(pos), was, "step {}", step);
            }
            _ => {
                assert_eq!(bmp.get(pos), slots[pos as usize].as_ref(), "step {}", step);
                assert_eq!(blimp.get(pos), slots[pos as usize].as_ref(), "step {}", step);
                assert_eq!(bmp.contains(pos), slots[pos as usize].is_some());
            }
        }
        popcount_is_storage_len(&bmp, &slots);
        assert_eq!(blimp.len(), bmp.len());
    }
    assert!(bmp == BmpVec::from(&blimp));
    assert!(blimp == BlimpVec::from(&bmp));
}

#[test]
fn insert_remove_get() {
    let mut bmp = BmpVec::new();
    assert!(bmp.is_empty());
    assert_eq!(bmp.len(), 0);
    assert_eq!(bmp.insert(5, "five"), None);
    assert_eq!(bmp.insert(63, "last"), None);
    assert_eq!(bmp.insert(0, "zero"), None);
    assert_eq!(bmp.len(), 3);
    assert!(!bmp.is_empty());
    assert_eq!(bmp.get(5), Some(&"five"));
    assert_eq!(bmp.get(0), Some(&"zero"));
    assert_eq!(bmp.get(63), Some(&"last"));
    assert_eq!(bmp.get(6), None);
    assert_eq!(bmp.insert(5, "FIVE"), Some("five"));
    assert_eq!(bmp.len(), 3);
    assert_eq!(bmp.values(), ["zero", "FIVE", "last"]);
    assert_eq!(bmp.keys(), [0u8, 5, 63]);
    assert_eq!(bmp.remove(5), Some("FIVE"));
    assert_eq!(bmp.remove(5), None);
    assert_eq!(bmp.values(), ["zero", "last"]);
    assert_eq!(bmp.keys(), [0u8, 63]);
    assert_eq!(bmp.set(7, Some("seven")), None);
    assert_eq!(bmp.set(7, None), Some("seven"));
    assert_eq!(bmp.set(7, None), None);
    assert_eq!(bmp.len(), 2);
}

#[test]
fn out_of_range() {
    let mut bmp = BmpVec::new();
    bmp.insert(1, 'x');
    assert!(!bmp.contains(64));
    assert!(!bmp.contains(255));
    assert_eq!(bmp.get(64), None);
    assert_eq!(bmp.get_mut(64), None);
    assert_eq!(bmp.remove(64), None);
    assert_eq!(bmp.set(200, None), None);
    assert_eq!(bmp.len(), 1);
    assert!(bitmask(63).is_some());
    assert!(bitmask(64).is_none());
    assert!(Bmp::bitmask(0).is_some());
    assert!(Bmp::bitmask(255).is_none());
    let blimp: BlimpVec<char> = BlimpVec::new();
    assert!(!blimp.contains(64));
    assert_eq!(blimp.get(64), None);
}

#[test]
fn get_mut_changes_one_slot() {
    let mut bmp = BmpVec::new();
    let mut blimp = BlimpVec::new();
    for pos in [3u8, 9, 27] {
        bmp.insert(pos, pos);
        blimp.insert(pos, pos);
    }
    *bmp.get_mut(9).unwrap() = 90;
    *blimp.get_mut(9).unwrap() = 90;
    assert_eq!(bmp.get_mut(10), None);
    assert_eq!(blimp.get_mut(10), None);
    assert_eq!(bmp.values(), [3u8, 90, 27]);
    assert_eq!(blimp.values(), [&3u8, &90, &27]);
    assert_eq!(blimp.keys(), [3u8, 9, 27]);
    assert_eq!(blimp.iter(), [(3u8, &3u8), (9, &90), (27, &27)]);
    assert_eq!(blimp.len(), 3);
}

#[test]
fn bitmap_operators() {
    let (bit, mask) = bitmask(5).unwrap();
    let (low, none) = bitmask(0).unwrap();
    let (high, all) = bitmask(63).unwrap();
    let empty = Bmp::new();
    assert!(empty.is_empty());
    assert_eq!(empty.len(), 0);
    assert!(!(empty & bit));
    let one = empty ^ bit;
    assert!(one & bit);
    assert!(!(one & low));
    assert_eq!(one.len(), 1);
    assert_eq!(one & mask, 0);
    assert_eq!(one & all, 1);
    let three = one ^ low ^ high;
    assert_eq!(three.len(), 3);
    assert_eq!(three & none, 0);
    assert_eq!(three & mask, 1);
    assert_eq!(three & all, 2);
    assert_eq!(three.keys(), [0u8, 5, 63]);
    let mut iter = three.iter();
    assert_eq!(iter.next(), Some(0));
    assert_eq!(iter.next(), Some(5));
    assert_eq!(iter.next(), Some(63));
    assert_eq!(iter.next(), None);
    assert_eq!(iter.next(), None);
    assert!((three ^ bit ^ low ^ high).is_empty());
    assert_eq!(three ^ high, one ^ low);
}

#[test]
fn iteration_order() {
    let mut bmp = BmpVec::new();
    for pos in [40u8, 2, 63, 17, 0] {
        bmp.insert(pos, pos as u32 * 10);
    }
    assert_eq!(bmp.keys(), [0u8, 2, 17, 40, 63]);
    assert_eq!(bmp.values(), [0u32, 20, 170, 400, 630]);
    let mut iter = bmp.iter();
    let mut seen = Vec::new();
    while let Some((pos, val)) = iter.next() {
        seen.push((pos, *val));
    }
    assert_eq!(seen, [(0u8, 0u32), (2, 20), (17, 170), (40, 400), (63, 630)]);
    let slice: BmpSlice<u32> = bmp.borrow();
    let copy = slice;
    assert_eq!(slice.len(), 5);
    assert!(!slice.is_empty());
    assert_eq!(copy.keys(), bmp.keys());
    assert_eq!(copy.values(), bmp.values());
    assert_eq!(slice.get(17), Some(&170));
    assert_eq!(slice.get(18), None);
    assert!(slice.contains(63));
    assert!(!slice.contains(64));
    let mut iter = slice.iter();
    assert_eq!(iter.next(), Some((0, &0)));
}

#[test]
fn cooked_parts() {
    let mut bmp = BmpVec::new();
    bmp.insert(7, 'a');
    bmp.insert(3, 'b');
    let (bitmap, vec) = bmp.take_cooked_parts();
    assert!(bmp.is_empty());
    assert_eq!(vec, ['b', 'a']);
    assert_eq!(bitmap.keys(), [3u8, 7]);
    let slice = BmpSlice::from_cooked_parts(bitmap, &vec[..]);
    assert_eq!(slice.get(7), Some(&'a'));
    let again = BmpVec::from_cooked_parts(bitmap, vec);
    assert_eq!(again.get(3), Some(&'b'));
    let mut other = BmpVec::new();
    other.insert(3, 'b');
    assert!(again != other);
    other.insert(7, 'a');
    assert!(again == other);
    let (bitmap, vec) = again.into_cooked_parts();
    assert_eq!(bitmap.len(), vec.len());
    let def: BmpVec<char> = BmpVec::default();
    assert!(def.is_empty());
}

#[test]
fn raw_parts() {
    let mut bmp = BmpVec::new();
    bmp.insert(40, 'y');
    bmp.insert(1, 'x');
    let (word, vec) = bmp.into_raw_parts();
    assert_eq!(word, (1u64 << 1) | (1u64 << 40));
    assert_eq!(vec, ['x', 'y']);
    let again = BmpVec::from_raw_parts(word, vec);
    assert_eq!(again.get(40), Some(&'y'));
    assert_eq!(again.get(1), Some(&'x'));
    assert_eq!(again.len(), 2);
    assert_eq!(Bmp::from_raw_parts(5).into_raw_parts(), 5);
    assert_eq!(Bmp::from_raw_parts(5).keys(), [0u8, 2]);
    let empty: BmpVec<char> = BmpVec::new();
    let (word, vec) = empty.into_raw_parts();
    assert_eq!(word, 0);
    assert!(vec.is_empty());
}
