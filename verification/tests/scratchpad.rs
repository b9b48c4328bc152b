use dnstrie::Error;
use dnstrie::ScratchPad;

#[test]
fn push_until_full() {
    let mut pad = ScratchPad::<u8, 3>::new();
    assert!(pad.is_empty());
    assert_eq!(pad.len(), 0);
    assert_eq!(pad.push(1), Ok(()));
    assert_eq!(pad.push(2), Ok(()));
    assert_eq!(pad.push(3), Ok(()));
    assert_eq!(pad.push(4), Err(Error::ScratchOverflow));
    assert_eq!(pad.as_slice(), [1u8, 2, 3]);
    assert_eq!(pad.len(), 3);
    assert!(!pad.is_empty());
    pad.clear();
    assert!(pad.is_empty());
    assert_eq!(pad.as_slice(), [0u8; 0]);
    assert_eq!(pad.push(5), Ok(()));
    assert_eq!(pad.as_slice(), [5u8]);
}

#[test]
fn append_all_or_nothing() {
    let mut pad = ScratchPad::<u16, 4>::default();
    assert_eq!(pad.append(&[1, 2]), Ok(()));
    assert_eq!(pad.append(&[]), Ok(()));
    assert_eq!(pad.append(&[3, 4, 5]), Err(Error::ScratchOverflow));
    assert_eq!(pad.as_slice(), [1u16, 2]);
    assert_eq!(pad.append(&[3, 4]), Ok(()));
    assert_eq!(pad.as_slice(), [1u16, 2, 3, 4]);
    assert_eq!(pad.append(&[]), Ok(()));
    assert_eq!(pad.append(&[5]), Err(Error::ScratchOverflow));
    assert_eq!(pad.len(), 4);
}
