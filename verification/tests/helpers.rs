use dnstrie::cmp_any_labels;
use dnstrie::dnsname::scratch::label_from_text;
use dnstrie::dnsname::text::write_text;
use dnstrie::dnsname::to_lower;
use dnstrie::dnsname::Dodgy;
use dnstrie::exercise::bmpvec::action_of;
use dnstrie::exercise::dnsname::lower_bytes;
use dnstrie::exercise::triebits::cmp_bytes;
use dnstrie::exercise::triebits::same_order;
use dnstrie::same_bytes;
use dnstrie::Action;
use dnstrie::Error;
use dnstrie::ScratchPad;
use std::cmp::Ordering;

#[test]
fn lower_case() {
    assert_eq!(to_lower(b'A'), b'a');
    assert_eq!(to_lower(b'Z'), b'z');
    assert_eq!(to_lower(b'@'), b'@');
    assert_eq!(to_lower(b'['), b'[');
    assert_eq!(to_lower(b'a'), b'a');
    assert_eq!(to_lower(0xC1), 0xC1);
    for byte in 0..=255u8 {
        assert_eq!(to_lower(byte), byte.to_ascii_lowercase());
    }
    assert_eq!(lower_bytes(b"Az@[\xC1"), b"az@[\xC1");
}

#[test]
fn dodgy_indexing() {
    let dodgy = Dodgy { bytes: b"abc" };
    assert_eq!(dodgy.get(0), Ok(b'a'));
    assert_eq!(dodgy.get(2), Ok(b'c'));
    assert_eq!(dodgy.get(3), Err(Error::NameTruncated));
    assert_eq!(dodgy.slice(1, 2), Ok(&b"bc"[..]));
    assert_eq!(dodgy.slice(3, 0), Ok(&b""[..]));
    assert_eq!(dodgy.slice(2, 2), Err(Error::NameTruncated));
    assert_eq!(dodgy.slice(4, 0), Err(Error::NameTruncated));
    assert_eq!(dodgy.slice(1, usize::MAX), Err(Error::NameTruncated));
}

#[test]
fn comparing_bytes_and_labels() {
    assert!(same_bytes(b"", b""));
    assert!(same_bytes(b"abc", b"abc"));
    assert!(!same_bytes(b"abc", b"abd"));
    assert!(!same_bytes(b"abc", b"ab"));
    assert_eq!(cmp_bytes(b"", b""), Ordering::Equal);
    assert_eq!(cmp_bytes(b"", b"a"), Ordering::Less);
    assert_eq!(cmp_bytes(b"b", b"ab"), Ordering::Greater);
    assert_eq!(cmp_bytes(b"ab", b"abc"), Ordering::Less);
    assert_eq!(cmp_bytes(b"B", b"a"), Ordering::Less);
    assert_eq!(cmp_any_labels(b"B", b"a"), Ordering::Greater);
    assert_eq!(cmp_any_labels(b"AbC", b"aBc"), Ordering::Equal);
    assert_eq!(cmp_any_labels(b"ab", b"ABC"), Ordering::Less);
    assert_eq!(cmp_any_labels(b"[", b"a"), Ordering::Less);
    assert_eq!(cmp_any_labels(b"[", b"A"), Ordering::Less);
    assert_eq!(cmp_any_labels(b"", b""), Ordering::Equal);
    assert!(same_order(Ordering::Less, Ordering::Less));
    assert!(!same_order(Ordering::Less, Ordering::Equal));
    assert!(!same_order(Ordering::Greater, Ordering::Equal));
}

#[test]
fn one_label_of_text() {
    let mut label = ScratchPad::<u8, 63>::new();
    let dodgy = Dodgy { bytes: b"ab.c\\.d e" };
    let mut pos = 0;
    assert_eq!(label_from_text(&mut label, dodgy, &mut pos), Ok(true));
    assert_eq!((label.as_slice(), pos), (&b"ab"[..], 3));
    assert_eq!(label_from_text(&mut label, dodgy, &mut pos), Ok(true));
    assert_eq!((label.as_slice(), pos), (&b"c.d"[..], 7));
    assert_eq!(label_from_text(&mut label, dodgy, &mut pos), Ok(false));
    assert_eq!((label.as_slice(), pos), (&b""[..], 7));
    pos = 8;
    assert_eq!(label_from_text(&mut label, dodgy, &mut pos), Ok(true));
    assert_eq!((label.as_slice(), pos), (&b"e"[..], 9));
    assert_eq!(label_from_text(&mut label, dodgy, &mut pos), Ok(false));
    pos = 100;
    assert_eq!(label_from_text(&mut label, dodgy, &mut pos), Ok(false));
    assert_eq!(pos, 100);
}

#[test]
fn text_of_bytes() {
    let mut out = b">".to_vec();
    write_text(&mut out, b"aZ0*-_");
    assert_eq!(out, b">aZ0*-_");
    write_text(&mut out, b". \x00\xFF\x7F~!");
    assert_eq!(out, b">aZ0*-_\\.\\032\\000\\255\\127\\~\\!");
}

#[test]
fn actions_of_bytes() {
    assert!(matches!(action_of(0x05), Action::Insert(5)));
    assert!(matches!(action_of(0x3F), Action::Insert(63)));
    assert!(matches!(action_of(0x45), Action::Remove(5)));
    assert!(matches!(action_of(0x85), Action::Get(5)));
    // 0xC0 is 192, and 192 % 11 is 5
    assert!(matches!(action_of(0xC0), Action::Keys));
    assert!(matches!(action_of(0xC6), Action::Len));
    assert!(matches!(action_of(0xC7), Action::IsEmpty));
    assert!(matches!(action_of(0xC8), Action::Contains(8)));
    assert!(matches!(action_of(0xC5), Action::Clear));
}
