use dnstrie::cmp_any_names;
use dnstrie::eq_any_names;
use dnstrie::from_message;
use dnstrie::from_wire;
use dnstrie::DnsLabels;
use dnstrie::DnsName;
use dnstrie::Error;
use dnstrie::FromWire;
use dnstrie::HeapName;
use dnstrie::ScratchName;
use dnstrie::WireLabels;
use std::cmp::Ordering;

#[test]
fn heap_test() -> Result<(), Error> {
    let text = "dotat.at";
    let name = HeapName::try_from(text)?;
    assert_eq!(text, name.to_text());
    Ok(())
}

#[test]
fn scratch_test() -> Result<(), Error> {
    let wire = b"\x05dotat\x02at\x00";
    let mut name = ScratchName::new();
    name.from_wire(wire, 0)?;
    assert_eq!("dotat.at", name.to_text());
    Ok(())
}

#[test]
fn wire_test() -> Result<(), Error> {
    let wire = b"\x05dotat\x02at\x00";
    let mut name = WireLabels::<u8>::new();
    name.from_wire(wire, 0)?;
    assert_eq!("dotat.at", name.to_text());
    Ok(())
}

#[test]
fn root_name_textual() {
    let name = HeapName::try_from(".").unwrap();
    assert_eq!(name.labs(), 1);
    assert_eq!(name.nlen(), 1);
    assert_eq!(name.name(), [0u8]);
    assert_eq!(name.lpos(), [0u8]);
    assert_eq!(name.as_bytes(), [1u8, 0, 0]);
    assert_eq!(name.heap_len(), 3);
    assert_eq!(name.to_text(), ".");
}

#[test]
fn simple_name_from_text() {
    let name = HeapName::try_from("dotat.at").unwrap();
    assert_eq!(name.labs(), 3);
    assert_eq!(name.nlen(), 10);
    assert_eq!(name.name(), b"\x05dotat\x02at\x00");
    assert_eq!(name.lpos(), [0u8, 6, 9]);
    assert_eq!(name.as_bytes(), b"\x03\x00\x06\x09\x05dotat\x02at\x00");
    assert_eq!(name.heap_len(), 14);
    assert_eq!(name.label(0), Some(&b"dotat"[..]));
    assert_eq!(name.label(1), Some(&b"at"[..]));
    assert_eq!(name.label(2), Some(&b""[..]));
    assert_eq!(name.label(3), None);
    assert_eq!(name.rlabel(0), Some(&b""[..]));
    assert_eq!(name.rlabel(1), Some(&b"at"[..]));
    assert_eq!(name.rlabel(2), Some(&b"dotat"[..]));
    assert_eq!(name.rlabel(3), None);
    assert_eq!(name.to_text(), "dotat.at");
}

#[test]
fn trailing_dot_is_the_same_name() {
    let with = HeapName::try_from("dotat.at.").unwrap();
    let without = HeapName::try_from("dotat.at").unwrap();
    assert_eq!(with.as_bytes(), without.as_bytes());
    let one = HeapName::try_from("at").unwrap();
    assert_eq!(one.to_text(), "at.");
    assert_eq!(one.labs(), 2);
}

#[test]
fn case_folding() {
    let upper = HeapName::try_from("WwW.Example.COM").unwrap();
    let lower = HeapName::try_from("www.example.com").unwrap();
    assert_eq!(upper.as_bytes(), lower.as_bytes());
    assert!(eq_any_names(&upper, &lower));
    assert_eq!(upper.to_text(), "www.example.com");
    let wire = b"\x03WwW\x07Example\x03COM\x00";
    let mut labels = WireLabels::<u8>::new();
    assert_eq!(labels.from_wire(wire, 0), Ok(17));
    assert_eq!(labels.to_text(), "WwW.Example.COM");
    assert!(eq_any_names(&labels, &lower));
    assert_eq!(cmp_any_names(&labels, &upper), Ordering::Equal);
    let mut scratch = ScratchName::new();
    assert_eq!(scratch.from_wire(wire, 0), Ok(17));
    assert_eq!(scratch.name(), lower.name());
    assert_eq!(HeapName::from(&labels).as_bytes(), lower.as_bytes());
    assert_eq!(HeapName::try_from(&wire[..]).unwrap().as_bytes(), lower.as_bytes());
}

#[test]
fn wire_compression_rejection() {
    let wire = [0xC0u8, 0x00, 0x03, b'c', b'o', b'm', 0x00];
    assert!(matches!(from_wire(&wire), Err(Error::CompressBad)));
    let later = [0x01u8, b'a', 0xC0, 0x00];
    assert!(matches!(from_wire(&later), Err(Error::CompressBad)));
}

#[test]
fn compression_chain_rejection() {
    // the pointer at 4 points at the pointer at 2
    let msg = [0x00u8, 0x00, 0xC0, 0x00, 0xC0, 0x02];
    assert!(matches!(from_message(&msg, 4), Err(Error::CompressChain)));
    let mut scratch = ScratchName::new();
    assert_eq!(scratch.from_wire(&msg, 4), Err(Error::CompressChain));
    assert_eq!(scratch.labs(), 0);
    assert_eq!(scratch.nlen(), 0);
    // a pointer at itself is a chain too
    let own = [0xC0u8, 0x00];
    assert_eq!(scratch.from_wire(&own, 0), Err(Error::CompressChain));
}

#[test]
fn compression_must_point_backwards() {
    // forwards
    let msg = [0xC0u8, 0x02, 0x00];
    assert!(matches!(from_message(&msg, 0), Err(Error::CompressBad)));
    // a loop: the name at 0 is "a" and then a pointer back to 0
    let looped = [0x01u8, b'a', 0xC0, 0x00];
    assert!(matches!(from_message(&looped, 0), Err(Error::CompressBad)));
    // from 3: pointer to 0, then "a", then the pointer at 2 aims at 0 again
    let again = [0x01u8, b'a', 0xC0, 0x00, 0xC0, 0x00];
    assert!(matches!(from_message(&again, 4), Err(Error::CompressBad)));
}

#[test]
fn compressed_name() {
    // "at." at 0, "dotat" at 4 followed by a pointer to 0
    let msg = b"\x02AT\x00\x05dotat\xC0\x00rest";
    let name = from_message(msg, 4).unwrap();
    assert_eq!(name.labs(), 3);
    assert_eq!(name.nlen(), 10);
    assert_eq!(name.label(0), Some(&b"dotat"[..]));
    assert_eq!(name.label(1), Some(&b"AT"[..]));
    assert_eq!(name.to_text(), "dotat.AT");
    let mut scratch = ScratchName::new();
    assert_eq!(scratch.from_wire(msg, 4), Ok(12));
    assert_eq!(scratch.name(), b"\x05dotat\x02at\x00");
    assert_eq!(scratch.lpos(), [0u8, 6, 9]);
    let mut wide = WireLabels::<u16>::new();
    assert_eq!(wide.from_wire(msg, 4), Ok(12));
    assert!(eq_any_names(&wide, &scratch));
    assert_eq!(HeapName::from(&wide).name(), scratch.name());
}

#[test]
fn end_of_name_is_returned() {
    let wire = b"\x05dotat\x02at\x00\x01x\x00";
    let mut scratch = ScratchName::new();
    assert_eq!(scratch.from_wire(wire, 0), Ok(10));
    assert_eq!(scratch.from_wire(wire, 10), Ok(13));
    assert_eq!(scratch.to_text(), "x.");
    assert_eq!(scratch.from_wire(wire, 6), Ok(10));
    assert_eq!(scratch.to_text(), "at.");
}

#[test]
fn wire_errors() {
    let mut scratch = ScratchName::new();
    assert_eq!(scratch.from_wire(b"", 0), Err(Error::NameTruncated));
    assert_eq!(scratch.from_wire(b"\x00", 1), Err(Error::NameTruncated));
    assert_eq!(scratch.from_wire(b"\x00", 100), Err(Error::NameTruncated));
    assert_eq!(scratch.from_wire(b"\x03ab", 0), Err(Error::NameTruncated));
    assert_eq!(scratch.from_wire(b"\x02ab", 0), Err(Error::NameTruncated));
    assert_eq!(scratch.from_wire(b"\xC0", 0), Err(Error::NameTruncated));
    assert_eq!(scratch.from_wire(b"\xC1\x00", 0), Err(Error::NameTruncated));
    assert_eq!(scratch.from_wire(b"\x40", 0), Err(Error::LabelType(0x40)));
    assert_eq!(scratch.from_wire(b"\x01a\xBF", 0), Err(Error::LabelType(0xBF)));
    assert_eq!(scratch.labs(), 0);
    let mut labels = WireLabels::<u8>::new();
    assert_eq!(labels.from_wire(b"\x03ab", 0), Err(Error::NameTruncated));
    assert_eq!(labels.from_wire(b"\x80", 0), Err(Error::LabelType(0x80)));
    assert_eq!(labels.labs(), 0);
    assert_eq!(labels.nlen(), 0);
    assert_eq!(labels.label(0), None);
}

fn long_name(labels: usize, llen: usize) -> Vec<u8> {
    let mut wire = Vec::new();
    for _ in 0..labels {
        wire.push(llen as u8);
        for _ in 0..llen {
            wire.push(b'x');
        }
    }
    wire.push(0);
    wire
}

#[test]
fn name_length_limit() {
    // 127 labels of one byte and the root: 255 bytes, 128 labels
    let most = long_name(127, 1);
    assert_eq!(most.len(), 255);
    let name = from_wire(&most).unwrap();
    assert_eq!(name.labs(), 128);
    assert_eq!(name.nlen(), 255);
    let mut scratch = ScratchName::new();
    assert_eq!(scratch.from_wire(&most, 0), Ok(255));
    let heap = HeapName::from(&scratch);
    assert_eq!(heap.heap_len(), 384);
    // three labels of 63 bytes, one of 61, and the root: 255 bytes
    let mut wide = long_name(3, 63);
    wide.pop();
    wide.extend_from_slice(&long_name(1, 61));
    assert_eq!(wide.len(), 255);
    assert_eq!(from_wire(&wide).unwrap().nlen(), 255);
    assert_eq!(scratch.from_wire(&wide, 0), Ok(255));
    // one byte more
    let mut over = long_name(3, 63);
    over.pop();
    over.extend_from_slice(&long_name(1, 62));
    assert_eq!(over.len(), 256);
    assert!(matches!(from_wire(&over), Err(Error::NameLength)));
    assert_eq!(scratch.from_wire(&over, 0), Err(Error::ScratchOverflow));
    assert_eq!(scratch.labs(), 0);
    // 128 labels of one byte and the root
    let many = long_name(128, 1);
    assert!(matches!(from_wire(&many), Err(Error::NameLength)));
    assert_eq!(scratch.from_wire(&many, 0), Err(Error::ScratchOverflow));
}

#[test]
fn bytes_run_out_before_labels() {
    // the shortest labels take two bytes each, so the 128th label before
    // the root is already one byte too many
    let many = long_name(200, 1);
    assert!(matches!(from_message(&many, 0), Err(Error::NameLength)));
    assert!(matches!(from_wire(&many), Err(Error::NameLength)));
    let most = long_name(127, 1);
    assert_eq!(from_message(&most, 0).unwrap().labs(), 128);
}

#[test]
fn wide_positions() {
    let mut msg = vec![0u8; 300];
    msg[256] = 1;
    msg[257] = b'a';
    msg[258] = 0;
    let mut narrow = WireLabels::<u8>::new();
    assert_eq!(narrow.from_wire(&msg, 256), Err(Error::WideWire));
    let mut wide = WireLabels::<u16>::new();
    assert_eq!(wide.from_wire(&msg, 256), Ok(259));
    assert_eq!(wide.to_text(), "a.");
    let mut big = vec![0u8; 70000];
    big[65536] = 1;
    big[65537] = b'b';
    assert_eq!(wide.from_wire(&big, 65536), Err(Error::BugWirePos(65536)));
    assert_eq!(wide.from_wire(&big, 65535), Ok(65536));
    let mut scratch = ScratchName::new();
    assert_eq!(scratch.from_wire(&big, 65536), Ok(65539));
    assert_eq!(scratch.to_text(), "b.");
}

#[test]
fn text_escapes() {
    let mut scratch = ScratchName::new();
    assert_eq!(scratch.from_text(b"a\\.b.c"), Ok(6));
    assert_eq!(scratch.name(), b"\x03a.b\x01c\x00");
    assert_eq!(scratch.to_text(), "a\\.b.c");
    assert_eq!(scratch.from_text(b"\\065\\000\\255.x"), Ok(14));
    assert_eq!(scratch.name(), b"\x03a\x00\xFF\x01x\x00");
    assert_eq!(scratch.to_text(), "a\\000\\255.x");
    assert_eq!(scratch.from_text(b"\\ \\;x"), Ok(5));
    assert_eq!(scratch.name(), b"\x03 ;x\x00");
    assert_eq!(scratch.to_text(), "\\032\\;x.");
    assert_eq!(scratch.from_text(b"\\256"), Err(Error::EscapeBad(256)));
    assert_eq!(scratch.from_text(b"\\999"), Err(Error::EscapeBad(999)));
    assert_eq!(scratch.from_text(b"\\1x3"), Err(Error::EscapeBad(1)));
    assert_eq!(scratch.from_text(b"\\12x"), Err(Error::EscapeBad(12)));
    assert_eq!(scratch.from_text(b"\\12"), Err(Error::NameTruncated));
    assert_eq!(scratch.from_text(b"a\\"), Err(Error::NameTruncated));
    assert_eq!(scratch.labs(), 0);
}

#[test]
fn text_terminators() {
    let mut scratch = ScratchName::new();
    for end in [b'\n', b'\r', b'\t', b' ', b';', b'(', b')'] {
        let text = [b'a', b'.', b'b', end, b'c'];
        assert_eq!(scratch.from_text(&text), Ok(3));
        assert_eq!(scratch.to_text(), "a.b");
        let dotted = [b'a', b'.', end];
        assert_eq!(scratch.from_text(&dotted), Ok(2));
        assert_eq!(scratch.to_text(), "a.");
    }
    assert!(matches!(HeapName::try_from("a.b c"), Err(Error::NameTrailing)));
    assert!(matches!(HeapName::try_from("a.b\n"), Err(Error::NameTrailing)));
}

#[test]
fn text_syntax() {
    let mut scratch = ScratchName::new();
    assert_eq!(scratch.from_text(b""), Err(Error::NameSyntax));
    assert_eq!(scratch.from_text(b" a"), Err(Error::NameSyntax));
    assert_eq!(scratch.from_text(b".."), Err(Error::NameSyntax));
    assert_eq!(scratch.from_text(b".a"), Err(Error::NameSyntax));
    assert_eq!(scratch.from_text(b"a..b"), Err(Error::NameSyntax));
    assert_eq!(scratch.from_text(b"a.."), Err(Error::NameSyntax));
    assert_eq!(scratch.from_text(b"a\"b"), Err(Error::NameQuotes));
    assert_eq!(scratch.from_text(b"\"a\""), Err(Error::NameQuotes));
    assert_eq!(scratch.labs(), 0);
    assert_eq!(scratch.from_text(b"."), Ok(1));
    assert_eq!(scratch.from_text(b". "), Ok(1));
}

#[test]
fn text_limits() {
    let mut scratch = ScratchName::new();
    let label = vec![b'x'; 63];
    assert_eq!(scratch.from_text(&label), Ok(63));
    assert_eq!(scratch.nlen(), 65);
    let long = vec![b'x'; 64];
    assert_eq!(scratch.from_text(&long), Err(Error::LabelLength));
    let mut escaped = vec![b'x'; 63];
    escaped.extend_from_slice(b"\\001");
    assert_eq!(scratch.from_text(&escaped), Err(Error::LabelLength));
    // 127 labels of one byte: the root is the 128th
    let mut most = Vec::new();
    for _ in 0..127 {
        most.extend_from_slice(b"x.");
    }
    assert_eq!(scratch.from_text(&most), Ok(254));
    assert_eq!(scratch.labs(), 128);
    assert_eq!(scratch.nlen(), 255);
    most.extend_from_slice(b"x");
    assert_eq!(scratch.from_text(&most), Err(Error::ScratchOverflow));
    assert_eq!(scratch.labs(), 0);
}

#[test]
fn canonical_order() {
    let names = [".", "at", "dotat.at", "a.dotat.at", "b.dotat.at", "zz.at", "com", "a.com"];
    for (i, left) in names.iter().enumerate() {
        for (j, right) in names.iter().enumerate() {
            let a = HeapName::try_from(*left).unwrap();
            let b = HeapName::try_from(*right).unwrap();
            assert_eq!(cmp_any_names(&a, &b), i.cmp(&j), "{} {}", left, right);
        }
    }
    let short = HeapName::try_from("ab.com").unwrap();
    let long = HeapName::try_from("abc.com").unwrap();
    assert_eq!(cmp_any_names(&short, &long), Ordering::Less);
    let mixed = WireLabels::<u8>::new();
    assert_eq!(cmp_any_names(&mixed, &short), Ordering::Less);
    assert_eq!(cmp_any_names(&short, &mixed), Ordering::Greater);
    assert_eq!(cmp_any_names(&mixed, &mixed), Ordering::Equal);
}

#[test]
fn wire_round_trip() {
    for text in [".", "at", "dotat.at", "a\\000b.\\255\\.x", "x-y_z.0-9.*"] {
        let name = HeapName::try_from(text).unwrap();
        let mut scratch = ScratchName::new();
        assert_eq!(scratch.from_wire(name.name(), 0), Ok(name.nlen()));
        assert_eq!(scratch.name(), name.name());
        assert_eq!(scratch.lpos(), name.lpos());
        assert!(HeapName::from(&scratch) == name);
        let labels = from_wire(name.name()).unwrap();
        assert_eq!(labels.labs(), name.labs());
        assert_eq!(labels.nlen(), name.nlen());
        for lab in 0..=name.labs() {
            assert_eq!(labels.label(lab), name.label(lab));
        }
        // the same name further into a buffer
        let mut wire = vec![0xFFu8; 7];
        wire.extend_from_slice(name.name());
        wire.extend_from_slice(b"\xC0\x07");
        assert_eq!(scratch.from_wire(&wire, 7), Ok(7 + name.nlen()));
        assert_eq!(scratch.name(), name.name());
        assert_eq!(scratch.from_wire(&wire, 7 + name.nlen()), Ok(9 + name.nlen()));
        assert_eq!(scratch.name(), name.name());
    }
}

#[test]
fn text_round_trip() {
    let mut wire = Vec::new();
    for byte in 0..=255u8 {
        wire.extend_from_slice(&[1, byte]);
        if wire.len() >= 250 || byte == 255 {
            wire.push(0);
            let mut scratch = ScratchName::new();
            assert_eq!(scratch.from_wire(&wire, 0), Ok(wire.len()));
            let text = scratch.to_text();
            assert!(text.is_ascii());
            let mut again = ScratchName::new();
            assert_eq!(again.from_text(text.as_bytes()), Ok(text.len()));
            assert!(again == scratch);
            assert_eq!(again.to_text(), text);
            assert!(HeapName::try_from(text.as_str()).unwrap() == HeapName::from(&scratch));
            wire.clear();
        }
    }
    let name = HeapName::try_from("\\000\\031\\032!\\\"#*+,-.a/0:A[_`{~\\127\\128\\255").unwrap();
    assert_eq!(name.label(0).unwrap(), b"\x00\x1F !\"#*+,-");
    assert_eq!(name.label(1).unwrap(), b"a/0:a[_`{~\x7F\x80\xFF");
    assert_eq!(
        name.to_text(),
        "\\000\\031\\032\\!\\\"\\#*\\+\\,-.a\\/0\\:a\\[_\\`\\{\\~\\127\\128\\255"
    );
}

#[test]
fn equal_names() {
    let one = HeapName::try_from("Dotat.AT").unwrap();
    let two = HeapName::try_from("dotat.at.").unwrap();
    let three = HeapName::try_from("dotat.at.x").unwrap();
    assert!(one == two);
    assert!(one != three);
    let mut first = ScratchName::new();
    let mut second = ScratchName::new();
    assert!(first == second);
    first.from_wire(b"\x01A\x00", 0).unwrap();
    assert!(first != second);
    second.from_text(b"a").unwrap();
    assert!(first == second);
    second.clear();
    assert!(first != second);
}

#[test]
fn temp_test() -> Result<(), Error> {
    let wire = b"\x05dotat\x02at\x00";
    let mut name = dnstrie::TempName::new();
    name.from_wire(wire, 0)?;
    assert_eq!("dotat.at", name.to_text());
    Ok(())
}
