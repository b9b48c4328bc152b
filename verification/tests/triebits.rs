use dnstrie::gen_bits_to_byte;
use dnstrie::gen_byte_to_bits;
use dnstrie::triebits::table::bits_to_byte;
use dnstrie::Error;
use dnstrie::DnsName;
use dnstrie::HeapName;
use dnstrie::ScratchName;
use dnstrie::TrieName;
use dnstrie::MAX_TRIENAME;
use dnstrie::SHIFT_BITMAP;
use dnstrie::SHIFT_NOBYTE;
use dnstrie::SHIFT_OFFSET;

fn code(byte: u8) -> (u8, u8) {
    dnstrie::triebits::table::byte_to_bits(byte)
}

#[test]
fn byte_to_bits() {
    let table = gen_byte_to_bits();
    for byte in b'a'..=b'z' {
        let lower = byte as usize;
        let upper = lower - 32;
        assert_eq!(table[upper], table[lower]);
    }
    for i in 0..=255 {
        let (one, two) = table[i];
        assert!(one >= SHIFT_BITMAP);
        assert!(one < SHIFT_OFFSET);
        assert!(two >= SHIFT_BITMAP || two == 0);
        assert!(two < SHIFT_OFFSET);
    }
    for i in 0..=254 {
        let j = i + 1;
        let (ilo, ihi) = table[i];
        let (jlo, jhi) = table[j];
        assert!(ilo <= jlo || i as u8 == b'Z');
        if ilo == jlo {
            assert!(ihi < jhi);
        }
    }
}

#[test]
fn table_is_the_function() {
    let table = gen_byte_to_bits();
    for byte in 0..=255u8 {
        assert_eq!(table[byte as usize], code(byte));
    }
    assert_eq!(code(0), (2, 2));
    assert_eq!(code(b','), (2, 46));
    assert_eq!(code(b'-'), (3, 0));
    assert_eq!(code(b'9'), (15, 0));
    assert_eq!(code(b':'), (16, 2));
    assert_eq!(code(b'@'), (16, 8));
    assert_eq!(code(b'A'), (19, 0));
    assert_eq!(code(b'Z'), (44, 0));
    assert_eq!(code(b'['), (16, 9));
    assert_eq!(code(b'^'), (16, 12));
    assert_eq!(code(b'_'), (17, 0));
    assert_eq!(code(b'`'), (18, 0));
    assert_eq!(code(b'a'), (19, 0));
    assert_eq!(code(b'z'), (44, 0));
    assert_eq!(code(b'{'), (45, 2));
    assert_eq!(code(168), (45, 47));
    assert_eq!(code(169), (46, 2));
    assert_eq!(code(214), (46, 47));
    assert_eq!(code(215), (47, 2));
    assert_eq!(code(255), (47, 42));
}

#[test]
fn bits_to_byte_is_the_inverse() {
    let forth = gen_byte_to_bits();
    let back = gen_bits_to_byte();
    let mut codes = 0;
    for byte in 0..=255u8 {
        let (one, two) = forth[byte as usize];
        let lower = byte.to_ascii_lowercase();
        assert_eq!(back[one as usize][two as usize], lower);
        assert_eq!(bits_to_byte(one, two), Some(lower));
    }
    for one in 0..48u8 {
        for two in 0..48u8 {
            match bits_to_byte(one, two) {
                Some(byte) => {
                    codes += 1;
                    assert_eq!(forth[byte as usize], (one, two));
                    assert_eq!(back[one as usize][two as usize], byte);
                }
                None => assert_eq!(back[one as usize][two as usize], 0),
            }
        }
    }
    assert_eq!(codes, 256 - 26);
    assert_eq!(bits_to_byte(48, 0), None);
    assert_eq!(bits_to_byte(2, 48), None);
}

fn key_of(text: &str) -> Vec<u8> {
    let name = HeapName::try_from(text).unwrap();
    let mut key = TrieName::new();
    key.from_dns_name(&name).unwrap();
    key.as_slice().to_vec()
}

#[test]
fn key_of_simple_names() {
    assert_eq!(key_of("."), [SHIFT_NOBYTE]);
    // a = 19, t = 38, d = 22, o = 33
    assert_eq!(key_of("at"), [19, 38, 1, 1]);
    assert_eq!(key_of("dotat.at"), [19, 38, 1, 22, 33, 38, 19, 38, 1, 1]);
    assert_eq!(key_of("DoTaT.At"), key_of("dotat.at"));
    // an escaped byte takes two
    assert_eq!(key_of("a\\000b"), [19, 2, 2, 20, 1, 1]);
    assert_eq!(key_of("\\255"), [47, 42, 1, 1]);
}

#[test]
fn trie_key_ordering() {
    let a = key_of("a.example.");
    let b = key_of("b.example.");
    let parent = key_of("example.");
    assert!(parent < a);
    assert!(a < b);
    let names = [".", "at", "dotat.at", "a.dotat.at", "b.dotat.at", "zz.at", "com", "a.com"];
    for (i, left) in names.iter().enumerate() {
        for (j, right) in names.iter().enumerate() {
            assert_eq!(key_of(left).cmp(&key_of(right)), i.cmp(&j), "{} {}", left, right);
        }
    }
}

#[test]
fn key_round_trip() {
    for text in [".", "at", "dotat.at", "WWW.Example.COM", "a\\000b.\\255\\.x", "x-y_z.0-9"] {
        let name = HeapName::try_from(text).unwrap();
        let mut key = TrieName::new();
        key.from_dns_name(&name).unwrap();
        let back = key.make_dns_name().unwrap();
        assert_eq!(back.as_bytes(), name.as_bytes(), "{}", text);
    }
    let mut wire = Vec::new();
    for _ in 0..127 {
        wire.extend_from_slice(&[1, 0xFF]);
    }
    wire.push(0);
    let mut scratch = ScratchName::new();
    scratch.from_wire(&wire, 0).unwrap();
    let mut key = TrieName::new();
    key.from_dns_name(&scratch).unwrap();
    assert_eq!(key.as_slice().len(), 127 * 3 + 1);
    assert!(key.as_slice().len() <= MAX_TRIENAME);
    assert_eq!(key.make_dns_name().unwrap().name(), scratch.name());
}

#[test]
fn key_of_no_name() {
    let mut key = TrieName::new();
    assert!(matches!(key.make_dns_name(), Err(Error::BugTrieName)));
    let scratch = ScratchName::new();
    key.from_dns_name(&scratch).unwrap();
    assert_eq!(key.as_slice(), [SHIFT_NOBYTE]);
    key.clear();
    assert_eq!(key.as_slice(), [0u8; 0]);
}
