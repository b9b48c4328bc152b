use dnstrie::exercise_text;
use dnstrie::exercise_vecs;
use dnstrie::exercise_wire;
use dnstrie::Vecs;
use dnstrie::MAX_NAME;

#[test]
fn test_wire() {
    fastrand::seed(0x3172);
    let mut rand = [0u8; 1000];
    for _ in 0..100 {
        rand.fill_with(|| fastrand::u8(..));
        assert!(exercise_wire(&rand[..]));
    }
}

#[test]
fn wire_with_names() {
    let mut wire = vec![3u8];
    wire.extend_from_slice(b"\x02AT\x00\x05DoTaT\xC0\x01");
    assert!(exercise_wire(&wire));
    wire[0] = 5;
    assert!(exercise_wire(&wire));
    wire[0] = 1;
    assert!(exercise_wire(&wire));
    assert!(exercise_wire(b"\x01\x04\x00. \\\x03\"()\x00"));
    assert!(exercise_wire(&[]));
}

#[test]
fn test_text() {
    fastrand::seed(0x7e47);
    let mut rand = [0u8; 1000];
    for _ in 0..100 {
        rand.fill_with(|| fastrand::u8(..));
        if let Ok(text) = std::str::from_utf8(&rand[..]) {
            assert!(exercise_text(text));
        }
        for byte in rand.iter_mut() {
            *byte &= 0x7F;
        }
        assert!(exercise_text(std::str::from_utf8(&rand[..]).unwrap()));
    }
    for text in ["dotat.at", "dotat.at.", ".", "", "a..b", "a.b c", "\\000.\\.", "x\\"] {
        assert!(exercise_text(text));
    }
}

// make a vec more likely to look like a wire format DNS name
fn nominate(v: &mut Vec<u8>) {
    let mut pos = 0;
    let mut len = 0;
    while pos < MAX_NAME && pos < v.len() {
        len = 0x3F & v[pos] as usize;
        v[pos] = len as u8;
        pos += 1 + len;
        if len == 0 {
            return;
        }
    }
    if len > 0 && pos - len - 1 < v.len() {
        v[pos - len - 1] = 0;
    }
}

#[test]
fn triebits_test() {
    fastrand::seed(0x7213);
    for _ in 0..1000 {
        let mut one: Vec<u8> = std::iter::repeat_with(|| fastrand::u8(..))
            .take(fastrand::usize(0..300))
            .collect();
        let mut two: Vec<u8> = std::iter::repeat_with(|| fastrand::u8(..))
            .take(fastrand::usize(0..300))
            .collect();
        nominate(&mut one);
        nominate(&mut two);
        assert!(exercise_vecs(Vecs { one, two }));
    }
}
