use doc_ledger::digest::digit_str;
use doc_ledger::digest::fingerprint_of;
use doc_ledger::digest::fingerprint_of_text;
use doc_ledger::digest::to_hex;

#[test]
fn fingerprint_of_empty_input() {
    assert_eq!(
        fingerprint_of(b""),
        "e3b0c44298fc1c149afbf4c8996fb92427ae41e4649b934ca495991b7852b855"
    );
}

#[test]
fn fingerprint_of_abc() {
    assert_eq!(
        fingerprint_of(b"abc"),
        "ba7816bf8f01cfea414140de5dae2223b00361a396177a9cb410ff61f20015ad"
    );
}

#[test]
fn fingerprint_of_hello_world() {
    assert_eq!(
        fingerprint_of(b"hello world"),
        "b94d27b9934d3e08a52e52d7da7dabfac484efe37a5380ee9088f7ace2efcde9"
    );
}

#[test]
fn fingerprint_is_not_the_input() {
    let out = fingerprint_of(b"abc");
    assert_ne!(out.as_bytes(), b"abc");
    assert_ne!(out, to_hex(b"abc"));
}

#[test]
fn fingerprint_has_sixty_four_lowercase_hex_digits() {
    for content in [&b""[..], &b"a"[..], &b"some longer content \xff\x00"[..]] {
        let out = fingerprint_of(content);
        assert_eq!(out.len(), 64);
        assert!(out.chars().all(|c| "0123456789abcdef".contains(c)));
    }
}

#[test]
fn fingerprint_is_deterministic() {
    let content = b"the same bytes";
    assert_eq!(fingerprint_of(content), fingerprint_of(content));
    let copy = content.to_vec();
    assert_eq!(fingerprint_of(content), fingerprint_of(&copy));
}

#[test]
fn fingerprint_tells_contents_apart() {
    assert_ne!(fingerprint_of(b"first"), fingerprint_of(b"second"));
    assert_ne!(fingerprint_of(b"a"), fingerprint_of(b"a "));
    assert_ne!(fingerprint_of(b""), fingerprint_of(b"\x00"));
}

#[test]
fn fingerprint_of_text_hashes_the_utf8_bytes() {
    assert_eq!(fingerprint_of_text("abc"), fingerprint_of(b"abc"));
    assert_eq!(fingerprint_of_text(""), fingerprint_of(b""));
    assert_eq!(fingerprint_of_text("h\u{e9}"), fingerprint_of(&[0x68, 0xc3, 0xa9]));
    assert_eq!(
        fingerprint_of_text("ab"),
        "fb8e20fc2e4c3f248c60c39bd652f3c1347298bb977b8b4d5903b85055620603"
    );
}

#[test]
fn to_hex_of_nothing_is_empty() {
    assert_eq!(to_hex(&[]), "");
}

#[test]
fn to_hex_writes_high_nibble_first() {
    assert_eq!(to_hex(&[0x00, 0xff, 0x10, 0x01, 0xab]), "00ff1001ab");
    assert_eq!(to_hex(&[0x0a, 0x14, 0x1e]), "0a141e");
    assert_eq!(to_hex(b"abc"), "616263");
}

#[test]
fn to_hex_covers_every_byte() {
    for b in 0u8..=255 {
        assert_eq!(to_hex(&[b]), format!("{:02x}", b));
    }
}

#[test]
fn digit_str_gives_the_sixteen_digits() {
    let expected = [
        "0", "1", "2", "3", "4", "5", "6", "7", "8", "9", "a", "b", "c", "d", "e", "f",
    ];
    for n in 0u8..16 {
        assert_eq!(digit_str(n), expected[n as usize]);
    }
}
