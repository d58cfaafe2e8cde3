use relay::utf8::is_valid_utf8;

#[test]
fn accepts_ascii_and_multibyte_text() {
    assert!(is_valid_utf8(&Vec::new()));
    assert!(is_valid_utf8(&b"a@x.com".to_vec()));
    assert!(is_valid_utf8(&"caf\u{e9}".as_bytes().to_vec()));
    assert!(is_valid_utf8(&"\u{4F60}\u{597D}".as_bytes().to_vec()));
    assert!(is_valid_utf8(&"\u{1F600}".as_bytes().to_vec()));
}

#[test]
fn rejects_invalid_sequences() {
    // A lone continuation byte, a lone lead byte, and bytes never valid.
    assert!(!is_valid_utf8(&vec![0x80]));
    assert!(!is_valid_utf8(&vec![0xC2]));
    assert!(!is_valid_utf8(&vec![0xFF]));
    assert!(!is_valid_utf8(&vec![0xFE, 0xFF]));
    // Overlong encodings.
    assert!(!is_valid_utf8(&vec![0xC0, 0xAF]));
    assert!(!is_valid_utf8(&vec![0xC1, 0xBF]));
    assert!(!is_valid_utf8(&vec![0xE0, 0x80, 0xAF]));
    assert!(!is_valid_utf8(&vec![0xF0, 0x80, 0x80, 0x80]));
    // Surrogate code points.
    assert!(!is_valid_utf8(&vec![0xED, 0xA0, 0x80]));
    assert!(!is_valid_utf8(&vec![0xED, 0xBF, 0xBF]));
    // Above the last code point.
    assert!(!is_valid_utf8(&vec![0xF4, 0x90, 0x80, 0x80]));
    assert!(!is_valid_utf8(&vec![0xF5, 0x80, 0x80, 0x80]));
    // Truncated sequences.
    assert!(!is_valid_utf8(&vec![0xE2, 0x82]));
    assert!(!is_valid_utf8(&vec![0xF0, 0x9F, 0x98]));
}

#[test]
fn agrees_with_the_standard_library() {
    let samples: Vec<Vec<u8>> = vec![
        b"plain".to_vec(),
        "\u{e9}\u{1F600}ok".as_bytes().to_vec(),
        vec![0xC2, 0xA0],
        vec![0xC2, 0xC0],
        vec![0xED, 0x9F, 0xBF],
        vec![0xED, 0xA0, 0x80],
        vec![0xF4, 0x8F, 0xBF, 0xBF],
        vec![0xF4, 0x90, 0x80, 0x80],
        vec![0xE0, 0xA0, 0x80],
        vec![0xE0, 0x9F, 0xBF],
        vec![0x00, 0x7F, 0x41],
        vec![0x41, 0xE2, 0x82, 0xAC, 0x42],
    ];
    for s in samples {
        assert_eq!(
            is_valid_utf8(&s),
            std::str::from_utf8(&s).is_ok(),
            "disagreement on {:?}",
            s
        );
    }
}
