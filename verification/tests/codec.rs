use worker_runtime::codec::{decode, encode};

#[test]
fn encode_gives_utf8_bytes() {
    assert_eq!(encode("ok"), vec![0x6f, 0x6b]);
    assert_eq!(encode("é"), vec![0xc3, 0xa9]);
    assert_eq!(encode(""), Vec::<u8>::new());
}

#[test]
fn decode_reads_utf8_bytes() {
    assert_eq!(decode(&[0x6f, 0x6b]), "ok");
    assert_eq!(decode(&[0xe2, 0x82, 0xac]), "€");
}

#[test]
fn decode_after_encode_is_identity() {
    for s in ["", "hello", "héllo wörld", "日本語", "a\u{10348}b", "\u{FFFD}"] {
        assert_eq!(decode(&encode(s)), s);
    }
}

#[test]
fn ill_formed_bytes_become_replacement_characters() {
    assert_eq!(decode(&[0xff]), "\u{FFFD}");
    assert_eq!(decode(&[0x61, 0xff, 0x62]), "a\u{FFFD}b");
    assert_eq!(decode(&[0xe2, 0x82]), "\u{FFFD}");
    assert_eq!(decode(&[0xc0, 0x80]), "\u{FFFD}\u{FFFD}");
}
