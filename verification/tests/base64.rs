use nine_rai::base64::{b64_encode, base64_decode};

#[test]
fn b64_matches_the_standard_alphabet() {
    assert_eq!(b64_encode(b"9rai"), "OXJhaQ==");
    assert_eq!(b64_encode(b""), "");
    assert_eq!(b64_encode(b"\xff\xff\xff"), "////");
}

#[test]
fn decoding_gives_back_what_was_encoded() {
    let mut bytes: Vec<u8> = Vec::new();
    for n in 0..=255u8 {
        assert_eq!(base64_decode(&b64_encode(&bytes)), Some(bytes.clone()));
        bytes.push(n.wrapping_mul(37));
    }
    assert_eq!(base64_decode(" OXJhaQ==\n"), Some(b"9rai".to_vec()));
}

#[test]
fn decoding_stops_at_the_padding_and_refuses_other_characters() {
    assert_eq!(base64_decode("OXJhaQ=???"), Some(b"9rai".to_vec()));
    assert_eq!(base64_decode("OXJ aQ"), None);
    assert_eq!(base64_decode("é"), None);
    assert_eq!(base64_decode("A"), Some(Vec::new()));
    assert_eq!(base64_decode("+/+/"), Some(vec![251, 255, 191]));
}
