use light_tool::base64;

#[test]
fn test_encode() {
    assert_eq!(base64::encode("Hello, World!"), "SGVsbG8sIFdvcmxkIQ==");
    assert_eq!(base64::encode("Rust is awesome!"), "UnVzdCBpcyBhd2Vzb21lIQ==");
    assert_eq!(base64::encode(""), "");
}

#[test]
fn test_decode() {
    assert_eq!(base64::decode("SGVsbG8sIFdvcmxkIQ==").unwrap(), "Hello, World!")
}

#[test]
fn test_decode_rejects_invalid_byte() {
    let err = base64::decode("SGVs!bG8=").unwrap_err();
    assert_eq!(err, "Invalid character in Base64 string: 33");
}

#[test]
fn test_encode_decode_round_trip() {
    for input in ["", "a", "ab", "abc", "abcd", "1234567890", "Rust is awesome!"] {
        let encoded = base64::encode(input);
        assert_eq!(base64::decode(&encoded).unwrap(), input);
    }
}

#[test]
fn test_decode_stops_at_padding() {
    // Decoding stops at the first `=`; whatever follows is ignored.
    assert_eq!(base64::decode("YQ==!!!").unwrap(), "a");
    assert_eq!(base64::decode("").unwrap(), "");
}
