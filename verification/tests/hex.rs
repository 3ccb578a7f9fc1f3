use light_tool::hex;

#[test]
fn test_hex_of_bytes() {
    assert_eq!(hex::hex_of_bytes(&vec![]), "");
    assert_eq!(hex::hex_of_bytes(&vec![0x00, 0xff, 0x1a]), "00ff1a");
    assert_eq!(hex::hex_of_bytes(&vec![0xde, 0xad, 0xbe, 0xef]), "deadbeef");
}

#[test]
fn test_hex_digit_str() {
    assert_eq!(hex::hex_digit_str(0), "0");
    assert_eq!(hex::hex_digit_str(9), "9");
    assert_eq!(hex::hex_digit_str(10), "a");
    assert_eq!(hex::hex_digit_str(15), "f");
}
