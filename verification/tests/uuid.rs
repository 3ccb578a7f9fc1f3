use light_tool::uuid;

#[test]
fn uuid_test_uuid() {
    println!("uuid: {}", uuid::new(None));
}

#[test]
fn test_uuid_shape() {
    for mac in [Some("5A:9A:C3:47:2D:33"), None] {
        let u = uuid::new(mac);
        assert_eq!(u.len(), 36);
        let chars: Vec<char> = u.chars().collect();
        for (i, c) in chars.iter().enumerate() {
            if i == 8 || i == 13 || i == 18 || i == 23 {
                assert_eq!(*c, '-');
            } else {
                assert!(c.is_ascii_hexdigit() && !c.is_ascii_uppercase());
            }
        }
    }
}

#[test]
fn test_u64_dec() {
    assert_eq!(uuid::u64_dec(0), "0");
    assert_eq!(uuid::u64_dec(9), "9");
    assert_eq!(uuid::u64_dec(10), "10");
    assert_eq!(uuid::u64_dec(1234567890123456789), "1234567890123456789");
    assert_eq!(uuid::u64_dec(u64::MAX), "18446744073709551615");
}

#[test]
fn test_format_uuid() {
    let digest = "0123456789abcdef0123456789abcdef";
    assert_eq!(uuid::format_uuid(digest), "01234567-89ab-cdef-0123-456789abcdef");
}
