use light_tool::mac;

#[test]
fn test_is_valid_address() {
    assert!(mac::is_valid_address("5A:9A:C3:47:2D:33"));
    assert!(mac::is_valid_address("C4-75-AB-75-9C-25"));
    assert!(mac::is_valid_address("c4-75-ab-75-9c:25"));
    assert!(!mac::is_valid_address("5A:9A:C3:47:2D"));
    assert!(!mac::is_valid_address("5A:9A:C3:47:2D:3"));
    assert!(!mac::is_valid_address("5A:9A:C3:47:2D:ZZ"));
    assert!(!mac::is_valid_address("5A9A:C3:47:2D:33:"));
    assert!(!mac::is_valid_address(""));
}

#[test]
fn test_first_valid_address() {
    let output = "eth0: flags=4163<UP,BROADCAST,RUNNING,MULTICAST>\n        ether 5a:9a:c3:47:2d:33  txqueuelen 1000\n        inet 192.168.1.10";
    assert_eq!(mac::first_valid_address(output).unwrap(), "5a:9a:c3:47:2d:33");
    assert_eq!(mac::first_valid_address("no address here"), None);
    assert_eq!(mac::first_valid_address(""), None);
}

#[test]
fn test_first_valid_address_unicode_whitespace() {
    let text = "x\u{a0}c4-75-ab-75-9c-25\u{2003}y";
    assert_eq!(mac::first_valid_address(text).unwrap(), "c4-75-ab-75-9c-25");
}

#[test]
fn test_first_valid_address_returns_earliest() {
    let text = "aa:bb:cc:dd:ee 5a:9a:c3:47:2d:33 c4-75-ab-75-9c-25";
    assert_eq!(mac::first_valid_address(text).unwrap(), "5a:9a:c3:47:2d:33");
}
