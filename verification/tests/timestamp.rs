use light_tool::timestamp;

#[test]
fn test_seconds() {
    let seconds = timestamp::seconds();
    println!("seconds: {}", seconds);
    assert!(seconds > 0);
}

#[test]
fn test_milli_seconds() {
    let milli_seconds = timestamp::milli_seconds();
    println!("milli_seconds: {}", milli_seconds);
    assert!(milli_seconds > 0);
}

#[test]
fn test_nano_seconds() {
    let nano_seconds = timestamp::nano_seconds();
    println!("nano_seconds: {}", nano_seconds);
    assert!(nano_seconds > 0);
}
