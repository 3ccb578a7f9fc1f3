use light_tool::id;
use light_tool::id::{ObjectId, SharedSnowflake, SnowflakeIdGenerator};

#[test]
fn id_test_uuid() {
    println!("uuid: {}", id::uuid(None));
}

#[test]
fn test_snowflake_id() {
    let mut generator = SnowflakeIdGenerator::new();
    for _ in 0..10 {
        println!("snowflake id: {}", id::snowflake_id(&mut generator).unwrap());
    }
}

#[test]
fn test_object_id() {
    for counter in 0..16 {
        println!("ObjectId: {}", id::object_id(b"5A:9A:C3:47:2D:33", 4242, counter));
    }
}

#[test]
fn test_snowflake_monotonic_unique() {
    let mut generator = SnowflakeIdGenerator::new();
    let mut last = 0u64;
    for i in 0..10000 {
        let id = generator.generate_id().unwrap();
        if i > 0 {
            assert!(id > last, "identifier did not increase: {} after {}", id, last);
        }
        last = id;
    }
}

#[test]
fn test_shared_snowflake() {
    let shared = SharedSnowflake::new();
    let mut last = 0u64;
    for i in 0..1000 {
        let id = shared.next_id().unwrap();
        if i > 0 {
            assert!(id > last);
        }
        last = id;
    }
}

#[test]
fn test_object_id_distinct() {
    let machine = b"5A:9A:C3:47:2D:33";
    let mut seen: Vec<String> = Vec::with_capacity(10000);
    for counter in 0..10000 {
        seen.push(id::object_id(machine, 4242, counter));
    }
    seen.sort();
    for pair in seen.windows(2) {
        assert_ne!(pair[0], pair[1]);
    }
}

#[test]
fn test_object_id_layout() {
    let oid = ObjectId::new(0x01020304, b"ABCDE", 0x0102, 0x030405);
    assert_eq!(oid.to_hex(), "010203044142434445030405");
    // The counter's top byte is folded into byte 9 beside the process
    // identifier's high byte.
    let oid2 = ObjectId::new(0, b"\0\0\0\0\0", 0xff00, 0xfffffff);
    assert_eq!(oid2.to_hex(), "000000000000000000ffffff");
}

#[test]
fn test_object_id_is_hex() {
    let s = id::object_id(b"abcdefgh", 1, 99);
    assert_eq!(s.len(), 24);
    assert!(s.chars().all(|c| c.is_ascii_hexdigit() && !c.is_ascii_uppercase()));
}
