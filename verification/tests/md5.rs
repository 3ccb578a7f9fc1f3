use light_tool::md5;

#[test]
fn test_md5() {
    assert_eq!(md5::salt("123".as_bytes(), "456".as_bytes()), "e10adc3949ba59abbe56e057f20f883e");
    assert_eq!(md5::str("123456".as_bytes()), "e10adc3949ba59abbe56e057f20f883e");
    assert_eq!(md5::str(b"hello world"), "5eb63bbbe01eeed093cb22bb8f5acdc3");
    assert_eq!(md5::str(b""), "d41d8cd98f00b204e9800998ecf8427e");
}

#[test]
fn test_md5_streaming_engine() {
    let mut engine = md5::Md5::new();
    engine.update(b"hello ");
    engine.update(b"world");
    let digest = engine.finalize();
    let mut rendered = String::new();
    for byte in digest {
        rendered.push_str(&format!("{:02x}", byte));
    }
    assert_eq!(rendered, "5eb63bbbe01eeed093cb22bb8f5acdc3");
}

#[test]
fn test_md5_chunked_matches_whole() {
    let chunks = vec![b"hel".to_vec(), b"lo w".to_vec(), b"orld".to_vec()];
    assert_eq!(md5::str_chunked(&chunks), md5::str(b"hello world"));
    let empty: Vec<Vec<u8>> = Vec::new();
    assert_eq!(md5::str_chunked(&empty), md5::str(b""));
    let with_empties = vec![Vec::new(), b"123456".to_vec(), Vec::new()];
    assert_eq!(md5::str_chunked(&with_empties), "e10adc3949ba59abbe56e057f20f883e");
}

#[test]
fn test_md5_block_boundaries() {
    // 55, 56, 64 and 65 input bytes exercise every padding shape.
    let byte_a = b"a"[0];
    for n in [55usize, 56, 63, 64, 65, 128] {
        let data = vec![byte_a; n];
        let single = md5::str(&data);
        let split = vec![data[..n / 2].to_vec(), data[n / 2..].to_vec()];
        assert_eq!(md5::str_chunked(&split), single);
    }
    assert_eq!(
        md5::str(&vec![b"a"[0]; 64]),
        "014842d480b571495a4a0363793f7367",
    );
}
