use light_tool::random;
use light_tool::random::XorShiftRng;

#[test]
fn test_random_str() {
    println!("random_str: {}", random::str("ABCDEFGHIJKLMNOPQRSTUVWXYZabcdefghijklmnopqrstuvwxyz", 10));
}

#[test]
fn test_random_num() {
    println!("random_num: {}", random::num(6));
}

#[test]
fn test_random_alpha() {
    println!("random_alpha: {}", random::alpha(8));
}

#[test]
fn test_random_alpha_num() {
    println!("random_alpha_num: {}", random::alpha_num(16));
}

#[test]
fn test_random_range() {
    println!("random_range: {}", random::range(1, 3));
}

#[test]
fn test_random_single_char_alphabet() {
    let s = random::str("a", 40);
    assert_eq!(s, "a".repeat(40));
}

#[test]
fn test_random_range_bounds() {
    for _ in 0..1000 {
        let r = random::range(5, 8);
        assert!(5 <= r && r < 8);
    }
}

#[test]
fn test_random_lengths_and_alphabets() {
    let digits = random::num(32);
    assert_eq!(digits.len(), 32);
    assert!(digits.chars().all(|c| c.is_ascii_digit()));
    let letters = random::alpha(32);
    assert_eq!(letters.len(), 32);
    assert!(letters.chars().all(|c| c.is_ascii_alphabetic()));
    let mixed = random::alpha_num(32);
    assert_eq!(mixed.len(), 32);
    assert!(mixed.chars().all(|c| c.is_ascii_alphanumeric()));
}

#[test]
fn test_seeded_generator_is_deterministic() {
    // One xorshift step from seed 1: 1 ^ (1 << 13) = 0x2001, then
    // 0x2001 ^ (0x2001 >> 7) = 0x2041, then 0x2041 ^ (0x2041 >> 17) = 0x2041.
    let mut rng = XorShiftRng::new(Some(1));
    assert_eq!(rng.next_u64(), 0x2041);
    let mut a = XorShiftRng::new(Some(42));
    let mut b = XorShiftRng::new(Some(42));
    for _ in 0..100 {
        assert_eq!(a.gen_range(0, 1000), b.gen_range(0, 1000));
    }
    let mut c = XorShiftRng::new(Some(7));
    let mut d = XorShiftRng::new(Some(7));
    assert_eq!(c.gen_random("0123456789abcdef", 24), d.gen_random("0123456789abcdef", 24));
}
