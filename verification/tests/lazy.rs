use std::sync::atomic::{AtomicU32, Ordering};

use light_tool::lazy::Lazy;

#[test]
fn test_lazy() {
    let global_data = Lazy::new(|| {
        println!("init...");
        42u64
    });

    println!("value: {}", global_data.get());
    println!("value: {}", global_data.get());
}

#[test]
fn test_lazy_initializes_once() {
    let runs = AtomicU32::new(0);
    let cell = Lazy::new(|| {
        runs.fetch_add(1, Ordering::SeqCst);
        7u32
    });
    let first = *cell.get();
    let second = *cell.get();
    assert_eq!(first, 7);
    assert_eq!(second, 7);
    assert_eq!(runs.load(Ordering::SeqCst), 1);
}
