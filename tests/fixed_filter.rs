use bloom::fixed::BloomFilter;
use bloom::{default_hash, ConstructionError};

#[test]
fn fixed_added_items_are_found() {
    let mut filter = BloomFilter::new(1000, 3).unwrap();
    filter.add("Hello, world!");
    assert!(filter.contains("Hello, world!"));
    for i in 0..300 {
        filter.add(&format!("item{}", i));
    }
    assert!(filter.contains("Hello, world!"));
    for i in 0..300 {
        assert!(filter.contains(&format!("item{}", i)));
    }
    assert_eq!(filter.size(), 1000);
    assert_eq!(filter.hash_functions(), 3);
}

#[test]
fn fixed_empty_filter_finds_nothing() {
    let filter = BloomFilter::new(1, 1).unwrap();
    for item in ["", "a", "ghost1", "Goodbye, world!"] {
        assert!(!filter.contains(item));
    }
}

#[test]
fn fixed_one_bit_filter_reports_everything_once_set() {
    let mut filter = BloomFilter::new(1, 2).unwrap();
    filter.add("a");
    assert!(filter.contains("b"));
}

#[test]
fn fixed_construction_errors() {
    assert_eq!(BloomFilter::new(0, 3).err(), Some(ConstructionError::ZeroSize));
    assert_eq!(BloomFilter::new(10, 0).err(), Some(ConstructionError::NoHashFunctions));
}

#[test]
fn fixed_same_history_same_answers() {
    let mut a = BloomFilter::new(64, 2).unwrap();
    let mut b = BloomFilter::new(64, 2).unwrap();
    for i in 0..20 {
        a.add(&format!("v{}", i));
        b.add(&format!("v{}", i));
    }
    for i in 0..200 {
        let q = format!("v{}", i);
        assert_eq!(a.contains(&q), b.contains(&q));
    }
}

#[test]
fn default_hash_xors_seed() {
    assert_eq!(default_hash("abc", 0) ^ default_hash("abc", 6), 6);
    assert_eq!(default_hash("abc", 1), default_hash("abc", 1));
    assert_ne!(default_hash("abc", 0), default_hash("abd", 0));
}
