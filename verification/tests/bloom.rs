//! Membership behaviour of the filter: inserts, queries, clearing, and the
//! proved laws exercised on concrete values.

use tempora_bloom::FpRate;
use tempora_bloom::StandardBloomFilter;

fn one_percent() -> FpRate {
    FpRate::new(1, 100)
}

#[test]
fn test_insert_and_contains() {
    let mut bloom: StandardBloomFilter<str> =
        StandardBloomFilter::new(100, one_percent()).unwrap();
    bloom.insert("item");
    assert!(bloom.contains("item"));
}

#[test]
fn test_not_contains_before_insert() {
    let mut bloom: StandardBloomFilter<str> =
        StandardBloomFilter::new(100, one_percent()).unwrap();
    assert!(!bloom.contains("item_1"));
    assert!(!bloom.contains("item_2"));
    bloom.insert("item_1");
    assert!(bloom.contains("item_1"));
}

#[test]
fn test_clear() {
    let mut bloom: StandardBloomFilter<str> =
        StandardBloomFilter::new(100, one_percent()).unwrap();
    bloom.insert("item");
    assert!(bloom.contains("item"));
    bloom.clear();
    assert!(bloom.is_empty());
}

#[test]
fn test_multiple_items() {
    let mut bloom: StandardBloomFilter<str> =
        StandardBloomFilter::new(1000, one_percent()).unwrap();
    let items = ["apple", "banana", "cherry", "date", "elderberry"];

    for item in &items {
        bloom.insert(*item);
    }

    for item in &items {
        assert!(bloom.contains(*item));
    }
}

#[test]
fn test_integer_items() {
    let mut bloom: StandardBloomFilter<i32> =
        StandardBloomFilter::new(100, one_percent()).unwrap();
    bloom.insert(&42);
    bloom.insert(&123);
    assert!(bloom.contains(&42));
    assert!(bloom.contains(&123));
}

#[test]
fn test_negative_integer_items() {
    let mut bloom: StandardBloomFilter<i32> =
        StandardBloomFilter::new(100, one_percent()).unwrap();
    bloom.insert(&-7);
    assert!(bloom.contains(&-7));
    let mut wide: StandardBloomFilter<i64> =
        StandardBloomFilter::new(100, one_percent()).unwrap();
    wide.insert(&-7000000000i64);
    assert!(wide.contains(&-7000000000i64));
}

#[test]
fn test_membership_survives_other_inserts() {
    let mut bloom: StandardBloomFilter<str> =
        StandardBloomFilter::new(1000, one_percent()).unwrap();
    bloom.insert("first");
    for i in 0..100 {
        let item = format!("later_{}", i);
        bloom.insert(item.as_str());
        assert!(bloom.contains("first"));
    }
}

#[test]
fn test_insert_idempotent_observably() {
    let once: StandardBloomFilter<str> =
        StandardBloomFilter::with_seeds(100, one_percent(), 11, 22).unwrap();
    let twice: StandardBloomFilter<str> =
        StandardBloomFilter::with_seeds(100, one_percent(), 11, 22).unwrap();
    let mut once = once;
    let mut twice = twice;
    once.insert("item");
    twice.insert("item");
    twice.insert("item");
    assert_eq!(once.len(), twice.len());
    assert_eq!(once.is_empty(), twice.is_empty());
    for i in 0..200 {
        let probe = format!("probe_{}", i);
        assert_eq!(once.contains(probe.as_str()), twice.contains(probe.as_str()));
    }
}

#[test]
fn test_monotonic_until_clear() {
    let mut bloom: StandardBloomFilter<str> =
        StandardBloomFilter::new(100, one_percent()).unwrap();
    assert!(bloom.is_empty());
    bloom.insert("a");
    assert!(!bloom.is_empty());
    bloom.insert("b");
    assert!(!bloom.is_empty());
    assert!(bloom.contains("a"));
    assert!(bloom.contains("b"));
    bloom.clear();
    assert!(bloom.is_empty());
}

#[test]
fn test_clear_keeps_parameters() {
    let mut bloom: StandardBloomFilter<str> =
        StandardBloomFilter::new(100, one_percent()).unwrap();
    let len_before = bloom.len();
    let k_before = bloom.hash_count();
    bloom.insert("item");
    bloom.clear();
    assert!(bloom.is_empty());
    assert_eq!(bloom.len(), len_before);
    assert_eq!(bloom.hash_count(), k_before);
    assert!(!bloom.contains("item"));
    bloom.insert("item");
    assert!(bloom.contains("item"));
}

#[test]
fn test_with_seeds_reproducible() {
    let mut a: StandardBloomFilter<str> =
        StandardBloomFilter::with_seeds(100, one_percent(), 7, 9).unwrap();
    let mut b: StandardBloomFilter<str> =
        StandardBloomFilter::with_seeds(100, one_percent(), 7, 9).unwrap();
    a.insert("x");
    a.insert("y");
    b.insert("x");
    b.insert("y");
    for i in 0..200 {
        let probe = format!("probe_{}", i);
        assert_eq!(a.contains(probe.as_str()), b.contains(probe.as_str()));
    }
}

#[test]
fn test_byte_slice_items() {
    let mut bloom: StandardBloomFilter<[u8]> =
        StandardBloomFilter::new(100, one_percent()).unwrap();
    bloom.insert(&[1u8, 2, 3][..]);
    assert!(bloom.contains(&[1u8, 2, 3][..]));
    let owned: Vec<u8> = vec![9u8, 8, 7];
    let mut vec_bloom: StandardBloomFilter<Vec<u8>> =
        StandardBloomFilter::new(100, one_percent()).unwrap();
    vec_bloom.insert(&owned);
    assert!(vec_bloom.contains(&owned));
}
