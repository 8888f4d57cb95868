//! Construction validation, the derived sizing parameters, the probe-index
//! formula, and the statistical false-positive bound.

use tempora_bloom::get_index;
use tempora_bloom::BloomError;
use tempora_bloom::FpRate;
use tempora_bloom::StandardBloomFilter;

#[test]
fn test_zero_items_count_rejected() {
    let result = StandardBloomFilter::<str>::new(0, FpRate::new(1, 100));
    assert!(matches!(result, Err(BloomError::InvalidParameter)));
}

#[test]
fn test_invalid_fp_rate_rejected() {
    // zero, one, negative, and above one, each written as a rational
    let zero = StandardBloomFilter::<str>::new(100, FpRate::new(0, 1));
    assert!(matches!(zero, Err(BloomError::InvalidParameter)));
    let one = StandardBloomFilter::<str>::new(100, FpRate::new(1, 1));
    assert!(matches!(one, Err(BloomError::InvalidParameter)));
    let negative = StandardBloomFilter::<str>::new(100, FpRate::new(-1, 2));
    assert!(matches!(negative, Err(BloomError::InvalidParameter)));
    let above_one = StandardBloomFilter::<str>::new(100, FpRate::new(3, 2));
    assert!(matches!(above_one, Err(BloomError::InvalidParameter)));
    let negative_den = StandardBloomFilter::<str>::new(100, FpRate::new(1, -2));
    assert!(matches!(negative_den, Err(BloomError::InvalidParameter)));
}

#[test]
fn test_valid_construction_succeeds() {
    let bloom: StandardBloomFilter<str> =
        StandardBloomFilter::new(100, FpRate::new(1, 100)).unwrap();
    assert!(bloom.len() > 0);
    assert!(bloom.hash_count() >= 1);
}

#[test]
fn test_sizing_exact_values() {
    // each m matches ceil(-(n ln p) / ln(2)^2) exactly, and each k matches
    // ceil(-ln(p) / ln(2)): one hundred items at one percent needs 959
    // bits (958.505...) and 7 rounds (6.643...)
    let a: StandardBloomFilter<str> =
        StandardBloomFilter::new(100, FpRate::new(1, 100)).unwrap();
    assert_eq!(a.len(), 959);
    assert_eq!(a.hash_count(), 7);

    // a thousand items at one percent: 9586 bits (9585.058...)
    let b: StandardBloomFilter<str> =
        StandardBloomFilter::new(1000, FpRate::new(1, 100)).unwrap();
    assert_eq!(b.len(), 9586);
    assert_eq!(b.hash_count(), 7);

    // a rate of one half: a single probe round
    let c: StandardBloomFilter<str> =
        StandardBloomFilter::new(1, FpRate::new(1, 2)).unwrap();
    assert_eq!(c.len(), 2);
    assert_eq!(c.hash_count(), 1);

    // one in a thousand: k = 10, 14378 bits (14377.587...)
    let d: StandardBloomFilter<str> =
        StandardBloomFilter::new(1000, FpRate::new(1, 1000)).unwrap();
    assert_eq!(d.len(), 14378);
    assert_eq!(d.hash_count(), 10);

    // an unreduced rational gives the same sizing as its reduced form
    let e: StandardBloomFilter<str> =
        StandardBloomFilter::new(100, FpRate::new(10, 1000)).unwrap();
    assert_eq!(e.len(), 959);
    assert_eq!(e.hash_count(), 7);

    // a rate close to 1 keeps enough precision: a million items at
    // 999999/1000000 need 3 bits (2.081...) and a single round
    let f: StandardBloomFilter<str> =
        StandardBloomFilter::new(1000000, FpRate::new(999999, 1000000)).unwrap();
    assert_eq!(f.len(), 3);
    assert_eq!(f.hash_count(), 1);
}

#[test]
fn test_get_index_formula() {
    // round zero probes at h1 mod len
    assert_eq!(get_index(1234, 999, 0, 100), 34);
    // round i probes at (h1 + i * h2) mod len
    assert_eq!(get_index(5, 3, 2, 100), 11);
    // the addition wraps at 64 bits: u64::MAX + 6 wraps to 5
    assert_eq!(get_index(u64::MAX, 3, 2, 10), 5);
    // the multiplication wraps too: 2 * 2^63 wraps to 0
    assert_eq!(get_index(17, 0x8000000000000000, 2, 100), 17);
}

#[test]
fn test_false_positive_rate_bound() {
    // fill to the expected load, then sample ten thousand fresh items: the
    // observed false-positive frequency should stay near the one percent
    // target; four percent is a generous statistical tolerance
    let mut bloom: StandardBloomFilter<u64> =
        StandardBloomFilter::with_seeds(1000, FpRate::new(1, 100), 12345, 67890).unwrap();
    for i in 0..1000u64 {
        bloom.insert(&i);
    }
    for i in 0..1000u64 {
        assert!(bloom.contains(&i));
    }
    let mut false_positives: u32 = 0;
    for i in 10000..20000u64 {
        if bloom.contains(&i) {
            false_positives += 1;
        }
    }
    assert!(
        false_positives <= 400,
        "observed {} false positives in 10000 samples",
        false_positives
    );
}
