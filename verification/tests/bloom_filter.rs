use algods::data_structures::bloom_filter::BloomFilter;

#[test]
fn bloom_filter_basic_tests() {
    let mut filter = BloomFilter::with_capacity(10, 5);
    let a: Vec<u8> = vec![1, 2, 3, 4];
    assert_eq!(false, filter.contains(a.as_slice()));
    filter.push(a.as_slice());
    assert_eq!(true, filter.contains(a.as_slice()));
}

#[test]
fn false_positive() {
    let mut filter = BloomFilter::with_capacity(1, 2);
    let a: Vec<u8> = vec![1, 2, 3, 4];
    assert_eq!(false, filter.contains(a.as_slice()));
    filter.push(a.as_slice());
    assert_eq!(true, filter.contains(a.as_slice()));
}

#[test]
fn getters_report_construction_values() {
    let filter = BloomFilter::with_capacity(10, 5);
    assert_eq!(10, filter.bit_count());
    assert_eq!(5, filter.expected_length());
    assert_eq!(2, filter.hash_count());

    let tiny = BloomFilter::with_capacity(1, 2);
    assert_eq!(1, tiny.bit_count());
    assert_eq!(2, tiny.expected_length());
    assert_eq!(1, tiny.hash_count());
}

#[test]
fn clear_forgets_everything() {
    let mut filter = BloomFilter::with_capacity(64, 4);
    let a: Vec<u8> = vec![10, 20, 30];
    let b: Vec<u8> = vec![40, 50];
    filter.push(a.as_slice());
    filter.push(b.as_slice());
    assert!(filter.contains(a.as_slice()));
    assert!(filter.contains(b.as_slice()));
    filter.clear();
    assert!(!filter.contains(a.as_slice()));
    assert!(!filter.contains(b.as_slice()));
}
