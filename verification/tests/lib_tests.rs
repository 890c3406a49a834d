use algods::binary_search;
use algods::remove_duplicates_by_sorting;
use algods::remove_duplicates_with_dual_pointers;

#[test]
fn test_binary_search() {
    let stuff = vec![0u8, 2, 4, 6, 8, 9, 10];
    assert_eq!(1, binary_search(stuff.as_slice(), 2u8));
}

#[test]
fn lib_test_remove_duplicates_with_dual_pointers() {
    let mut v = vec![1u32, 2, 3, 4, 5, 4, 3, 2, 1, 0];
    remove_duplicates_with_dual_pointers(&mut v);
    assert_eq!(v, vec![1u32, 2, 3, 4, 5, 0]);
}

#[test]
fn lib_test_remove_duplicates_by_sorting() {
    let mut v = vec![1u32, 2, 3, 4, 5, 4, 3, 2, 1, 0];
    remove_duplicates_by_sorting(&mut v);
    assert_eq!(v, vec![0u32, 1, 2, 3, 4, 5]);
}

#[test]
fn tests_test_remove_duplicates_with_dual_pointers() {
    let mut v = vec![1u32, 2, 3, 4, 5, 4, 3, 2, 1, 0];
    remove_duplicates_with_dual_pointers(&mut v);
    assert_eq!(v, vec![1u32, 2, 3, 4, 5, 0]);
}

#[test]
fn tests_test_remove_duplicates_by_sorting() {
    let mut v = vec![1u32, 2, 3, 4, 5, 4, 3, 2, 1, 0];
    remove_duplicates_by_sorting(&mut v);
    assert_eq!(v, vec![0u32, 1, 2, 3, 4, 5]);
}

#[test]
fn binary_search_finds_every_present_key() {
    let stuff = vec![1u32, 3, 5, 5, 7, 11];
    for key in [1u32, 3, 5, 7, 11] {
        let at = binary_search(stuff.as_slice(), key);
        assert_eq!(stuff[at], key);
    }
}

#[test]
fn dedup_on_empty_and_singleton() {
    let mut empty: Vec<u8> = Vec::new();
    remove_duplicates_by_sorting(&mut empty);
    assert!(empty.is_empty());
    remove_duplicates_with_dual_pointers(&mut empty);
    assert!(empty.is_empty());

    let mut one = vec![9u8];
    remove_duplicates_by_sorting(&mut one);
    assert_eq!(vec![9u8], one);
    remove_duplicates_with_dual_pointers(&mut one);
    assert_eq!(vec![9u8], one);
}

#[test]
fn dedup_keeps_first_occurrences_in_order() {
    let mut v = vec![7u8, 7, 3, 7, 3, 1, 1, 7];
    remove_duplicates_with_dual_pointers(&mut v);
    assert_eq!(v, vec![7u8, 3, 1]);
}
