use algods::algorithms::insertion_sort::insertion_sort;
use algods::algorithms::merge_sort::merge_sort;
use algods::algorithms::quick_sort::quick_sort;
use algods::algorithms::selection_sort::selection_sort;

fn data() -> Vec<u8> {
    (0..100).map(|_| rand::random::<u8>()).collect()
}

fn assert_sorted<T: Ord>(data: &[T]) {
    let mut index = 1;
    while index < data.len() {
        assert!(data[index - 1] <= data[index]);
        index += 1;
    }
}

#[test]
fn insertion_sort_test_insertion_sort() {
    let mut data = vec![9, 8, 1, 5, 3, 16, 2, 0, 4];
    insertion_sort(&mut data);
    assert_eq!(vec![0, 1, 2, 3, 4, 5, 8, 9, 16], data);
}

#[test]
fn merge_sort_test_merge_sort() {
    let mut data = vec![9, 8, 1, 5, 3, 16, 2, 0, 4];
    data = merge_sort(data.as_slice());
    assert_eq!(vec![0, 1, 2, 3, 4, 5, 8, 9, 16], data);
}

#[test]
fn quick_sort_test_quick_sort() {
    let mut data = vec![9, 8, 1, 5, 3, 16, 2, 0, 4];
    quick_sort(&mut data);
    assert_eq!(vec![0, 1, 2, 3, 4, 5, 8, 9, 16], data);
}

#[test]
fn selection_sort_test_selection_sort() {
    let mut data = vec![9, 8, 1, 5, 3, 16, 2, 0, 4];
    selection_sort(&mut data);
    assert_eq!(vec![0, 1, 2, 3, 4, 5, 8, 9, 16], data);
}

#[test]
fn tests_test_selection_sort() {
    let mut data = data();
    selection_sort(&mut data);
    assert_sorted(data.as_slice());
}

#[test]
fn tests_test_insertion_sort() {
    let mut data = data();
    insertion_sort(&mut data);
    assert_sorted(data.as_slice());
}

#[test]
fn tests_test_merge_sort() {
    let data = vec![9, 8, 1, 5, 3, 16, 2, 0, 4];
    let data = merge_sort(data.as_slice());
    assert_sorted(data.as_slice());
}

#[test]
fn tests_test_quick_sort() {
    let mut data = vec![9, 8, 1, 5, 3, 16, 2, 0, 4];
    quick_sort(&mut data);
    assert_sorted(data.as_slice());
}

#[test]
fn sorts_keep_duplicates() {
    let mut data = vec![3u8, 1, 3, 2, 1, 3];
    insertion_sort(&mut data);
    assert_eq!(vec![1u8, 1, 2, 3, 3, 3], data);

    let mut data = vec![3u8, 1, 3, 2, 1, 3];
    selection_sort(&mut data);
    assert_eq!(vec![1u8, 1, 2, 3, 3, 3], data);

    let mut data = vec![3u8, 1, 3, 2, 1, 3];
    quick_sort(&mut data);
    assert_eq!(vec![1u8, 1, 2, 3, 3, 3], data);

    let data = vec![3u8, 1, 3, 2, 1, 3];
    assert_eq!(vec![1u8, 1, 2, 3, 3, 3], merge_sort(data.as_slice()));
}

#[test]
fn sorts_handle_empty_and_single() {
    let mut empty: Vec<u32> = Vec::new();
    insertion_sort(&mut empty);
    assert!(empty.is_empty());
    quick_sort(&mut empty);
    assert!(empty.is_empty());
    selection_sort(&mut empty);
    assert!(empty.is_empty());
    assert!(merge_sort(empty.as_slice()).is_empty());

    let mut one = vec![7i64];
    insertion_sort(&mut one);
    assert_eq!(vec![7i64], one);
}
