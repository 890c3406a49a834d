use algods::data_structures::heap_array::HeapArray;

#[test]
fn heap_array_basic_tests() {
    let mut a = HeapArray::with_capacity(10);

    assert_eq!(10, a.capacity());

    a.set(0, 5u8);
    a.set(1, 10u8);

    assert_eq!(15, *a.get(0) + *a.get(1));

    a.set(2, 20u8);

    assert_eq!(20u8, *a.get(2));
}

#[test]
fn copy_test() {
    let mut a = HeapArray::with_capacity(2);

    a.set(0, 5u8);
    a.set(1, 10u8);

    let b = a.copy(4);

    assert_eq!(5u8, *a.get(0));
    assert_eq!(10u8, *a.get(1));

    a.set(0, 6u8);
    a.set(1, 11u8);

    assert_eq!(5u8, *b.get(0));
    assert_eq!(10u8, *b.get(1));

    assert_eq!(6u8, *a.get(0));
    assert_eq!(11u8, *a.get(1));

    assert_eq!(4, b.capacity());
}

#[test]
fn copy_leaves_new_slots_default() {
    let mut a = HeapArray::with_capacity(2);
    a.set(0, 7u32);
    a.set(1, 8u32);
    let b = a.copy(5);
    assert_eq!(7u32, *b.get(0));
    assert_eq!(8u32, *b.get(1));
    assert_eq!(0u32, *b.get(2));
    assert_eq!(0u32, *b.get(3));
    assert_eq!(0u32, *b.get(4));
}

#[test]
fn copy_to_smaller_capacity() {
    let mut a = HeapArray::with_capacity(3);
    a.set(0, 1u8);
    a.set(1, 2u8);
    a.set(2, 3u8);
    let b = a.copy(2);
    assert_eq!(2, b.capacity());
    assert_eq!(1u8, *b.get(0));
    assert_eq!(2u8, *b.get(1));
}

#[test]
fn swap_exchanges_values() {
    let mut a = HeapArray::with_capacity(3);
    a.set(0, 1u8);
    a.set(1, 2u8);
    a.set(2, 3u8);
    a.swap(0, 2);
    assert_eq!(3u8, *a.get(0));
    assert_eq!(2u8, *a.get(1));
    assert_eq!(1u8, *a.get(2));
}

#[test]
fn zero_size_elements_yield_unbounded_capacity() {
    let a: HeapArray<()> = HeapArray::with_capacity(5);
    assert_eq!(usize::MAX, a.capacity());
    assert_eq!(5, a.slot_count());

    let b: HeapArray<u8> = HeapArray::with_capacity(5);
    assert_eq!(5, b.capacity());
    assert_eq!(5, b.slot_count());
}

#[test]
fn fresh_slots_hold_default() {
    let a: HeapArray<u64> = HeapArray::with_capacity(4);
    for i in 0..4 {
        assert_eq!(0u64, *a.get(i));
    }
}
