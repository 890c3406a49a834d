use algods::data_structures::binary_heap::{first_child, parent, second_child, BinaryHeap};

#[test]
fn binary_heap_basic_tests() {
    let mut bh = BinaryHeap::new();
    bh.push(5u8);
    bh.push(15u8);
    bh.push(10u8);

    assert_eq!(Some(15u8), bh.pop());
    assert_eq!(Some(10u8), bh.pop());
    assert_eq!(Some(5u8), bh.pop());
    assert_eq!(None, bh.pop());
}

#[test]
fn heap_orders_many_values() {
    let mut bh = BinaryHeap::new();
    for v in [3u32, 14, 1, 5, 9, 2, 6, 5, 3, 5] {
        bh.push(v);
    }
    assert_eq!(10, bh.length());
    let mut drained = Vec::new();
    while let Some(v) = bh.pop() {
        drained.push(v);
    }
    assert_eq!(vec![14u32, 9, 6, 5, 5, 5, 3, 3, 2, 1], drained);
    assert_eq!(0, bh.length());
}

#[test]
fn child_and_parent_indices() {
    assert_eq!(0, parent(1));
    assert_eq!(0, parent(2));
    assert_eq!(1, parent(3));
    assert_eq!(1, parent(4));
    assert_eq!(3, first_child(1));
    assert_eq!(4, second_child(1));
    assert_eq!(1, first_child(0));
    assert_eq!(2, second_child(0));
}
