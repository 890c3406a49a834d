use algods::data_structures::array_list::ArrayList;

#[test]
fn array_list_basic_tests() {
    let mut a = ArrayList::with_capacity(2);

    assert_eq!(2usize, a.capacity());

    a.push(0u8);
    a.push(1u8);

    assert_eq!(2usize, a.capacity());

    a.push(2u8);

    assert_eq!(4usize, a.capacity());
}

#[test]
fn remove_at_tests() {
    let mut a = ArrayList::with_capacity(5);

    a.push(1u8);
    a.push(2u8);
    a.push(3u8);
    a.push(4u8);
    a.push(5u8);

    a.remove_at(2).unwrap();

    assert_eq!(a.as_slice(), vec![1u8, 2u8, 4u8, 5u8]);

    a.remove_at(3).unwrap();

    assert_eq!(a.as_slice(), vec![1u8, 2u8, 4u8]);
}

#[test]
fn insert_tests() {
    let mut a = ArrayList::with_capacity(5);

    a.insert(0, 5u8).unwrap();

    assert_eq!(5u8, *a.get(0));

    a.insert(0, 15u8).unwrap();

    assert_eq!(15u8, *a.get(0));

    assert_eq!(5u8, *a.get(1));

    assert_eq!(5usize, a.capacity());
    assert_eq!(2usize, a.length());

    a.insert(2, 1u8).unwrap();

    assert_eq!(5usize, a.capacity());
    assert_eq!(3usize, a.length());

    a.insert(3, 2u8).unwrap();

    assert_eq!(a.as_slice(), vec![15u8, 5u8, 1u8, 2u8]);
}

#[test]
fn insert_out_of_bounds() {
    let mut a = ArrayList::with_capacity(2);
    let r = a.insert(1, 0u8);
    assert!(r.is_err());
    assert_eq!(0usize, a.length());
    assert_eq!(2usize, a.capacity());
}

#[test]
fn remove_at_out_of_bounds() {
    let mut a: ArrayList<u8> = ArrayList::with_capacity(2);
    let r = a.remove_at(0);
    assert!(r.is_err());
    assert_eq!(0usize, a.length());
    assert_eq!(2usize, a.capacity());
}

#[test]
fn push_keeps_earlier_values() {
    let mut a: ArrayList<u32> = ArrayList::new();
    assert_eq!(10usize, a.capacity());
    let values = [4u32, 9, 2, 7, 7, 0, 1, 3, 8, 5, 6, 11];
    for (i, v) in values.iter().enumerate() {
        a.push(*v);
        assert_eq!(i + 1, a.length());
        for (j, w) in values.iter().enumerate().take(i + 1) {
            assert_eq!(*w, *a.get(j));
        }
    }
    assert_eq!(20usize, a.capacity());
}

#[test]
fn growth_from_zero_capacity() {
    let mut a: ArrayList<u8> = ArrayList::with_capacity(0);
    assert_eq!(0usize, a.capacity());
    a.push(42u8);
    assert_eq!(1usize, a.capacity());
    assert_eq!(1usize, a.length());
    a.push(43u8);
    assert_eq!(2usize, a.capacity());
    a.push(44u8);
    assert_eq!(4usize, a.capacity());
    assert_eq!(a.as_slice(), vec![42u8, 43u8, 44u8]);
}

#[test]
fn insert_remove_round_trip() {
    let mut a = ArrayList::with_capacity(5);
    a.push(15u8);
    a.push(5u8);
    a.push(1u8);
    a.push(2u8);

    a.remove_at(1).unwrap();
    assert_eq!(a.as_slice(), vec![15u8, 1u8, 2u8]);

    a.insert(1, 5u8).unwrap();
    assert_eq!(a.as_slice(), vec![15u8, 5u8, 1u8, 2u8]);
}

#[test]
fn insert_trace_keeps_capacity() {
    let mut a = ArrayList::with_capacity(5);
    a.insert(0, 5u8).unwrap();
    assert_eq!(a.as_slice(), vec![5u8]);
    assert_eq!(5usize, a.capacity());
    a.insert(0, 15u8).unwrap();
    assert_eq!(a.as_slice(), vec![15u8, 5u8]);
    assert_eq!(5usize, a.capacity());
    a.insert(2, 1u8).unwrap();
    assert_eq!(a.as_slice(), vec![15u8, 5u8, 1u8]);
    assert_eq!(5usize, a.capacity());
    a.insert(3, 2u8).unwrap();
    assert_eq!(a.as_slice(), vec![15u8, 5u8, 1u8, 2u8]);
    assert_eq!(5usize, a.capacity());
}

#[test]
fn set_overwrites_in_place() {
    let mut a = ArrayList::with_capacity(3);
    a.push(1u8);
    a.push(2u8);
    a.set(0, 9u8);
    assert_eq!(a.as_slice(), vec![9u8, 2u8]);
    assert_eq!(3usize, a.capacity());
}
