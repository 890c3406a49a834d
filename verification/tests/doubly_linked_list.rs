use algods::data_structures::doubly_linked_list::DoublyLinkedList;

#[test]
fn basic() {
    let mut list: DoublyLinkedList<u8> = DoublyLinkedList::new();

    assert!(list.first().is_none());
    assert!(list.last().is_none());

    list.append(5);

    assert_eq!(list.len(), 1);
    assert_eq!(*list.first().unwrap(), 5);
    assert_eq!(*list.last().unwrap(), 5);

    list.append(10);

    assert_eq!(list.len(), 2);
    assert_eq!(*list.first().unwrap(), 5);
    assert_eq!(*list.last().unwrap(), 10);

    list.append(15);

    assert_eq!(list.len(), 3);
    assert_eq!(*list.first().unwrap(), 5);
    assert_eq!(*list.last().unwrap(), 15);
}

#[test]
fn append_three_then_ends() {
    let mut list: DoublyLinkedList<i32> = DoublyLinkedList::new();
    list.append(5);
    list.append(10);
    list.append(15);
    assert_eq!(5, *list.first().unwrap());
    assert_eq!(15, *list.last().unwrap());
    assert_eq!(3, list.len());

    let mut single: DoublyLinkedList<i32> = DoublyLinkedList::new();
    single.append(42);
    assert_eq!(*single.first().unwrap(), *single.last().unwrap());
}

#[test]
fn clear_resets_everything() {
    let mut list: DoublyLinkedList<u16> = DoublyLinkedList::new();
    for v in [1u16, 2, 3, 4, 5] {
        list.append(v);
    }
    assert_eq!(5, list.len());
    assert!(!list.is_empty());
    list.clear();
    assert_eq!(0, list.len());
    assert!(list.is_empty());
    assert!(list.first().is_none());
    assert!(list.last().is_none());

    list.append(7);
    assert_eq!(1, list.len());
    assert_eq!(7, *list.first().unwrap());
    assert_eq!(7, *list.last().unwrap());
}
