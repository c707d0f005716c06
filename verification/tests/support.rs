use ring_buffer::array::RArray;
use ring_buffer::range::FluxRange;

#[test]
fn array_get_returns_what_new_was_given() {
    let array = RArray::new([10, 11, 12, 13, 14, 15, 16, 17]);
    for idx in 0..8 {
        assert_eq!(array.get(idx), 10 + idx as i32);
    }
    assert_eq!(array.len(), 8);
}

#[test]
fn array_set_replaces_one_element() {
    let mut array = RArray::new([0u8; 8]);
    array.set(3, 7);
    array.set(7, 9);
    let seen: Vec<u8> = array.iter().copied().collect();
    assert_eq!(seen, vec![0, 0, 0, 7, 0, 0, 0, 9]);
    assert_eq!(array.get(3), 7);
    assert_eq!(array.len(), 8);
}

#[test]
fn array_iter_walks_the_elements_in_order() {
    let array = RArray::new(['a', 'b', 'c', 'd', 'e', 'f', 'g', 'h']);
    let seen: String = array.iter().collect();
    assert_eq!(seen, "abcdefgh");
}

#[test]
fn array_iter_mut_writes_through() {
    let mut array = RArray::new([1u32, 2, 3, 4, 5, 6, 7, 8]);
    for element in array.iter_mut() {
        *element *= 10;
    }
    let seen: Vec<u32> = array.iter().copied().collect();
    assert_eq!(seen, vec![10, 20, 30, 40, 50, 60, 70, 80]);
    assert_eq!(array.len(), 8);
}

#[test]
fn array_iter_mut_hands_out_the_elements_in_order() {
    let mut array = RArray::new([3u32, 1, 4, 1, 5, 9, 2, 6]);
    let mut seen = Vec::new();
    for (index, element) in array.iter_mut().enumerate() {
        seen.push(*element);
        if index < 2 {
            *element += 100;
        }
    }
    assert_eq!(seen, vec![3, 1, 4, 1, 5, 9, 2, 6]);
    let after: Vec<u32> = array.iter().copied().collect();
    assert_eq!(after, vec![103, 101, 4, 1, 5, 9, 2, 6]);
}

#[test]
fn array_iter_mut_left_unused_changes_nothing() {
    let mut array = RArray::new([3u32, 1, 4, 1, 5, 9, 2, 6]);
    assert_eq!(array.iter_mut().len(), 8);
    let after: Vec<u32> = array.iter().copied().collect();
    assert_eq!(after, vec![3, 1, 4, 1, 5, 9, 2, 6]);
}

#[test]
fn range_is_empty_when_start_reaches_end() {
    assert!(FluxRange { start: 3, end: 3 }.is_empty());
    assert!(FluxRange { start: 4, end: 3 }.is_empty());
    assert!(!FluxRange { start: 2, end: 3 }.is_empty());
    assert!(!FluxRange { start: 0, end: usize::MAX }.is_empty());
}

#[test]
fn range_contains_start_but_not_end() {
    let range = FluxRange { start: 2, end: 5 };
    assert!(!range.contains(&1));
    assert!(range.contains(&2));
    assert!(range.contains(&4));
    assert!(!range.contains(&5));
    assert!(!range.contains(&6));
}

#[test]
fn empty_range_contains_nothing() {
    let range = FluxRange { start: 5, end: 2 };
    assert!(!range.contains(&2));
    assert!(!range.contains(&3));
    assert!(!range.contains(&5));
}

#[test]
fn ranges_compare_by_their_bounds() {
    let range = FluxRange { start: 1, end: 4 };
    let copy = range;
    assert_eq!(range, copy);
    assert_ne!(range, FluxRange { start: 1, end: 5 });
    assert_eq!(format!("{:?}", range), "FluxRange { start: 1, end: 4 }");
}
