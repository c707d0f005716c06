use ring_buffer::ring_buffer::RingBuffer;

fn content(buf: &RingBuffer<i32>) -> Vec<i32> {
    let (first, second) = buf.as_slices();
    let mut all = first.to_vec();
    all.extend_from_slice(second);
    all
}

#[test]
fn new_buffer_is_empty() {
    let mut storage = [0i32; 5];
    let buf = RingBuffer::new(&mut storage);
    assert_eq!(buf.len(), 0);
    assert_eq!(buf.available_len(), 4);
    assert!(!buf.has_elements());
    assert!(!buf.is_full());
    assert_eq!(content(&buf), Vec::<i32>::new());
}

#[test]
fn five_slots_scenario() {
    let mut storage = [0i32; 5];
    let mut buf = RingBuffer::new(&mut storage);
    assert!(buf.enqueue(1));
    assert!(buf.enqueue(2));
    assert!(buf.enqueue(3));
    assert!(buf.enqueue(4));
    assert!(buf.is_full());
    assert_eq!(buf.push(5), Some(1));
    assert_eq!(content(&buf), vec![2, 3, 4, 5]);
    buf.retain(|x| x % 2 == 0);
    assert_eq!(content(&buf), vec![2, 4]);
    assert_eq!(buf.len(), 2);
    buf.empty();
    assert!(!buf.has_elements());
}

#[test]
fn enqueue_on_full_is_rejected_and_changes_nothing() {
    let mut storage = [0i32; 4];
    let mut buf = RingBuffer::new(&mut storage);
    assert!(buf.enqueue(10));
    assert!(buf.enqueue(20));
    assert!(buf.enqueue(30));
    assert!(buf.is_full());
    assert!(!buf.enqueue(40));
    assert_eq!(content(&buf), vec![10, 20, 30]);
    assert_eq!(buf.len(), 3);
    assert_eq!(buf.available_len(), 0);
}

#[test]
fn dequeue_on_empty_is_none() {
    let mut storage = [0i32; 3];
    let mut buf = RingBuffer::new(&mut storage);
    assert_eq!(buf.dequeue(), None);
    assert!(buf.enqueue(7));
    assert_eq!(buf.dequeue(), Some(7));
    assert_eq!(buf.dequeue(), None);
    assert_eq!(buf.len(), 0);
}

#[test]
fn first_in_first_out_for_every_size() {
    for n in 2..10usize {
        for k in 0..n {
            let mut storage = vec![0i32; n];
            let mut buf = RingBuffer::new(&mut storage);
            let items: Vec<i32> = (0..k as i32).map(|i| 100 + 3 * i).collect();
            for item in &items {
                assert!(buf.enqueue(*item));
            }
            let mut handed = Vec::new();
            for _ in 0..k {
                handed.push(buf.dequeue().unwrap());
            }
            assert_eq!(handed, items);
            assert!(!buf.has_elements());
        }
    }
}

#[test]
fn first_in_first_out_across_the_wrap() {
    let mut storage = [0i32; 4];
    let mut buf = RingBuffer::new(&mut storage);
    let mut next = 0;
    let mut expected = 0;
    for _ in 0..25 {
        assert!(buf.enqueue(next));
        next += 1;
        assert!(buf.enqueue(next));
        next += 1;
        assert_eq!(buf.dequeue(), Some(expected));
        expected += 1;
        assert_eq!(buf.dequeue(), Some(expected));
        expected += 1;
    }
    assert_eq!(buf.len(), 0);
}

#[test]
fn len_and_available_len_add_up_after_every_operation() {
    let mut storage = [0i32; 6];
    let mut buf = RingBuffer::new(&mut storage);
    assert_eq!(buf.len() + buf.available_len(), 5);
    for round in 0..40i32 {
        match round % 7 {
            0 | 1 | 2 => {
                buf.enqueue(round);
            }
            3 => {
                buf.push(round);
            }
            4 => {
                buf.dequeue();
            }
            5 => {
                buf.remove_first_matching(|x| x % 3 == 0);
            }
            _ => {
                buf.retain(|x| x % 2 == 1);
            }
        }
        assert_eq!(buf.len() + buf.available_len(), 5);
        assert_eq!(buf.is_full(), buf.available_len() == 0);
        assert_eq!(buf.has_elements(), buf.len() > 0);
        assert_eq!(content(&buf).len(), buf.len());
    }
    buf.empty();
    assert_eq!(buf.len() + buf.available_len(), 5);
}

#[test]
fn len_follows_the_cursors_around_the_ring() {
    let mut storage = [0i32; 4];
    let mut buf = RingBuffer::new(&mut storage);
    assert!(buf.enqueue(1));
    assert!(buf.enqueue(2));
    assert!(buf.enqueue(3));
    assert_eq!(buf.dequeue(), Some(1));
    assert_eq!(buf.dequeue(), Some(2));
    // head is at slot 2, tail at slot 3
    assert_eq!(buf.len(), 1);
    assert!(buf.enqueue(4));
    // tail has wrapped to slot 0
    assert_eq!(buf.len(), 2);
    assert_eq!(buf.available_len(), 1);
    assert!(buf.enqueue(5));
    // tail at slot 1, head at slot 2: (1 - 2 + 4) mod 4
    assert_eq!(buf.len(), 3);
    assert_eq!(buf.available_len(), 0);
    assert!(buf.is_full());
}

#[test]
fn push_into_a_buffer_with_room_evicts_nothing() {
    let mut storage = [0i32; 4];
    let mut buf = RingBuffer::new(&mut storage);
    assert_eq!(buf.push(1), None);
    assert_eq!(buf.push(2), None);
    assert_eq!(content(&buf), vec![1, 2]);
}

#[test]
fn push_into_a_full_buffer_evicts_the_oldest() {
    let mut storage = [0i32; 4];
    let mut buf = RingBuffer::new(&mut storage);
    assert_eq!(buf.push(1), None);
    assert_eq!(buf.push(2), None);
    assert_eq!(buf.push(3), None);
    assert_eq!(buf.push(4), Some(1));
    assert_eq!(content(&buf), vec![2, 3, 4]);
    assert_eq!(buf.push(5), Some(2));
    assert_eq!(buf.push(6), Some(3));
    assert_eq!(buf.push(7), Some(4));
    assert_eq!(content(&buf), vec![5, 6, 7]);
    assert!(buf.is_full());
}

#[test]
fn two_slots_hold_one_element() {
    let mut storage = [0i32; 2];
    let mut buf = RingBuffer::new(&mut storage);
    assert_eq!(buf.available_len(), 1);
    assert!(buf.enqueue(1));
    assert!(buf.is_full());
    assert!(!buf.enqueue(2));
    assert_eq!(buf.push(3), Some(1));
    assert_eq!(content(&buf), vec![3]);
    assert_eq!(buf.dequeue(), Some(3));
    assert_eq!(buf.dequeue(), None);
}

#[test]
fn as_slices_without_wrap_has_an_empty_second_run() {
    let mut storage = [0i32; 5];
    let mut buf = RingBuffer::new(&mut storage);
    assert!(buf.enqueue(1));
    assert!(buf.enqueue(2));
    assert!(buf.enqueue(3));
    assert_eq!(buf.dequeue(), Some(1));
    let (first, second) = buf.as_slices();
    assert_eq!(first, &[2, 3]);
    assert!(second.is_empty());
}

#[test]
fn as_slices_with_wrap_splits_at_the_end_of_the_storage() {
    let mut storage = [0i32; 5];
    let mut buf = RingBuffer::new(&mut storage);
    for i in 1..=4 {
        assert!(buf.enqueue(i));
    }
    assert_eq!(buf.dequeue(), Some(1));
    assert_eq!(buf.dequeue(), Some(2));
    assert_eq!(buf.dequeue(), Some(3));
    assert!(buf.enqueue(5));
    assert!(buf.enqueue(6));
    assert!(buf.enqueue(7));
    // head at slot 3, tail at slot 2
    let (first, second) = buf.as_slices();
    assert_eq!(first, &[4, 5]);
    assert_eq!(second, &[6, 7]);
}

#[test]
fn as_slices_with_the_tail_at_slot_zero() {
    let mut storage = [0i32; 4];
    let mut buf = RingBuffer::new(&mut storage);
    for i in 1..=3 {
        assert!(buf.enqueue(i));
    }
    assert_eq!(buf.dequeue(), Some(1));
    assert!(buf.enqueue(4));
    // head at slot 1, tail at slot 0
    let (first, second) = buf.as_slices();
    assert_eq!(first, &[2, 3, 4]);
    assert!(second.is_empty());
}

#[test]
fn as_slices_of_an_empty_buffer() {
    let mut storage = [0i32; 4];
    let mut buf = RingBuffer::new(&mut storage);
    assert!(buf.enqueue(1));
    assert_eq!(buf.dequeue(), Some(1));
    let (first, second) = buf.as_slices();
    assert!(first.is_empty());
    assert!(second.is_empty());
}

#[test]
fn empty_discards_everything_and_the_buffer_can_be_used_again() {
    let mut storage = [0i32; 4];
    let mut buf = RingBuffer::new(&mut storage);
    assert!(buf.enqueue(1));
    assert!(buf.enqueue(2));
    assert_eq!(buf.dequeue(), Some(1));
    buf.empty();
    assert!(!buf.has_elements());
    assert_eq!(buf.len(), 0);
    assert_eq!(buf.available_len(), 3);
    assert_eq!(buf.dequeue(), None);
    assert!(buf.enqueue(8));
    assert!(buf.enqueue(9));
    assert_eq!(content(&buf), vec![8, 9]);
}
