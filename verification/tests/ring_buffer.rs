use blockstackers_core::ring_buffer::{RingBuffer, RingBufferVec};

#[test]
fn ring_buffer_test_push() {
    let mut rb = RingBuffer::<i32>::new(10, 10);
    rb.push(1);
    rb.push(2);
    rb.push(3);
    rb.push(4);
    rb.push(5);
    rb.push(6);
    rb.push(7);
    rb.push(8);
    rb.push(9);
    rb.push(10);
    rb.push(11);
    assert_eq!(rb.get(0), Some(&11));
    assert_eq!(rb.get(1), Some(&10));
    assert_eq!(rb.get(2), Some(&9));
    assert_eq!(rb.get(9), Some(&2));
}

#[test]
fn ring_buffer_vec_push() {
    let mut rb = RingBufferVec::new(-69, 10);
    rb.push(1);
    rb.push(2);
    rb.push(3);
    rb.push(4);
    rb.push(5);
    rb.push(6);
    rb.push(7);
    rb.push(8);
    rb.push(9);
    assert_eq!(rb.get(0), Some(&1));
    assert_eq!(rb.get(1), Some(&2));
    assert_eq!(rb.get(2), Some(&3));
    assert_eq!(rb.get(9), Some(&-69));
    rb.push(10);
    rb.push(11);
    rb.push(12);
    assert_eq!(rb.get(9), Some(&10));
    assert_eq!(rb.get(10), Some(&11));
    assert_eq!(rb.get(11), Some(&12));
    assert_eq!(rb.get(0), None);
}

#[test]
fn ring_buffer_vec_push2() {
    let mut rb = RingBufferVec::new(-69, 2);
    rb.push(0);
    rb.push(1);
    rb.get(0);
}

#[test]
fn ring_buffer_get_past_capacity_is_none() {
    let mut rb = RingBuffer::<i32>::new(0, 3);
    assert_eq!(rb.get(3), None);
    rb.push(5);
    assert_eq!(rb.get(0), Some(&5));
    assert_eq!(rb.get(1), Some(&0));
    assert_eq!(rb.get(2), Some(&0));
    assert_eq!(rb.get(7), None);
}

#[test]
fn ring_buffer_push_shifts_older_values_back() {
    let mut rb = RingBuffer::<i32>::new(0, 3);
    rb.push(1);
    rb.push(2);
    assert_eq!(rb.get(1), Some(&1));
    rb.push(3);
    assert_eq!(rb.get(2), Some(&1));
    rb.push(4);
    assert_eq!(rb.get(0), Some(&4));
    assert_eq!(rb.get(1), Some(&3));
    assert_eq!(rb.get(2), Some(&2));
}

#[test]
fn ring_buffer_vec_len_and_window() {
    let mut rb = RingBufferVec::new(7, 3);
    assert_eq!(rb.len(), 0);
    assert_eq!(rb.get(0), Some(&7));
    assert_eq!(rb.get(1), None);
    for v in 0..5 {
        rb.push(v * 10);
    }
    assert_eq!(rb.len(), 5);
    assert_eq!(rb.get(1), None);
    assert_eq!(rb.get(2), Some(&20));
    assert_eq!(rb.get(3), Some(&30));
    assert_eq!(rb.get(4), Some(&40));
    // index len() reads the slot the next push writes: the oldest value kept
    assert_eq!(rb.get(5), Some(&20));
    assert_eq!(rb.get(6), None);
}
