use swec::ringbuffer::RingBuffer;

#[test]
fn test_new() {
    let rb = RingBuffer::<i32>::new(5);
    assert_eq!(rb.capacity(), 5);
    assert_eq!(rb.len(), 0);
    assert!(rb.is_empty());
}

#[test]
fn test_push() {
    let mut rb = RingBuffer::<i32>::new(5);
    rb.push(1);
    rb.push(2);
    rb.push(3);
    rb.push(4);
    rb.push(5);
    rb.push(6);
    rb.push(7);
    rb.push(8);
    rb.push(9);
    rb.push(10);
    assert_eq!(rb.iter(), vec![6, 7, 8, 9, 10]);
    assert_eq!(rb.capacity(), 5);
    assert_eq!(rb.len(), 5);
    assert!(!rb.is_empty());
}

#[test]
fn test_push_multiple() {
    let mut rb = RingBuffer::<i32>::new(5);
    rb.push_multiple((1..=10).collect());
    assert_eq!(rb.iter(), vec![6, 7, 8, 9, 10]);
}

#[test]
fn test_rev_iter() {
    let mut rb = RingBuffer::<i32>::new(5);
    rb.push_multiple((1..=10).collect());
    let mut manual: Vec<i32> = rb.iter();
    manual.reverse();
    assert_eq!(manual, vec![10, 9, 8, 7, 6]);
    assert_eq!(rb.iter_rev(), vec![10, 9, 8, 7, 6]);
}

#[test]
fn ringbuffer_test_new() {
    let rb = RingBuffer::<i32>::new(5);
    assert_eq!(rb.capacity(), 5);
}

#[test]
fn ringbuffer_test_push() {
    let mut rb = RingBuffer::<i32>::new(5);
    rb.push(1);
    rb.push(2);
    rb.push(3);
    rb.push(4);
    rb.push(5);
    rb.push(6);
    rb.push(7);
    rb.push(8);
    rb.push(9);
    rb.push(10);
    assert_eq!(rb.iter(), vec![6, 7, 8, 9, 10]);
}

#[test]
fn ringbuffer_test_push_multiple() {
    let mut rb = RingBuffer::<i32>::new(5);
    rb.push_multiple((1..=10).collect());
    assert_eq!(rb.iter(), vec![6, 7, 8, 9, 10]);
}

#[test]
fn resize_succeeds_iff_at_least_capacity() {
    let mut rb = RingBuffer::<i32>::new(3);
    assert!(rb.resize(5).is_ok());
    assert!(rb.resize(4).is_err());
    assert_eq!(rb.capacity(), 5);
    rb.push_multiple((1..=10).collect());
    assert_eq!(rb.iter(), vec![6, 7, 8, 9, 10]);
    assert!(rb.resize(5).is_ok());
    assert!(rb.resize(0).is_err());
}

#[test]
fn truncate_fifo_keeps_newest() {
    let mut rb = RingBuffer::<i32>::new(3);
    rb.truncate_fifo(5);
    rb.push_multiple((1..=10).collect());
    assert_eq!(rb.iter(), vec![6, 7, 8, 9, 10]);
    rb.truncate_fifo(3);
    assert_eq!(rb.iter(), vec![8, 9, 10]);
    assert_eq!(rb.capacity(), 3);
    rb.truncate_fifo(0);
    assert_eq!(rb.iter(), Vec::<i32>::new());
}

#[test]
fn from_vec_capacity_equals_length() {
    let rb = RingBuffer::<i32>::from_vec(vec![1, 2, 3, 4, 5, 6, 7]);
    assert_eq!(rb.iter(), vec![1, 2, 3, 4, 5, 6, 7]);
    assert_eq!(rb.capacity(), 7);
}

#[test]
fn zero_capacity_retains_nothing() {
    let mut rb = RingBuffer::<i32>::new(0);
    rb.push(1);
    rb.push(2);
    assert_eq!(rb.len(), 0);
    assert!(rb.is_empty());
}

#[test]
fn get_indexes_from_oldest() {
    let mut rb = RingBuffer::<i32>::new(3);
    rb.push_multiple(vec![1, 2, 3, 4]);
    assert_eq!(rb.get(0), Some(&2));
    assert_eq!(rb.get(2), Some(&4));
    assert_eq!(rb.get(3), None);
}
