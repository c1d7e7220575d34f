use corus_v2::ring_buffer::RingBuffer;

#[test]
fn ring_buffer_test() {
    let mut b = RingBuffer::new(4);

    assert_eq!(b.size(), 4);
    b.push(1);
    b.push(2);
    b.push(3);
    b.push(4);
    assert_eq!(b.get(0), 4);
    assert_eq!(b.get(1), 3);
    assert_eq!(b.get(2), 2);
    assert_eq!(b.get(3), 1);
    b.push(5);
    assert_eq!(b.get(0), 5);
    assert_eq!(b.get(1), 4);
    assert_eq!(b.get(2), 3);
    assert_eq!(b.get(3), 2);
}

#[test]
fn ring_buffer_starts_with_defaults() {
    let b: RingBuffer<i32> = RingBuffer::new(3);
    assert_eq!(b.size(), 3);
    for i in 0..=3 {
        assert_eq!(b.get(i), 0);
    }
}

#[test]
fn ring_buffer_read_at_size_is_newest() {
    let mut b = RingBuffer::new(3);
    b.push(7);
    b.push(8);
    assert_eq!(b.get(3), b.get(0));
    assert_eq!(b.get(3), 8);
}

#[test]
fn ring_buffer_push_then_newest() {
    let mut b = RingBuffer::new(2);
    b.push(9);
    for v in 10..20 {
        b.push(v);
        assert_eq!(b.get(0), v);
        assert_eq!(b.get(1), v - 1);
    }
}

#[test]
fn ring_buffer_fast_resize_grows_and_shrinks() {
    let mut b = RingBuffer::new(2);
    b.push(1);
    b.push(2);
    // slots [1, 2], newest at slot 1
    b.fast_resize(4);
    assert_eq!(b.size(), 4);
    // newest position 1 % 4 = 1, slots [1, 2, 0, 0]
    assert_eq!(b.get(0), 2);
    assert_eq!(b.get(1), 1);
    assert_eq!(b.get(2), 0);
    assert_eq!(b.get(3), 0);
    b.fast_resize(1);
    assert_eq!(b.size(), 1);
    assert_eq!(b.get(0), 1);
}
