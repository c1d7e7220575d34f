use corus_v2::event_queue::EventQueue;

#[test]
fn event_queue_orders_by_time() {
    let mut q = EventQueue::new();
    q.push(30, "c");
    q.push(10, "a");
    q.push(20, "b");
    assert_eq!(q.len(), 3);
    assert_eq!(q.pop_due(100), Some((10, "a")));
    assert_eq!(q.pop_due(100), Some((20, "b")));
    assert_eq!(q.pop_due(100), Some((30, "c")));
    assert_eq!(q.pop_due(100), None);
}

#[test]
fn event_queue_keeps_arrival_order_for_equal_times() {
    let mut q = EventQueue::new();
    q.push(5, 1);
    q.push(5, 2);
    q.push(3, 0);
    q.push(5, 3);
    let mut out = vec![];
    while let Some((_, e)) = q.pop_due(5) {
        out.push(e);
    }
    assert_eq!(out, vec![0, 1, 2, 3]);
}

#[test]
fn event_queue_pop_due_waits_for_time() {
    let mut q = EventQueue::new();
    q.push(10, 'x');
    assert_eq!(q.pop_due(9), None);
    assert_eq!(q.len(), 1);
    assert_eq!(q.pop_due(10), Some((10, 'x')));
    assert_eq!(q.len(), 0);
}

#[test]
fn event_queue_empty_pop() {
    let mut q: EventQueue<u8> = EventQueue::new();
    assert_eq!(q.pop_due(u64::MAX), None);
}
