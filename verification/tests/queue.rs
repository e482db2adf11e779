use simulacra::{EventQueue, Time};

#[derive(Debug, Clone, PartialEq)]
struct TestEvent(u32);

#[test]
fn events_ordered_by_time() {
    let mut queue = EventQueue::new();

    queue.schedule(Time::from_millis(300), TestEvent(3));
    queue.schedule(Time::from_millis(100), TestEvent(1));
    queue.schedule(Time::from_millis(200), TestEvent(2));

    assert_eq!(queue.pop().unwrap().event, TestEvent(1));
    assert_eq!(queue.pop().unwrap().event, TestEvent(2));
    assert_eq!(queue.pop().unwrap().event, TestEvent(3));
    assert!(queue.pop().is_none());
}

#[test]
fn ties_broken_by_sequence() {
    let mut queue = EventQueue::new();

    let t = Time::from_millis(100);
    queue.schedule(t, TestEvent(1));
    queue.schedule(t, TestEvent(2));
    queue.schedule(t, TestEvent(3));

    // Should come out in insertion order
    assert_eq!(queue.pop().unwrap().event, TestEvent(1));
    assert_eq!(queue.pop().unwrap().event, TestEvent(2));
    assert_eq!(queue.pop().unwrap().event, TestEvent(3));
}

#[test]
fn sequence_numbers_are_monotonic() {
    let mut queue = EventQueue::new();

    let s1 = queue.schedule(Time::zero(), TestEvent(1));
    let s2 = queue.schedule(Time::zero(), TestEvent(2));
    let s3 = queue.schedule(Time::zero(), TestEvent(3));

    assert_eq!(s1, 0);
    assert_eq!(s2, 1);
    assert_eq!(s3, 2);
    assert_eq!(queue.total_scheduled(), 3);
}

#[test]
fn peek_does_not_remove() {
    let mut queue = EventQueue::new();
    queue.schedule(Time::from_millis(100), TestEvent(1));

    assert_eq!(queue.peek().unwrap().event, TestEvent(1));
    assert_eq!(queue.len(), 1);
    assert_eq!(queue.pop().unwrap().event, TestEvent(1));
    assert!(queue.is_empty());
}

#[test]
fn complex_ordering() {
    let mut queue = EventQueue::new();

    // Schedule in arbitrary order
    queue.schedule(Time::from_millis(50), TestEvent(2));
    queue.schedule(Time::from_millis(100), TestEvent(4));
    queue.schedule(Time::from_millis(50), TestEvent(3));
    queue.schedule(Time::from_millis(25), TestEvent(1));
    queue.schedule(Time::from_millis(100), TestEvent(5));

    // Should come out: 25ms(1), 50ms(2), 50ms(3), 100ms(4), 100ms(5)
    let events: Vec<_> = std::iter::from_fn(|| queue.pop())
        .map(|s| s.event.0)
        .collect();
    assert_eq!(events, vec![1, 2, 3, 4, 5]);
}
