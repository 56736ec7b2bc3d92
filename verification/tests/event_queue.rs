use wasmlib::event_queue::{Drain, EventQueue, SharedEventQueue};

#[derive(Debug, PartialEq)]
enum MyEventType {
    SomeEvent,
    AnotherEvent,
}

#[test]
fn drain_events() {
    let mut e: EventQueue<MyEventType> = EventQueue::new();
    e.push(MyEventType::AnotherEvent);
    e.push(MyEventType::SomeEvent);
    let drained = e.get_mut().drain();
    assert_eq!(
        &drained[..],
        &[MyEventType::AnotherEvent, MyEventType::SomeEvent]
    );
    assert!(e.is_empty());
}

#[test]
fn shared_drain_events() {
    let mut e: SharedEventQueue<MyEventType> = SharedEventQueue::new();
    e.push(MyEventType::AnotherEvent);
    e.push(MyEventType::SomeEvent);
    let drained = e.get_mut().drain();
    assert_eq!(
        &drained[..],
        &[MyEventType::AnotherEvent, MyEventType::SomeEvent]
    );
    assert!(e.is_empty());
}

#[test]
fn queue_len_counts_pending_events() {
    let mut e: EventQueue<u32> = EventQueue::new();
    assert!(e.is_empty());
    assert_eq!(e.len(), 0);
    e.push(7);
    e.push(8);
    assert_eq!(e.len(), 2);
    let drained = e.get_mut().drain();
    assert_eq!(drained, vec![7, 8]);
    assert_eq!(e.len(), 0);
}

#[test]
fn drain_then_push_starts_fresh() {
    let mut e: SharedEventQueue<u32> = SharedEventQueue::new();
    e.push(1);
    let first = e.get_mut().drain();
    assert_eq!(first, vec![1]);
    e.push(2);
    let second = e.get_mut().drain();
    assert_eq!(second, vec![2]);
}
