use comrade::bus::EventBus;
use comrade::events::{Event, EventKind};

fn ev(n: u64) -> Event {
    Event { created: n, kind: EventKind::DisplayText(n.to_string()) }
}

#[test]
fn queue_keeps_arrival_order() {
    let mut bus = EventBus::new(10);
    bus.push(ev(1)).unwrap();
    bus.push(ev(2)).unwrap();
    bus.push(ev(3)).unwrap();
    assert_eq!(bus.pop().unwrap().created, 1);
    assert_eq!(bus.pop().unwrap().created, 2);
    assert_eq!(bus.pop().unwrap().created, 3);
    assert!(bus.pop().is_none());
}

#[test]
fn full_queue_drops_new_events() {
    let mut bus = EventBus::new(2);
    bus.push(ev(1)).unwrap();
    bus.push(ev(2)).unwrap();
    assert!(matches!(bus.push(ev(3)), Err(comrade::errors::DriverError::EventBusFull)));
    assert_eq!(bus.len(), 2);
    assert_eq!(bus.pop().unwrap().created, 1);
    bus.push(ev(4)).unwrap();
    assert_eq!(bus.pop().unwrap().created, 2);
    assert_eq!(bus.pop().unwrap().created, 4);
}
