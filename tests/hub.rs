use chat_relay::hub::{Delivery, Hub};
use chat_relay::payload::MessagePayload;

fn payload(sender: &str, content: &str) -> MessagePayload {
    MessagePayload { sender: sender.to_string(), content: content.to_string() }
}

fn take(hub: &mut Hub, id: u64) -> Option<MessagePayload> {
    match hub.recv(id) {
        Delivery::Message(m) => Some(m),
        _ => None,
    }
}

#[test]
fn publish_reaches_every_earlier_subscription() {
    let mut hub = Hub::new(8);
    let a = hub.subscribe().unwrap();
    let b = hub.subscribe().unwrap();
    assert_eq!(hub.publish(payload("x", "one")), 2);
    assert_eq!(hub.publish(payload("x", "two")), 2);
    for id in [a, b] {
        assert_eq!(take(&mut hub, id), Some(payload("x", "one")));
        assert_eq!(take(&mut hub, id), Some(payload("x", "two")));
        assert!(matches!(hub.recv(id), Delivery::Empty));
    }
}

#[test]
fn late_subscription_sees_only_later_payloads() {
    let mut hub = Hub::new(8);
    let b = hub.subscribe().unwrap();
    let a = hub.subscribe().unwrap();
    hub.publish(payload("A", "hello"));
    let c = hub.subscribe().unwrap();
    assert_eq!(take(&mut hub, b), Some(payload("A", "hello")));
    assert!(matches!(hub.recv(c), Delivery::Empty));
    hub.publish(payload("A", "again"));
    hub.publish(payload("B", "hi"));
    assert_eq!(take(&mut hub, c), Some(payload("A", "again")));
    assert_eq!(take(&mut hub, c), Some(payload("B", "hi")));
    assert_eq!(take(&mut hub, a), Some(payload("A", "hello")));
}

#[test]
fn blank_content_is_never_relayed() {
    let mut hub = Hub::new(4);
    let a = hub.subscribe().unwrap();
    assert_eq!(hub.publish(payload("x", "   ")), 0);
    assert_eq!(hub.publish(payload("x", "")), 0);
    assert_eq!(hub.publish(payload("x", "\t\r\n")), 0);
    assert!(matches!(hub.recv(a), Delivery::Empty));
}

#[test]
fn full_queue_drops_the_oldest_and_reports_the_lag() {
    let mut hub = Hub::new(2);
    let slow = hub.subscribe().unwrap();
    let fast = hub.subscribe().unwrap();
    hub.publish(payload("x", "1"));
    assert_eq!(take(&mut hub, fast), Some(payload("x", "1")));
    hub.publish(payload("x", "2"));
    hub.publish(payload("x", "3"));
    hub.publish(payload("x", "4"));
    assert!(matches!(hub.recv(slow), Delivery::Lagged(2)));
    assert_eq!(take(&mut hub, slow), Some(payload("x", "3")));
    assert_eq!(take(&mut hub, slow), Some(payload("x", "4")));
    assert!(matches!(hub.recv(slow), Delivery::Empty));
    assert!(matches!(hub.recv(fast), Delivery::Lagged(1)));
    assert_eq!(take(&mut hub, fast), Some(payload("x", "3")));
}

#[test]
fn ending_one_subscription_leaves_the_others_alone() {
    let mut hub = Hub::new(8);
    let a = hub.subscribe().unwrap();
    let b = hub.subscribe().unwrap();
    let c = hub.subscribe().unwrap();
    hub.publish(payload("A", "before"));
    assert!(hub.unsubscribe(b));
    assert!(!hub.unsubscribe(b));
    assert_eq!(hub.subscriber_count(), 2);
    assert_eq!(hub.publish(payload("C", "after")), 2);
    assert!(matches!(hub.recv(b), Delivery::Unknown));
    for id in [a, c] {
        assert_eq!(take(&mut hub, id), Some(payload("A", "before")));
        assert_eq!(take(&mut hub, id), Some(payload("C", "after")));
    }
}

#[test]
fn subscription_ids_are_fresh() {
    let mut hub = Hub::new(1);
    let a = hub.subscribe().unwrap();
    let b = hub.subscribe().unwrap();
    assert_ne!(a, b);
    hub.unsubscribe(a);
    let c = hub.subscribe().unwrap();
    assert_ne!(c, a);
    assert_ne!(c, b);
}
