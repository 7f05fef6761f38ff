use chat_relay::hub::Delivery;
use chat_relay::listener::Side;
use chat_relay::payload::MessagePayload;
use chat_relay::relay::Relay;
use chat_relay::session::{
    inbound_step, outbound_step, Frame, InboundEvent, OutboundAction, OutboundEvent,
};

fn payload(sender: &str, content: &str) -> MessagePayload {
    MessagePayload { sender: sender.to_string(), content: content.to_string() }
}

/// A client's text frame arriving at the relay.
fn send(relay: &mut Relay, p: &MessagePayload) {
    let action = inbound_step(InboundEvent::Frame(Frame::Text(p.serialize())));
    assert!(relay.apply_inbound(action));
}

/// The payload that the relay writes next to session `id`, if any.
fn written(relay: &mut Relay, id: u64) -> Option<MessagePayload> {
    match outbound_step(OutboundEvent::Hub(relay.take(id))) {
        OutboundAction::Send(f) => MessagePayload::deserialize(&f),
        _ => None,
    }
}

#[test]
fn earlier_client_receives_and_later_client_does_not() {
    let mut relay = Relay::new(16);
    let b = relay.accept().unwrap();
    let a = relay.accept().unwrap();
    send(&mut relay, &payload("A", "hello"));
    let c = relay.accept().unwrap();
    assert_eq!(written(&mut relay, b), Some(payload("A", "hello")));
    assert_eq!(written(&mut relay, c), None);
    send(&mut relay, &payload("A", "second"));
    send(&mut relay, &payload("B", "third"));
    assert_eq!(written(&mut relay, c), Some(payload("A", "second")));
    assert_eq!(written(&mut relay, c), Some(payload("B", "third")));
    assert_eq!(written(&mut relay, a), Some(payload("A", "hello")));
}

#[test]
fn clients_go_on_after_one_disconnects() {
    let mut relay = Relay::new(16);
    let a = relay.accept().unwrap();
    let b = relay.accept().unwrap();
    let c = relay.accept().unwrap();
    send(&mut relay, &payload("A", "one"));
    assert!(!relay.actor_exited(b, Side::Inbound));
    assert!(relay.actor_exited(b, Side::Outbound));
    assert_eq!(relay.session_count(), 2);
    assert_eq!(relay.subscriber_count(), 2);
    send(&mut relay, &payload("C", "two"));
    send(&mut relay, &payload("A", "three"));
    assert!(matches!(relay.take(b), Delivery::Unknown));
    for id in [a, c] {
        assert_eq!(written(&mut relay, id), Some(payload("A", "one")));
        assert_eq!(written(&mut relay, id), Some(payload("C", "two")));
        assert_eq!(written(&mut relay, id), Some(payload("A", "three")));
        assert_eq!(written(&mut relay, id), None);
    }
}

#[test]
fn writer_exit_first_ends_the_subscription_at_once() {
    let mut relay = Relay::new(4);
    let a = relay.accept().unwrap();
    assert!(!relay.actor_exited(a, Side::Outbound));
    assert_eq!(relay.subscriber_count(), 0);
    assert_eq!(relay.session_count(), 1);
    assert!(relay.actor_exited(a, Side::Inbound));
    assert_eq!(relay.session_count(), 0);
}
