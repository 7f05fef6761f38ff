use chat_relay::listener::{SessionRegistry, Side};

#[test]
fn session_ends_after_both_actors_in_either_order() {
    let mut r = SessionRegistry::new();
    assert!(r.open(1));
    assert!(r.open(2));
    assert!(!r.open(1));
    assert!(!r.actor_exited(1, Side::Inbound));
    assert!(r.is_live(1));
    assert!(r.actor_exited(1, Side::Outbound));
    assert!(!r.is_live(1));
    assert!(!r.actor_exited(2, Side::Outbound));
    assert!(r.actor_exited(2, Side::Inbound));
    assert_eq!(r.live_count(), 0);
    assert!(!r.actor_exited(3, Side::Inbound));
}
