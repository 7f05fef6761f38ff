use chat_relay::shutdown::ShutdownSignal;

#[test]
fn signal_without_observers_is_fine() {
    let mut s = ShutdownSignal::new();
    assert!(!s.is_stopping());
    assert!(s.signal());
    assert!(s.is_stopping());
}

#[test]
fn second_signal_is_a_no_op() {
    let mut s = ShutdownSignal::new();
    s.observe();
    s.observe();
    assert!(s.signal());
    assert!(!s.signal());
    assert!(s.is_stopping());
    assert_eq!(s.observer_count(), 2);
}

#[test]
fn late_observer_sees_the_transition() {
    let mut s = ShutdownSignal::new();
    assert!(!s.observe());
    s.signal();
    assert!(s.observe());
    s.release();
    s.release();
    s.release();
    assert_eq!(s.observer_count(), 0);
    assert!(s.is_stopping());
}
