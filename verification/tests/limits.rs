use deezns::limits::{
    while_waiting, AcceptStep, Slots, WaitStep, ACCEPT_RETRY_MS, CLIENT_TIMEOUT_MS,
    MAX_CONNECTIONS, NSCD_TIMEOUT_MS,
};

#[test]
fn listeners_have_room_for_512_connections() {
    assert_eq!(MAX_CONNECTIONS, 512);
    let mut slots = Slots::new();
    for _ in 0..512 {
        assert!(slots.has_room());
        assert_eq!(slots.after_accept(true), AcceptStep::Serve);
    }
    assert!(!slots.has_room());
    slots.finish();
    assert!(slots.has_room());
    assert_eq!(slots.after_accept(true), AcceptStep::Serve);
    assert!(!slots.has_room());
}

#[test]
fn a_failed_accept_is_tried_again() {
    assert_eq!(ACCEPT_RETRY_MS, 100);
    let mut slots = Slots::new();
    for _ in 0..2000 {
        assert_eq!(slots.after_accept(false), AcceptStep::RetryAfter(100));
    }
    assert!(slots.has_room());
    assert_eq!(slots.after_accept(true), AcceptStep::Serve);
}

#[test]
fn peers_have_five_seconds() {
    assert_eq!(CLIENT_TIMEOUT_MS, 5000);
    assert_eq!(NSCD_TIMEOUT_MS, 5000);
    assert_eq!(while_waiting(CLIENT_TIMEOUT_MS, 0), WaitStep::WaitFor(5000));
    assert_eq!(while_waiting(CLIENT_TIMEOUT_MS, 4999), WaitStep::WaitFor(1));
    assert_eq!(while_waiting(CLIENT_TIMEOUT_MS, 5000), WaitStep::GiveUp);
    assert_eq!(while_waiting(0, 0), WaitStep::GiveUp);
}
