use sendme::Dialer;

#[test]
fn queue_dial_twice_keeps_one_pending_entry() {
    let mut dialer = Dialer::new();
    assert!(dialer.queue_dial(7));
    // the second request before the first resolves is a no-op
    assert!(!dialer.queue_dial(7));
    assert!(dialer.is_pending(7));

    // exactly one completion surfaces for the peer
    let was_pending = dialer.resolve_attempt(7);
    assert!(was_pending);
    assert!(!dialer.is_pending(7));
    assert!(!dialer.has_pending());
}

#[test]
fn abort_dial_on_non_pending_peer_is_a_no_op() {
    let mut dialer = Dialer::new();
    assert!(!dialer.abort_dial(9));
    assert!(!dialer.is_pending(9));

    dialer.queue_dial(1);
    assert!(!dialer.abort_dial(9));
    assert!(dialer.is_pending(1));
    assert!(!dialer.is_pending(9));
}

#[test]
fn abort_dial_removes_pending_entry_immediately() {
    let mut dialer = Dialer::new();
    dialer.queue_dial(5);
    assert!(dialer.abort_dial(5));
    assert!(!dialer.is_pending(5));
    // the attempt itself still resolves later and is reported as
    // no longer pending, so the embedding discards it
    assert!(!dialer.resolve_attempt(5));
}

#[test]
fn empty_dialer_has_nothing_to_wait_for() {
    let dialer = Dialer::new();
    // the embedding suspends forever on `next` exactly when this is
    // false, so an empty dialer never produces a completion
    assert!(!dialer.has_pending());
    assert!(!dialer.is_pending(0));
}

#[test]
fn redial_after_abort_tracks_both_attempts() {
    let mut dialer = Dialer::new();
    assert!(dialer.queue_dial(3));
    dialer.abort_dial(3);
    // re-dialing the same peer before the stale attempt resolves
    // starts a fresh attempt
    assert!(dialer.queue_dial(3));
    assert!(dialer.is_pending(3));

    // two attempts are in flight; whichever resolves first clears the
    // pending entry, and the other resolution is reported stale
    assert!(dialer.resolve_attempt(3));
    assert!(!dialer.is_pending(3));
    assert!(!dialer.resolve_attempt(3));
}

#[test]
fn completions_supported_in_any_order() {
    let mut dialer = Dialer::new();
    dialer.queue_dial(1);
    dialer.queue_dial(2);
    dialer.queue_dial(3);
    assert!(dialer.has_pending());

    // completion order is whatever the network gives, not request order
    assert!(dialer.resolve_attempt(2));
    assert!(dialer.resolve_attempt(3));
    assert!(dialer.resolve_attempt(1));
    assert!(!dialer.has_pending());
}
