use host_socket::events::{Events, ALWAYS_POLL, ERR, HUP, IN, OUT};
use host_socket::readiness::Pollee;

#[test]
fn poll_sees_only_asked_and_always_polled_events() {
    let mut p = Pollee::new(Events::from_bits(IN | ERR));
    assert_eq!(p.poll_by(Events::from_bits(OUT), None).bits(), ERR);
    assert_eq!(p.poll_by(Events::from_bits(IN), None).bits(), IN | ERR);
    assert_eq!(ALWAYS_POLL, ERR | HUP);
}

#[test]
fn add_wakes_intersecting_waiters_once() {
    let mut p = Pollee::new(Events::empty());
    assert!(p.poll_by(Events::from_bits(IN), Some(1)).is_empty());
    assert!(p.poll_by(Events::from_bits(OUT), Some(2)).is_empty());
    assert!(p.poll_by(Events::from_bits(IN), Some(1)).is_empty());
    let woken = p.add(Events::from_bits(IN));
    assert_eq!(woken, vec![1u64]);
    let again = p.add(Events::from_bits(IN));
    assert!(again.is_empty());
    let woken2 = p.add(Events::from_bits(OUT));
    assert_eq!(woken2, vec![2u64]);
}

#[test]
fn error_wakes_every_waiter() {
    let mut p = Pollee::new(Events::empty());
    p.poll_by(Events::from_bits(IN), Some(7));
    p.poll_by(Events::from_bits(OUT), Some(8));
    assert_eq!(p.add(Events::from_bits(ERR)), vec![7u64, 8u64]);
}

#[test]
fn poll_with_events_does_not_register() {
    let mut p = Pollee::new(Events::from_bits(OUT));
    assert_eq!(p.poll_by(Events::from_bits(OUT), Some(3)).bits(), OUT);
    assert!(p.add(Events::from_bits(OUT)).is_empty());
}

#[test]
fn level_triggered_until_removed() {
    let mut p = Pollee::new(Events::empty());
    p.add(Events::from_bits(IN));
    assert_eq!(p.poll_by(Events::from_bits(IN), None).bits(), IN);
    assert_eq!(p.poll_by(Events::from_bits(IN), None).bits(), IN);
    p.remove(Events::from_bits(IN));
    assert!(p.poll_by(Events::from_bits(IN), None).is_empty());
    p.add(Events::from_bits(IN | OUT));
    p.reset();
    assert_eq!(p.events().bits(), 0);
}

#[test]
fn unregistered_poller_is_not_woken() {
    let mut p = Pollee::new(Events::empty());
    p.poll_by(Events::from_bits(IN), Some(5));
    p.unregister(5);
    assert!(p.add(Events::from_bits(IN)).is_empty());
}

#[test]
fn events_set_operations() {
    let a = Events::from_bits(IN | OUT);
    let b = Events::from_bits(OUT | ERR);
    assert_eq!(a.union(b).bits(), IN | OUT | ERR);
    assert_eq!(a.intersection(b).bits(), OUT);
    assert_eq!(a.difference(b).bits(), IN);
    assert!(a.contains(Events::from_bits(IN)));
    assert!(!a.contains(b));
    assert!(a.intersects(b));
}
