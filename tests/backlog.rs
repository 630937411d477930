use host_socket::backlog::{Backlog, Entry};
use host_socket::common::SockAddr;

fn peer(port: u16) -> SockAddr {
    SockAddr { ip: 0x7f00_0001, port }
}

#[test]
fn slots_fill_lowest_first_and_complete_in_order() {
    let mut b = Backlog::with_capacity(3);
    assert!(b.has_free_entries());
    assert!(!b.has_completed_reqs());
    let r0 = b.start_new_req(9);
    let r1 = b.start_new_req(9);
    let r2 = b.start_new_req(9);
    assert_eq!((r0.slot, r1.slot, r2.slot), (0, 1, 2));
    assert_eq!(r0.fd, 9);
    assert!(!b.has_free_entries());
    assert!(b.complete_req(2, 20, peer(2)));
    assert!(b.complete_req(0, 10, peer(0)));
    assert!(b.has_completed_reqs());
    assert_eq!(b.pop_completed_req(), Some((20, peer(2))));
    assert_eq!(b.pop_completed_req(), Some((10, peer(0))));
    assert_eq!(b.pop_completed_req(), None);
    assert!(b.has_free_entries());
    assert_eq!(b.start_new_req(9).slot, 0);
}

#[test]
fn failed_accept_frees_its_slot() {
    let mut b = Backlog::with_capacity(1);
    let r = b.start_new_req(4);
    assert!(!b.has_free_entries());
    assert!(b.complete_req(r.slot, -103, peer(1)));
    assert!(b.has_free_entries());
    assert!(!b.has_completed_reqs());
}

#[test]
fn stale_completion_is_ignored() {
    let mut b = Backlog::with_capacity(2);
    assert!(!b.complete_req(0, 5, peer(1)));
    assert!(!b.complete_req(7, 5, peer(1)));
    let r = b.start_new_req(4);
    assert!(b.complete_req(r.slot, 5, peer(1)));
    assert!(!b.complete_req(r.slot, 6, peer(1)));
    assert_eq!(b.pop_completed_req(), Some((5, peer(1))));
    assert_eq!(Entry::Completed { fd: 1 }, Entry::Completed { fd: 1 });
}
