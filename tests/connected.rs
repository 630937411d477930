use host_socket::common::{Common, SockAddr};
use host_socket::connected::{ConnectedStream, Shutdown};
use host_socket::errno::{Errno, EAGAIN, ECONNREFUSED, EIO, EPIPE};
use host_socket::events::{Events, ERR, IN, OUT};

fn peer() -> SockAddr {
    SockAddr { ip: 0x7f00_0001, port: 4000 }
}

fn small(send: usize, recv: usize) -> ConnectedStream {
    ConnectedStream::with_capacity(Common::with_fd(7), peer(), send, recv)
}

#[test]
fn write_starts_one_send_over_the_buffer() {
    let mut c = small(8, 8);
    let (r, req) = c.try_write(b"hey");
    assert_eq!(r, Ok(3));
    let req = req.expect("a send starts");
    assert_eq!(req.fd, 7);
    assert_eq!(req.iovlen, 1);
    assert_eq!(req.iov0.len, 3);
    let (r2, req2) = c.try_write(b"you");
    assert_eq!(r2, Ok(3));
    assert!(req2.is_none());
    let mut wire = [0u8; 8];
    assert_eq!(c.host_read_send_buf(&mut wire), 6);
    assert_eq!(&wire[..6], b"heyyou");
    let next = c.complete_send(3).expect("the rest is sent next");
    assert_eq!(next.iov0.start, 3);
    assert_eq!(next.iov0.len, 3);
    assert!(c.complete_send(3).is_none());
    assert_eq!(c.common().pollee().events().bits() & OUT, OUT);
}

#[test]
fn backpressure_blocks_until_the_peer_drains() {
    let mut c = small(65536, 16);
    let big = vec![7u8; 65536];
    let (r, req) = c.try_write(&big);
    assert_eq!(r, Ok(65536));
    assert_eq!(req.expect("send").iov0.len, 65536);
    let (r2, req2) = c.try_write(b"x");
    assert_eq!(r2, Err(Errno::new(EAGAIN)));
    assert!(req2.is_none());
    assert!(c.poll_by(Events::from_bits(OUT), Some(1)).is_empty());
    c.complete_send(16384);
    assert_eq!(c.poll_by(Events::from_bits(OUT), None).bits(), OUT);
    let (r3, _) = c.try_write(&big);
    assert_eq!(r3, Ok(16384));
}

#[test]
fn write_after_shutdown_is_a_broken_pipe() {
    let mut c = small(8, 8);
    c.shutdown(Shutdown::Write);
    assert_eq!(c.try_write(b"a").0, Err(Errno::new(EPIPE)));
}

#[test]
fn send_error_is_final() {
    let mut c = small(8, 8);
    c.try_write(b"abc");
    assert!(c.complete_send(-(ECONNREFUSED as i32)).is_none());
    assert_eq!(c.common().fatal(), Some(Errno::new(ECONNREFUSED)));
    assert_eq!(c.common().pollee().events().bits() & ERR, ERR);
    assert_eq!(c.try_write(b"d").0, Err(Errno::new(ECONNREFUSED)));
    assert_eq!(c.try_write(b"e").0, Err(Errno::new(ECONNREFUSED)));
    let mut buf = [0u8; 4];
    assert_eq!(c.try_read(&mut buf).0, Err(Errno::new(ECONNREFUSED)));
    assert_eq!(c.try_read(&mut buf).0, Err(Errno::new(ECONNREFUSED)));
}

#[test]
fn zero_byte_send_completion_is_rejected() {
    let mut c = small(8, 8);
    c.try_write(b"abc");
    assert!(c.complete_send(0).is_none());
    assert_eq!(c.common().fatal(), Some(Errno::new(EIO)));
}

#[test]
fn oversized_completion_is_rejected() {
    let mut c = small(8, 8);
    c.try_write(b"abc");
    assert!(c.complete_send(4).is_none());
    assert_eq!(c.common().fatal(), Some(Errno::new(EIO)));
}

#[test]
fn stale_completions_change_nothing() {
    let mut c = small(8, 8);
    assert!(c.complete_send(3).is_none());
    assert!(c.complete_recv(3).is_none());
    assert_eq!(c.common().fatal(), None);
}

#[test]
fn read_then_end_of_stream() {
    let mut c = small(8, 8);
    let mut buf = [0u8; 8];
    let (r, req) = c.try_read(&mut buf);
    assert_eq!(r, Err(Errno::new(EAGAIN)));
    assert_eq!(req.expect("a receive starts").iov0.len, 8);
    assert_eq!(c.host_write_recv_buf(b"abc"), 3);
    let next = c.complete_recv(3).expect("room for more");
    assert_eq!(next.iov0.start, 3);
    assert_eq!(next.iov0.len, 5);
    assert!(c.complete_recv(0).is_none());
    assert_eq!(c.poll_by(Events::from_bits(IN), None).bits(), IN);
    let (r1, _) = c.try_read(&mut buf);
    assert_eq!(r1, Ok(3));
    assert_eq!(&buf[..3], b"abc");
    assert_eq!(c.try_read(&mut buf).0, Ok(0));
    assert_eq!(c.try_read(&mut buf).0, Ok(0));
}

#[test]
fn empty_try_read_follows_the_steps() {
    let mut c = small(8, 8);
    let mut empty: [u8; 0] = [];
    let (r, req) = c.try_read(&mut empty);
    assert_eq!(r, Err(Errno::new(EAGAIN)));
    assert!(req.is_some());
}

#[test]
fn empty_try_read_on_broken_socket_gives_the_error() {
    let mut c = small(8, 8);
    let mut buf = [0u8; 2];
    c.try_read(&mut buf);
    c.complete_recv(-(ECONNREFUSED as i32));
    let mut empty: [u8; 0] = [];
    assert_eq!(c.try_read(&mut empty), (Err(Errno::new(ECONNREFUSED)), None));
}

#[test]
fn read_after_read_shutdown_with_nothing_buffered() {
    let mut c = small(8, 8);
    c.shutdown(Shutdown::Read);
    let mut buf = [0u8; 2];
    assert_eq!(c.try_read(&mut buf).0, Err(Errno::new(EPIPE)));
}

#[test]
fn one_receive_in_flight() {
    let mut c = small(8, 8);
    let mut buf = [0u8; 2];
    assert!(c.try_read(&mut buf).1.is_some());
    assert!(c.try_read(&mut buf).1.is_none());
    assert!(c.try_read(&mut buf).1.is_none());
}

#[test]
fn accepted_stream_starts_readable() {
    let c = ConnectedStream::with_fd_and_peer(11, peer());
    assert_eq!(c.fd(), 11);
    assert_eq!(c.peer_addr(), peer());
    assert_eq!(c.common().pollee().events().bits(), IN);
}

#[test]
fn gather_write_stops_at_first_empty_buffer() {
    let mut c = small(8, 8);
    let bufs: [&[u8]; 3] = [b"ab", b"", b"cd"];
    let (r, req) = c.try_writev(&bufs);
    assert_eq!(r, Ok(2));
    assert!(req.is_some());
    let more: [&[u8]; 2] = [b"12345", b"6789"];
    assert_eq!(c.try_writev(&more).0, Ok(6));
    let mut wire = [0u8; 8];
    assert_eq!(c.host_read_send_buf(&mut wire), 8);
    assert_eq!(&wire, b"ab123456");
    assert_eq!(c.try_writev(&more).0, Err(Errno::new(EAGAIN)));
    let none: [&[u8]; 0] = [];
    let next = c.complete_send(2).expect("the rest is sent next");
    assert_eq!(next.iov0.len, 6);
    assert_eq!(c.try_writev(&none), (Err(Errno::new(EAGAIN)), None));
}
