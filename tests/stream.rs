use host_socket::common::SockAddr;
use host_socket::connected::Shutdown;
use host_socket::errno::{Errno, EAGAIN, ECONNREFUSED, EINVAL};
use host_socket::events::{Events, OUT};
use host_socket::stream::{Phase, Stream};

fn localhost(port: u16) -> SockAddr {
    SockAddr { ip: 0x7f00_0001, port }
}

fn einval<T>() -> Result<T, Errno> {
    Err(Errno::new(EINVAL))
}

/// Moves the bytes of `from`'s outstanding send into `to`'s outstanding
/// receive, as the host would, completing both.
fn transfer(from: &mut Stream, to: &mut Stream, n: usize) {
    let mut wire = vec![0u8; n];
    let got = from.connected().expect("connected").host_read_send_buf(&mut wire);
    assert_eq!(got, n);
    from.complete_send(n as i32);
    assert_eq!(to.host_write_recv_buf(&wire), Ok(n));
    to.complete_recv(n as i32);
}

#[test]
fn init_allows_only_bind_listen_connect() {
    let mut s = Stream::new(3);
    assert_eq!(s.current_phase(), Phase::Init);
    let mut buf = [0u8; 4];
    assert_eq!(s.read(&mut buf).0, einval());
    assert_eq!(s.write(b"x").0, einval());
    assert_eq!(s.shutdown(Shutdown::Both), einval());
    assert!(s.accept().0.is_err());
    assert_eq!(s.peer_addr(), einval());
    assert_eq!(s.ioctl(0x541b), einval());
    assert_eq!(s.addr(), None);
    assert_eq!(s.listen(8), einval());
    assert_eq!(s.current_phase(), Phase::Init);
    assert_eq!(s.bind(localhost(80)), Ok(()));
    assert_eq!(s.addr(), Some(localhost(80)));
    assert_eq!(s.current_phase(), Phase::Init);
}

#[test]
fn connecting_and_listening_reject_other_moves() {
    let mut c = Stream::new(3);
    let req = c.connect(localhost(9)).expect("connect starts");
    assert_eq!(req.fd, 3);
    assert_eq!(req.peer, localhost(9));
    assert_eq!(c.current_phase(), Phase::Connecting);
    assert!(c.connect(localhost(9)).is_err());
    assert_eq!(c.bind(localhost(1)), einval());
    assert_eq!(c.listen(1), einval());
    assert_eq!(c.current_phase(), Phase::Connecting);

    let mut l = Stream::new(4);
    l.bind(localhost(10)).unwrap();
    assert_eq!(l.listen(2), Ok(()));
    assert_eq!(l.current_phase(), Phase::Listen);
    assert!(l.connect(localhost(9)).is_err());
    assert_eq!(l.bind(localhost(1)), einval());
    assert_eq!(l.write(b"x").0, einval());
    assert_eq!(l.addr(), Some(localhost(10)));
}

#[test]
fn echo_round_trip() {
    let mut server = Stream::new(3);
    server.bind(localhost(0)).unwrap();
    server.listen(8).unwrap();
    let (r, reqs) = server.accept();
    assert_eq!(r.err(), Some(Errno::new(EAGAIN)));
    assert_eq!(reqs.len(), 8);

    let mut client = Stream::new(4);
    client.connect(localhost(0)).unwrap();
    server.complete_accept(reqs[0].slot, 5, localhost(5555));
    assert_eq!(client.complete_connect(0), Some(Ok(())));
    assert_eq!(client.current_phase(), Phase::Connected);
    assert_eq!(client.peer_addr(), Ok(localhost(0)));

    let (acc, more) = server.accept();
    let mut conn = acc.expect("accepted");
    assert_eq!(more.len(), 1);
    assert_eq!(conn.peer_addr(), Ok(localhost(5555)));

    let mut buf = [0u8; 16];
    assert_eq!(conn.read(&mut buf).0, Err(Errno::new(EAGAIN)));
    assert_eq!(client.write(b"HELLO").0, Ok(5));
    transfer(&mut client, &mut conn, 5);
    assert_eq!(conn.read(&mut buf).0, Ok(5));
    assert_eq!(&buf[..5], b"HELLO");

    assert_eq!(client.read(&mut buf).0, Err(Errno::new(EAGAIN)));
    assert_eq!(conn.write(&buf[..5]).0, Ok(5));
    transfer(&mut conn, &mut client, 5);
    let mut back = [0u8; 16];
    assert_eq!(client.read(&mut back).0, Ok(5));
    assert_eq!(&back[..5], b"HELLO");

    assert_eq!(client.shutdown(Shutdown::Write), Ok(()));
    assert_eq!(conn.shutdown(Shutdown::Write), Ok(()));
    assert_eq!(client.read(&mut back).0, Err(Errno::new(EAGAIN)));
    conn.complete_recv(0);
    client.complete_recv(0);
    assert_eq!(conn.read(&mut buf).0, Ok(0));
    assert_eq!(client.read(&mut back).0, Ok(0));
}

#[test]
fn refused_connect_rolls_back_to_init() {
    let mut c = Stream::new(6);
    c.bind(localhost(7000)).unwrap();
    c.connect(localhost(1)).unwrap();
    assert_eq!(c.complete_connect(-(ECONNREFUSED as i32)), Some(Err(Errno::new(ECONNREFUSED))));
    assert_eq!(c.current_phase(), Phase::Init);
    assert_eq!(c.addr(), Some(localhost(7000)));
    assert_eq!(c.complete_connect(0), None);
    assert_eq!(c.bind(localhost(7001)), Ok(()));
    let req = c.connect(localhost(8080)).expect("second connect starts");
    assert_eq!(req.peer, localhost(8080));
    assert!(c.poll_by(Events::from_bits(OUT), None).is_empty());
    assert_eq!(c.complete_connect(0), Some(Ok(())));
    assert_eq!(c.current_phase(), Phase::Connected);
    assert_eq!(c.poll_by(Events::from_bits(OUT), None).bits(), OUT);
    assert_eq!(c.addr(), Some(localhost(7001)));
}

#[test]
fn positive_connect_result_is_rejected() {
    let mut c = Stream::new(6);
    c.connect(localhost(1)).unwrap();
    assert_eq!(c.complete_connect(3), Some(Err(Errno::new(host_socket::errno::EIO))));
    assert_eq!(c.current_phase(), Phase::Init);
}

#[test]
fn listener_stays_saturated_and_delivers_all() {
    let mut server = Stream::new(3);
    server.bind(localhost(0)).unwrap();
    server.listen(4).unwrap();
    let (r, reqs) = server.accept();
    assert!(r.is_err());
    let mut pending: Vec<usize> = reqs.iter().map(|q| q.slot).collect();
    assert_eq!(pending.len(), 4);
    let mut accepted = 0;
    let mut next_fd = 100;
    while accepted < 10 {
        let slot = pending.remove(0);
        server.complete_accept(slot, next_fd, localhost(next_fd as u16));
        next_fd += 1;
        let (r, more) = server.accept();
        let conn = r.expect("a completed accept");
        assert_eq!(conn.current_phase(), Phase::Connected);
        accepted += 1;
        pending.extend(more.iter().map(|q| q.slot));
        assert!(pending.len() <= 4);
    }
    assert_eq!(accepted, 10);
    assert_eq!(server.accept().0.err(), Some(Errno::new(EAGAIN)));
}

#[test]
fn listen_on_unbound_socket_is_invalid() {
    let mut s = Stream::new(9);
    assert_eq!(s.listen(4), einval());
    assert_eq!(s.current_phase(), Phase::Init);
}

#[test]
fn empty_read_on_connected_stream_returns_zero_at_once() {
    let mut c = Stream::new(6);
    c.connect(localhost(1)).unwrap();
    c.complete_connect(0);
    let mut empty: [u8; 0] = [];
    assert_eq!(c.read(&mut empty), (Ok(0), None));
    assert_eq!(c.read(&mut empty), (Ok(0), None));
}

#[test]
fn gather_write_on_stream() {
    let mut c = Stream::new(6);
    let bufs: [&[u8]; 2] = [b"ab", b"cd"];
    assert_eq!(c.writev(&bufs).0, einval());
    c.connect(localhost(1)).unwrap();
    c.complete_connect(0);
    let (r, req) = c.writev(&bufs);
    assert_eq!(r, Ok(4));
    assert_eq!(req.expect("a send starts").iov0.len, 4);
}
