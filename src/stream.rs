use vstd::prelude::*;
use crate::backlog::AcceptReq;
use crate::common::{Common, SockAddr};
use crate::connected::{RECV_BUF_CAPACITY, SEND_BUF_CAPACITY, ConnectedStream, MsgReq, Shutdown, read_post, recv_done_post, send_done_post, write_post, gathered, buf_views};
use crate::connecting::{ConnectReq, ConnectingStream, InitStream};
use crate::errno::{Errno, err_of, EINVAL};
use crate::events::Events;
use crate::listener::{ListenerStream, accept_done_post, accept_post, backlog_capacity};
use crate::readiness::{observed, poll_post};

verus! {

/// The state of a stream socket, with the object that serves it.
pub enum State {
    /// Not connected nor listening; possibly bound.
    Init(InitStream),
    /// One connect in flight.
    Connecting(ConnectingStream),
    /// Connected to a peer.
    Connected(ConnectedStream),
    /// Listening for connections.
    Listen(ListenerStream),
}

/// The name of a state.
#[derive(Clone, Copy, Debug, PartialEq, Eq, Structural)]
pub enum Phase {
    Init,
    Connecting,
    Connected,
    Listen,
}

pub open spec fn phase_of(s: State) -> Phase {
    match s {
        State::Init(_) => Phase::Init,
        State::Connecting(_) => Phase::Connecting,
        State::Connected(_) => Phase::Connected,
        State::Listen(_) => Phase::Listen,
    }
}

/// The legal moves between states: staying put, `Init` to `Listen` or to
/// `Connecting`, and `Connecting` to `Connected` or back to `Init`.
pub open spec fn legal_step(from: Phase, to: Phase) -> bool {
    ||| from == to
    ||| from == Phase::Init && to == Phase::Listen
    ||| from == Phase::Init && to == Phase::Connecting
    ||| from == Phase::Connecting && to == Phase::Connected
    ||| from == Phase::Connecting && to == Phase::Init
}

pub open spec fn state_wf(s: State) -> bool {
    match s {
        State::Init(i) => i.wf(),
        State::Connecting(c) => c.wf(),
        State::Connected(c) => c.wf(),
        State::Listen(l) => l.wf(),
    }
}

/// The socket block of whichever state `s` is.
pub open spec fn common_of(s: State) -> Common {
    match s {
        State::Init(i) => i.spec_common(),
        State::Connecting(c) => c.spec_common(),
        State::Connected(c) => c.spec_common(),
        State::Listen(l) => l.spec_common(),
    }
}

/// A TCP stream socket: a state machine over `Init`, `Connecting`,
/// `Connected` and `Listen`.
pub struct Stream {
    state: Option<State>,
}

impl Stream {
    pub closed spec fn spec_state(&self) -> State {
        self.state->0
    }

    pub open spec fn phase(&self) -> Phase {
        phase_of(self.spec_state())
    }

    pub closed spec fn wf(&self) -> bool {
        &&& self.state is Some
        &&& state_wf(self.state->0)
    }

    /// A new, unbound socket on the host descriptor `fd`.
    pub fn new(fd: u32) -> (r: Stream)
        ensures
            r.wf(),
            r.phase() == Phase::Init,
            common_of(r.spec_state()).spec_fd() == fd,
            common_of(r.spec_state()).spec_addr() is None,
            common_of(r.spec_state()).spec_fatal() is None,
    {
        Stream { state: Some(State::Init(InitStream::new(fd))) }
    }

    /// A stream in the connected state `c`, as `accept` hands out.
    pub fn new_connected(c: ConnectedStream) -> (r: Stream)
        requires
            c.wf(),
        ensures
            r.wf(),
            r.spec_state() == State::Connected(c),
    {
        Stream { state: Some(State::Connected(c)) }
    }

    /// The name of the current state.
    pub fn current_phase(&self) -> (r: Phase)
        requires
            self.wf(),
        ensures
            r == self.phase(),
    {
        match &self.state {
            Some(State::Init(_)) => Phase::Init,
            Some(State::Connecting(_)) => Phase::Connecting,
            Some(State::Connected(_)) => Phase::Connected,
            Some(State::Listen(_)) => Phase::Listen,
            None => Phase::Init,
        }
    }

    /// Binds the socket to `addr`; only in `Init`, else `EINVAL`.
    pub fn bind(&mut self, addr: SockAddr) -> (r: Result<(), Errno>)
        requires
            old(self).wf(),
        ensures
            final(self).wf(),
            legal_step(old(self).phase(), final(self).phase()),
            old(self).phase() == Phase::Init <==> r is Ok,
            r is Err ==> r == Err::<(), Errno>(err_of(EINVAL)) && *final(self) == *old(self),
            r is Ok ==> {
                &&& final(self).phase() == Phase::Init
                &&& common_of(final(self).spec_state()).spec_addr() == Some(addr)
                &&& common_of(final(self).spec_state()).spec_fd() == common_of(
                    old(self).spec_state(),
                ).spec_fd()
                &&& common_of(final(self).spec_state()).spec_pollee() == common_of(
                    old(self).spec_state(),
                ).spec_pollee()
                &&& common_of(final(self).spec_state()).spec_fatal() == common_of(
                    old(self).spec_state(),
                ).spec_fatal()
            },
    {
        match &mut self.state {
            Some(State::Init(init)) => {
                init.bind(addr);
                Ok(())
            },
            _ => Err(Errno::new(EINVAL)),
        }
    }
    /// Starts listening, with room for `backlog_capacity(backlog)`
    /// connections; only in `Init` on a bound socket, else `EINVAL`.
    pub fn listen(&mut self, backlog: u32) -> (r: Result<(), Errno>)
        requires
            old(self).wf(),
        ensures
            final(self).wf(),
            legal_step(old(self).phase(), final(self).phase()),
            (old(self).phase() == Phase::Init && common_of(old(self).spec_state()).spec_addr() is Some)
                <==> r is Ok,
            r is Err ==> r == Err::<(), Errno>(err_of(EINVAL)) && *final(self) == *old(self),
            r is Ok ==> {
                &&& final(self).spec_state() matches State::Listen(l)
                &&& l.spec_common() == common_of(old(self).spec_state())
                &&& l.spec_backlog().capacity() == backlog_capacity(backlog)
                &&& l.spec_backlog().free_count() == backlog_capacity(backlog)
                &&& l.spec_backlog().completed().len() == 0
            },
    {
        match self.state.take() {
            Some(State::Init(init)) => {
                if init.common().addr().is_none() {
                    self.state = Some(State::Init(init));
                    return Err(Errno::new(EINVAL));
                }
                match ListenerStream::new(init.into_common(), backlog) {
                    Ok(l) => {
                        self.state = Some(State::Listen(l));
                        Ok(())
                    },
                    Err(e) => {
                        proof {
                            assert(false);
                        }
                        Err(e)
                    },
                }
            },
            other => {
                self.state = other;
                Err(Errno::new(EINVAL))
            },
        }
    }

    /// Starts connecting to `peer`: only in `Init`, else `EINVAL`. The state
    /// becomes `Connecting`, the readiness cell is cleared, and the connect
    /// for the host is returned.
    pub fn connect(&mut self, peer: SockAddr) -> (r: Result<ConnectReq, Errno>)
        requires
            old(self).wf(),
        ensures
            final(self).wf(),
            legal_step(old(self).phase(), final(self).phase()),
            old(self).phase() == Phase::Init <==> r is Ok,
            r is Err ==> r == Err::<ConnectReq, Errno>(err_of(EINVAL)) && *final(self) == *old(self),
            r is Ok ==> {
                let oc = common_of(old(self).spec_state());
                &&& final(self).spec_state() matches State::Connecting(c)
                &&& r == Ok::<ConnectReq, Errno>(ConnectReq { fd: oc.spec_fd(), peer })
                &&& c.spec_peer_addr() == peer
                &&& c.spec_outstanding()
                &&& c.spec_common().spec_fd() == oc.spec_fd()
                &&& c.spec_common().spec_addr() == oc.spec_addr()
                &&& c.spec_common().spec_fatal() == oc.spec_fatal()
                &&& c.spec_common().asserted() == 0
            },
    {
        match self.state.take() {
            Some(State::Init(init)) => {
                let mut c = ConnectingStream::new(init.into_common(), peer);
                let req = c.initiate_async_connect();
                self.state = Some(State::Connecting(c));
                Ok(req)
            },
            other => {
                self.state = other;
                Err(Errno::new(EINVAL))
            },
        }
    }

    /// The host's completion of the connect, with result `retval`. With a
    /// connect outstanding, zero moves the stream to `Connected` and gives
    /// `Some(Ok(()))`; anything else restores the initial state, binding
    /// included, and gives the error (`EIO` for a positive `retval`, which
    /// breaks the `connect` contract). Otherwise the completion is stale:
    /// nothing changes and `None` is returned.
    pub fn complete_connect(&mut self, retval: i32) -> (r: Option<Result<(), Errno>>)
        requires
            old(self).wf(),
        ensures
            final(self).wf(),
            legal_step(old(self).phase(), final(self).phase()),
            common_of(final(self).spec_state()).spec_fd() == common_of(old(self).spec_state()).spec_fd(),
            common_of(final(self).spec_state()).spec_addr() == common_of(
                old(self).spec_state(),
            ).spec_addr(),
            match old(self).spec_state() {
                State::Connecting(c) if c.spec_outstanding() => {
                    &&& r == Some(
                        if retval == 0 {
                            Ok(())
                        } else if retval < 0 {
                            Err(crate::errno::errno_of_retval(retval))
                        } else {
                            Err(err_of(crate::errno::EIO))
                        },
                    )
                    &&& retval == 0 ==> (final(self).spec_state() matches State::Connected(cs) && {
                        &&& cs.wf()
                        &&& cs.spec_peer_addr() == c.spec_peer_addr()
                        &&& cs.fatal() == c.spec_common().spec_fatal()
                        &&& cs.spec_sender().buf@.len() == 0
                        &&& cs.spec_sender().buf.cap() == SEND_BUF_CAPACITY
                        &&& cs.spec_sender().outstanding is None
                        &&& !cs.spec_sender().is_shutdown
                        &&& cs.spec_receiver().buf@.len() == 0
                        &&& cs.spec_receiver().buf.cap() == RECV_BUF_CAPACITY
                        &&& cs.spec_receiver().outstanding is None
                        &&& !cs.spec_receiver().end_of_file
                        &&& !cs.spec_receiver().is_shutdown
                        &&& cs.asserted() == c.spec_common().asserted() | crate::events::OUT
                    })
                    &&& retval != 0 ==> final(self).phase() == Phase::Init
                },
                _ => r is None && *final(self) == *old(self),
            },
    {
        match self.state.take() {
            Some(State::Connecting(mut c)) => {
                if !c.is_outstanding() {
                    self.state = Some(State::Connecting(c));
                    return None;
                }
                c.complete(retval);
                let res = c.result();
                match res {
                    Some(Ok(())) => {
                        let peer = c.peer_addr();
                        let cs = ConnectedStream::new(c.into_common(), peer);
                        self.state = Some(State::Connected(cs));
                    },
                    _ => {
                        self.state = Some(State::Init(InitStream::from_common(c.into_common())));
                    },
                }
                res
            },
            other => {
                self.state = other;
                None
            },
        }
    }
    /// Takes an accepted connection: only in `Listen`, else `EINVAL`; see
    /// `ListenerStream::try_accept`.
    pub fn accept(&mut self) -> (r: (Result<Stream, Errno>, Vec<AcceptReq>))
        requires
            old(self).wf(),
        ensures
            final(self).wf(),
            final(self).phase() == old(self).phase(),
            match old(self).spec_state() {
                State::Listen(l) => final(self).spec_state() matches State::Listen(l2) && match r.0 {
                    Ok(s) => s.wf() && (s.spec_state() matches State::Connected(c) && accept_post(
                        l,
                        l2,
                        (Ok(c), r.1),
                    )),
                    Err(e) => accept_post(l, l2, (Err(e), r.1)),
                },
                _ => r.0 == Err::<Stream, Errno>(err_of(EINVAL)) && r.1@.len() == 0 && *final(self)
                    == *old(self),
            },
    {
        match &mut self.state {
            Some(State::Listen(l)) => {
                let (res, reqs) = l.try_accept();
                match res {
                    Ok(c) => (Ok(Stream::new_connected(c)), reqs),
                    Err(e) => (Err(e), reqs),
                }
            },
            _ => (Err(Errno::new(EINVAL)), Vec::new()),
        }
    }

    /// The host's completion of an accept; ignored unless listening. See
    /// `ListenerStream::complete_accept`.
    pub fn complete_accept(&mut self, slot: usize, retval: i32, peer: SockAddr)
        requires
            old(self).wf(),
        ensures
            final(self).wf(),
            final(self).phase() == old(self).phase(),
            match old(self).spec_state() {
                State::Listen(l) => final(self).spec_state() matches State::Listen(l2)
                    && accept_done_post(l, slot, retval, peer, l2),
                _ => *final(self) == *old(self),
            },
    {
        match &mut self.state {
            Some(State::Listen(l)) => l.complete_accept(slot, retval, peer),
            _ => {},
        }
    }

    /// Reads buffered bytes: only when `Connected`, else `EINVAL`. An empty
    /// `dst` gives `Ok(0)` at once and changes nothing; otherwise see
    /// `ConnectedStream::try_read`.
    pub fn read(&mut self, dst: &mut [u8]) -> (r: (Result<usize, Errno>, Option<MsgReq>))
        requires
            old(self).wf(),
        ensures
            final(self).wf(),
            final(self).phase() == old(self).phase(),
            match old(self).spec_state() {
                State::Connected(c) => if old(dst)@.len() == 0 {
                    r == (Ok::<usize, Errno>(0), None::<MsgReq>) && *final(self) == *old(self)
                        && final(dst)@ == old(dst)@
                } else {
                    final(self).spec_state() matches State::Connected(c2) && read_post(
                        c,
                        old(dst)@,
                        c2,
                        final(dst)@,
                        r,
                    )
                },
                _ => r == (Err::<usize, Errno>(err_of(EINVAL)), None::<MsgReq>) && *final(self)
                    == *old(self) && final(dst)@ == old(dst)@,
            },
    {
        match &mut self.state {
            Some(State::Connected(c)) => {
                if dst.len() == 0 {
                    return (Ok(0), None);
                }
                c.try_read(dst)
            },
            _ => (Err(Errno::new(EINVAL)), None),
        }
    }

    /// Writes bytes into the send buffer: only when `Connected`, else
    /// `EINVAL`; see `ConnectedStream::try_write`.
    pub fn write(&mut self, src: &[u8]) -> (r: (Result<usize, Errno>, Option<MsgReq>))
        requires
            old(self).wf(),
        ensures
            final(self).wf(),
            final(self).phase() == old(self).phase(),
            match old(self).spec_state() {
                State::Connected(c) => final(self).spec_state() matches State::Connected(c2)
                    && write_post(c, src@, c2, r),
                _ => r == (Err::<usize, Errno>(err_of(EINVAL)), None::<MsgReq>) && *final(self)
                    == *old(self),
            },
    {
        match &mut self.state {
            Some(State::Connected(c)) => c.try_write(src),
            _ => (Err(Errno::new(EINVAL)), None),
        }
    }

    /// Gathers the buffers of `bufs` into the send buffer: only when
    /// `Connected`, else `EINVAL`; see `ConnectedStream::try_writev`.
    pub fn writev(&mut self, bufs: &[&[u8]]) -> (r: (Result<usize, Errno>, Option<MsgReq>))
        requires
            old(self).wf(),
        ensures
            final(self).wf(),
            final(self).phase() == old(self).phase(),
            match old(self).spec_state() {
                State::Connected(c) => final(self).spec_state() matches State::Connected(c2)
                    && write_post(c, gathered(buf_views(bufs@)), c2, r),
                _ => r == (Err::<usize, Errno>(err_of(EINVAL)), None::<MsgReq>) && *final(self)
                    == *old(self),
            },
    {
        match &mut self.state {
            Some(State::Connected(c)) => c.try_writev(bufs),
            _ => (Err(Errno::new(EINVAL)), None),
        }
    }

    /// Shuts down halves of the connection: only when `Connected`, else
    /// `EINVAL`.
    pub fn shutdown(&mut self, how: Shutdown) -> (r: Result<(), Errno>)
        requires
            old(self).wf(),
        ensures
            final(self).wf(),
            final(self).phase() == old(self).phase(),
            match old(self).spec_state() {
                State::Connected(c) => r is Ok && (final(self).spec_state() matches State::Connected(c2)
                    && {
                    &&& c2.spec_sender().is_shutdown == (c.spec_sender().is_shutdown || how
                        != Shutdown::Read)
                    &&& c2.spec_receiver().is_shutdown == (c.spec_receiver().is_shutdown || how
                        != Shutdown::Write)
                    &&& c2.spec_sender().buf == c.spec_sender().buf
                    &&& c2.spec_receiver().buf == c.spec_receiver().buf
                    &&& c2.spec_common() == c.spec_common()
                }),
                _ => r == Err::<(), Errno>(err_of(EINVAL)) && *final(self) == *old(self),
            },
    {
        match &mut self.state {
            Some(State::Connected(c)) => {
                c.shutdown(how);
                Ok(())
            },
            _ => Err(Errno::new(EINVAL)),
        }
    }

    /// The host's completion of a send; ignored unless connected. See
    /// `ConnectedStream::complete_send`.
    pub fn complete_send(&mut self, retval: i32) -> (next: Option<MsgReq>)
        requires
            old(self).wf(),
        ensures
            final(self).wf(),
            final(self).phase() == old(self).phase(),
            match old(self).spec_state() {
                State::Connected(c) => final(self).spec_state() matches State::Connected(c2)
                    && send_done_post(c, retval, c2, next),
                _ => next is None && *final(self) == *old(self),
            },
    {
        match &mut self.state {
            Some(State::Connected(c)) => c.complete_send(retval),
            _ => None,
        }
    }

    /// The host's completion of a receive; ignored unless connected. See
    /// `ConnectedStream::complete_recv`.
    pub fn complete_recv(&mut self, retval: i32) -> (next: Option<MsgReq>)
        requires
            old(self).wf(),
        ensures
            final(self).wf(),
            final(self).phase() == old(self).phase(),
            match old(self).spec_state() {
                State::Connected(c) => final(self).spec_state() matches State::Connected(c2)
                    && recv_done_post(c, retval, c2, next),
                _ => next is None && *final(self) == *old(self),
            },
    {
        match &mut self.state {
            Some(State::Connected(c)) => c.complete_recv(retval),
            _ => None,
        }
    }

    /// The connected state, if the stream is connected.
    pub fn connected(&self) -> (r: Option<&ConnectedStream>)
        requires
            self.wf(),
        ensures
            match self.spec_state() {
                State::Connected(c) => r == Some(&c),
                _ => r is None,
            },
    {
        match &self.state {
            Some(State::Connected(c)) => Some(c),
            _ => None,
        }
    }

    /// The host writes received bytes into the receive buffer's free region:
    /// only when `Connected`, else `EINVAL`. See
    /// `ConnectedStream::host_write_recv_buf`.
    pub fn host_write_recv_buf(&mut self, src: &[u8]) -> (r: Result<usize, Errno>)
        requires
            old(self).wf(),
        ensures
            final(self).wf(),
            final(self).phase() == old(self).phase(),
            match old(self).spec_state() {
                State::Connected(c) => final(self).spec_state() matches State::Connected(c2) && r
                    matches Ok(n) && {
                    &&& c2.wf()
                    &&& c2.spec_common() == c.spec_common()
                    &&& c2.spec_peer_addr() == c.spec_peer_addr()
                    &&& c2.spec_sender() == c.spec_sender()
                    &&& c2.spec_receiver().buf@ == c.spec_receiver().buf@
                    &&& c2.spec_receiver().buf.cap() == c.spec_receiver().buf.cap()
                    &&& c2.spec_receiver().outstanding == c.spec_receiver().outstanding
                    &&& c2.spec_receiver().end_of_file == c.spec_receiver().end_of_file
                    &&& c2.spec_receiver().is_shutdown == c.spec_receiver().is_shutdown
                    &&& n == crate::connected::min_int(
                        src@.len() as int,
                        c.spec_receiver().buf.cap() - c.spec_receiver().buf@.len(),
                    )
                    &&& c2.spec_receiver().buf.free_region().take(n as int) == src@.take(n as int)
                },
                _ => r == Err::<usize, Errno>(err_of(EINVAL)) && *final(self) == *old(self),
            },
    {
        match &mut self.state {
            Some(State::Connected(c)) => Ok(c.host_write_recv_buf(src)),
            _ => Err(Errno::new(EINVAL)),
        }
    }

    /// Polls the readiness cell of whichever state the stream is in; see
    /// `Pollee::poll_by`.
    pub fn poll_by(&mut self, mask: Events, poller: Option<u64>) -> (r: Events)
        requires
            old(self).wf(),
        ensures
            final(self).wf(),
            final(self).phase() == old(self).phase(),
            r.bits == observed(common_of(old(self).spec_state()).asserted(), mask.bits),
            common_of(final(self).spec_state()).asserted() == common_of(
                old(self).spec_state(),
            ).asserted(),
            (r.bits != 0 || poller is None) ==> *final(self) == *old(self),
            poll_post(
                common_of(old(self).spec_state()).spec_pollee(),
                mask,
                poller,
                common_of(final(self).spec_state()).spec_pollee(),
                r,
            ),
    {
        match &mut self.state {
            Some(State::Init(i)) => i.poll_by(mask, poller),
            Some(State::Connecting(c)) => c.poll_by(mask, poller),
            Some(State::Connected(c)) => c.poll_by(mask, poller),
            Some(State::Listen(l)) => l.poll_by(mask, poller),
            None => Events::empty(),
        }
    }

    /// The local address the socket is bound to, in any state.
    pub fn addr(&self) -> (r: Option<SockAddr>)
        requires
            self.wf(),
        ensures
            r == common_of(self.spec_state()).spec_addr(),
    {
        match &self.state {
            Some(State::Init(i)) => i.common().addr(),
            Some(State::Connecting(c)) => c.common().addr(),
            Some(State::Connected(c)) => c.common().addr(),
            Some(State::Listen(l)) => l.common().addr(),
            None => None,
        }
    }

    /// The peer's address: only when `Connected`, else `EINVAL`.
    pub fn peer_addr(&self) -> (r: Result<SockAddr, Errno>)
        requires
            self.wf(),
        ensures
            match self.spec_state() {
                State::Connected(c) => r == Ok::<SockAddr, Errno>(c.spec_peer_addr()),
                _ => r == Err::<SockAddr, Errno>(err_of(EINVAL)),
            },
    {
        match &self.state {
            Some(State::Connected(c)) => Ok(c.peer_addr()),
            _ => Err(Errno::new(EINVAL)),
        }
    }

    /// Device control requests are not supported on stream sockets: always
    /// `EINVAL`.
    pub fn ioctl(&self, cmd: u32) -> (r: Result<(), Errno>)
        ensures
            r == Err::<(), Errno>(err_of(EINVAL)),
    {
        Err(Errno::new(EINVAL))
    }
}

} // verus!
