use vstd::prelude::*;
use crate::circular_buf::{CircularBuf, IoSpan};
use crate::common::{Common, SockAddr};
use crate::errno::{Errno, err_of, errno_of_retval, errno_from_retval, EAGAIN, EIO, EPIPE};
use crate::readiness::{Waiter, kept_waiters, poll_post};
use crate::events::{Events, ERR, IN, OUT};

verus! {

/// The capacity of a connected socket's send buffer, in bytes.
pub const SEND_BUF_CAPACITY: usize = 65536;

/// The capacity of a connected socket's receive buffer, in bytes.
pub const RECV_BUF_CAPACITY: usize = 65536;

/// A `sendmsg` or `recvmsg` submission for the host: the descriptor and the
/// up to two buffer spans of its iovec array, of which the first `iovlen`
/// are used.
#[derive(Clone, Copy, Debug, PartialEq, Eq, Structural)]
pub struct MsgReq {
    pub fd: u32,
    pub iov0: IoSpan,
    pub iov1: IoSpan,
    pub iovlen: usize,
}

/// The request over `spans` for the descriptor `fd`: one iovec, or two when
/// the region wraps around.
pub open spec fn msg_req_of(fd: u32, spans: (IoSpan, IoSpan)) -> MsgReq {
    MsgReq { fd, iov0: spans.0, iov1: spans.1, iovlen: if spans.1.len == 0 { 1 } else { 2 } }
}

/// The smaller of `a` and `b`.
pub open spec fn min_int(a: int, b: int) -> int {
    if a < b {
        a
    } else {
        b
    }
}

/// The pollers waiting on the stream's readiness cell.
pub open spec fn waiters_of(c: ConnectedStream) -> Seq<Waiter> {
    c.spec_common().spec_pollee().waiters()
}

/// The number of bytes a request covers.
pub open spec fn req_len(r: MsgReq) -> int {
    r.iov0.len + r.iov1.len
}

/// Which halves of a connection to shut down.
#[derive(Clone, Copy, Debug, PartialEq, Eq, Structural)]
pub enum Shutdown {
    Read,
    Write,
    Both,
}

/// The sending half: the bytes written but not yet sent, and the one send
/// that may be outstanding.
pub struct Sender {
    pub buf: CircularBuf,
    pub outstanding: Option<MsgReq>,
    pub is_shutdown: bool,
}

/// The receiving half: the bytes received but not yet read, the one receive
/// that may be outstanding, and whether the peer has ended the stream.
pub struct Receiver {
    pub buf: CircularBuf,
    pub outstanding: Option<MsgReq>,
    pub end_of_file: bool,
    pub is_shutdown: bool,
}

impl Sender {
    pub fn new(capacity: usize) -> (r: Sender)
        requires
            0 < capacity <= isize::MAX,
        ensures
            r.buf.wf(),
            r.buf.cap() == capacity,
            r.buf@.len() == 0,
            r.outstanding is None,
            !r.is_shutdown,
    {
        Sender { buf: CircularBuf::new(capacity), outstanding: None, is_shutdown: false }
    }

    /// Shuts the sending half down; an outstanding send is not cancelled.
    pub fn shutdown(&mut self)
        ensures
            final(self).is_shutdown,
            final(self).buf == old(self).buf,
            final(self).outstanding == old(self).outstanding,
    {
        self.is_shutdown = true;
    }

    /// The request that sends the whole filled region.
    fn gen_send_req(&self, fd: u32) -> (r: MsgReq)
        requires
            self.buf.wf(),
        ensures
            r == msg_req_of(fd, self.buf.filled_spans()),
            req_len(r) == self.buf@.len(),
    {
        let iov = self.buf.consumer_spans();
        let iovlen: usize = if iov.1.len == 0 { 1 } else { 2 };
        MsgReq { fd, iov0: iov.0, iov1: iov.1, iovlen }
    }
}

impl Receiver {
    pub fn new(capacity: usize) -> (r: Receiver)
        requires
            0 < capacity <= isize::MAX,
        ensures
            r.buf.wf(),
            r.buf.cap() == capacity,
            r.buf@.len() == 0,
            r.outstanding is None,
            !r.end_of_file,
            !r.is_shutdown,
    {
        Receiver {
            buf: CircularBuf::new(capacity),
            outstanding: None,
            end_of_file: false,
            is_shutdown: false,
        }
    }

    /// Shuts the receiving half down.
    pub fn shutdown(&mut self)
        ensures
            final(self).is_shutdown,
            final(self).buf == old(self).buf,
            final(self).outstanding == old(self).outstanding,
            final(self).end_of_file == old(self).end_of_file,
    {
        self.is_shutdown = true;
    }

    /// The request that fills the whole free region.
    fn gen_recv_req(&self, fd: u32) -> (r: MsgReq)
        requires
            self.buf.wf(),
        ensures
            r == msg_req_of(fd, self.buf.free_spans()),
            req_len(r) == self.buf.cap() - self.buf@.len(),
    {
        let iov = self.buf.producer_spans();
        let iovlen: usize = if iov.1.len == 0 { 1 } else { 2 };
        MsgReq { fd, iov0: iov.0, iov1: iov.1, iovlen }
    }
}

/// What `try_write` of `src` does to stream `a`, giving `b` and result `r`.
pub open spec fn write_post(
    a: ConnectedStream,
    src: Seq<u8>,
    b: ConnectedStream,
    r: (Result<usize, Errno>, Option<MsgReq>),
) -> bool {
    &&& b.spec_peer_addr() == a.spec_peer_addr()
    &&& b.spec_receiver() == a.spec_receiver()
    &&& b.fatal() == a.fatal()
    &&& b.spec_common().spec_fd() == a.spec_common().spec_fd()
    &&& b.spec_common().spec_addr() == a.spec_common().spec_addr()
    &&& a.spec_sender().is_shutdown ==> r == (Err::<usize, Errno>(err_of(EPIPE)), None::<MsgReq>)
        && b == a
    &&& (!a.spec_sender().is_shutdown && a.fatal() is Some) ==> r == (
        Err::<usize, Errno>(a.fatal()->0),
        None::<MsgReq>,
    ) && b == a
    &&& (!a.spec_sender().is_shutdown && a.fatal() is None) ==> {
        let ob = a.spec_sender().buf;
        let nb = b.spec_sender().buf;
        let n = min_int(src.len() as int, ob.cap() - ob@.len());
        &&& nb@ == ob@ + src.take(n)
        &&& nb.cap() == ob.cap()
        &&& r.0 == if n > 0 { Ok::<usize, Errno>(n as usize) } else { Err(err_of(EAGAIN)) }
        &&& r.1 == if a.spec_sender().outstanding is None && nb@.len() > 0 {
            Some(msg_req_of(a.spec_common().spec_fd(), nb.filled_spans()))
        } else {
            None
        }
        &&& b.spec_sender().outstanding == if r.1 is Some {
            r.1
        } else {
            a.spec_sender().outstanding
        }
        &&& !b.spec_sender().is_shutdown
        &&& b.asserted() == if nb@.len() == nb.cap() {
            a.asserted() & !OUT
        } else {
            a.asserted()
        }
    }
}

/// What the completion of a send with result `retval` does to stream `a`,
/// giving `b` and the next send `next`.
pub open spec fn send_done_post(
    a: ConnectedStream,
    retval: i32,
    b: ConnectedStream,
    next: Option<MsgReq>,
) -> bool {
    &&& b.spec_peer_addr() == a.spec_peer_addr()
    &&& b.spec_receiver() == a.spec_receiver()
    &&& b.spec_common().spec_fd() == a.spec_common().spec_fd()
    &&& b.spec_common().spec_addr() == a.spec_common().spec_addr()
    &&& b.spec_sender().is_shutdown == a.spec_sender().is_shutdown
    &&& b.spec_sender().buf.cap() == a.spec_sender().buf.cap()
    &&& match a.spec_sender().outstanding {
        None => next is None && b == a,
        Some(q) => if retval < 0 || retval == 0 || retval as int > req_len(q) {
            let e = if retval < 0 { errno_of_retval(retval) } else { err_of(EIO) };
            &&& next is None
            &&& b.spec_sender().outstanding is None
            &&& b.spec_sender().buf == a.spec_sender().buf
            &&& b.fatal() == if a.fatal() is None {
                Some(e)
            } else {
                a.fatal()
            }
            &&& b.asserted() == a.asserted() | ERR
            &&& waiters_of(b) == kept_waiters(waiters_of(a), ERR)
        } else {
            let nb = b.spec_sender().buf;
            &&& nb@ == a.spec_sender().buf@.skip(retval as int)
            &&& b.fatal() == a.fatal()
            &&& b.asserted() == a.asserted() | OUT
            &&& waiters_of(b) == kept_waiters(waiters_of(a), OUT)
            &&& next == if nb@.len() > 0 && a.fatal() is None {
                Some(msg_req_of(a.spec_common().spec_fd(), nb.filled_spans()))
            } else {
                None
            }
            &&& b.spec_sender().outstanding == next
        }
    }
}

/// What `try_read` into a buffer holding `d0` does to stream `a`, giving
/// `b`, the buffer `d1` and result `r`.
pub open spec fn read_post(
    a: ConnectedStream,
    d0: Seq<u8>,
    b: ConnectedStream,
    d1: Seq<u8>,
    r: (Result<usize, Errno>, Option<MsgReq>),
) -> bool {
    &&& b.spec_peer_addr() == a.spec_peer_addr()
    &&& b.spec_sender() == a.spec_sender()
    &&& b.fatal() == a.fatal()
    &&& b.spec_common().spec_fd() == a.spec_common().spec_fd()
    &&& b.spec_common().spec_addr() == a.spec_common().spec_addr()
    &&& b.spec_receiver().end_of_file == a.spec_receiver().end_of_file
    &&& b.spec_receiver().is_shutdown == a.spec_receiver().is_shutdown
    &&& {
        let ob = a.spec_receiver().buf;
        let nb = b.spec_receiver().buf;
        let n = min_int(d0.len() as int, ob@.len() as int);
        let rv = a.spec_receiver();
        let may_recv = !rv.end_of_file && rv.outstanding is None && a.fatal() is None && (n == 0
            ==> !rv.is_shutdown) && nb@.len() < nb.cap();
        &&& d1.len() == d0.len()
        &&& d1.take(n) == ob@.take(n)
        &&& d1.skip(n) == d0.skip(n)
        &&& nb@ == ob@.skip(n)
        &&& nb.cap() == ob.cap()
        &&& b.asserted() == if nb@.len() == 0 {
            a.asserted() & !IN
        } else {
            a.asserted()
        }
        &&& r.0 == if rv.end_of_file || n > 0 {
            Ok::<usize, Errno>(n as usize)
        } else if rv.is_shutdown {
            Err(err_of(EPIPE))
        } else if a.fatal() is Some {
            Err(a.fatal()->0)
        } else {
            Err(err_of(EAGAIN))
        }
        &&& r.1 == if may_recv {
            Some(msg_req_of(a.spec_common().spec_fd(), nb.free_spans()))
        } else {
            None
        }
        &&& b.spec_receiver().outstanding == if r.1 is Some {
            r.1
        } else {
            rv.outstanding
        }
    }
}

/// What the completion of a receive with result `retval` does to stream
/// `a`, giving `b` and the next receive `next`.
pub open spec fn recv_done_post(
    a: ConnectedStream,
    retval: i32,
    b: ConnectedStream,
    next: Option<MsgReq>,
) -> bool {
    &&& b.spec_peer_addr() == a.spec_peer_addr()
    &&& b.spec_sender() == a.spec_sender()
    &&& b.spec_common().spec_fd() == a.spec_common().spec_fd()
    &&& b.spec_common().spec_addr() == a.spec_common().spec_addr()
    &&& b.spec_receiver().is_shutdown == a.spec_receiver().is_shutdown
    &&& b.spec_receiver().buf.cap() == a.spec_receiver().buf.cap()
    &&& match a.spec_receiver().outstanding {
        None => next is None && b == a,
        Some(q) => if retval < 0 || retval as int > req_len(q) {
            let e = if retval < 0 { errno_of_retval(retval) } else { err_of(EIO) };
            &&& next is None
            &&& b.spec_receiver().outstanding is None
            &&& b.spec_receiver().buf == a.spec_receiver().buf
            &&& !b.spec_receiver().end_of_file
            &&& b.fatal() == if a.fatal() is None {
                Some(e)
            } else {
                a.fatal()
            }
            &&& b.asserted() == a.asserted() | ERR
            &&& waiters_of(b) == kept_waiters(waiters_of(a), ERR)
        } else if retval == 0 {
            &&& next is None
            &&& b.spec_receiver().outstanding is None
            &&& b.spec_receiver().buf == a.spec_receiver().buf
            &&& b.spec_receiver().end_of_file
            &&& b.fatal() == a.fatal()
            &&& b.asserted() == a.asserted() | IN
            &&& waiters_of(b) == kept_waiters(waiters_of(a), IN)
        } else {
            let ob = a.spec_receiver().buf;
            let nb = b.spec_receiver().buf;
            &&& nb@ == ob@ + ob.free_region().take(retval as int)
            &&& !b.spec_receiver().end_of_file
            &&& b.fatal() == a.fatal()
            &&& b.asserted() == a.asserted() | IN
            &&& waiters_of(b) == kept_waiters(waiters_of(a), IN)
            &&& next == if nb@.len() < nb.cap() && a.fatal() is None {
                Some(msg_req_of(a.spec_common().spec_fd(), nb.free_spans()))
            } else {
                None
            }
            &&& b.spec_receiver().outstanding == next
        }
    }
}

/// The bytes a gather write offers: the buffers in order, up to the first
/// empty one.
pub open spec fn gathered(bufs: Seq<Seq<u8>>) -> Seq<u8>
    decreases bufs.len(),
{
    if bufs.len() == 0 || bufs[0].len() == 0 {
        Seq::empty()
    } else {
        bufs[0] + gathered(bufs.skip(1))
    }
}

/// The contents of each buffer of `bufs`.
pub open spec fn buf_views(bufs: Seq<&[u8]>) -> Seq<Seq<u8>> {
    Seq::new(bufs.len(), |i: int| bufs[i]@)
}

proof fn lemma_gathered_split(bufs: Seq<Seq<u8>>, i: int)
    requires
        0 <= i < bufs.len(),
        forall|j: int| 0 <= j < i ==> #[trigger] bufs[j].len() > 0,
    ensures
        gathered(bufs) == gathered(bufs.take(i)) + gathered(bufs.skip(i)),
        gathered(bufs.take(i + 1)) == gathered(bufs.take(i)) + if bufs[i].len() > 0 {
            bufs[i]
        } else {
            Seq::empty()
        },
        bufs[i].len() == 0 ==> gathered(bufs) == gathered(bufs.take(i)),
    decreases i,
{
    if i == 0 {
        assert(gathered(bufs.take(0)) =~= Seq::<u8>::empty());
        assert(bufs.skip(0) =~= bufs);
        let t = bufs.take(1);
        if bufs[0].len() > 0 {
            assert(t.skip(1) =~= Seq::<Seq<u8>>::empty());
            assert(gathered(t.skip(1)) =~= Seq::<u8>::empty());
            assert(gathered(t) =~= bufs[0]);
        }
        assert(gathered(bufs.take(1)) =~= gathered(bufs.take(0)) + if bufs[0].len() > 0 {
            bufs[0]
        } else {
            Seq::empty()
        });
    } else {
        let rest = bufs.skip(1);
        assert forall|j: int| 0 <= j < i - 1 implies #[trigger] rest[j].len() > 0 by {
            assert(rest[j] == bufs[j + 1]);
        }
        lemma_gathered_split(rest, i - 1);
        assert(bufs.take(i).skip(1) =~= rest.take(i - 1));
        assert(bufs.take(i + 1).skip(1) =~= rest.take(i));
        assert(rest.skip(i - 1) =~= bufs.skip(i));
        assert(bufs.take(i)[0] == bufs[0]);
        assert(bufs.take(i + 1)[0] == bufs[0]);
        assert(bufs[0].len() > 0);
        assert(gathered(bufs.take(i)) == bufs[0] + gathered(rest.take(i - 1)));
        assert(gathered(bufs.take(i + 1)) == bufs[0] + gathered(rest.take(i)));
        assert(gathered(bufs) =~= gathered(bufs.take(i)) + gathered(bufs.skip(i)));
        assert(gathered(bufs.take(i + 1)) =~= gathered(bufs.take(i)) + if bufs[i].len() > 0 {
            bufs[i]
        } else {
            Seq::empty()
        });
        if bufs[i].len() == 0 {
            assert(gathered(bufs.skip(i)) =~= Seq::<u8>::empty());
            assert(gathered(bufs) =~= gathered(bufs.take(i)));
        }
    }
}

/// A connected, full-duplex stream.
pub struct ConnectedStream {
    common: Common,
    peer_addr: SockAddr,
    sender: Sender,
    receiver: Receiver,
}

impl ConnectedStream {
    pub closed spec fn spec_common(&self) -> Common {
        self.common
    }

    pub closed spec fn spec_peer_addr(&self) -> SockAddr {
        self.peer_addr
    }

    pub closed spec fn spec_sender(&self) -> Sender {
        self.sender
    }

    pub closed spec fn spec_receiver(&self) -> Receiver {
        self.receiver
    }

    pub open spec fn fatal(&self) -> Option<Errno> {
        self.spec_common().spec_fatal()
    }

    pub open spec fn asserted(&self) -> u32 {
        self.spec_common().asserted()
    }

    /// The stream is well formed; in particular an outstanding send covers
    /// only bytes held in the send buffer and an outstanding receive only
    /// free space of the receive buffer.
    pub open spec fn wf(&self) -> bool {
        let s = self.spec_sender();
        let r = self.spec_receiver();
        &&& self.spec_common().wf()
        &&& s.buf.wf()
        &&& r.buf.wf()
        &&& s.outstanding matches Some(q) ==> 0 < req_len(q) <= s.buf@.len()
        &&& r.outstanding matches Some(q) ==> {
            &&& 0 < req_len(q) <= r.buf.cap() - r.buf@.len()
            &&& !r.end_of_file
        }
    }

    /// A connected stream over `common`, with buffers of the given capacities.
    pub fn with_capacity(
        common: Common,
        peer_addr: SockAddr,
        send_capacity: usize,
        recv_capacity: usize,
    ) -> (r: ConnectedStream)
        requires
            common.wf(),
            0 < send_capacity <= isize::MAX,
            0 < recv_capacity <= isize::MAX,
        ensures
            r.wf(),
            r.spec_common() == common,
            r.spec_peer_addr() == peer_addr,
            r.spec_sender().buf@.len() == 0,
            r.spec_sender().buf.cap() == send_capacity,
            r.spec_sender().outstanding is None,
            !r.spec_sender().is_shutdown,
            r.spec_receiver().buf@.len() == 0,
            r.spec_receiver().buf.cap() == recv_capacity,
            r.spec_receiver().outstanding is None,
            !r.spec_receiver().end_of_file,
            !r.spec_receiver().is_shutdown,
    {
        ConnectedStream {
            common,
            peer_addr,
            sender: Sender::new(send_capacity),
            receiver: Receiver::new(recv_capacity),
        }
    }

    /// A connected stream over `common`, with buffers of the default capacities.
    pub fn new(common: Common, peer_addr: SockAddr) -> (r: ConnectedStream)
        requires
            common.wf(),
        ensures
            r.wf(),
            r.spec_common() == common,
            r.spec_peer_addr() == peer_addr,
            r.spec_sender().buf@.len() == 0,
            r.spec_sender().buf.cap() == SEND_BUF_CAPACITY,
            r.spec_sender().outstanding is None,
            !r.spec_sender().is_shutdown,
            r.spec_receiver().buf@.len() == 0,
            r.spec_receiver().buf.cap() == RECV_BUF_CAPACITY,
            r.spec_receiver().outstanding is None,
            !r.spec_receiver().end_of_file,
            !r.spec_receiver().is_shutdown,
    {
        Self::with_capacity(common, peer_addr, SEND_BUF_CAPACITY, RECV_BUF_CAPACITY)
    }

    /// A freshly accepted connection on the host descriptor `fd`. Its
    /// readiness cell starts with `IN` asserted, as data may already be there.
    pub fn with_fd_and_peer(fd: u32, peer_addr: SockAddr) -> (r: ConnectedStream)
        ensures
            r.wf(),
            r.spec_common().spec_fd() == fd,
            r.spec_common().spec_addr() is None,
            r.spec_common().spec_fatal() is None,
            r.asserted() == IN,
            r.spec_peer_addr() == peer_addr,
            r.spec_sender().buf@.len() == 0,
            r.spec_sender().buf.cap() == SEND_BUF_CAPACITY,
            r.spec_sender().outstanding is None,
            !r.spec_sender().is_shutdown,
            r.spec_receiver().buf@.len() == 0,
            r.spec_receiver().buf.cap() == RECV_BUF_CAPACITY,
            r.spec_receiver().outstanding is None,
            !r.spec_receiver().end_of_file,
            !r.spec_receiver().is_shutdown,
    {
        let mut common = Common::with_fd(fd);
        common.add_events(Events::from_bits(IN));
        proof {
            assert(0u32 | 1u32 == 1u32) by (bit_vector);
        }
        Self::new(common, peer_addr)
    }

    pub fn fd(&self) -> (r: u32)
        ensures
            r == self.spec_common().spec_fd(),
    {
        self.common.fd()
    }

    pub fn peer_addr(&self) -> (r: SockAddr)
        ensures
            r == self.spec_peer_addr(),
    {
        self.peer_addr
    }

    pub fn common(&self) -> (r: &Common)
        ensures
            *r == self.spec_common(),
    {
        &self.common
    }

    /// Polls the stream's readiness cell; see `Pollee::poll_by`.
    pub fn poll_by(&mut self, mask: Events, poller: Option<u64>) -> (r: Events)
        requires
            old(self).wf(),
        ensures
            final(self).wf(),
            r.bits == crate::readiness::observed(old(self).asserted(), mask.bits),
            final(self).asserted() == old(self).asserted(),
            final(self).spec_common().spec_fd() == old(self).spec_common().spec_fd(),
            final(self).spec_common().spec_addr() == old(self).spec_common().spec_addr(),
            final(self).spec_peer_addr() == old(self).spec_peer_addr(),
            final(self).spec_sender() == old(self).spec_sender(),
            final(self).spec_receiver() == old(self).spec_receiver(),
            final(self).fatal() == old(self).fatal(),
            poll_post(old(self).spec_common().spec_pollee(), mask, poller, final(self).spec_common().spec_pollee(), r),
            (poller is None || r.bits != 0) ==> *final(self) == *old(self),
    {
        self.common.poll_by(mask, poller)
    }

    /// Starts a send of the whole send buffer and records it as outstanding.
    fn do_send(&mut self) -> (r: MsgReq)
        requires
            old(self).wf(),
            old(self).spec_sender().buf@.len() > 0,
            old(self).spec_sender().outstanding is None,
        ensures
            final(self).wf(),
            r == msg_req_of(old(self).spec_common().spec_fd(), old(self).spec_sender().buf.filled_spans()),
            final(self).spec_sender().outstanding == Some(r),
            final(self).spec_sender().buf == old(self).spec_sender().buf,
            final(self).spec_sender().is_shutdown == old(self).spec_sender().is_shutdown,
            final(self).spec_receiver() == old(self).spec_receiver(),
            final(self).spec_common() == old(self).spec_common(),
            final(self).spec_peer_addr() == old(self).spec_peer_addr(),
    {
        let req = self.sender.gen_send_req(self.common.fd());
        self.sender.outstanding = Some(req);
        req
    }

    /// Starts a receive into the whole free region of the receive buffer and
    /// records it as outstanding.
    fn do_recv(&mut self) -> (r: MsgReq)
        requires
            old(self).wf(),
            old(self).spec_receiver().buf@.len() < old(self).spec_receiver().buf.cap(),
            old(self).spec_receiver().outstanding is None,
            !old(self).spec_receiver().end_of_file,
        ensures
            final(self).wf(),
            r == msg_req_of(old(self).spec_common().spec_fd(), old(self).spec_receiver().buf.free_spans()),
            final(self).spec_receiver().outstanding == Some(r),
            final(self).spec_receiver().buf == old(self).spec_receiver().buf,
            final(self).spec_receiver().end_of_file == old(self).spec_receiver().end_of_file,
            final(self).spec_receiver().is_shutdown == old(self).spec_receiver().is_shutdown,
            final(self).spec_sender() == old(self).spec_sender(),
            final(self).spec_common() == old(self).spec_common(),
            final(self).spec_peer_addr() == old(self).spec_peer_addr(),
    {
        let req = self.receiver.gen_recv_req(self.common.fd());
        self.receiver.outstanding = Some(req);
        req
    }
    /// Copies as much of `src` as fits into the send buffer. Fails with
    /// `EPIPE` after a write shutdown and with the recorded error once the
    /// socket is broken; then nothing changes. Otherwise `OUT` is cleared if
    /// the buffer became full, a send is started if none is outstanding and
    /// there is something to send, and the number of bytes taken is returned,
    /// or `EAGAIN` if none was. The started send, if any, is returned too.
    pub fn try_write(&mut self, src: &[u8]) -> (r: (Result<usize, Errno>, Option<MsgReq>))
        requires
            old(self).wf(),
        ensures
            final(self).wf(),
            write_post(*old(self), src@, *final(self), r),
    {
        if self.sender.is_shutdown {
            return (Err(Errno::new(EPIPE)), None);
        }
        if let Some(e) = self.common.fatal() {
            return (Err(e), None);
        }
        let n = self.sender.buf.produce(src);
        if self.sender.buf.is_full() {
            self.common.remove_events(Events::from_bits(OUT));
        }
        let mut req: Option<MsgReq> = None;
        if self.sender.outstanding.is_none() && !self.sender.buf.is_empty() {
            req = Some(self.do_send());
        }
        if n > 0 {
            (Ok(n), req)
        } else {
            (Err(Errno::new(EAGAIN)), req)
        }
    }

    /// Copies the buffers of `bufs` into the send buffer, in order, until
    /// one gives no byte (it is empty, or the send buffer is full). Fails and
    /// starts sends exactly as `try_write` does on the gathered bytes.
    pub fn try_writev(&mut self, bufs: &[&[u8]]) -> (r: (Result<usize, Errno>, Option<MsgReq>))
        requires
            old(self).wf(),
        ensures
            final(self).wf(),
            write_post(*old(self), gathered(buf_views(bufs@)), *final(self), r),
    {
        if self.sender.is_shutdown {
            return (Err(Errno::new(EPIPE)), None);
        }
        if let Some(e) = self.common.fatal() {
            return (Err(e), None);
        }
        let ghost v = buf_views(bufs@);
        let ghost old_buf = self.sender.buf@;
        let ghost free0 = self.sender.buf.cap() - old_buf.len();
        let mut total: usize = 0;
        let mut i: usize = 0;
        let mut stopped = false;
        while i < bufs.len() && !stopped
            invariant
                self.wf(),
                self.spec_common() == old(self).spec_common(),
                self.spec_peer_addr() == old(self).spec_peer_addr(),
                self.spec_receiver() == old(self).spec_receiver(),
                self.spec_sender().outstanding == old(self).spec_sender().outstanding,
                self.spec_sender().is_shutdown == old(self).spec_sender().is_shutdown,
                self.spec_sender().buf.cap() == old(self).spec_sender().buf.cap(),
                old_buf == old(self).spec_sender().buf@,
                free0 == self.spec_sender().buf.cap() - old_buf.len(),
                v == buf_views(bufs@),
                i <= bufs@.len(),
                forall|j: int| 0 <= j < i ==> #[trigger] v[j].len() > 0,
                total == min_int(gathered(v.take(i as int)).len() as int, free0),
                self.spec_sender().buf@ == old_buf + gathered(v.take(i as int)).take(total as int),
                total < gathered(v.take(i as int)).len() ==> self.spec_sender().buf@.len()
                    == self.spec_sender().buf.cap(),
                stopped ==> i < bufs@.len() && (v[i as int].len() == 0
                    || self.spec_sender().buf@.len() == self.spec_sender().buf.cap()),
            decreases bufs@.len() - i + if stopped { 0int } else { 1int },
        {
            proof {
                lemma_gathered_split(v, i as int);
                assert(v[i as int] == bufs@[i as int]@);
            }
            let m = self.sender.buf.produce(bufs[i]);
            if m == 0 {
                stopped = true;
                continue;
            }
            proof {
                let g0 = gathered(v.take(i as int));
                let g1 = gathered(v.take(i + 1));
                assert(g1 == g0 + v[i as int]);
                assert(g1.take(total + m) =~= g0.take(total as int) + v[i as int].take(m as int));
            }
            total = total + m;
            i = i + 1;
        }
        proof {
            let g = gathered(v);
            if i < bufs.len() {
                lemma_gathered_split(v, i as int);
            } else {
                assert(v.take(i as int) =~= v);
            }
            let gi = gathered(v.take(i as int));
            assert(g.take(total as int) =~= gi.take(total as int));
            assert(total == min_int(g.len() as int, free0));
        }
        if self.sender.buf.is_full() {
            self.common.remove_events(Events::from_bits(OUT));
        }
        let mut req: Option<MsgReq> = None;
        if self.sender.outstanding.is_none() && !self.sender.buf.is_empty() {
            req = Some(self.do_send());
        }
        if total > 0 {
            (Ok(total), req)
        } else {
            (Err(Errno::new(EAGAIN)), req)
        }
    }

    /// The host's completion of the outstanding send, with its result
    /// `retval`. A completion with no send outstanding is stale and ignored.
    /// A negative result records its error as fatal; a result of zero or
    /// beyond the request breaks the `sendmsg` contract and records `EIO`;
    /// both assert `ERR`. Otherwise the sent bytes leave the buffer, `OUT` is
    /// asserted, and the rest is sent next, if any is left and the socket is
    /// not broken; that send is returned.
    pub fn complete_send(&mut self, retval: i32) -> (next: Option<MsgReq>)
        requires
            old(self).wf(),
        ensures
            final(self).wf(),
            send_done_post(*old(self), retval, *final(self), next),
    {
        let q = match self.sender.outstanding {
            None => return None,
            Some(q) => q,
        };
        self.sender.outstanding = None;
        if retval < 0 || retval == 0 || retval as usize > q.iov0.len + q.iov1.len {
            let e = if retval < 0 { errno_from_retval(retval) } else { Errno::new(EIO) };
            self.common.set_fatal(e);
            self.common.add_events(Events::from_bits(ERR));
            return None;
        }
        self.sender.buf.consume_without_copy(retval as usize);
        self.common.add_events(Events::from_bits(OUT));
        if !self.sender.buf.is_empty() && self.common.fatal().is_none() {
            Some(self.do_send())
        } else {
            None
        }
    }

    /// The host reads the bytes of the outstanding send from the send buffer:
    /// copies its oldest bytes into `dst`, as many as fit, without removing
    /// them. Returns the number copied.
    pub fn host_read_send_buf(&self, dst: &mut [u8]) -> (n: usize)
        requires
            self.wf(),
        ensures
            n == min_int(old(dst)@.len() as int, self.spec_sender().buf@.len() as int),
            final(dst)@.len() == old(dst)@.len(),
            final(dst)@.take(n as int) == self.spec_sender().buf@.take(n as int),
            final(dst)@.skip(n as int) == old(dst)@.skip(n as int),
    {
        self.sender.buf.peek(dst)
    }
    /// Moves buffered bytes into `dst`: up to `dst.len()` bytes are moved
    /// and `IN` is cleared if the buffer became empty; then:
    /// after end of stream the count is returned, even zero;
    /// with bytes moved, the count is returned and a receive is started if
    /// none is outstanding and the socket is not broken;
    /// with nothing moved, `EPIPE` after a read shutdown, else the recorded
    /// error of a broken socket, else `EAGAIN` with a receive started if none
    /// is outstanding and there is room. The started receive, if any, is returned too.
    pub fn try_read(&mut self, dst: &mut [u8]) -> (r: (Result<usize, Errno>, Option<MsgReq>))
        requires
            old(self).wf(),
        ensures
            final(self).wf(),
            read_post(*old(self), old(dst)@, *final(self), final(dst)@, r),
    {
        let n = self.receiver.buf.consume(dst);
        if self.receiver.buf.is_empty() {
            self.common.remove_events(Events::from_bits(IN));
        }
        if self.receiver.end_of_file {
            return (Ok(n), None);
        }
        if n > 0 {
            let mut req: Option<MsgReq> = None;
            if self.receiver.outstanding.is_none() && self.common.fatal().is_none() {
                req = Some(self.do_recv());
            }
            return (Ok(n), req);
        }
        if self.receiver.is_shutdown {
            return (Err(Errno::new(EPIPE)), None);
        }
        if let Some(e) = self.common.fatal() {
            return (Err(e), None);
        }
        let mut req: Option<MsgReq> = None;
        if self.receiver.outstanding.is_none() && !self.receiver.buf.is_full() {
            req = Some(self.do_recv());
        }
        (Err(Errno::new(EAGAIN)), req)
    }

    /// The host's completion of the outstanding receive, with its result
    /// `retval`. A completion with no receive outstanding is stale and
    /// ignored. A negative result records its error as fatal and asserts
    /// `ERR`; zero marks the end of the stream and asserts `IN`; a result
    /// beyond the request breaks the `recvmsg` contract and records `EIO`,
    /// asserting `ERR`. Otherwise the received bytes join the buffer, `IN` is
    /// asserted, and the next receive is started if there is room and the
    /// socket is not broken; that receive is returned.
    pub fn complete_recv(&mut self, retval: i32) -> (next: Option<MsgReq>)
        requires
            old(self).wf(),
        ensures
            final(self).wf(),
            recv_done_post(*old(self), retval, *final(self), next),
    {
        let q = match self.receiver.outstanding {
            None => return None,
            Some(q) => q,
        };
        self.receiver.outstanding = None;
        if retval < 0 || retval as usize > q.iov0.len + q.iov1.len {
            let e = if retval < 0 { errno_from_retval(retval) } else { Errno::new(EIO) };
            self.common.set_fatal(e);
            self.common.add_events(Events::from_bits(ERR));
            return None;
        }
        if retval == 0 {
            self.receiver.end_of_file = true;
            self.common.add_events(Events::from_bits(IN));
            return None;
        }
        self.receiver.buf.produce_without_copy(retval as usize);
        self.common.add_events(Events::from_bits(IN));
        if !self.receiver.buf.is_full() && self.common.fatal().is_none() {
            Some(self.do_recv())
        } else {
            None
        }
    }

    /// The host writes received bytes into the free region of the receive
    /// buffer, as far as it reaches; they become readable only when the
    /// receive completes. Returns the number written.
    pub fn host_write_recv_buf(&mut self, src: &[u8]) -> (n: usize)
        requires
            old(self).wf(),
        ensures
            final(self).wf(),
            final(self).spec_common() == old(self).spec_common(),
            final(self).spec_peer_addr() == old(self).spec_peer_addr(),
            final(self).spec_sender() == old(self).spec_sender(),
            final(self).spec_receiver().outstanding == old(self).spec_receiver().outstanding,
            final(self).spec_receiver().end_of_file == old(self).spec_receiver().end_of_file,
            final(self).spec_receiver().is_shutdown == old(self).spec_receiver().is_shutdown,
            final(self).spec_receiver().buf@ == old(self).spec_receiver().buf@,
            final(self).spec_receiver().buf.cap() == old(self).spec_receiver().buf.cap(),
            n == min_int(
                src@.len() as int,
                old(self).spec_receiver().buf.cap() - old(self).spec_receiver().buf@.len(),
            ),
            final(self).spec_receiver().buf.free_region().take(n as int) == src@.take(n as int),
    {
        self.receiver.buf.write_free(src)
    }

    /// Shuts down the given halves. An outstanding send is not cancelled, so
    /// bytes already written are still delivered.
    pub fn shutdown(&mut self, how: Shutdown)
        requires
            old(self).wf(),
        ensures
            final(self).wf(),
            final(self).spec_common() == old(self).spec_common(),
            final(self).spec_peer_addr() == old(self).spec_peer_addr(),
            final(self).spec_sender().is_shutdown == (old(self).spec_sender().is_shutdown || how
                != Shutdown::Read),
            final(self).spec_receiver().is_shutdown == (old(self).spec_receiver().is_shutdown
                || how != Shutdown::Write),
            final(self).spec_sender().buf == old(self).spec_sender().buf,
            final(self).spec_sender().outstanding == old(self).spec_sender().outstanding,
            final(self).spec_receiver().buf == old(self).spec_receiver().buf,
            final(self).spec_receiver().outstanding == old(self).spec_receiver().outstanding,
            final(self).spec_receiver().end_of_file == old(self).spec_receiver().end_of_file,
    {
        match how {
            Shutdown::Read => self.receiver.shutdown(),
            Shutdown::Write => self.sender.shutdown(),
            Shutdown::Both => {
                self.receiver.shutdown();
                self.sender.shutdown();
            },
        }
    }
}

/// Once a socket is broken, it stays broken with the same error, and every
/// later write that is not refused for a shutdown returns that error.
pub proof fn lemma_fatal_write(a: ConnectedStream, src: Seq<u8>, b: ConnectedStream, r: (Result<usize, Errno>, Option<MsgReq>), e: Errno)
    requires
        write_post(a, src, b, r),
        a.fatal() == Some(e),
        !a.spec_sender().is_shutdown,
    ensures
        r.0 == Err::<usize, Errno>(e),
        r.1 is None,
        b.fatal() == Some(e),
{
}

/// Once a socket is broken, every later read that finds no buffered bytes,
/// no end of stream and no read shutdown returns the recorded error, and the
/// error stays.
pub proof fn lemma_fatal_read(a: ConnectedStream, d0: Seq<u8>, b: ConnectedStream, d1: Seq<u8>, r: (Result<usize, Errno>, Option<MsgReq>), e: Errno)
    requires
        read_post(a, d0, b, d1, r),
        a.fatal() == Some(e),
        a.spec_receiver().buf@.len() == 0,
        !a.spec_receiver().end_of_file,
        !a.spec_receiver().is_shutdown,
    ensures
        r.0 == Err::<usize, Errno>(e),
        r.1 is None,
        b.fatal() == Some(e),
{
}

/// Completions never clear or change a recorded fatal error, and start no
/// new submission on a broken socket.
pub proof fn lemma_fatal_completions(a: ConnectedStream, retval: i32, b: ConnectedStream, next: Option<MsgReq>, e: Errno)
    requires
        send_done_post(a, retval, b, next) || recv_done_post(a, retval, b, next),
        a.fatal() == Some(e),
    ensures
        b.fatal() == Some(e),
        next is None,
{
}

/// Each half has at most one submission in flight: a write or a read starts
/// one only when none is outstanding, and it becomes the outstanding one; a
/// completion retires the outstanding one before it starts the next.
pub proof fn lemma_single_outstanding(
    a: ConnectedStream,
    src: Seq<u8>,
    d0: Seq<u8>,
    d1: Seq<u8>,
    retval: i32,
    b: ConnectedStream,
    r: (Result<usize, Errno>, Option<MsgReq>),
    next: Option<MsgReq>,
)
    ensures
        write_post(a, src, b, r) && r.1 is Some ==> a.spec_sender().outstanding is None
            && b.spec_sender().outstanding == r.1,
        read_post(a, d0, b, d1, r) && r.1 is Some ==> a.spec_receiver().outstanding is None
            && b.spec_receiver().outstanding == r.1,
        send_done_post(a, retval, b, next) ==> b.spec_sender().outstanding == next,
        recv_done_post(a, retval, b, next) && a.spec_receiver().outstanding is Some
            ==> b.spec_receiver().outstanding == next,
{
}

} // verus!
