use vstd::prelude::*;
use crate::common::{Common, SockAddr};
use crate::errno::{Errno, err_of, errno_of_retval, errno_from_retval, EIO};
use crate::readiness::{kept_waiters, poll_post};
use crate::events::{Events, ERR, OUT};

verus! {

/// A `connect` submission for the host: connect `fd` to `peer`.
#[derive(Clone, Copy, Debug, PartialEq, Eq, Structural)]
pub struct ConnectReq {
    pub fd: u32,
    pub peer: SockAddr,
}

/// A socket that is neither connected nor listening; it may be bound.
pub struct InitStream {
    common: Common,
}

impl InitStream {
    pub closed spec fn spec_common(&self) -> Common {
        self.common
    }

    pub open spec fn wf(&self) -> bool {
        self.spec_common().wf()
    }

    /// An unbound socket on the host descriptor `fd`.
    pub fn new(fd: u32) -> (r: InitStream)
        ensures
            r.wf(),
            r.spec_common().spec_fd() == fd,
            r.spec_common().spec_addr() is None,
            r.spec_common().spec_fatal() is None,
            r.spec_common().asserted() == 0,
    {
        InitStream { common: Common::with_fd(fd) }
    }

    /// The socket block `common`, in the initial state.
    pub fn from_common(common: Common) -> (r: InitStream)
        ensures
            r.spec_common() == common,
    {
        InitStream { common }
    }

    /// Records the local address `addr`.
    pub fn bind(&mut self, addr: SockAddr)
        requires
            old(self).wf(),
        ensures
            final(self).wf(),
            final(self).spec_common().spec_addr() == Some(addr),
            final(self).spec_common().spec_fd() == old(self).spec_common().spec_fd(),
            final(self).spec_common().spec_pollee() == old(self).spec_common().spec_pollee(),
            final(self).spec_common().spec_fatal() == old(self).spec_common().spec_fatal(),
    {
        self.common.set_addr(addr);
    }

    /// Polls the readiness cell; see `Pollee::poll_by`.
    pub fn poll_by(&mut self, mask: Events, poller: Option<u64>) -> (r: Events)
        requires
            old(self).wf(),
        ensures
            final(self).wf(),
            final(self).spec_common().spec_fd() == old(self).spec_common().spec_fd(),
            final(self).spec_common().spec_addr() == old(self).spec_common().spec_addr(),
            final(self).spec_common().spec_fatal() == old(self).spec_common().spec_fatal(),
            poll_post(old(self).spec_common().spec_pollee(), mask, poller, final(self).spec_common().spec_pollee(), r),
            (poller is None || r.bits != 0) ==> *final(self) == *old(self),
    {
        self.common.poll_by(mask, poller)
    }

    pub fn common(&self) -> (r: &Common)
        ensures
            *r == self.spec_common(),
    {
        &self.common
    }

    pub fn into_common(self) -> (r: Common)
        ensures
            r == self.spec_common(),
    {
        self.common
    }
}

/// A socket with one `connect` in flight. It keeps the socket block of the
/// initial state, so that a failed attempt can restore it.
pub struct ConnectingStream {
    common: Common,
    peer_addr: SockAddr,
    outstanding: bool,
    done: bool,
    err: Option<Errno>,
}

impl ConnectingStream {
    pub closed spec fn spec_common(&self) -> Common {
        self.common
    }

    pub closed spec fn spec_peer_addr(&self) -> SockAddr {
        self.peer_addr
    }

    /// Whether the connect is submitted and not yet completed.
    pub closed spec fn spec_outstanding(&self) -> bool {
        self.outstanding
    }

    /// The outcome, once the connect has completed.
    pub closed spec fn spec_result(&self) -> Option<Result<(), Errno>> {
        if !self.done {
            None
        } else if let Some(e) = self.err {
            Some(Err(e))
        } else {
            Some(Ok(()))
        }
    }

    pub open spec fn wf(&self) -> bool {
        &&& self.spec_common().wf()
        &&& self.spec_outstanding() ==> self.spec_result() is None
    }

    /// A connecting socket over `common`, aiming at `peer_addr`; nothing is
    /// submitted yet.
    pub fn new(common: Common, peer_addr: SockAddr) -> (r: ConnectingStream)
        requires
            common.wf(),
        ensures
            r.wf(),
            r.spec_common() == common,
            r.spec_peer_addr() == peer_addr,
            !r.spec_outstanding(),
            r.spec_result() is None,
    {
        ConnectingStream { common, peer_addr, outstanding: false, done: false, err: None }
    }

    /// Clears the readiness cell and submits the connect, which is returned.
    pub fn initiate_async_connect(&mut self) -> (r: ConnectReq)
        requires
            old(self).wf(),
            !old(self).spec_outstanding(),
            old(self).spec_result() is None,
        ensures
            final(self).wf(),
            r == (ConnectReq { fd: old(self).spec_common().spec_fd(), peer: old(self).spec_peer_addr() }),
            final(self).spec_outstanding(),
            final(self).spec_result() is None,
            final(self).spec_peer_addr() == old(self).spec_peer_addr(),
            final(self).spec_common().spec_fd() == old(self).spec_common().spec_fd(),
            final(self).spec_common().spec_addr() == old(self).spec_common().spec_addr(),
            final(self).spec_common().spec_fatal() == old(self).spec_common().spec_fatal(),
            final(self).spec_common().asserted() == 0,
    {
        self.common.reset_events();
        self.outstanding = true;
        ConnectReq { fd: self.common.fd(), peer: self.peer_addr }
    }

    /// The host's completion of the connect, with result `retval`: zero
    /// succeeds and asserts `OUT`; a negative value fails with its error and
    /// asserts `ERR`; a positive one breaks the `connect` contract and fails
    /// with `EIO`. A completion with no connect outstanding is stale and
    /// ignored.
    pub fn complete(&mut self, retval: i32)
        requires
            old(self).wf(),
        ensures
            final(self).wf(),
            final(self).spec_peer_addr() == old(self).spec_peer_addr(),
            final(self).spec_common().spec_fd() == old(self).spec_common().spec_fd(),
            final(self).spec_common().spec_addr() == old(self).spec_common().spec_addr(),
            final(self).spec_common().spec_fatal() == old(self).spec_common().spec_fatal(),
            !old(self).spec_outstanding() ==> *final(self) == *old(self),
            old(self).spec_outstanding() ==> {
                &&& !final(self).spec_outstanding()
                &&& final(self).spec_result() == Some(
                    if retval == 0 {
                        Ok(())
                    } else if retval < 0 {
                        Err(errno_of_retval(retval))
                    } else {
                        Err(err_of(EIO))
                    },
                )
            },
            old(self).spec_outstanding() ==> final(self).spec_common().asserted() == old(
                self,
            ).spec_common().asserted() | if retval == 0 {
                OUT
            } else {
                ERR
            },
            old(self).spec_outstanding() ==> final(self).spec_common().spec_pollee().waiters()
                == kept_waiters(
                old(self).spec_common().spec_pollee().waiters(),
                if retval == 0 {
                    OUT
                } else {
                    ERR
                },
            ),
    {
        if !self.outstanding {
            return;
        }
        self.outstanding = false;
        self.done = true;
        if retval == 0 {
            self.err = None;
            self.common.add_events(Events::from_bits(OUT));
        } else {
            let e = if retval < 0 { errno_from_retval(retval) } else { Errno::new(EIO) };
            self.err = Some(e);
            self.common.add_events(Events::from_bits(ERR));
        }
    }

    /// The outcome: `None` while the connect is in flight.
    pub fn result(&self) -> (r: Option<Result<(), Errno>>)
        ensures
            r == self.spec_result(),
    {
        if !self.done {
            None
        } else if let Some(e) = self.err {
            Some(Err(e))
        } else {
            Some(Ok(()))
        }
    }

    /// Whether the connect is submitted and not yet completed.
    pub fn is_outstanding(&self) -> (r: bool)
        ensures
            r == self.spec_outstanding(),
    {
        self.outstanding
    }

    pub fn peer_addr(&self) -> (r: SockAddr)
        ensures
            r == self.spec_peer_addr(),
    {
        self.peer_addr
    }

    /// Polls the readiness cell; see `Pollee::poll_by`.
    pub fn poll_by(&mut self, mask: Events, poller: Option<u64>) -> (r: Events)
        requires
            old(self).wf(),
        ensures
            final(self).wf(),
            final(self).spec_common().spec_fd() == old(self).spec_common().spec_fd(),
            final(self).spec_common().spec_addr() == old(self).spec_common().spec_addr(),
            final(self).spec_common().spec_fatal() == old(self).spec_common().spec_fatal(),
            poll_post(old(self).spec_common().spec_pollee(), mask, poller, final(self).spec_common().spec_pollee(), r),
            (poller is None || r.bits != 0) ==> *final(self) == *old(self),
    {
        self.common.poll_by(mask, poller)
    }

    pub fn common(&self) -> (r: &Common)
        ensures
            *r == self.spec_common(),
    {
        &self.common
    }

    pub fn into_common(self) -> (r: Common)
        ensures
            r == self.spec_common(),
    {
        self.common
    }
}

} // verus!
