use vstd::prelude::*;
use crate::errno::Errno;
use crate::events::Events;
use crate::readiness::{Pollee, kept_waiters, poll_post, registered, woken_ids};

verus! {

/// An IPv4 socket address.
#[derive(Clone, Copy, Debug, PartialEq, Eq, Structural)]
pub struct SockAddr {
    pub ip: u32,
    pub port: u16,
}

/// What every state of a socket shares: the host descriptor, the local
/// address it is bound to, the readiness cell, and the fatal-error slot,
/// which is written at most once.
pub struct Common {
    fd: u32,
    addr: Option<SockAddr>,
    pollee: Pollee,
    fatal: Option<Errno>,
}

impl Common {
    pub closed spec fn spec_fd(&self) -> u32 {
        self.fd
    }

    pub closed spec fn spec_addr(&self) -> Option<SockAddr> {
        self.addr
    }

    pub closed spec fn spec_pollee(&self) -> Pollee {
        self.pollee
    }

    pub closed spec fn spec_fatal(&self) -> Option<Errno> {
        self.fatal
    }

    /// The asserted event bits of the readiness cell.
    pub open spec fn asserted(&self) -> u32 {
        self.spec_pollee().asserted_bits()
    }

    pub open spec fn wf(&self) -> bool {
        self.spec_pollee().wf()
    }

    /// A socket block for the host descriptor `fd`, with nothing asserted and
    /// no fatal error.
    pub fn with_fd(fd: u32) -> (r: Common)
        ensures
            r.wf(),
            r.spec_fd() == fd,
            r.spec_addr() is None,
            r.asserted() == 0,
            r.spec_pollee().waiters().len() == 0,
            r.spec_fatal() is None,
    {
        Common { fd, addr: None, pollee: Pollee::new(Events::empty()), fatal: None }
    }

    pub fn fd(&self) -> (r: u32)
        ensures
            r == self.spec_fd(),
    {
        self.fd
    }

    pub fn addr(&self) -> (r: Option<SockAddr>)
        ensures
            r == self.spec_addr(),
    {
        self.addr
    }

    /// Records the local address the socket is bound to.
    pub fn set_addr(&mut self, addr: SockAddr)
        ensures
            final(self).spec_addr() == Some(addr),
            final(self).spec_fd() == old(self).spec_fd(),
            final(self).spec_pollee() == old(self).spec_pollee(),
            final(self).spec_fatal() == old(self).spec_fatal(),
    {
        self.addr = Some(addr);
    }

    pub fn pollee(&self) -> (r: &Pollee)
        ensures
            *r == self.spec_pollee(),
    {
        &self.pollee
    }

    pub fn fatal(&self) -> (r: Option<Errno>)
        ensures
            r == self.spec_fatal(),
    {
        self.fatal
    }

    /// Records `e` as the fatal error, unless one is recorded already.
    pub fn set_fatal(&mut self, e: Errno)
        requires
            old(self).wf(),
        ensures
            final(self).wf(),
            final(self).spec_fd() == old(self).spec_fd(),
            final(self).spec_addr() == old(self).spec_addr(),
            final(self).spec_pollee() == old(self).spec_pollee(),
            final(self).spec_fatal() == if old(self).spec_fatal() is None {
                Some(e)
            } else {
                old(self).spec_fatal()
            },
    {
        if self.fatal.is_none() {
            self.fatal = Some(e);
        }
    }

    /// Asserts `ev` on the readiness cell; returns the pollers woken.
    pub fn add_events(&mut self, ev: Events) -> (woken: Vec<u64>)
        requires
            old(self).wf(),
        ensures
            final(self).wf(),
            final(self).spec_fd() == old(self).spec_fd(),
            final(self).spec_addr() == old(self).spec_addr(),
            final(self).spec_fatal() == old(self).spec_fatal(),
            final(self).asserted() == old(self).asserted() | ev.bits,
            woken@ == woken_ids(old(self).spec_pollee().waiters(), ev.bits),
            final(self).spec_pollee().waiters() == kept_waiters(old(self).spec_pollee().waiters(), ev.bits),
    {
        self.pollee.add(ev)
    }

    /// Clears `ev` on the readiness cell.
    pub fn remove_events(&mut self, ev: Events)
        requires
            old(self).wf(),
        ensures
            final(self).wf(),
            final(self).spec_fd() == old(self).spec_fd(),
            final(self).spec_addr() == old(self).spec_addr(),
            final(self).spec_fatal() == old(self).spec_fatal(),
            final(self).asserted() == old(self).asserted() & !ev.bits,
            final(self).spec_pollee().waiters() == old(self).spec_pollee().waiters(),
    {
        self.pollee.remove(ev)
    }

    /// Clears every event on the readiness cell.
    pub fn reset_events(&mut self)
        requires
            old(self).wf(),
        ensures
            final(self).wf(),
            final(self).spec_fd() == old(self).spec_fd(),
            final(self).spec_addr() == old(self).spec_addr(),
            final(self).spec_fatal() == old(self).spec_fatal(),
            final(self).asserted() == 0,
            final(self).spec_pollee().waiters() == old(self).spec_pollee().waiters(),
    {
        self.pollee.reset()
    }

    /// Polls the readiness cell; see `Pollee::poll_by`.
    pub fn poll_by(&mut self, mask: Events, poller: Option<u64>) -> (r: Events)
        requires
            old(self).wf(),
        ensures
            final(self).wf(),
            final(self).spec_fd() == old(self).spec_fd(),
            final(self).spec_addr() == old(self).spec_addr(),
            final(self).spec_fatal() == old(self).spec_fatal(),
            poll_post(old(self).spec_pollee(), mask, poller, final(self).spec_pollee(), r),
            (poller is None || r.bits != 0) ==> *final(self) == *old(self),
    {
        self.pollee.poll_by(mask, poller)
    }

    /// Deregisters the poller `id` from the readiness cell.
    pub fn unregister_poller(&mut self, id: u64)
        requires
            old(self).wf(),
        ensures
            final(self).wf(),
            final(self).spec_fd() == old(self).spec_fd(),
            final(self).spec_addr() == old(self).spec_addr(),
            final(self).spec_fatal() == old(self).spec_fatal(),
            final(self).asserted() == old(self).asserted(),
            !registered(final(self).spec_pollee().waiters(), id),
    {
        self.pollee.unregister(id)
    }
}

} // verus!
