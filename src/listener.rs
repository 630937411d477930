use vstd::prelude::*;
use crate::backlog::{AcceptReq, Backlog, Entry, kind, lemma_backlog_counts};
use crate::common::{Common, SockAddr};
use crate::connected::{ConnectedStream, RECV_BUF_CAPACITY, SEND_BUF_CAPACITY};
use crate::errno::{Errno, err_of, errno_of_retval, errno_from_retval, EAGAIN, EINVAL};
use crate::readiness::{kept_waiters, poll_post};
use crate::events::{Events, ERR, IN};

verus! {

/// The largest backlog a listener keeps.
pub const MAX_BACKLOG: u32 = 4096;

/// The number of accept slots for a requested backlog: at least one, at most
/// `MAX_BACKLOG`.
pub open spec fn backlog_capacity(backlog: u32) -> nat {
    if backlog == 0 {
        1
    } else if backlog > MAX_BACKLOG {
        MAX_BACKLOG as nat
    } else {
        backlog as nat
    }
}

/// The slots after saturation: every free slot has become pending.
pub open spec fn saturated(s: Seq<Entry>) -> Seq<Entry> {
    Seq::new(s.len(), |j: int| if s[j] == Entry::Free { Entry::Pending } else { s[j] })
}

/// What `try_accept` does to listener `a`, giving `b` and result `r`.
pub open spec fn accept_post(
    a: ListenerStream,
    b: ListenerStream,
    r: (Result<ConnectedStream, Errno>, Vec<AcceptReq>),
) -> bool {
    &&& b.spec_addr() == a.spec_addr()
    &&& b.spec_common().spec_fd() == a.spec_common().spec_fd()
    &&& b.spec_common().spec_fatal() == a.spec_common().spec_fatal()
    &&& b.spec_backlog().capacity() == a.spec_backlog().capacity()
    &&& ({
        let ob = a.spec_backlog();
        let nb = b.spec_backlog();
        let broken = a.spec_common().spec_fatal() is Some;
        if ob.completed().len() == 0 {
            &&& r.0 == if broken {
                Err(a.spec_common().spec_fatal()->0)
            } else {
                Err::<ConnectedStream, Errno>(err_of(EAGAIN))
            }
            &&& broken ==> r.1@.len() == 0 && b == a
            &&& !broken ==> {
                &&& nb.entries() == saturated(ob.entries())
                &&& nb.completed() == ob.completed()
                &&& r.1@.len() == ob.free_count()
                &&& b.spec_common() == a.spec_common()
                &&& fills_free_slots(ob.entries(), r.1@)
            }
        } else {
            let slot = ob.completed()[0];
            let popped = ob.entries().update(slot as int, Entry::Free);
            &&& ob.entries()[slot as int] matches Entry::Completed { fd }
            &&& r.0 matches Ok(c) && c.spec_common().spec_fd() == fd && c.spec_peer_addr()
                == ob.peers()[slot as int] && fresh_connection(c)
            &&& !broken ==> fills_free_slots(popped, r.1@)
            &&& nb.completed() == ob.completed().skip(1)
            &&& nb.entries() == if broken { popped } else { saturated(popped) }
            &&& r.1@.len() == if broken { 0 } else { ob.free_count() + 1 }
            &&& b.spec_common().asserted() == if nb.completed().len() == 0 {
                a.spec_common().asserted() & !IN
            } else {
                a.spec_common().asserted()
            }
        }
    })
    &&& forall|k: int|
        0 <= k < r.1@.len() ==> (#[trigger] r.1@[k]).fd == a.spec_common().spec_fd()
}

/// What the completion of the accept in `slot` does to listener `a`,
/// giving `b`.
pub open spec fn accept_done_post(
    a: ListenerStream,
    slot: usize,
    retval: i32,
    peer: SockAddr,
    b: ListenerStream,
) -> bool {
    &&& b.spec_addr() == a.spec_addr()
    &&& b.spec_common().spec_fd() == a.spec_common().spec_fd()
    &&& ({
        let ob = a.spec_backlog();
        let nb = b.spec_backlog();
        let pending = slot < ob.capacity() && ob.entries()[slot as int] == Entry::Pending;
        &&& !pending ==> b == a
        &&& (pending && retval < 0) ==> {
            &&& nb.entries() == ob.entries().update(slot as int, Entry::Free)
            &&& nb.completed() == ob.completed()
            &&& b.spec_common().spec_fatal() == if a.spec_common().spec_fatal() is None {
                Some(errno_of_retval(retval))
            } else {
                a.spec_common().spec_fatal()
            }
            &&& b.spec_common().asserted() == a.spec_common().asserted()
                | ERR
            &&& b.spec_common().spec_pollee().waiters() == kept_waiters(
                a.spec_common().spec_pollee().waiters(),
                ERR,
            )
        }
        &&& (pending && retval >= 0) ==> {
            &&& nb.entries() == ob.entries().update(
                slot as int,
                Entry::Completed { fd: retval as u32 },
            )
            &&& nb.completed() == ob.completed().push(slot)
            &&& nb.peers() == ob.peers().update(slot as int, peer)
            &&& b.spec_common().spec_fatal() == a.spec_common().spec_fatal()
            &&& b.spec_common().asserted() == a.spec_common().asserted()
                | IN
            &&& b.spec_common().spec_pollee().waiters() == kept_waiters(
                a.spec_common().spec_pollee().waiters(),
                IN,
            )
        }
    })
}

/// `c` is a connection as accepted: well formed, unbound, unbroken, with
/// empty buffers of the default capacities, nothing in flight, no shutdown,
/// no end of stream, and only `IN` asserted.
pub open spec fn fresh_connection(c: ConnectedStream) -> bool {
    &&& c.wf()
    &&& c.asserted() == IN
    &&& c.spec_common().spec_addr() is None
    &&& c.fatal() is None
    &&& c.spec_sender().buf@.len() == 0
    &&& c.spec_sender().buf.cap() == SEND_BUF_CAPACITY
    &&& c.spec_sender().outstanding is None
    &&& !c.spec_sender().is_shutdown
    &&& c.spec_receiver().buf@.len() == 0
    &&& c.spec_receiver().buf.cap() == RECV_BUF_CAPACITY
    &&& c.spec_receiver().outstanding is None
    &&& !c.spec_receiver().end_of_file
    &&& !c.spec_receiver().is_shutdown
}

/// The accepts `reqs` name free slots of `s`, each once, lowest first.
pub open spec fn fills_free_slots(s: Seq<Entry>, reqs: Seq<AcceptReq>) -> bool {
    &&& forall|k: int|
        0 <= k < reqs.len() ==> #[trigger] reqs[k].slot < s.len() && s[reqs[k].slot as int]
            == Entry::Free
    &&& forall|a: int, b: int| 0 <= a < b < reqs.len() ==> reqs[a].slot < reqs[b].slot
}

/// A listening stream, which keeps its backlog full of accepts.
pub struct ListenerStream {
    common: Common,
    addr: SockAddr,
    backlog: Backlog,
}

impl ListenerStream {
    pub closed spec fn spec_common(&self) -> Common {
        self.common
    }

    pub closed spec fn spec_addr(&self) -> SockAddr {
        self.addr
    }

    pub closed spec fn spec_backlog(&self) -> Backlog {
        self.backlog
    }

    pub open spec fn wf(&self) -> bool {
        &&& self.spec_common().wf()
        &&& self.spec_backlog().wf()
        &&& self.spec_backlog().capacity() > 0
    }

    /// A listener over `common`, which must be bound to an address (else
    /// `EINVAL`), with an empty backlog of `backlog_capacity(backlog)` slots.
    pub fn new(common: Common, backlog: u32) -> (r: Result<ListenerStream, Errno>)
        requires
            common.wf(),
        ensures
            common.spec_addr() is None <==> r is Err,
            r matches Err(e) ==> e == err_of(EINVAL),
            r matches Ok(l) ==> {
                &&& l.wf()
                &&& l.spec_common() == common
                &&& Some(l.spec_addr()) == common.spec_addr()
                &&& l.spec_backlog().capacity() == backlog_capacity(backlog)
                &&& l.spec_backlog().free_count() == backlog_capacity(backlog)
                &&& l.spec_backlog().completed().len() == 0
            },
    {
        let addr = match common.addr() {
            None => return Err(Errno::new(EINVAL)),
            Some(a) => a,
        };
        let cap: u32 = if backlog == 0 {
            1
        } else if backlog > MAX_BACKLOG {
            MAX_BACKLOG
        } else {
            backlog
        };
        let bl = Backlog::with_capacity(cap as usize);
        proof {
            lemma_backlog_counts(&bl);
            assert(forall|j: int|
                0 <= j < bl.entries().len() ==> kind(#[trigger] bl.entries()[j]) != 1 && kind(
                    bl.entries()[j],
                ) != 2);
            crate::backlog::lemma_count_none(bl.entries(), 1);
            crate::backlog::lemma_count_none(bl.entries(), 2);
        }
        Ok(ListenerStream { common, addr, backlog: bl })
    }

    pub fn addr(&self) -> (r: SockAddr)
        ensures
            r == self.spec_addr(),
    {
        self.addr
    }

    pub fn common(&self) -> (r: &Common)
        ensures
            *r == self.spec_common(),
    {
        &self.common
    }

    /// Polls the listener's readiness cell; see `Pollee::poll_by`.
    pub fn poll_by(&mut self, mask: Events, poller: Option<u64>) -> (r: Events)
        requires
            old(self).wf(),
        ensures
            final(self).wf(),
            r.bits == crate::readiness::observed(old(self).spec_common().asserted(), mask.bits),
            final(self).spec_common().asserted() == old(self).spec_common().asserted(),
            final(self).spec_common().spec_fd() == old(self).spec_common().spec_fd(),
            final(self).spec_common().spec_fatal() == old(self).spec_common().spec_fatal(),
            final(self).spec_addr() == old(self).spec_addr(),
            final(self).spec_backlog() == old(self).spec_backlog(),
            poll_post(old(self).spec_common().spec_pollee(), mask, poller, final(self).spec_common().spec_pollee(), r),
            (poller is None || r.bits != 0) ==> *final(self) == *old(self),
    {
        self.common.poll_by(mask, poller)
    }

    /// Starts an accept in every free slot, lowest slot first, and returns
    /// them.
    fn initiate_async_accepts(&mut self) -> (reqs: Vec<AcceptReq>)
        requires
            old(self).wf(),
        ensures
            final(self).wf(),
            final(self).spec_common() == old(self).spec_common(),
            final(self).spec_addr() == old(self).spec_addr(),
            final(self).spec_backlog().entries() == saturated(old(self).spec_backlog().entries()),
            final(self).spec_backlog().completed() == old(self).spec_backlog().completed(),
            final(self).spec_backlog().peers() == old(self).spec_backlog().peers(),
            final(self).spec_backlog().free_count() == 0,
            final(self).spec_backlog().pending_count() + final(self).spec_backlog().completed_count()
                == final(self).spec_backlog().capacity(),
            reqs@.len() == old(self).spec_backlog().free_count(),
            forall|k: int|
                0 <= k < reqs@.len() ==> {
                    &&& (#[trigger] reqs@[k]).fd == old(self).spec_common().spec_fd()
                    &&& reqs@[k].slot < old(self).spec_backlog().capacity()
                    &&& old(self).spec_backlog().entries()[reqs@[k].slot as int] == Entry::Free
                },
            forall|a: int, b: int| 0 <= a < b < reqs@.len() ==> reqs@[a].slot < reqs@[b].slot,
    {
        let mut reqs: Vec<AcceptReq> = Vec::new();
        let ghost old_entries = self.backlog.entries();
        let ghost mut bound: int = 0;
        let fd = self.common.fd();
        while self.backlog.has_free_entries()
            invariant
                self.wf(),
                self.common == old(self).common,
                self.addr == old(self).addr,
                fd == self.common.spec_fd(),
                old_entries == old(self).backlog.entries(),
                self.backlog.entries().len() == old_entries.len(),
                self.backlog.completed() == old(self).backlog.completed(),
                self.backlog.peers() == old(self).backlog.peers(),
                0 <= bound <= old_entries.len(),
                forall|j: int|
                    0 <= j < bound ==> #[trigger] self.backlog.entries()[j] == saturated(old_entries)[j],
                forall|j: int|
                    bound <= j < old_entries.len() ==> #[trigger] self.backlog.entries()[j]
                        == old_entries[j],
                reqs@.len() + self.backlog.free_count() == old(self).backlog.free_count(),
                forall|k: int|
                    0 <= k < reqs@.len() ==> {
                        &&& (#[trigger] reqs@[k]).fd == fd
                        &&& reqs@[k].slot < bound
                        &&& old_entries[reqs@[k].slot as int] == Entry::Free
                    },
                forall|a: int, b: int| 0 <= a < b < reqs@.len() ==> reqs@[a].slot < reqs@[b].slot,
            decreases self.backlog.free_count(),
        {
            let req = self.backlog.start_new_req(fd);
            proof {
                let s = req.slot as int;
                assert forall|j: int| bound <= j < s implies old_entries[j] != Entry::Free by {
                    assert(self.backlog.entries()[j] == old(self).backlog.entries().update(
                        s,
                        Entry::Pending,
                    )[j]);
                }
                if s < bound {
                    assert(saturated(old_entries)[s] != Entry::Free);
                }
                bound = s + 1;
            }
            reqs.push(req);
        }
        proof {
            assert forall|j: int| 0 <= j < old_entries.len() implies #[trigger] self.backlog.entries()[j]
                == saturated(old_entries)[j] by {
                if j >= bound {
                    if self.backlog.entries()[j] == Entry::Free {
                        crate::backlog::lemma_count_has(self.backlog.entries(), 0, j);
                    }
                }
            }
            assert(self.backlog.entries() =~= saturated(old_entries));
            lemma_backlog_counts(&self.backlog);
        }
        reqs
    }
    /// Takes the connection that completed first. With none, fails with the
    /// listener's fatal error if it has one, and otherwise starts accepts in
    /// every free slot (the first call fills the backlog) and fails with
    /// `EAGAIN`. With one, `IN` is cleared if no other is left, the free
    /// slots are refilled unless the listener is broken, and a connected
    /// stream over the accepted descriptor and peer is returned. The accepts
    /// started are returned too.
    pub fn try_accept(&mut self) -> (r: (Result<ConnectedStream, Errno>, Vec<AcceptReq>))
        requires
            old(self).wf(),
        ensures
            final(self).wf(),
            accept_post(*old(self), *final(self), r),
    {
        let popped = self.backlog.pop_completed_req();
        match popped {
            None => {
                if let Some(e) = self.common.fatal() {
                    return (Err(e), Vec::new());
                }
                let reqs = self.initiate_async_accepts();
                (Err(Errno::new(EAGAIN)), reqs)
            },
            Some((fd, peer)) => {
                if !self.backlog.has_completed_reqs() {
                    self.common.remove_events(Events::from_bits(IN));
                }
                let accepted = ConnectedStream::with_fd_and_peer(fd, peer);
                let reqs = if self.common.fatal().is_none() {
                    self.initiate_async_accepts()
                } else {
                    Vec::new()
                };
                (Ok(accepted), reqs)
            },
        }
    }

    /// The host's completion of the accept in `slot`, with the peer address
    /// it wrote. A negative `retval` records its error as the listener's
    /// fatal error, asserts `ERR` and frees the slot; otherwise the slot
    /// holds the accepted descriptor and `IN` is asserted. A completion for a
    /// slot that is not pending is stale and ignored.
    pub fn complete_accept(&mut self, slot: usize, retval: i32, peer: SockAddr)
        requires
            old(self).wf(),
        ensures
            final(self).wf(),
            accept_done_post(*old(self), slot, retval, peer, *final(self)),
    {
        if !self.backlog.complete_req(slot, retval, peer) {
            return;
        }
        if retval < 0 {
            self.common.set_fatal(errno_from_retval(retval));
            self.common.add_events(Events::from_bits(ERR));
        } else {
            self.common.add_events(Events::from_bits(IN));
        }
    }
}

} // verus!
