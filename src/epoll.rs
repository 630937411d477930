use vstd::prelude::*;
use std::collections::VecDeque;
use crate::errno::{Errno, err_of, EBADF, EEXIST, ENOENT};
use crate::events::{Events, IN};
use crate::readiness::{Pollee, observed};

verus! {

/// Report events edge-triggered: an entry is not queued again after it is
/// reported (EPOLLET).
pub const EDGE_TRIGGER: u32 = 0x8000_0000;

/// EPOLLONESHOT; accepted and not acted on.
pub const ONE_SHOT: u32 = 0x4000_0000;

/// EPOLLWAKEUP; accepted and not acted on.
pub const WAKE_UP: u32 = 0x2000_0000;

/// EPOLLEXCLUSIVE; accepted and not acted on.
pub const EXCLUSIVE: u32 = 0x1000_0000;

/// An event to report: the events that happened and the user's data.
#[derive(Clone, Copy, Debug, PartialEq, Eq, Structural)]
pub struct EpollEvent {
    pub events: Events,
    pub data: u64,
}

/// A command on the interest list.
#[derive(Clone, Copy, Debug, PartialEq, Eq, Structural)]
pub enum EpollCtl {
    /// Watch `fd` for the events of the given mask, with the given flags.
    Add(u32, EpollEvent, u32),
    /// Stop watching `fd`.
    Del(u32),
    /// Change what `fd` is watched for.
    Mod(u32, EpollEvent, u32),
}

/// A watched file. A deleted entry stays in its slot while it is still
/// queued as ready; a deleted entry that is not queued is a free slot.
#[derive(Clone, Copy, Debug, PartialEq, Eq, Structural)]
pub struct EpollEntry {
    pub fd: u32,
    pub event: EpollEvent,
    pub flags: u32,
    pub is_ready: bool,
    pub is_deleted: bool,
}

/// The events that the file table `files` shows for `fd`: none for a
/// descriptor beyond it.
pub open spec fn file_bits(files: Seq<Events>, fd: u32) -> u32 {
    if fd < files.len() {
        files[fd as int].bits
    } else {
        0
    }
}

/// The slot is unused.
pub open spec fn is_dead(e: EpollEntry) -> bool {
    e.is_deleted && !e.is_ready
}

/// `fd` is on the interest list of the slots `es`.
pub open spec fn watched(es: Seq<EpollEntry>, fd: u32) -> bool {
    exists|i: int| 0 <= i < es.len() && !es[i].is_deleted && #[trigger] es[i].fd == fd
}

/// The slot of the live entry for `fd`.
pub open spec fn slot_of(es: Seq<EpollEntry>, fd: u32) -> int {
    choose|i: int| 0 <= i < es.len() && !es[i].is_deleted && #[trigger] es[i].fd == fd
}

/// The two entries agree but for the ready flag.
pub open spec fn same_but_ready(a: EpollEntry, b: EpollEntry) -> bool {
    a.fd == b.fd && a.event == b.event && a.flags == b.flags && a.is_deleted == b.is_deleted
}

/// The events that `pop_ready` reports for the queued slots `ids`, in order:
/// one for each live entry whose file shows some of the entry's events.
pub open spec fn emitted(es: Seq<EpollEntry>, ids: Seq<usize>, files: Seq<Events>) -> Seq<EpollEvent>
    decreases ids.len(),
{
    if ids.len() == 0 {
        Seq::empty()
    } else {
        let rest = emitted(es, ids.drop_last(), files);
        let e = es[ids.last() as int];
        let ev = observed(file_bits(files, e.fd), e.event.events.bits);
        if !e.is_deleted && ev != 0 {
            rest.push(EpollEvent { events: Events { bits: ev }, data: e.event.data })
        } else {
            rest
        }
    }
}

/// The slots among `ids` that `pop_ready` queues again: the reported ones
/// that are not edge-triggered.
pub open spec fn requeued(es: Seq<EpollEntry>, ids: Seq<usize>, files: Seq<Events>) -> Seq<usize>
    decreases ids.len(),
{
    if ids.len() == 0 {
        Seq::empty()
    } else {
        let rest = requeued(es, ids.drop_last(), files);
        let e = es[ids.last() as int];
        let ev = observed(file_bits(files, e.fd), e.event.events.bits);
        if !e.is_deleted && ev != 0 && e.flags & EDGE_TRIGGER == 0 {
            rest.push(ids.last())
        } else {
            rest
        }
    }
}

/// No descriptor has two live entries.
pub open spec fn fds_unique(es: Seq<EpollEntry>) -> bool {
    forall|i: int, j: int|
        0 <= i < es.len() && 0 <= j < es.len() && i != j && !es[i].is_deleted && !es[j].is_deleted
            ==> #[trigger] es[i].fd != #[trigger] es[j].fd
}

/// The interest list: each watched descriptor with its live entry.
pub open spec fn interest(es: Seq<EpollEntry>) -> Map<u32, EpollEntry> {
    Map::new(|fd: u32| watched(es, fd), |fd: u32| es[slot_of(es, fd)])
}

proof fn lemma_slot_of(es: Seq<EpollEntry>, i: int)
    requires
        fds_unique(es),
        0 <= i < es.len(),
        !es[i].is_deleted,
    ensures
        watched(es, es[i].fd),
        slot_of(es, es[i].fd) == i,
{
    assert(watched(es, es[i].fd));
    let j = slot_of(es, es[i].fd);
    if j != i {
        assert(es[i].fd != es[j].fd);
    }
}

/// Writing `e` into slot `i` takes the old entry's descriptor off the
/// interest list, if it was live, and puts `e`'s on, if `e` is live.
proof fn lemma_interest_update(es: Seq<EpollEntry>, i: int, e: EpollEntry)
    requires
        fds_unique(es),
        0 <= i < es.len(),
        !e.is_deleted ==> !watched(es, e.fd) || (!es[i].is_deleted && es[i].fd == e.fd),
    ensures
        fds_unique(es.update(i, e)),
        interest(es.update(i, e)) == ({
            let m = if es[i].is_deleted {
                interest(es)
            } else {
                interest(es).remove(es[i].fd)
            };
            if e.is_deleted {
                m
            } else {
                m.insert(e.fd, e)
            }
        }),
{
    let es2 = es.update(i, e);
    assert forall|a: int, b: int|
        0 <= a < es2.len() && 0 <= b < es2.len() && a != b && !es2[a].is_deleted
            && !es2[b].is_deleted implies #[trigger] es2[a].fd != #[trigger] es2[b].fd by {
        if a == i && b != i {
            if es2[b].fd == e.fd {
                assert(watched(es, e.fd));
            }
        } else if b == i && a != i {
            if es2[a].fd == e.fd {
                assert(watched(es, e.fd));
            }
        }
    }
    let m = if es[i].is_deleted {
        interest(es)
    } else {
        interest(es).remove(es[i].fd)
    };
    let want = if e.is_deleted {
        m
    } else {
        m.insert(e.fd, e)
    };
    assert forall|fd: u32| #[trigger] want.dom().contains(fd) == watched(es2, fd) by {
        if want.dom().contains(fd) {
            if !e.is_deleted && fd == e.fd {
                assert(es2[i].fd == fd && !es2[i].is_deleted);
            } else {
                assert(watched(es, fd));
                let j = slot_of(es, fd);
                assert(j != i);
                assert(es2[j] == es[j]);
            }
        }
        if watched(es2, fd) {
            let j = slot_of(es2, fd);
            if j != i {
                assert(es2[j] == es[j]);
                assert(watched(es, fd));
                if !es[i].is_deleted && fd == es[i].fd {
                    assert(es[i].fd != es[j].fd);
                }
            }
        }
    }
    assert forall|fd: u32| #[trigger] want.dom().contains(fd) implies want[fd] == es2[slot_of(
        es2,
        fd,
    )] by {
        let j = slot_of(es2, fd);
        lemma_slot_of(es2, j);
        if j != i {
            lemma_slot_of(es, j);
        }
    }
    assert(interest(es2) =~= want);
}

/// Appending a free slot leaves the interest list as it is.
proof fn lemma_interest_push_dead(es: Seq<EpollEntry>, e: EpollEntry)
    requires
        fds_unique(es),
        e.is_deleted,
    ensures
        fds_unique(es.push(e)),
        interest(es.push(e)) == interest(es),
{
    let es2 = es.push(e);
    assert forall|fd: u32| watched(es2, fd) == watched(es, fd) by {
        if watched(es, fd) {
            let j = slot_of(es, fd);
            assert(es2[j] == es[j]);
        }
    }
    assert forall|fd: u32| #[trigger] interest(es).dom().contains(fd) implies interest(es)[fd]
        == es2[slot_of(es2, fd)] by {
        let j = slot_of(es2, fd);
        assert(es2[j] == es[j]);
        lemma_slot_of(es, j);
    }
    assert(interest(es2) =~= interest(es));
}

/// A file that provides the epoll interface: an interest list, a queue of
/// entries that probably have events, and a readiness cell of its own that
/// shows `IN` while the queue is not empty.
pub struct EpollFile {
    entries: Vec<EpollEntry>,
    ready: VecDeque<usize>,
    pollee: Pollee,
}

/// What `Add(fd, ev, flags)` does to epoll file `a`, given what the file
/// shows (`file`), giving `b` and result `r`.
pub open spec fn add_post(
    a: EpollFile,
    fd: u32,
    ev: EpollEvent,
    flags: u32,
    file: Option<Events>,
    b: EpollFile,
    r: Result<(), Errno>,
) -> bool {
    &&& file is None ==> r == Err::<(), Errno>(err_of(EBADF)) && b == a
    &&& file is Some && watched(a.entries(), fd) ==> r == Err::<(), Errno>(err_of(EEXIST)) && b == a
    &&& file is Some && !watched(a.entries(), fd) ==> {
        let probe = observed(file->0.bits, ev.events.bits) != 0;
        let slot = slot_of(b.entries(), fd);
        &&& r is Ok
        &&& b.interest() == a.interest().insert(
            fd,
            EpollEntry { fd, event: ev, flags, is_ready: probe, is_deleted: false },
        )
        &&& b.asserted() == if probe { a.asserted() | IN } else { a.asserted() }
        &&& b.ready() == if probe { a.ready().push(slot as usize) } else { a.ready() }
        &&& b.entries().len() >= a.entries().len()
        &&& forall|i: int|
            0 <= i < a.entries().len() && i != slot ==> #[trigger] b.entries()[i] == a.entries()[i]
    }
}

/// What `Del(fd)` does to epoll file `a`, giving `b` and result `r`: the
/// entry is only marked deleted.
pub open spec fn del_post(a: EpollFile, fd: u32, b: EpollFile, r: Result<(), Errno>) -> bool {
    &&& !watched(a.entries(), fd) ==> r == Err::<(), Errno>(err_of(ENOENT)) && b == a
    &&& watched(a.entries(), fd) ==> {
        &&& r is Ok
        &&& b.interest() == a.interest().remove(fd)
        &&& b.entries() == a.entries().update(
            slot_of(a.entries(), fd),
            EpollEntry { is_deleted: true, ..a.interest()[fd] },
        )
        &&& b.ready() == a.ready()
        &&& b.asserted() == a.asserted()
    }
}

/// What `Mod(fd, ev, flags)` does to epoll file `a`, given what the file
/// shows (`file`, `None` if it is closed), giving `b` and result `r`.
pub open spec fn mod_post(
    a: EpollFile,
    fd: u32,
    ev: EpollEvent,
    flags: u32,
    file: Option<Events>,
    b: EpollFile,
    r: Result<(), Errno>,
) -> bool {
    &&& !watched(a.entries(), fd) ==> r == Err::<(), Errno>(err_of(ENOENT)) && b == a
    &&& watched(a.entries(), fd) ==> {
        let o = a.interest()[fd];
        let slot = slot_of(a.entries(), fd);
        let probe = file is Some && observed(file->0.bits, ev.events.bits) != 0;
        let queue = probe && !o.is_ready;
        let e = EpollEntry { event: ev, flags, is_ready: o.is_ready || probe, ..o };
        &&& r is Ok
        &&& b.interest() == a.interest().insert(fd, e)
        &&& b.entries() == a.entries().update(slot, e)
        &&& b.asserted() == if queue { a.asserted() | IN } else { a.asserted() }
        &&& b.ready() == if queue { a.ready().push(slot as usize) } else { a.ready() }
    }
}

impl EpollFile {
    /// The slots of the interest list.
    pub closed spec fn entries(&self) -> Seq<EpollEntry> {
        self.entries@
    }

    /// The queue of slots that probably have events.
    pub closed spec fn ready(&self) -> Seq<usize> {
        self.ready@
    }

    pub closed spec fn spec_pollee(&self) -> Pollee {
        self.pollee
    }

    pub open spec fn asserted(&self) -> u32 {
        self.spec_pollee().asserted_bits()
    }

    /// The file is well formed: the queue holds distinct slots, each marked
    /// ready; every slot marked ready is queued; at most one live entry per
    /// descriptor.
    pub open spec fn wf(&self) -> bool {
        let es = self.entries();
        let q = self.ready();
        &&& self.spec_pollee().wf()
        &&& forall|k: int| 0 <= k < q.len() ==> #[trigger] q[k] < es.len() && es[q[k] as int].is_ready
        &&& forall|i: int|
            0 <= i < es.len() && es[i].is_ready ==> exists|k: int|
                0 <= k < q.len() && #[trigger] q[k] == i
        &&& forall|a: int, b: int| 0 <= a < b < q.len() ==> #[trigger] q[a] != #[trigger] q[b]
        &&& fds_unique(es)
        &&& q.len() > 0 ==> self.asserted() & IN != 0
    }

    /// The watched descriptors, each with its entry.
    pub open spec fn interest(&self) -> Map<u32, EpollEntry> {
        interest(self.entries())
    }

    /// An epoll file with nothing watched.
    pub fn new() -> (r: EpollFile)
        ensures
            r.wf(),
            r.entries().len() == 0,
            r.ready().len() == 0,
            r.asserted() == 0,
    {
        EpollFile { entries: Vec::new(), ready: VecDeque::new(), pollee: Pollee::new(Events::empty()) }
    }
    /// The slot of the live entry for `fd`, if it is watched.
    fn find_live(&self, fd: u32) -> (r: Option<usize>)
        requires
            self.wf(),
        ensures
            r is None <==> !watched(self.entries(), fd),
            r matches Some(i) ==> i == slot_of(self.entries(), fd) && i < self.entries().len()
                && !self.entries()[i as int].is_deleted && self.entries()[i as int].fd == fd,
    {
        let mut i: usize = 0;
        while i < self.entries.len()
            invariant
                self.wf(),
                i <= self.entries@.len(),
                forall|j: int| 0 <= j < i ==> self.entries@[j].is_deleted || #[trigger] self.entries@[j].fd != fd,
            decreases self.entries@.len() - i,
        {
            let e = self.entries[i];
            if !e.is_deleted && e.fd == fd {
                proof {
                    lemma_slot_of(self.entries@, i as int);
                }
                return Some(i);
            }
            i = i + 1;
        }
        None
    }

    /// Queues the entry in `slot` as ready and asserts `IN`, unless it is
    /// queued already or deleted.
    fn push_ready(&mut self, slot: usize)
        requires
            old(self).wf(),
            slot < old(self).entries().len(),
        ensures
            final(self).wf(),
            ({
                let e = old(self).entries()[slot as int];
                if e.is_ready || e.is_deleted {
                    *final(self) == *old(self)
                } else {
                    &&& final(self).entries() == old(self).entries().update(
                        slot as int,
                        EpollEntry { is_ready: true, ..e },
                    )
                    &&& final(self).ready() == old(self).ready().push(slot)
                    &&& final(self).asserted() == old(self).asserted() | IN
                }
            }),
    {
        let e = self.entries[slot];
        if e.is_ready || e.is_deleted {
            return;
        }
        proof {
            assert forall|k: int| 0 <= k < self.ready@.len() implies self.ready@[k] != slot by {
                assert(self.ready()[k] < self.entries().len() && self.entries()[self.ready()[k] as int].is_ready);
            }
        }
        self.entries.set(slot, EpollEntry { is_ready: true, ..e });
        self.ready.push_back(slot);
        self.pollee.add(Events::from_bits(IN));
        proof {
            let a = old(self).asserted();
            assert((a | IN) & IN != 0) by (bit_vector);
            let q = self.ready();
            let es = self.entries();
            assert forall|k: int| 0 <= k < q.len() implies #[trigger] q[k] < es.len() && es[q[k] as int].is_ready by {
                if k < q.len() - 1 {
                    assert(old(self).ready()[k] == q[k]);
                }
            }
            assert forall|i: int| 0 <= i < es.len() && es[i].is_ready implies exists|k: int|
                0 <= k < q.len() && #[trigger] q[k] == i by {
                if i == slot {
                    assert(q[q.len() - 1] == i);
                } else {
                    assert(old(self).entries()[i].is_ready);
                    let k = choose|k: int| 0 <= k < old(self).ready().len() && #[trigger] old(self).ready()[k] == i;
                    assert(q[k] == i);
                }
            }
            assert forall|a: int, b: int| 0 <= a < b < q.len() implies #[trigger] q[a] != #[trigger] q[b] by {
                if b == q.len() - 1 {
                    assert(old(self).ready()[a] != slot);
                } else {
                    assert(old(self).ready()[a] != old(self).ready()[b]);
                }
            }
            assert forall|i: int, j: int|
                0 <= i < es.len() && 0 <= j < es.len() && i != j && !es[i].is_deleted
                    && !es[j].is_deleted implies #[trigger] es[i].fd != #[trigger] es[j].fd by {
                assert(old(self).entries()[i].fd != old(self).entries()[j].fd);
            }
        }
    }

    /// Whether the file's events, as polled under `mask`, are not empty.
    fn probe(file: Events, mask: Events) -> (r: bool)
        ensures
            r == (observed(file.bits, mask.bits) != 0),
    {
        let want = mask.union(Events::from_bits(crate::events::ALWAYS_POLL));
        !file.intersection(want).is_empty()
    }
    /// Writes `e` into `slot`, keeping the slot's ready flag.
    fn replace_entry(&mut self, slot: usize, e: EpollEntry)
        requires
            old(self).wf(),
            slot < old(self).entries().len(),
            e.is_ready == old(self).entries()[slot as int].is_ready,
            !e.is_deleted ==> !watched(old(self).entries(), e.fd) || (!old(
                self,
            ).entries()[slot as int].is_deleted && old(self).entries()[slot as int].fd == e.fd),
        ensures
            final(self).wf(),
            final(self).entries() == old(self).entries().update(slot as int, e),
            final(self).ready() == old(self).ready(),
            final(self).spec_pollee() == old(self).spec_pollee(),
            final(self).interest() == ({
                let o = old(self).entries()[slot as int];
                let m = if o.is_deleted {
                    old(self).interest()
                } else {
                    old(self).interest().remove(o.fd)
                };
                if e.is_deleted {
                    m
                } else {
                    m.insert(e.fd, e)
                }
            }),
    {
        proof {
            lemma_interest_update(self.entries(), slot as int, e);
        }
        self.entries.set(slot, e);
        proof {
            let q = self.ready();
            let es = self.entries();
            assert forall|k: int| 0 <= k < q.len() implies #[trigger] q[k] < es.len() && es[q[k] as int].is_ready by {
                assert(old(self).ready()[k] == q[k]);
            }
            assert forall|i: int| 0 <= i < es.len() && es[i].is_ready implies exists|k: int|
                0 <= k < q.len() && #[trigger] q[k] == i by {
                assert(old(self).entries()[i].is_ready);
            }
            assert forall|a: int, b: int| 0 <= a < b < q.len() implies #[trigger] q[a] != #[trigger] q[b] by {
                assert(old(self).ready()[a] != old(self).ready()[b]);
            }
        }
    }

    /// A free slot: the first unused one, or a new one at the end.
    fn free_slot(&mut self) -> (slot: usize)
        requires
            old(self).wf(),
        ensures
            final(self).wf(),
            slot < final(self).entries().len(),
            final(self).entries().len() >= old(self).entries().len(),
            is_dead(final(self).entries()[slot as int]),
            final(self).interest() == old(self).interest(),
            final(self).ready() == old(self).ready(),
            final(self).spec_pollee() == old(self).spec_pollee(),
            forall|i: int| 0 <= i < old(self).entries().len() ==> #[trigger] final(self).entries()[i] == old(self).entries()[i],
    {
        let mut i: usize = 0;
        while i < self.entries.len()
            invariant
                self.wf(),
                *self == *old(self),
                i <= self.entries@.len(),
            decreases self.entries@.len() - i,
        {
            let e = self.entries[i];
            if e.is_deleted && !e.is_ready {
                return i;
            }
            i = i + 1;
        }
        let dead = EpollEntry {
            fd: 0,
            event: EpollEvent { events: Events::empty(), data: 0 },
            flags: 0,
            is_ready: false,
            is_deleted: true,
        };
        proof {
            lemma_interest_push_dead(self.entries(), dead);
        }
        self.entries.push(dead);
        proof {
            let q = self.ready();
            let es = self.entries();
            assert forall|k: int| 0 <= k < q.len() implies #[trigger] q[k] < es.len() && es[q[k] as int].is_ready by {
                assert(old(self).ready()[k] == q[k]);
                assert(old(self).ready()[k] < old(self).entries().len());
            }
            assert forall|i: int| 0 <= i < es.len() && es[i].is_ready implies exists|k: int|
                0 <= k < q.len() && #[trigger] q[k] == i by {
                assert(old(self).entries()[i].is_ready);
            }
            assert forall|a: int, b: int| 0 <= a < b < q.len() implies #[trigger] q[a] != #[trigger] q[b] by {
                assert(old(self).ready()[a] != old(self).ready()[b]);
            }
        }
        i
    }

    /// Watches `fd` for the events of `ev`, given what the file shows now
    /// (`None`: no such open file, `EBADF`). A watched `fd` gives `EEXIST`.
    /// The new entry is queued as ready at once if the file already shows
    /// some of its events.
    fn add_interest(&mut self, fd: u32, ev: EpollEvent, flags: u32, file: Option<Events>) -> (r: Result<(), Errno>)
        requires
            old(self).wf(),
        ensures
            final(self).wf(),
            add_post(*old(self), fd, ev, flags, file, *final(self), r),
    {
        let f = match file {
            None => return Err(Errno::new(EBADF)),
            Some(f) => f,
        };
        if self.find_live(fd).is_some() {
            return Err(Errno::new(EEXIST));
        }
        let slot = self.free_slot();
        let ghost after_free = self.entries();
        proof {
            assert(!old(self).interest().dom().contains(fd));
            assert(!self.interest().dom().contains(fd));
        }
        let e = EpollEntry { fd, event: ev, flags, is_ready: false, is_deleted: false };
        self.replace_entry(slot, e);
        let ghost mid = self.interest();
        let ghost pre = self.entries();
        if Self::probe(f, ev.events) {
            self.push_ready(slot);
            proof {
                let e2 = EpollEntry { is_ready: true, ..e };
                lemma_interest_update(pre, slot as int, e2);
                assert(mid.remove(fd).insert(fd, e2) =~= old(self).interest().insert(fd, e2));
            }
        }
        proof {
            lemma_slot_of(self.entries(), slot as int);
            assert forall|i: int| 0 <= i < old(self).entries().len() && i != slot implies #[trigger] self.entries()[i] == old(self).entries()[i] by {
                assert(after_free[i] == old(self).entries()[i]);
            }
        }
        Ok(())
    }

    /// Stops watching `fd`; `ENOENT` if it is not watched. The entry is only
    /// marked deleted: if it is queued, `pop_ready` drops it later.
    fn del_interest(&mut self, fd: u32) -> (r: Result<(), Errno>)
        requires
            old(self).wf(),
        ensures
            final(self).wf(),
            del_post(*old(self), fd, *final(self), r),
    {
        let slot = match self.find_live(fd) {
            None => return Err(Errno::new(ENOENT)),
            Some(i) => i,
        };
        let e = self.entries[slot];
        proof {
            assert(old(self).interest()[fd] == e);
        }
        self.replace_entry(slot, EpollEntry { is_deleted: true, ..e });
        Ok(())
    }

    /// Changes what `fd` is watched for; `ENOENT` if it is not watched. The
    /// entry is queued as ready if the file (when it is still open) already
    /// shows some of the new events.
    fn mod_interest(&mut self, fd: u32, ev: EpollEvent, flags: u32, file: Option<Events>) -> (r: Result<(), Errno>)
        requires
            old(self).wf(),
        ensures
            final(self).wf(),
            mod_post(*old(self), fd, ev, flags, file, *final(self), r),
    {
        let slot = match self.find_live(fd) {
            None => return Err(Errno::new(ENOENT)),
            Some(i) => i,
        };
        let o = self.entries[slot];
        proof {
            assert(old(self).interest()[fd] == o);
        }
        let e = EpollEntry { event: ev, flags, ..o };
        self.replace_entry(slot, e);
        proof {
            assert(old(self).interest().remove(fd).insert(fd, e) =~= old(self).interest().insert(fd, e));
        }
        let ghost mid = self.interest();
        let ghost pre = self.entries();
        if let Some(f) = file {
            if Self::probe(f, ev.events) {
                self.push_ready(slot);
                proof {
                    if !o.is_ready {
                        let e2 = EpollEntry { is_ready: true, ..e };
                        lemma_interest_update(pre, slot as int, e2);
                        assert(mid.remove(fd).insert(fd, e2) =~= old(self).interest().insert(fd, e2));
                        assert(self.entries() =~= old(self).entries().update(slot as int, e2));
                    }
                }
            }
        }
        Ok(())
    }

    /// Runs a command on the interest list, given what the file that the
    /// command names shows now (`None`: no such open file). See `EpollCtl`.
    pub fn control(&mut self, cmd: &EpollCtl, file: Option<Events>) -> (r: Result<(), Errno>)
        requires
            old(self).wf(),
        ensures
            final(self).wf(),
            match *cmd {
                EpollCtl::Add(fd, ev, flags) => add_post(*old(self), fd, ev, flags, file, *final(self), r),
                EpollCtl::Del(fd) => del_post(*old(self), fd, *final(self), r),
                EpollCtl::Mod(fd, ev, flags) => mod_post(*old(self), fd, ev, flags, file, *final(self), r),
            },
    {
        match *cmd {
            EpollCtl::Add(fd, ev, flags) => self.add_interest(fd, ev, flags, file),
            EpollCtl::Del(fd) => self.del_interest(fd),
            EpollCtl::Mod(fd, ev, flags) => self.mod_interest(fd, ev, flags, file),
        }
    }

    /// The callback of a watched file whose events changed: queues its entry
    /// as ready, unless it is queued already. A descriptor that is not
    /// watched is ignored.
    pub fn on_events(&mut self, fd: u32)
        requires
            old(self).wf(),
        ensures
            final(self).wf(),
            final(self).interest().dom() == old(self).interest().dom(),
            !watched(old(self).entries(), fd) || old(self).interest()[fd].is_ready ==> *final(self)
                == *old(self),
            watched(old(self).entries(), fd) && !old(self).interest()[fd].is_ready ==> {
                &&& final(self).interest() == old(self).interest().insert(
                    fd,
                    EpollEntry { is_ready: true, ..old(self).interest()[fd] },
                )
                &&& final(self).ready() == old(self).ready().push(slot_of(old(self).entries(), fd) as usize)
                &&& final(self).asserted() == old(self).asserted() | IN
            },
    {
        match self.find_live(fd) {
            None => {},
            Some(slot) => {
                let ghost pre = self.entries();
                self.push_ready(slot);
                proof {
                    let o = pre[slot as int];
                    if !o.is_ready {
                        let e2 = EpollEntry { is_ready: true, ..o };
                        lemma_interest_update(pre, slot as int, e2);
                        assert(old(self).interest().remove(fd).insert(fd, e2) =~= old(self).interest().insert(fd, e2));
                    }
                }
            },
        }
    }
    /// Takes the slot at the front of the queue and clears its ready flag.
    fn dequeue_front(&mut self) -> (slot: usize)
        requires
            old(self).wf(),
            old(self).ready().len() > 0,
        ensures
            final(self).wf(),
            slot == old(self).ready()[0],
            slot < old(self).entries().len(),
            final(self).ready() == old(self).ready().skip(1),
            final(self).entries() == old(self).entries().update(
                slot as int,
                EpollEntry { is_ready: false, ..old(self).entries()[slot as int] },
            ),
            final(self).spec_pollee() == old(self).spec_pollee(),
    {
        let slot = match self.ready.pop_front() {
            Some(s) => s,
            None => 0,
        };
        proof {
            assert(old(self).ready()[0] < old(self).entries().len());
        }
        let e = self.entries[slot];
        self.entries.set(slot, EpollEntry { is_ready: false, ..e });
        proof {
            let oq = old(self).ready();
            let q = self.ready();
            let es = self.entries();
            assert(q =~= oq.skip(1));
            assert forall|k: int| 0 <= k < q.len() implies #[trigger] q[k] < es.len() && es[q[k] as int].is_ready by {
                assert(oq[k + 1] == q[k]);
                assert(oq[0] != oq[k + 1]);
                assert(oq[k + 1] < old(self).entries().len());
            }
            assert forall|i: int| 0 <= i < es.len() && es[i].is_ready implies exists|k: int|
                0 <= k < q.len() && #[trigger] q[k] == i by {
                assert(old(self).entries()[i].is_ready);
                let k = choose|k: int| 0 <= k < oq.len() && #[trigger] oq[k] == i;
                assert(k != 0);
                assert(q[k - 1] == i);
            }
            assert forall|a: int, b: int| 0 <= a < b < q.len() implies #[trigger] q[a] != #[trigger] q[b] by {
                assert(oq[a + 1] != oq[b + 1]);
            }
            assert forall|i: int, j: int|
                0 <= i < es.len() && 0 <= j < es.len() && i != j && !es[i].is_deleted
                    && !es[j].is_deleted implies #[trigger] es[i].fd != #[trigger] es[j].fd by {
                assert(old(self).entries()[i].fd != old(self).entries()[j].fd);
            }
        }
        slot
    }

    /// Reports the events of up to `max_events` queued entries, given the
    /// events that each open file shows now (`files`, by descriptor). Each
    /// entry taken from the front of the queue loses its ready flag; a
    /// deleted one is dropped; a live one whose file shows some of its events
    /// is reported and, unless edge-triggered, queued again at the back, so
    /// that it is reported again while the events last. `IN` is cleared when
    /// the queue ends up empty.
    pub fn pop_ready(&mut self, max_events: usize, files: &Vec<Events>) -> (out: Vec<EpollEvent>)
        requires
            old(self).wf(),
        ensures
            final(self).wf(),
            ({
                let n = if max_events < old(self).ready().len() {
                    max_events as int
                } else {
                    old(self).ready().len() as int
                };
                let ids = old(self).ready().take(n);
                &&& out@ == emitted(old(self).entries(), ids, files@)
                &&& final(self).ready() == old(self).ready().skip(n) + requeued(
                    old(self).entries(),
                    ids,
                    files@,
                )
            }),
            final(self).entries().len() == old(self).entries().len(),
            forall|i: int|
                0 <= i < old(self).entries().len() ==> same_but_ready(
                    #[trigger] final(self).entries()[i],
                    old(self).entries()[i],
                ),
            final(self).interest().dom() == old(self).interest().dom(),
            final(self).asserted() == if final(self).ready().len() == 0 {
                old(self).asserted() & !IN
            } else {
                old(self).asserted()
            },
    {
        let n: usize = if max_events < self.ready.len() { max_events } else { self.ready.len() };
        let ghost oq = self.ready();
        let ghost oes = self.entries();
        let mut out: Vec<EpollEvent> = Vec::new();
        let mut k: usize = 0;
        while k < n
            invariant
                self.wf(),
                n <= oq.len(),
                k <= n,
                oq == old(self).ready(),
                oes == old(self).entries(),
                self.entries().len() == oes.len(),
                forall|i: int| 0 <= i < oes.len() ==> same_but_ready(#[trigger] self.entries()[i], oes[i]),
                self.ready() == oq.skip(k as int) + requeued(oes, oq.take(k as int), files@),
                out@ == emitted(oes, oq.take(k as int), files@),
                self.asserted() == old(self).asserted(),
                oq.len() > 0 ==> old(self).asserted() & IN != 0,
            decreases n - k,
        {
            proof {
                assert(self.ready()[0] == oq[k as int]);
                assert(oq.take(k + 1).drop_last() =~= oq.take(k as int));
                assert(oq.take(k + 1).last() == oq[k as int]);
            }
            let slot = self.dequeue_front();
            let e = self.entries[slot];
            proof {
                assert(same_but_ready(self.entries()[slot as int], oes[slot as int]));
            }
            let mut requeue = false;
            if !e.is_deleted {
                let fb: u32 = if (e.fd as usize) < files.len() { files[e.fd as usize].bits } else { 0 };
                if Self::probe(Events::from_bits(fb), e.event.events) {
                    let want = e.event.events.union(Events::from_bits(crate::events::ALWAYS_POLL));
                    let ev = Events::from_bits(fb).intersection(want);
                    out.push(EpollEvent { events: ev, data: e.event.data });
                    if e.flags & EDGE_TRIGGER == 0 {
                        requeue = true;
                    }
                }
            }
            if requeue {
                self.push_ready(slot);
            }
            proof {
                let rq = requeued(oes, oq.take(k as int), files@);
                if requeue {
                    assert(self.ready() =~= oq.skip(k + 1) + rq.push(slot));
                } else {
                    assert(self.ready() =~= oq.skip(k + 1) + rq);
                }
                let a = old(self).asserted();
                assert((a & IN != 0) ==> (a | IN) == a) by (bit_vector);
                assert(old(self).ready().len() > 0);
            }
            k = k + 1;
        }
        proof {
            assert(oq.skip(n as int) + requeued(oes, oq.take(n as int), files@) == self.ready());
        }
        if self.ready.len() == 0 {
            self.pollee.remove(Events::from_bits(IN));
        }
        proof {
            assert forall|fd: u32| self.interest().dom().contains(fd) == old(self).interest().dom().contains(fd) by {
                if watched(self.entries(), fd) {
                    let j = slot_of(self.entries(), fd);
                    assert(same_but_ready(self.entries()[j], oes[j]));
                }
                if watched(oes, fd) {
                    let j = slot_of(oes, fd);
                    assert(same_but_ready(self.entries()[j], oes[j]));
                }
            }
            assert(self.interest().dom() =~= old(self).interest().dom());
        }
        out
    }

    /// Polls the epoll file's own readiness cell; see `Pollee::poll_by`.
    pub fn poll_by(&mut self, mask: Events, poller: Option<u64>) -> (r: Events)
        requires
            old(self).wf(),
        ensures
            final(self).wf(),
            r.bits == observed(old(self).asserted(), mask.bits),
            final(self).asserted() == old(self).asserted(),
            final(self).entries() == old(self).entries(),
            final(self).ready() == old(self).ready(),
    {
        let r = self.pollee.poll_by(mask, poller);
        proof {
            assert(self.entries() == old(self).entries());
            assert(self.ready() == old(self).ready());
            assert(self.asserted() == old(self).asserted());
        }
        r
    }
}

/// Every queued entry is marked ready, and is either on the interest list
/// (as the live entry of its descriptor) or deleted.
pub proof fn lemma_ready_in_interest(ep: &EpollFile)
    requires
        ep.wf(),
    ensures
        forall|k: int|
            0 <= k < ep.ready().len() ==> {
                let e = #[trigger] ep.entries()[ep.ready()[k] as int];
                &&& e.is_ready
                &&& e.is_deleted || (ep.interest().dom().contains(e.fd) && ep.interest()[e.fd] == e)
            },
{
    assert forall|k: int| 0 <= k < ep.ready().len() implies {
        let e = #[trigger] ep.entries()[ep.ready()[k] as int];
        &&& e.is_ready
        &&& e.is_deleted || (ep.interest().dom().contains(e.fd) && ep.interest()[e.fd] == e)
    } by {
        let i = ep.ready()[k] as int;
        assert(i < ep.entries().len());
        if !ep.entries()[i].is_deleted {
            lemma_slot_of(ep.entries(), i);
        }
    }
}

} // verus!
