use vstd::prelude::*;
use std::collections::VecDeque;
use crate::common::SockAddr;

verus! {

/// A slot of a listener's backlog.
#[derive(Clone, Copy, Debug, PartialEq, Eq, Structural)]
pub enum Entry {
    /// The slot is free to use.
    Free,
    /// The slot holds an accept that the host has not completed yet.
    Pending,
    /// The slot holds an accepted connection on host descriptor `fd`.
    Completed { fd: u32 },
}

/// An accept submission for the host: accept on `fd`, and write the peer's
/// address into the request block of backlog slot `slot`.
#[derive(Clone, Copy, Debug, PartialEq, Eq, Structural)]
pub struct AcceptReq {
    pub fd: u32,
    pub slot: usize,
}

/// 0 for a free slot, 1 for a pending one, 2 for a completed one.
pub open spec fn kind(e: Entry) -> int {
    match e {
        Entry::Free => 0,
        Entry::Pending => 1,
        Entry::Completed { .. } => 2,
    }
}

/// The number of slots of kind `k`.
pub open spec fn count_kind(s: Seq<Entry>, k: int) -> nat
    decreases s.len(),
{
    if s.len() == 0 {
        0
    } else {
        count_kind(s.drop_last(), k) + if kind(s.last()) == k {
            1nat
        } else {
            0nat
        }
    }
}

/// Every slot is free, pending or completed, so the three counts add up to
/// the number of slots.
pub proof fn lemma_counts_sum(s: Seq<Entry>)
    ensures
        count_kind(s, 0) + count_kind(s, 1) + count_kind(s, 2) == s.len(),
    decreases s.len(),
{
    if s.len() > 0 {
        lemma_counts_sum(s.drop_last());
    }
}

proof fn lemma_count_update(s: Seq<Entry>, i: int, e: Entry, k: int)
    requires
        0 <= i < s.len(),
    ensures
        count_kind(s.update(i, e), k) + (if kind(s[i]) == k {
            1int
        } else {
            0int
        }) == count_kind(s, k) + (if kind(e) == k {
            1int
        } else {
            0int
        }),
    decreases s.len(),
{
    let t = s.update(i, e);
    if i == s.len() - 1 {
        assert(t.drop_last() =~= s.drop_last());
    } else {
        assert(t.drop_last() =~= s.drop_last().update(i, e));
        lemma_count_update(s.drop_last(), i, e, k);
    }
}

proof fn lemma_count_positive(s: Seq<Entry>, k: int) -> (i: int)
    requires
        count_kind(s, k) > 0,
    ensures
        0 <= i < s.len(),
        kind(s[i]) == k,
    decreases s.len(),
{
    if kind(s.last()) == k {
        s.len() - 1
    } else {
        lemma_count_positive(s.drop_last(), k)
    }
}

pub proof fn lemma_count_none(s: Seq<Entry>, k: int)
    requires
        forall|j: int| 0 <= j < s.len() ==> kind(#[trigger] s[j]) != k,
    ensures
        count_kind(s, k) == 0,
    decreases s.len(),
{
    if s.len() > 0 {
        lemma_count_none(s.drop_last(), k);
    }
}

pub proof fn lemma_count_has(s: Seq<Entry>, k: int, j: int)
    requires
        0 <= j < s.len(),
        kind(s[j]) == k,
    ensures
        count_kind(s, k) > 0,
    decreases s.len(),
{
    if j < s.len() - 1 {
        lemma_count_has(s.drop_last(), k, j);
    }
}

/// A fixed number of accept slots: free ones, pending accepts, and completed
/// ones, whose slot indices wait in a queue in the order of completion.
pub struct Backlog {
    entries: Vec<Entry>,
    peers: Vec<SockAddr>,
    completed: VecDeque<usize>,
    num_free: usize,
}

impl Backlog {
    pub closed spec fn entries(&self) -> Seq<Entry> {
        self.entries@
    }

    /// The peer address the host wrote into each slot's request block.
    pub closed spec fn peers(&self) -> Seq<SockAddr> {
        self.peers@
    }

    /// The completed slots, in the order in which they completed.
    pub closed spec fn completed(&self) -> Seq<usize> {
        self.completed@
    }

    pub closed spec fn num_free(&self) -> nat {
        self.num_free as nat
    }

    pub open spec fn capacity(&self) -> nat {
        self.entries().len()
    }

    pub open spec fn free_count(&self) -> nat {
        count_kind(self.entries(), 0)
    }

    pub open spec fn pending_count(&self) -> nat {
        count_kind(self.entries(), 1)
    }

    pub open spec fn completed_count(&self) -> nat {
        count_kind(self.entries(), 2)
    }

    /// The backlog is well formed: the free count is kept exactly, and the
    /// queue holds each completed slot once and nothing else.
    pub open spec fn wf(&self) -> bool {
        &&& self.capacity() <= usize::MAX
        &&& self.peers().len() == self.capacity()
        &&& self.num_free() == self.free_count()
        &&& self.completed().len() == self.completed_count()
        &&& forall|i: int|
            0 <= i < self.completed().len() ==> {
                &&& #[trigger] self.completed()[i] < self.capacity()
                &&& kind(self.entries()[self.completed()[i] as int]) == 2
            }
        &&& forall|i: int, j: int|
            0 <= i < j < self.completed().len() ==> #[trigger] self.completed()[i]
                != #[trigger] self.completed()[j]
    }

    /// A backlog of `capacity` free slots.
    pub fn with_capacity(capacity: usize) -> (r: Backlog)
        ensures
            r.wf(),
            r.capacity() == capacity,
            r.entries() == Seq::new(capacity as nat, |i: int| Entry::Free),
            r.completed().len() == 0,
    {
        let mut entries: Vec<Entry> = Vec::new();
        let mut peers: Vec<SockAddr> = Vec::new();
        let mut i: usize = 0;
        while i < capacity
            invariant
                i <= capacity,
                entries@ == Seq::new(i as nat, |j: int| Entry::Free),
                peers@.len() == i,
                count_kind(entries@, 0) == i,
            decreases capacity - i,
        {
            proof {
                assert(entries@.push(Entry::Free).drop_last() =~= entries@);
            }
            entries.push(Entry::Free);
            peers.push(SockAddr { ip: 0, port: 0 });
            i = i + 1;
            proof {
                assert(entries@ =~= Seq::new(i as nat, |j: int| Entry::Free));
            }
        }
        proof {
            lemma_counts_sum(entries@);
            lemma_count_none(entries@, 1);
        }
        Backlog { entries, peers, completed: VecDeque::new(), num_free: capacity }
    }

    pub fn has_free_entries(&self) -> (r: bool)
        requires
            self.wf(),
        ensures
            r == (self.free_count() > 0),
    {
        self.num_free > 0
    }

    pub fn has_completed_reqs(&self) -> (r: bool)
        requires
            self.wf(),
        ensures
            r == (self.completed_count() > 0),
    {
        self.completed.len() > 0
    }

    /// Turns the lowest free slot into a pending one and returns the accept
    /// on `fd` that fills it.
    pub fn start_new_req(&mut self, fd: u32) -> (r: AcceptReq)
        requires
            old(self).wf(),
            old(self).free_count() > 0,
        ensures
            final(self).wf(),
            r.fd == fd,
            r.slot < old(self).capacity(),
            old(self).entries()[r.slot as int] == Entry::Free,
            forall|j: int| 0 <= j < r.slot ==> old(self).entries()[j] != Entry::Free,
            final(self).entries() == old(self).entries().update(r.slot as int, Entry::Pending),
            final(self).completed() == old(self).completed(),
            final(self).peers() == old(self).peers(),
            final(self).free_count() + 1 == old(self).free_count(),
            final(self).pending_count() == old(self).pending_count() + 1,
            final(self).completed_count() == old(self).completed_count(),
    {
        proof {
            let w = lemma_count_positive(self.entries@, 0);
        }
        let mut i: usize = 0;
        while i < self.entries.len() && self.entries[i] != Entry::Free
            invariant
                self.entries@ == old(self).entries@,
                self.completed@ == old(self).completed@,
                self.peers@ == old(self).peers@,
                self.num_free == old(self).num_free,
                old(self).wf(),
                i <= self.entries@.len(),
                exists|w: int| i <= w < self.entries@.len() && kind(#[trigger] self.entries@[w]) == 0,
                forall|j: int| 0 <= j < i ==> self.entries@[j] != Entry::Free,
            decreases self.entries@.len() - i,
        {
            i = i + 1;
        }
        let ghost old_entries = self.entries@;
        self.entries.set(i, Entry::Pending);
        self.num_free = self.num_free - 1;
        proof {
            lemma_count_update(old_entries, i as int, Entry::Pending, 0);
            lemma_count_update(old_entries, i as int, Entry::Pending, 1);
            lemma_count_update(old_entries, i as int, Entry::Pending, 2);
            assert forall|k: int| 0 <= k < self.completed@.len() implies #[trigger] self.completed@[k]
                < self.entries@.len() && kind(self.entries@[self.completed@[k] as int]) == 2 by {
                assert(kind(old_entries[self.completed@[k] as int]) == 2);
                assert(kind(old_entries[i as int]) == 0);
            }
        }
        AcceptReq { fd, slot: i }
    }

    /// The host's completion of the accept in `slot`: a negative `retval`
    /// frees the slot; otherwise the slot holds the accepted descriptor
    /// `retval` and the peer address `peer`, and joins the back of the queue.
    /// A completion for a slot that is not pending is stale and ignored.
    /// Returns whether the slot was pending.
    pub fn complete_req(&mut self, slot: usize, retval: i32, peer: SockAddr) -> (r: bool)
        requires
            old(self).wf(),
        ensures
            final(self).wf(),
            r == (slot < old(self).capacity() && old(self).entries()[slot as int] == Entry::Pending),
            !r ==> *final(self) == *old(self),
            r && retval < 0 ==> {
                &&& final(self).entries() == old(self).entries().update(slot as int, Entry::Free)
                &&& final(self).completed() == old(self).completed()
                &&& final(self).peers() == old(self).peers()
                &&& final(self).free_count() == old(self).free_count() + 1
                &&& final(self).pending_count() + 1 == old(self).pending_count()
                &&& final(self).completed_count() == old(self).completed_count()
            },
            r && retval >= 0 ==> {
                &&& final(self).entries() == old(self).entries().update(
                    slot as int,
                    Entry::Completed { fd: retval as u32 },
                )
                &&& final(self).completed() == old(self).completed().push(slot)
                &&& final(self).peers() == old(self).peers().update(slot as int, peer)
                &&& final(self).free_count() == old(self).free_count()
                &&& final(self).pending_count() + 1 == old(self).pending_count()
                &&& final(self).completed_count() == old(self).completed_count() + 1
            },
    {
        if slot >= self.entries.len() || self.entries[slot] != Entry::Pending {
            return false;
        }
        let ghost old_entries = self.entries@;
        let ghost old_completed = self.completed@;
        let e = if retval < 0 { Entry::Free } else { Entry::Completed { fd: retval as u32 } };
        self.entries.set(slot, e);
        proof {
            lemma_count_update(old_entries, slot as int, e, 0);
            lemma_count_update(old_entries, slot as int, e, 1);
            lemma_count_update(old_entries, slot as int, e, 2);
            lemma_counts_sum(old_entries);
        }
        if retval < 0 {
            self.num_free = self.num_free + 1;
        } else {
            self.peers.set(slot, peer);
            self.completed.push_back(slot);
        }
        proof {
            assert forall|k: int| 0 <= k < old_completed.len() implies old_completed[k] != slot by {
                assert(kind(old_entries[old_completed[k] as int]) == 2);
            }
            assert forall|k: int| 0 <= k < self.completed@.len() implies #[trigger] self.completed@[k]
                < self.entries@.len() && kind(self.entries@[self.completed@[k] as int]) == 2 by {
                if k < old_completed.len() {
                    assert(self.completed@[k] == old_completed[k]);
                }
            }
            assert forall|a: int, b: int| 0 <= a < b < self.completed@.len() implies #[trigger] self.completed@[a]
                != #[trigger] self.completed@[b] by {
                if b < old_completed.len() {
                    assert(old_completed[a] != old_completed[b]);
                } else {
                    assert(self.completed@[a] == old_completed[a]);
                }
            }
        }
        true
    }

    /// Takes the slot that completed first, turning it free, and returns its
    /// accepted descriptor and peer address; `None` if none has completed.
    pub fn pop_completed_req(&mut self) -> (r: Option<(u32, SockAddr)>)
        requires
            old(self).wf(),
        ensures
            final(self).wf(),
            final(self).capacity() == old(self).capacity(),
            old(self).completed().len() == 0 ==> r is None && *final(self) == *old(self),
            old(self).completed().len() > 0 ==> {
                let slot = old(self).completed()[0];
                &&& old(self).entries()[slot as int] matches Entry::Completed { fd }
                &&& r == Some((fd, old(self).peers()[slot as int]))
                &&& final(self).entries() == old(self).entries().update(slot as int, Entry::Free)
                &&& final(self).completed() == old(self).completed().skip(1)
                &&& final(self).peers() == old(self).peers()
                &&& final(self).free_count() == old(self).free_count() + 1
                &&& final(self).pending_count() == old(self).pending_count()
                &&& final(self).completed_count() + 1 == old(self).completed_count()
            },
    {
        if self.completed.len() == 0 {
            return None;
        }
        let ghost old_completed = self.completed@;
        proof {
            lemma_counts_sum(self.entries@);
        }
        let slot = match self.completed.pop_front() {
            None => return None,
            Some(s) => s,
        };
        proof {
            assert(old_completed[0] == slot);
            assert(kind(self.entries@[slot as int]) == 2);
        }
        let fd = match self.entries[slot] {
            Entry::Completed { fd } => fd,
            _ => 0,
        };
        let peer = self.peers[slot];
        let ghost old_entries = self.entries@;
        self.entries.set(slot, Entry::Free);
        self.num_free = self.num_free + 1;
        proof {
            lemma_count_update(old_entries, slot as int, Entry::Free, 0);
            lemma_count_update(old_entries, slot as int, Entry::Free, 1);
            lemma_count_update(old_entries, slot as int, Entry::Free, 2);
            assert(self.completed@ =~= old_completed.skip(1));
            assert forall|k: int| 0 <= k < self.completed@.len() implies #[trigger] self.completed@[k]
                < self.entries@.len() && kind(self.entries@[self.completed@[k] as int]) == 2 by {
                assert(self.completed@[k] == old_completed[k + 1]);
                assert(old_completed[0] != old_completed[k + 1]);
                assert(kind(old_entries[old_completed[k + 1] as int]) == 2);
            }
            assert forall|a: int, b: int| 0 <= a < b < self.completed@.len() implies #[trigger] self.completed@[a]
                != #[trigger] self.completed@[b] by {
                assert(old_completed[a + 1] != old_completed[b + 1]);
            }
        }
        Some((fd, peer))
    }
}

/// Every slot of a backlog is free, pending or completed: the three counts
/// add up to its capacity.
pub proof fn lemma_backlog_counts(b: &Backlog)
    requires
        b.wf(),
    ensures
        b.free_count() + b.pending_count() + b.completed_count() == b.capacity(),
        b.completed().len() == b.completed_count(),
{
    lemma_counts_sum(b.entries());
}

} // verus!
