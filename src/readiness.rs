use vstd::prelude::*;
use crate::events::{Events, ALWAYS_POLL, lemma_union_keeps, lemma_intersection_has};

verus! {

/// A poller registered on a readiness cell: it waits for any of `mask`.
#[derive(Clone, Copy, Debug, PartialEq, Eq, Structural)]
pub struct Waiter {
    pub id: u64,
    pub mask: u32,
}

/// The ids of the waiters that events `ev` wake, in registration order.
pub open spec fn woken_ids(ws: Seq<Waiter>, ev: u32) -> Seq<u64>
    decreases ws.len(),
{
    if ws.len() == 0 {
        Seq::empty()
    } else {
        let rest = woken_ids(ws.drop_last(), ev);
        if ws.last().mask & ev != 0 {
            rest.push(ws.last().id)
        } else {
            rest
        }
    }
}

/// The waiters that events `ev` leave registered, in registration order.
pub open spec fn kept_waiters(ws: Seq<Waiter>, ev: u32) -> Seq<Waiter>
    decreases ws.len(),
{
    if ws.len() == 0 {
        Seq::empty()
    } else {
        let rest = kept_waiters(ws.drop_last(), ev);
        if ws.last().mask & ev != 0 {
            rest
        } else {
            rest.push(ws.last())
        }
    }
}

/// Whether a waiter with this id is registered.
pub open spec fn registered(ws: Seq<Waiter>, id: u64) -> bool {
    exists|i: int| 0 <= i < ws.len() && #[trigger] ws[i].id == id
}

/// No id is registered twice.
pub open spec fn ids_unique(ws: Seq<Waiter>) -> bool {
    forall|i: int, j: int| 0 <= i < j < ws.len() ==> #[trigger] ws[i].id != #[trigger] ws[j].id
}

/// What `poll_by` observes of `asserted` under `mask`: the requested bits and
/// the always-polled ones.
pub open spec fn observed(asserted: u32, mask: u32) -> u32 {
    asserted & (mask | ALWAYS_POLL)
}

/// What `poll_by(mask, poller)` does to cell `a`, giving `b` and result `r`:
/// `r` is what `a` shows under `mask`; nothing is asserted or cleared; when
/// `r` is empty and a poller is given, that poller is registered for `mask`
/// and the other registrations stay; otherwise nothing changes.
pub open spec fn poll_post(a: Pollee, mask: Events, poller: Option<u64>, b: Pollee, r: Events) -> bool {
    &&& r.bits == observed(a.asserted_bits(), mask.bits)
    &&& b.asserted_bits() == a.asserted_bits()
    &&& match poller {
        Some(id) if r.bits == 0 => {
            &&& registered(b.waiters(), id)
            &&& forall|i: int|
                0 <= i < b.waiters().len() && #[trigger] b.waiters()[i].id == id ==> b.waiters()[i].mask
                    == mask.bits | ALWAYS_POLL
            &&& forall|w: u64| w != id ==> (registered(b.waiters(), w) == registered(a.waiters(), w))
        },
        _ => b == a,
    }
}

/// A level-triggered set of asserted events, with the pollers waiting on it.
pub struct Pollee {
    asserted: Events,
    waiters: Vec<Waiter>,
}

impl Pollee {
    /// The asserted event bits.
    pub closed spec fn asserted_bits(&self) -> u32 {
        self.asserted.bits
    }

    /// The registered waiters, in registration order.
    pub closed spec fn waiters(&self) -> Seq<Waiter> {
        self.waiters@
    }

    pub open spec fn wf(&self) -> bool {
        ids_unique(self.waiters())
    }

    pub fn new(init: Events) -> (r: Pollee)
        ensures
            r.wf(),
            r.asserted_bits() == init.bits,
            r.waiters() == Seq::<Waiter>::empty(),
    {
        Pollee { asserted: init, waiters: Vec::new() }
    }

    /// The asserted events.
    pub fn events(&self) -> (r: Events)
        ensures
            r.bits == self.asserted_bits(),
    {
        self.asserted
    }

    /// The asserted events that `mask` or the always-polled set asks for. When
    /// there are none and a poller is given, the poller is registered for
    /// `mask` (once: a second registration replaces the first).
    pub fn poll_by(&mut self, mask: Events, poller: Option<u64>) -> (r: Events)
        requires
            old(self).wf(),
        ensures
            final(self).wf(),
            poll_post(*old(self), mask, poller, *final(self), r),
    {
        let want = mask.union(Events::from_bits(ALWAYS_POLL));
        let r = self.asserted.intersection(want);
        if r.is_empty() {
            if let Some(id) = poller {
                self.register(id, want.bits);
            }
        }
        r
    }

    fn register(&mut self, id: u64, mask: u32)
        requires
            old(self).wf(),
        ensures
            final(self).wf(),
            final(self).asserted_bits() == old(self).asserted_bits(),
            registered(final(self).waiters(), id),
            forall|i: int|
                0 <= i < final(self).waiters().len() && #[trigger] final(self).waiters()[i].id == id
                    ==> final(self).waiters()[i].mask == mask,
            forall|w: u64|
                w != id ==> (registered(final(self).waiters(), w) == registered(
                    old(self).waiters(),
                    w,
                )),
    {
        let mut i: usize = 0;
        while i < self.waiters.len()
            invariant
                self.waiters@ == old(self).waiters@,
                ids_unique(old(self).waiters@),
                self.asserted == old(self).asserted,
                i <= self.waiters@.len(),
                forall|k: int| 0 <= k < i ==> #[trigger] self.waiters@[k].id != id,
            decreases self.waiters@.len() - i,
        {
            if self.waiters[i].id == id {
                self.waiters.set(i, Waiter { id, mask });
                proof {
                    assert(self.waiters@[i as int].id == id);
                    assert(forall|k: int|
                        0 <= k < self.waiters@.len() ==> #[trigger] self.waiters@[k].id == old(
                            self,
                        ).waiters@[k].id);
                    assert forall|k: int| 0 <= k < self.waiters@.len() && #[trigger] self.waiters@[k].id == id
                        implies k == i by {
                        let ow = old(self).waiters@;
                        if k < i {
                            assert(ow[k].id != ow[i as int].id);
                        } else if k > i {
                            assert(ow[i as int].id != ow[k].id);
                        }
                    }
                    assert forall|a: int, b: int| 0 <= a < b < self.waiters@.len() implies #[trigger] self.waiters@[a].id
                        != #[trigger] self.waiters@[b].id by {
                        assert(old(self).waiters@[a].id != old(self).waiters@[b].id);
                    }
                    assert forall|w: u64| w != id implies (registered(self.waiters@, w)
                        == registered(old(self).waiters@, w)) by {
                        if registered(old(self).waiters@, w) {
                            let k = choose|k: int|
                                0 <= k < old(self).waiters@.len() && #[trigger] old(
                                    self,
                                ).waiters@[k].id == w;
                            assert(self.waiters@[k].id == w);
                        }
                        if registered(self.waiters@, w) {
                            let k = choose|k: int|
                                0 <= k < self.waiters@.len() && #[trigger] self.waiters@[k].id == w;
                            assert(old(self).waiters@[k].id == w);
                        }
                    }
                }
                return;
            }
            i = i + 1;
        }
        self.waiters.push(Waiter { id, mask });
        proof {
            let n = old(self).waiters@.len() as int;
            assert(self.waiters@[n].id == id);
            assert forall|w: u64| w != id implies (registered(self.waiters@, w) == registered(
                old(self).waiters@,
                w,
            )) by {
                if registered(old(self).waiters@, w) {
                    let k = choose|k: int|
                        0 <= k < old(self).waiters@.len() && #[trigger] old(self).waiters@[k].id
                            == w;
                    assert(self.waiters@[k].id == w);
                }
                if registered(self.waiters@, w) {
                    let k = choose|k: int|
                        0 <= k < self.waiters@.len() && #[trigger] self.waiters@[k].id == w;
                    assert(old(self).waiters@[k].id == w);
                }
            }
        }
    }

    /// Asserts `ev`. Every waiter whose mask meets `ev` is woken and
    /// deregistered; the woken ids are returned in registration order.
    pub fn add(&mut self, ev: Events) -> (woken: Vec<u64>)
        requires
            old(self).wf(),
        ensures
            final(self).wf(),
            final(self).asserted_bits() == old(self).asserted_bits() | ev.bits,
            woken@ == woken_ids(old(self).waiters(), ev.bits),
            final(self).waiters() == kept_waiters(old(self).waiters(), ev.bits),
    {
        self.asserted = self.asserted.union(ev);
        let mut woken: Vec<u64> = Vec::new();
        let mut kept: Vec<Waiter> = Vec::new();
        let mut i: usize = 0;
        let ghost ws = old(self).waiters@;
        while i < self.waiters.len()
            invariant
                self.waiters@ == ws,
                ids_unique(ws),
                i <= ws.len(),
                woken@ == woken_ids(ws.take(i as int), ev.bits),
                kept@ == kept_waiters(ws.take(i as int), ev.bits),
                forall|k: int|
                    0 <= k < kept@.len() ==> exists|j: int| 0 <= j < i && #[trigger] kept@[k] == ws[j],
                forall|a: int, b: int|
                    0 <= a < b < kept@.len() ==> exists|ja: int, jb: int|
                        0 <= ja < jb < i && #[trigger] kept@[a] == ws[ja] && #[trigger] kept@[b]
                            == ws[jb],
            decreases ws.len() - i,
        {
            let w = self.waiters[i];
            proof {
                assert(ws.take(i + 1).drop_last() =~= ws.take(i as int));
                assert(ws.take(i + 1).last() == w);
            }
            if w.mask & ev.bits != 0 {
                woken.push(w.id);
            } else {
                kept.push(w);
                proof {
                    let n = kept@.len() - 1;
                    assert(kept@[n] == ws[i as int]);
                    assert forall|a: int, b: int| 0 <= a < b < kept@.len() implies exists|ja: int, jb: int|
                        0 <= ja < jb < i + 1 && #[trigger] kept@[a] == ws[ja] && #[trigger] kept@[b]
                            == ws[jb] by {
                        if b == n {
                            let ja = choose|j: int| 0 <= j < i && #[trigger] kept@[a] == ws[j];
                            assert(kept@[b] == ws[i as int]);
                            assert(0 <= ja < i as int && kept@[a] == ws[ja] && kept@[b] == ws[i as int]);
                        } else {
                            let (ja, jb) = choose|ja: int, jb: int|
                                0 <= ja < jb < i && #[trigger] kept@[a] == ws[ja] && #[trigger] kept@[b]
                                    == ws[jb];
                            assert(0 <= ja < jb < i + 1 && kept@[a] == ws[ja] && kept@[b] == ws[jb]);
                        }
                    }
                }
            }
            i = i + 1;
        }
        proof {
            assert(ws.take(ws.len() as int) =~= ws);
            assert forall|a: int, b: int| 0 <= a < b < kept@.len() implies #[trigger] kept@[a].id
                != #[trigger] kept@[b].id by {
                let (ja, jb) = choose|ja: int, jb: int|
                    0 <= ja < jb < i && #[trigger] kept@[a] == ws[ja] && #[trigger] kept@[b] == ws[jb];
            }
        }
        self.waiters = kept;
        woken
    }

    /// Clears `ev` from the asserted set.
    pub fn remove(&mut self, ev: Events)
        requires
            old(self).wf(),
        ensures
            final(self).wf(),
            final(self).asserted_bits() == old(self).asserted_bits() & !ev.bits,
            final(self).waiters() == old(self).waiters(),
    {
        self.asserted = self.asserted.difference(ev);
    }

    /// Clears every asserted event.
    pub fn reset(&mut self)
        requires
            old(self).wf(),
        ensures
            final(self).wf(),
            final(self).asserted_bits() == 0,
            final(self).waiters() == old(self).waiters(),
    {
        self.asserted = Events::empty();
    }

    /// Deregisters the poller `id`, as when it is dropped.
    pub fn unregister(&mut self, id: u64)
        requires
            old(self).wf(),
        ensures
            final(self).wf(),
            final(self).asserted_bits() == old(self).asserted_bits(),
            !registered(final(self).waiters(), id),
            forall|w: u64|
                w != id ==> (registered(final(self).waiters(), w) == registered(
                    old(self).waiters(),
                    w,
                )),
    {
        let mut i: usize = 0;
        let ghost ws = self.waiters@;
        while i < self.waiters.len()
            invariant
                self.waiters@ == ws,
                ws == old(self).waiters@,
                self.asserted == old(self).asserted,
                ids_unique(ws),
                i <= ws.len(),
                forall|k: int| 0 <= k < i ==> #[trigger] ws[k].id != id,
            decreases ws.len() - i,
        {
            if self.waiters[i].id == id {
                self.waiters.remove(i);
                proof {
                    let r = self.waiters@;
                    assert(r =~= ws.remove(i as int));
                    assert forall|a: int, b: int| 0 <= a < b < r.len() implies #[trigger] r[a].id
                        != #[trigger] r[b].id by {
                        let ja = if a < i { a } else { a + 1 };
                        let jb = if b < i { b } else { b + 1 };
                        assert(r[a] == ws[ja] && r[b] == ws[jb]);
                    }
                    assert forall|k: int| 0 <= k < r.len() implies #[trigger] r[k].id != id by {
                        let j = if k < i { k } else { k + 1 };
                        assert(r[k] == ws[j]);
                    }
                    assert forall|w: u64| w != id implies (registered(r, w) == registered(ws, w)) by {
                        if registered(ws, w) {
                            let j = choose|j: int| 0 <= j < ws.len() && #[trigger] ws[j].id == w;
                            let k = if j < i { j } else { j - 1 };
                            assert(r[k] == ws[j]);
                        }
                        if registered(r, w) {
                            let k = choose|k: int| 0 <= k < r.len() && #[trigger] r[k].id == w;
                            let j = if k < i { k } else { k + 1 };
                            assert(r[k] == ws[j]);
                        }
                    }
                }
                return;
            }
            i = i + 1;
        }
    }
}

/// Level-triggered observation: a bit that is asserted and asked for is
/// always seen by a poll, so a poll that sees nothing means that the bit was
/// cleared.
pub proof fn lemma_asserted_bit_observed(asserted: u32, mask: u32, bit: u32)
    requires
        asserted & bit != 0,
        mask & bit == bit,
    ensures
        observed(asserted, mask) != 0,
{
    assert((mask & bit == bit) ==> ((mask | ALWAYS_POLL) & bit == bit)) by (bit_vector);
    lemma_intersection_has(asserted, mask | ALWAYS_POLL, bit);
    assert(((asserted & (mask | ALWAYS_POLL)) & bit != 0) ==> (asserted & (mask | ALWAYS_POLL)
        != 0)) by (bit_vector);
}

/// Adding events keeps every bit that was asserted, and asserts the added ones.
pub proof fn lemma_add_keeps(asserted: u32, ev: u32, bit: u32)
    ensures
        (asserted & bit != 0 || ev & bit != 0) ==> ((asserted | ev) & bit != 0),
{
    lemma_union_keeps(asserted, ev, bit);
}

} // verus!
