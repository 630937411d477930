use vstd::prelude::*;

verus! {

/// A contiguous region of a circular buffer's storage: `len` bytes from `start`.
#[derive(Clone, Copy, Debug, PartialEq, Eq, Structural)]
pub struct IoSpan {
    pub start: usize,
    pub len: usize,
}

/// The up to two spans that cover `len` bytes starting at `start` in a ring of
/// `cap` bytes, where the second span is empty unless the region wraps around.
pub open spec fn spans_of(start: int, len: int, cap: int) -> (IoSpan, IoSpan) {
    if start + len <= cap {
        (IoSpan { start: start as usize, len: len as usize }, IoSpan { start: 0, len: 0 })
    } else {
        (
            IoSpan { start: start as usize, len: (cap - start) as usize },
            IoSpan { start: 0, len: (start + len - cap) as usize },
        )
    }
}

/// The storage index of the byte `i` places after `start`, in a ring of `cap` bytes.
pub open spec fn ring_index(start: int, i: int, cap: int) -> int {
    if start + i < cap {
        start + i
    } else {
        start + i - cap
    }
}

/// A bounded ring of bytes whose free and filled regions can also be lent out
/// as spans, so that the host can fill or drain them directly.
pub struct CircularBuf {
    storage: Vec<u8>,
    head: usize,
    len: usize,
}

impl View for CircularBuf {
    type V = Seq<u8>;

    /// The bytes held, oldest first.
    closed spec fn view(&self) -> Seq<u8> {
        Seq::new(
            self.len as nat,
            |i: int| self.storage@[ring_index(self.head as int, i, self.storage@.len() as int)],
        )
    }
}

impl CircularBuf {
    /// The number of bytes the buffer can hold.
    pub closed spec fn cap(&self) -> nat {
        self.storage@.len()
    }

    /// The storage index of the oldest byte.
    pub closed spec fn head_index(&self) -> int {
        self.head as int
    }

    /// The byte stored at storage index `pos`.
    pub closed spec fn byte_at(&self, pos: int) -> u8 {
        self.storage@[pos]
    }

    /// The bytes of the free region, in the order in which they would be produced.
    pub open spec fn free_region(&self) -> Seq<u8> {
        Seq::new(
            (self.cap() - self@.len()) as nat,
            |i: int| self.byte_at(ring_index(self.head_index(), self@.len() + i, self.cap() as int)),
        )
    }

    /// The spans that cover the filled region, oldest bytes first.
    pub open spec fn filled_spans(&self) -> (IoSpan, IoSpan) {
        spans_of(self.head_index(), self@.len() as int, self.cap() as int)
    }

    /// The spans that cover the free region, in production order.
    pub open spec fn free_spans(&self) -> (IoSpan, IoSpan) {
        spans_of(
            ring_index(self.head_index(), self@.len() as int, self.cap() as int),
            self.cap() - self@.len(),
            self.cap() as int,
        )
    }

    /// The private representation is consistent.
    pub closed spec fn inv(&self) -> bool {
        &&& self.storage@.len() > 0
        &&& self.storage@.len() <= isize::MAX
        &&& self.head < self.storage@.len()
        &&& self.len <= self.storage@.len()
    }

    /// The buffer is well formed: its capacity is positive and it never holds
    /// more than its capacity.
    pub open spec fn wf(&self) -> bool {
        &&& self.inv()
        &&& 0 < self.cap() <= isize::MAX
        &&& 0 <= self.head_index() < self.cap()
        &&& self@.len() <= self.cap()
        &&& forall|i: int|
            0 <= i < self@.len() ==> #[trigger] self@[i] == self.byte_at(
                ring_index(self.head_index(), i, self.cap() as int),
            )
    }

    proof fn lemma_view_len(&self)
        requires
            self.inv(),
        ensures
            self@.len() == self.len,
            self.wf(),
    {
    }

    /// An empty buffer of `capacity` bytes.
    pub fn new(capacity: usize) -> (r: CircularBuf)
        requires
            0 < capacity <= isize::MAX,
        ensures
            r.wf(),
            r.cap() == capacity,
            r@ == Seq::<u8>::empty(),
    {
        let storage: Vec<u8> = vec![0u8; capacity];
        let r = CircularBuf { storage, head: 0, len: 0 };
        proof {
            r.lemma_view_len();
            assert(r@ =~= Seq::<u8>::empty());
        }
        r
    }

    pub fn capacity(&self) -> (r: usize)
        requires
            self.wf(),
        ensures
            r == self.cap(),
    {
        self.storage.len()
    }

    /// The number of bytes held.
    pub fn filled_len(&self) -> (r: usize)
        requires
            self.wf(),
        ensures
            r == self@.len(),
    {
        proof { self.lemma_view_len(); }
        self.len
    }

    /// The number of bytes that can still be produced.
    pub fn free_len(&self) -> (r: usize)
        requires
            self.wf(),
        ensures
            r == self.cap() - self@.len(),
    {
        proof { self.lemma_view_len(); }
        self.storage.len() - self.len
    }

    pub fn is_empty(&self) -> (r: bool)
        requires
            self.wf(),
        ensures
            r == (self@.len() == 0),
    {
        proof { self.lemma_view_len(); }
        self.len == 0
    }

    pub fn is_full(&self) -> (r: bool)
        requires
            self.wf(),
        ensures
            r == (self@.len() == self.cap()),
    {
        proof { self.lemma_view_len(); }
        self.len == self.storage.len()
    }

    fn ring_pos(&self, i: usize) -> (r: usize)
        requires
            self.inv(),
            i <= self.storage@.len(),
        ensures
            r == ring_index(self.head as int, i as int, self.storage@.len() as int),
    {
        let cap = self.storage.len();
        if i < cap - self.head {
            self.head + i
        } else {
            i - (cap - self.head)
        }
    }

    /// Writes `src` into the free region, as far as it reaches, without making
    /// the bytes part of the contents: this is how the host fills a lent
    /// producer span. Returns the number of bytes written.
    pub fn write_free(&mut self, src: &[u8]) -> (n: usize)
        requires
            old(self).wf(),
        ensures
            final(self).wf(),
            final(self).cap() == old(self).cap(),
            final(self).head_index() == old(self).head_index(),
            final(self)@ == old(self)@,
            n == if src@.len() < old(self).cap() - old(self)@.len() {
                src@.len() as int
            } else {
                old(self).cap() - old(self)@.len()
            },
            final(self).free_region().take(n as int) == src@.take(n as int),
            final(self).free_region().skip(n as int) == old(self).free_region().skip(n as int),
    {
        proof { self.lemma_view_len(); }
        let free = self.storage.len() - self.len;
        let n: usize = if src.len() < free { src.len() } else { free };
        let ghost cap = self.storage@.len() as int;
        let ghost head = self.head as int;
        let ghost len = self.len as int;
        let ghost old_storage = self.storage@;
        let mut i: usize = 0;
        while i < n
            invariant
                self.inv(),
                self.storage@.len() == cap,
                self.head == head,
                self.len == len,
                i <= n,
                n <= src@.len(),
                n == cap - len || n == src@.len(),
                len + n <= cap,
                forall|k: int|
                    0 <= k < i ==> #[trigger] self.storage@[ring_index(head, len + k, cap)]
                        == src@[k],
                forall|k: int|
                    i <= k < cap - len ==> #[trigger] self.storage@[ring_index(head, len + k, cap)]
                        == old_storage[ring_index(head, len + k, cap)],
                forall|k: int|
                    0 <= k < len ==> #[trigger] self.storage@[ring_index(head, k, cap)]
                        == old_storage[ring_index(head, k, cap)],
            decreases n - i,
        {
            let pos = self.ring_pos(self.len + i);
            self.storage.set(pos, src[i]);
            i = i + 1;
        }
        proof {
            self.lemma_view_len();
            assert(self@ =~= old(self)@);
            assert(self.free_region().take(n as int) =~= src@.take(n as int));
            assert(self.free_region().skip(n as int) =~= old(self).free_region().skip(n as int));
        }
        n
    }
    /// Makes the first `n` bytes of the free region part of the contents,
    /// after the host has filled them.
    pub fn produce_without_copy(&mut self, n: usize)
        requires
            old(self).wf(),
            n <= old(self).cap() - old(self)@.len(),
        ensures
            final(self).wf(),
            final(self).cap() == old(self).cap(),
            final(self).head_index() == old(self).head_index(),
            final(self)@ == old(self)@ + old(self).free_region().take(n as int),
            final(self).free_region() == old(self).free_region().skip(n as int),
    {
        proof { self.lemma_view_len(); }
        self.len = self.len + n;
        proof {
            self.lemma_view_len();
            assert(self@ =~= old(self)@ + old(self).free_region().take(n as int));
            assert(self.free_region() =~= old(self).free_region().skip(n as int));
        }
    }

    /// Copies as much of `src` as fits into the buffer. Returns the number of
    /// bytes copied, which are appended to the contents.
    pub fn produce(&mut self, src: &[u8]) -> (n: usize)
        requires
            old(self).wf(),
        ensures
            final(self).wf(),
            final(self).cap() == old(self).cap(),
            n == if src@.len() < old(self).cap() - old(self)@.len() {
                src@.len() as int
            } else {
                old(self).cap() - old(self)@.len()
            },
            final(self)@ == old(self)@ + src@.take(n as int),
    {
        let n = self.write_free(src);
        self.produce_without_copy(n);
        n
    }

    /// Copies the oldest bytes into `dst`, as many as fit, without removing
    /// them: this is how the host reads a lent consumer span. Returns the
    /// number of bytes copied.
    pub fn peek(&self, dst: &mut [u8]) -> (n: usize)
        requires
            self.wf(),
        ensures
            n == if old(dst)@.len() < self@.len() {
                old(dst)@.len() as int
            } else {
                self@.len() as int
            },
            final(dst)@.len() == old(dst)@.len(),
            final(dst)@.take(n as int) == self@.take(n as int),
            final(dst)@.skip(n as int) == old(dst)@.skip(n as int),
    {
        proof { self.lemma_view_len(); }
        let n: usize = if dst.len() < self.len { dst.len() } else { self.len };
        let mut i: usize = 0;
        while i < n
            invariant
                self.wf(),
                self@.len() == self.len,
                i <= n,
                n <= dst@.len(),
                n <= self.len,
                dst@.len() == old(dst)@.len(),
                forall|k: int| 0 <= k < i ==> #[trigger] dst@[k] == self@[k],
                forall|k: int| n <= k < dst@.len() ==> #[trigger] dst@[k] == old(dst)@[k],
            decreases n - i,
        {
            let pos = self.ring_pos(i);
            dst[i] = self.storage[pos];
            i = i + 1;
        }
        proof {
            assert(dst@.take(n as int) =~= self@.take(n as int));
            assert(dst@.skip(n as int) =~= old(dst)@.skip(n as int));
        }
        n
    }

    /// Drops the oldest `n` bytes, after the host has drained them.
    pub fn consume_without_copy(&mut self, n: usize)
        requires
            old(self).wf(),
            n <= old(self)@.len(),
        ensures
            final(self).wf(),
            final(self).cap() == old(self).cap(),
            final(self)@ == old(self)@.skip(n as int),
    {
        proof { self.lemma_view_len(); }
        let h = self.ring_pos(n);
        let ghost cap = self.storage@.len() as int;
        let ghost oh = self.head as int;
        self.head = if h == self.storage.len() { 0 } else { h };
        self.len = self.len - n;
        proof {
            self.lemma_view_len();
            assert forall|i: int| 0 <= i < self@.len() implies #[trigger] self@[i] == old(self)@.skip(
                n as int,
            )[i] by {
                assert(ring_index(self.head as int, i, cap) == ring_index(oh, n + i, cap));
            }
            assert(self@ =~= old(self)@.skip(n as int));
        }
    }

    /// Moves the oldest bytes into `dst`, as many as fit. Returns the number of
    /// bytes moved, which leave the contents.
    pub fn consume(&mut self, dst: &mut [u8]) -> (n: usize)
        requires
            old(self).wf(),
        ensures
            final(self).wf(),
            final(self).cap() == old(self).cap(),
            n == if old(dst)@.len() < old(self)@.len() {
                old(dst)@.len() as int
            } else {
                old(self)@.len() as int
            },
            final(dst)@.len() == old(dst)@.len(),
            final(dst)@.take(n as int) == old(self)@.take(n as int),
            final(dst)@.skip(n as int) == old(dst)@.skip(n as int),
            final(self)@ == old(self)@.skip(n as int),
    {
        let n = self.peek(dst);
        self.consume_without_copy(n);
        n
    }

    /// The filled region as up to two spans of storage, oldest bytes first.
    pub fn consumer_spans(&self) -> (r: (IoSpan, IoSpan))
        requires
            self.wf(),
        ensures
            r == self.filled_spans(),
            r.0.len + r.1.len == self@.len(),
            forall|i: int| 0 <= i < r.0.len ==> #[trigger] self.byte_at(r.0.start + i) == self@[i],
            forall|i: int|
                0 <= i < r.1.len ==> #[trigger] self.byte_at(r.1.start + i) == self@[r.0.len + i],
    {
        proof { self.lemma_view_len(); }
        let cap = self.storage.len();
        if self.len <= cap - self.head {
            (IoSpan { start: self.head, len: self.len }, IoSpan { start: 0, len: 0 })
        } else {
            (
                IoSpan { start: self.head, len: cap - self.head },
                IoSpan { start: 0, len: self.len - (cap - self.head) },
            )
        }
    }

    /// The free region as up to two spans of storage, in production order.
    pub fn producer_spans(&self) -> (r: (IoSpan, IoSpan))
        requires
            self.wf(),
        ensures
            r == self.free_spans(),
            r.0.len + r.1.len == self.cap() - self@.len(),
            forall|i: int|
                0 <= i < r.0.len ==> #[trigger] self.byte_at(r.0.start + i) == self.free_region()[i],
            forall|i: int|
                0 <= i < r.1.len ==> #[trigger] self.byte_at(r.1.start + i)
                    == self.free_region()[r.0.len + i],
    {
        proof { self.lemma_view_len(); }
        let cap = self.storage.len();
        let tail = self.ring_pos(self.len);
        let tail = if tail == cap { 0 } else { tail };
        let free = cap - self.len;
        if free <= cap - tail {
            (IoSpan { start: tail, len: free }, IoSpan { start: 0, len: 0 })
        } else {
            (IoSpan { start: tail, len: cap - tail }, IoSpan { start: 0, len: free - (cap - tail) })
        }
    }
}


/// Produce then consume is first in, first out: after producing into a
/// buffer holding `held`, consuming everything gives back `held` followed by
/// exactly the bytes that were produced, and the buffer never holds more
/// than its capacity.
pub proof fn lemma_produce_consume_round_trip(held: Seq<u8>, src: Seq<u8>, cap: nat)
    requires
        held.len() <= cap,
    ensures
        ({
            let n = if src.len() < cap - held.len() {
                src.len() as int
            } else {
                cap - held.len()
            };
            let after = held + src.take(n);
            &&& after.len() <= cap
            &&& after.take(held.len() as int) == held
            &&& after.skip(held.len() as int) == src.take(n)
        }),
{
    let n = if src.len() < cap - held.len() {
        src.len() as int
    } else {
        cap - held.len()
    };
    let after = held + src.take(n);
    assert(after.take(held.len() as int) =~= held);
    assert(after.skip(held.len() as int) =~= src.take(n));
}

} // verus!
