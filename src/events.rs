use vstd::prelude::*;

verus! {

/// Readable data is available (POLLIN).
pub const IN: u32 = 0x0001;

/// Urgent data is available (POLLPRI).
pub const PRI: u32 = 0x0002;

/// Writing will not block (POLLOUT).
pub const OUT: u32 = 0x0004;

/// An error condition (POLLERR).
pub const ERR: u32 = 0x0008;

/// Hang up (POLLHUP).
pub const HUP: u32 = 0x0010;

/// Invalid request (POLLNVAL).
pub const NVAL: u32 = 0x0020;

/// The peer closed its writing half (POLLRDHUP).
pub const RDHUP: u32 = 0x2000;

/// Events that are observed even when a mask does not ask for them.
pub const ALWAYS_POLL: u32 = 0x0018;

/// Every event bit that is defined.
pub const ALL: u32 = 0x203f;

/// A set of I/O events, as a Linux-compatible bit mask.
#[derive(Clone, Copy, Debug, PartialEq, Eq, Structural)]
pub struct Events {
    pub bits: u32,
}

impl Events {
    pub fn empty() -> (r: Events)
        ensures
            r.bits == 0,
    {
        Events { bits: 0 }
    }

    /// The set with exactly the given bits.
    pub fn from_bits(bits: u32) -> (r: Events)
        ensures
            r.bits == bits,
    {
        Events { bits }
    }

    pub fn bits(&self) -> (r: u32)
        ensures
            r == self.bits,
    {
        self.bits
    }

    pub fn is_empty(&self) -> (r: bool)
        ensures
            r == (self.bits == 0),
    {
        self.bits == 0
    }

    /// Whether every bit of `other` is in `self`.
    pub fn contains(&self, other: Events) -> (r: bool)
        ensures
            r == (self.bits & other.bits == other.bits),
    {
        self.bits & other.bits == other.bits
    }

    /// Whether `self` and `other` share a bit.
    pub fn intersects(&self, other: Events) -> (r: bool)
        ensures
            r == (self.bits & other.bits != 0),
    {
        self.bits & other.bits != 0
    }

    pub fn union(&self, other: Events) -> (r: Events)
        ensures
            r.bits == self.bits | other.bits,
    {
        Events { bits: self.bits | other.bits }
    }

    pub fn intersection(&self, other: Events) -> (r: Events)
        ensures
            r.bits == self.bits & other.bits,
    {
        Events { bits: self.bits & other.bits }
    }

    /// The bits of `self` that are not in `other`.
    pub fn difference(&self, other: Events) -> (r: Events)
        ensures
            r.bits == self.bits & !other.bits,
    {
        Events { bits: self.bits & !other.bits }
    }
}

/// A bit that is set stays set under a union.
pub proof fn lemma_union_keeps(a: u32, b: u32, bit: u32)
    ensures
        (a & bit != 0) ==> ((a | b) & bit != 0),
        (b & bit != 0) ==> ((a | b) & bit != 0),
{
    assert((a & bit != 0) ==> ((a | b) & bit != 0)) by (bit_vector);
    assert((b & bit != 0) ==> ((a | b) & bit != 0)) by (bit_vector);
}

/// Removing bits clears exactly them: a bit outside the removed set stays as it was.
pub proof fn lemma_difference_keeps(a: u32, b: u32, bit: u32)
    ensures
        (b & bit == 0) ==> ((a & !b) & bit == a & bit),
        (b & bit == bit) ==> ((a & !b) & bit == 0),
{
    assert((b & bit == 0) ==> ((a & !b) & bit == a & bit)) by (bit_vector);
    assert((b & bit == bit) ==> ((a & !b) & bit == 0)) by (bit_vector);
}

/// A bit that is set in both `a` and `m` is set in their intersection.
pub proof fn lemma_intersection_has(a: u32, m: u32, bit: u32)
    ensures
        (a & bit != 0 && m & bit == bit) ==> ((a & m) & bit != 0),
        (a & m) & bit != 0 ==> a & bit != 0,
        (a & m) != 0 ==> a != 0,
{
    assert((a & bit != 0 && m & bit == bit) ==> ((a & m) & bit != 0)) by (bit_vector);
    assert((a & m) & bit != 0 ==> a & bit != 0) by (bit_vector);
    assert((a & m) != 0 ==> a != 0) by (bit_vector);
}

} // verus!
