use vstd::prelude::*;

verus! {

/// Bit of a readiness set: the stream can be read.
pub const READABLE: u16 = 0b00001;

/// Bit of a readiness set: the stream can be written.
pub const WRITABLE: u16 = 0b00010;

/// Bit of a readiness set: an error occurred on the stream.
pub const ERROR: u16 = 0b00100;

/// Bit of a readiness set: the peer hung up.
pub const HUP: u16 = 0b01000;

/// A set of readiness flags, one bit each.
#[derive(Debug, Clone, Copy, PartialEq, Eq, Structural)]
pub struct Ready(pub u16);

impl Ready {
    /// Every bit of `flags` is set in `self`.
    pub open spec fn has(self, flags: u16) -> bool {
        self.0 & flags == flags
    }

    /// The set with no flag.
    pub fn empty() -> (r: Ready)
        ensures
            r.0 == 0,
    {
        Ready(0)
    }

    /// The set holding only the readable flag.
    pub fn readable() -> (r: Ready)
        ensures
            r.0 == READABLE,
    {
        Ready(READABLE)
    }

    /// The set holding only the writable flag.
    pub fn writable() -> (r: Ready)
        ensures
            r.0 == WRITABLE,
    {
        Ready(WRITABLE)
    }

    /// The set holding only the error flag.
    pub fn error() -> (r: Ready)
        ensures
            r.0 == ERROR,
    {
        Ready(ERROR)
    }

    /// The set holding only the hang-up flag.
    pub fn hup() -> (r: Ready)
        ensures
            r.0 == HUP,
    {
        Ready(HUP)
    }

    /// The set holding all four flags.
    pub fn all() -> (r: Ready)
        ensures
            r.0 == READABLE | WRITABLE | ERROR | HUP,
    {
        Ready(READABLE | WRITABLE | ERROR | HUP)
    }

    /// No flag is set.
    pub fn is_empty(&self) -> (b: bool)
        ensures
            b == (self.0 == 0),
    {
        self.0 == 0
    }

    /// Every flag of `other` is set in `self`.
    pub fn contains(&self, other: Ready) -> (b: bool)
        ensures
            b == self.has(other.0),
            b == (self.0 & other.0 == other.0),
    {
        (self.0 & other.0) == other.0
    }

    /// The readable flag is set.
    pub fn is_readable(&self) -> (b: bool)
        ensures
            b == self.has(READABLE),
            b == (self.0 & READABLE == READABLE),
    {
        self.contains(Ready::readable())
    }

    /// The writable flag is set.
    pub fn is_writable(&self) -> (b: bool)
        ensures
            b == self.has(WRITABLE),
            b == (self.0 & WRITABLE == WRITABLE),
    {
        self.contains(Ready::writable())
    }

    /// The error flag is set.
    pub fn is_error(&self) -> (b: bool)
        ensures
            b == self.has(ERROR),
            b == (self.0 & ERROR == ERROR),
    {
        self.contains(Ready::error())
    }

    /// The hang-up flag is set.
    pub fn is_hup(&self) -> (b: bool)
        ensures
            b == self.has(HUP),
            b == (self.0 & HUP == HUP),
    {
        self.contains(Ready::hup())
    }

    /// Sets every flag of `other`.
    pub fn insert(&mut self, other: Ready)
        ensures
            final(self).0 == old(self).0 | other.0,
    {
        self.0 = self.0 | other.0;
    }

    /// Clears every flag of `other`.
    pub fn remove(&mut self, other: Ready)
        ensures
            final(self).0 == old(self).0 & !other.0,
    {
        self.0 = self.0 & !other.0;
    }

    /// The flags set in either set.
    pub fn union(self, other: Ready) -> (r: Ready)
        ensures
            r.0 == self.0 | other.0,
    {
        Ready(self.0 | other.0)
    }

    /// The flags set in both sets.
    pub fn intersection(self, other: Ready) -> (r: Ready)
        ensures
            r.0 == self.0 & other.0,
    {
        Ready(self.0 & other.0)
    }
}

/// After inserting `other`, every flag of `other` is set and every flag that
/// was set stays set.
pub proof fn lemma_insert_contains(r: Ready, other: Ready, flags: u16)
    requires
        r.has(flags),
    ensures
        Ready(r.0 | other.0).has(other.0),
        Ready(r.0 | other.0).has(flags),
{
    let a = r.0;
    let b = other.0;
    assert((a | b) & b == b) by (bit_vector);
    assert(a & flags == flags ==> (a | b) & flags == flags) by (bit_vector);
}

/// After removing `other`, no flag of `other` is set, and every flag outside
/// `other` keeps its state.
pub proof fn lemma_remove_clears(r: Ready, other: Ready, flags: u16)
    requires
        other.0 & flags == 0,
    ensures
        (r.0 & !other.0) & other.0 == 0,
        Ready(r.0 & !other.0).has(flags) == r.has(flags),
{
    let a = r.0;
    let b = other.0;
    assert((a & !b) & b == 0) by (bit_vector);
    assert(b & flags == 0 ==> (((a & !b) & flags == flags) == (a & flags == flags))) by (bit_vector);
}

/// The four flags are distinct single bits, so each constructor's set holds
/// its own flag and none of the other three.
pub proof fn lemma_flags_distinct()
    ensures
        Ready(READABLE).has(READABLE) && !Ready(READABLE).has(WRITABLE)
            && !Ready(READABLE).has(ERROR) && !Ready(READABLE).has(HUP),
        Ready(WRITABLE).has(WRITABLE) && !Ready(WRITABLE).has(READABLE)
            && !Ready(WRITABLE).has(ERROR) && !Ready(WRITABLE).has(HUP),
        Ready(ERROR).has(ERROR) && !Ready(ERROR).has(READABLE)
            && !Ready(ERROR).has(WRITABLE) && !Ready(ERROR).has(HUP),
        Ready(HUP).has(HUP) && !Ready(HUP).has(READABLE)
            && !Ready(HUP).has(WRITABLE) && !Ready(HUP).has(ERROR),
        !Ready(0).has(READABLE) && !Ready(0).has(WRITABLE) && !Ready(0).has(ERROR)
            && !Ready(0).has(HUP),
{
    assert(1u16 & 1u16 == 1u16 && 1u16 & 2u16 != 2u16 && 1u16 & 4u16 != 4u16 && 1u16 & 8u16 != 8u16) by (bit_vector);
    assert(2u16 & 2u16 == 2u16 && 2u16 & 1u16 != 1u16 && 2u16 & 4u16 != 4u16 && 2u16 & 8u16 != 8u16) by (bit_vector);
    assert(4u16 & 4u16 == 4u16 && 4u16 & 1u16 != 1u16 && 4u16 & 2u16 != 2u16 && 4u16 & 8u16 != 8u16) by (bit_vector);
    assert(8u16 & 8u16 == 8u16 && 8u16 & 1u16 != 1u16 && 8u16 & 2u16 != 2u16 && 8u16 & 4u16 != 4u16) by (bit_vector);
    assert(0u16 & 1u16 != 1u16 && 0u16 & 2u16 != 2u16 && 0u16 & 4u16 != 4u16 && 0u16 & 8u16 != 8u16) by (bit_vector);
}

} // verus!
