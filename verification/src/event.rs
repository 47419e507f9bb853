//! The portable set of readiness events associated with a file descriptor.

use vstd::prelude::*;

verus! {

/// Bit assigned to the "readable" condition.
pub const READABLE_BIT: usize = 0b0001;

/// Bit assigned to the "writable" condition.
pub const WRITABLE_BIT: usize = 0b0010;

/// Bit assigned to the "error" condition.
pub const ERROR_BIT: usize = 0b0100;

/// Bit assigned to the "hang-up" condition.
pub const HUP_BIT: usize = 0b1000;

/// The set of events associated with a file descriptor: a bitset over
/// `{Readable, Writable, Error, Hup}`.
#[derive(Clone, Copy, PartialEq, Eq, Structural, Debug, Hash)]
pub struct EventSet {
    bits: usize,
}

/// A readiness event: a file descriptor together with the set of conditions
/// that hold for it.
#[derive(Clone, Copy, PartialEq, Eq, Structural, Debug)]
pub struct Event {
    pub fd: i32,
    pub set: EventSet,
}

impl EventSet {
    /// The raw bit pattern of the set.
    pub closed spec fn spec_bits(self) -> usize {
        self.bits
    }

    /// Whether the set contains the `Readable` condition.
    pub open spec fn spec_readable(self) -> bool {
        self.spec_bits() & READABLE_BIT != 0
    }

    /// Whether the set contains the `Writable` condition.
    pub open spec fn spec_writable(self) -> bool {
        self.spec_bits() & WRITABLE_BIT != 0
    }

    /// Whether the set contains the `Error` condition.
    pub open spec fn spec_error(self) -> bool {
        self.spec_bits() & ERROR_BIT != 0
    }

    /// Whether the set contains the `Hup` condition.
    pub open spec fn spec_hup(self) -> bool {
        self.spec_bits() & HUP_BIT != 0
    }

    /// The set with no conditions.
    pub fn empty() -> (r: EventSet)
        ensures
            r.spec_bits() == 0,
            !r.spec_readable(),
            !r.spec_writable(),
            !r.spec_error(),
            !r.spec_hup(),
    {
        proof {
            assert(0usize & 0b0001 == 0 && 0usize & 0b0010 == 0 && 0usize & 0b0100 == 0
                && 0usize & 0b1000 == 0) by (bit_vector);
        }
        EventSet { bits: 0 }
    }

    /// Whether no condition is present.
    pub fn is_empty(&self) -> (r: bool)
        ensures
            r == (self.spec_bits() == 0),
    {
        self.bits == 0
    }

    /// The set containing exactly the `Readable` condition.
    pub fn readable() -> (r: EventSet)
        ensures
            r.spec_bits() == READABLE_BIT,
            r.spec_readable(),
            !r.spec_writable(),
            !r.spec_error(),
            !r.spec_hup(),
    {
        proof {
            assert(1usize & 0b0001 != 0 && 1usize & 0b0010 == 0 && 1usize & 0b0100 == 0
                && 1usize & 0b1000 == 0) by (bit_vector);
        }
        EventSet { bits: READABLE_BIT }
    }

    /// Whether the set contains the `Readable` condition.
    pub fn is_readable(&self) -> (r: bool)
        ensures
            r == self.spec_readable(),
    {
        self.bits & READABLE_BIT != 0
    }

    /// The set containing exactly the `Writable` condition.
    pub fn writable() -> (r: EventSet)
        ensures
            r.spec_bits() == WRITABLE_BIT,
            !r.spec_readable(),
            r.spec_writable(),
            !r.spec_error(),
            !r.spec_hup(),
    {
        proof {
            assert(2usize & 0b0001 == 0 && 2usize & 0b0010 != 0 && 2usize & 0b0100 == 0
                && 2usize & 0b1000 == 0) by (bit_vector);
        }
        EventSet { bits: WRITABLE_BIT }
    }

    /// Whether the set contains the `Writable` condition.
    pub fn is_writable(&self) -> (r: bool)
        ensures
            r == self.spec_writable(),
    {
        self.bits & WRITABLE_BIT != 0
    }

    /// The set containing exactly the `Error` condition.
    pub fn error() -> (r: EventSet)
        ensures
            r.spec_bits() == ERROR_BIT,
            !r.spec_readable(),
            !r.spec_writable(),
            r.spec_error(),
            !r.spec_hup(),
    {
        proof {
            assert(4usize & 0b0001 == 0 && 4usize & 0b0010 == 0 && 4usize & 0b0100 != 0
                && 4usize & 0b1000 == 0) by (bit_vector);
        }
        EventSet { bits: ERROR_BIT }
    }

    /// Whether the set contains the `Error` condition.
    pub fn is_error(&self) -> (r: bool)
        ensures
            r == self.spec_error(),
    {
        self.bits & ERROR_BIT != 0
    }

    /// The set containing exactly the `Hup` condition.
    pub fn hup() -> (r: EventSet)
        ensures
            r.spec_bits() == HUP_BIT,
            !r.spec_readable(),
            !r.spec_writable(),
            !r.spec_error(),
            r.spec_hup(),
    {
        proof {
            assert(8usize & 0b0001 == 0 && 8usize & 0b0010 == 0 && 8usize & 0b0100 == 0
                && 8usize & 0b1000 != 0) by (bit_vector);
        }
        EventSet { bits: HUP_BIT }
    }

    /// Whether the set contains the `Hup` condition.
    pub fn is_hup(&self) -> (r: bool)
        ensures
            r == self.spec_hup(),
    {
        self.bits & HUP_BIT != 0
    }

    /// Adds every condition of `other` to the set.
    pub fn insert(&mut self, other: EventSet)
        ensures
            final(self).spec_bits() == old(self).spec_bits() | other.spec_bits(),
            final(self).spec_readable() == (old(self).spec_readable() || other.spec_readable()),
            final(self).spec_writable() == (old(self).spec_writable() || other.spec_writable()),
            final(self).spec_error() == (old(self).spec_error() || other.spec_error()),
            final(self).spec_hup() == (old(self).spec_hup() || other.spec_hup()),
    {
        proof {
            lemma_or_distributes(self.bits, other.bits);
        }
        self.bits = self.bits | other.bits;
    }

    /// The union of the two sets.
    pub fn union(self, other: EventSet) -> (r: EventSet)
        ensures
            r.spec_bits() == self.spec_bits() | other.spec_bits(),
            r.spec_readable() == (self.spec_readable() || other.spec_readable()),
            r.spec_writable() == (self.spec_writable() || other.spec_writable()),
            r.spec_error() == (self.spec_error() || other.spec_error()),
            r.spec_hup() == (self.spec_hup() || other.spec_hup()),
    {
        proof {
            lemma_or_distributes(self.bits, other.bits);
        }
        EventSet { bits: self.bits | other.bits }
    }

    /// Whether every condition of `other` is present in the set.
    pub fn contains(&self, other: EventSet) -> (r: bool)
        ensures
            r == (self.spec_bits() & other.spec_bits() == other.spec_bits()),
    {
        self.bits & other.bits == other.bits
    }

    /// Whether some condition is present in both sets.
    pub fn intersects(&self, other: EventSet) -> (r: bool)
        ensures
            r == (self.spec_bits() & other.spec_bits() != 0),
    {
        self.bits & other.bits != 0
    }
}

/// The union of two masks within the four condition bits stays within
/// them.
pub proof fn lemma_union_stays_low(a: usize, b: usize)
    requires
        a <= 0xF,
        b <= 0xF,
    ensures
        (a | b) <= 0xF,
{
    assert((a | b) <= 0xF) by (bit_vector)
        requires
            a <= 0xF && b <= 0xF,
    ;
}

/// Law: a mask within the four condition bits is determined by its
/// conditions: two such masks that agree on `Readable`, `Writable`, `Error`
/// and `Hup` are equal.
pub proof fn lemma_conditions_determine(a: EventSet, b: EventSet)
    requires
        a.spec_bits() <= 0xF,
        b.spec_bits() <= 0xF,
        a.spec_readable() == b.spec_readable(),
        a.spec_writable() == b.spec_writable(),
        a.spec_error() == b.spec_error(),
        a.spec_hup() == b.spec_hup(),
    ensures
        a == b,
{
    let x = a.spec_bits();
    let y = b.spec_bits();
    assert(x == y) by (bit_vector)
        requires
            x <= 0xF && y <= 0xF && ((x & 0b0001 != 0) == (y & 0b0001 != 0)) && ((x & 0b0010 != 0)
                == (y & 0b0010 != 0)) && ((x & 0b0100 != 0) == (y & 0b0100 != 0)) && ((x & 0b1000
                != 0) == (y & 0b1000 != 0)),
    ;
}

/// A nonempty mask within the four condition bits holds at least one of
/// the four conditions.
pub proof fn lemma_nonempty_has_condition(a: EventSet)
    requires
        a.spec_bits() <= 0xF,
        a.spec_bits() != 0,
    ensures
        a.spec_readable() || a.spec_writable() || a.spec_error() || a.spec_hup(),
{
    let x = a.spec_bits();
    assert((x & 0b0001 != 0) || (x & 0b0010 != 0) || (x & 0b0100 != 0) || (x & 0b1000 != 0))
        by (bit_vector)
        requires
            x <= 0xF && x != 0,
    ;
}

/// Testing a flag of a union tests it in each operand.
proof fn lemma_or_distributes(a: usize, b: usize)
    ensures
        forall|m: usize| ((a | b) & m != 0) == (a & m != 0 || b & m != 0),
{
    assert forall|m: usize| ((a | b) & m != 0) == (a & m != 0 || b & m != 0) by {
        assert(((a | b) & m != 0) == (a & m != 0 || b & m != 0)) by (bit_vector);
    }
}

} // verus!
