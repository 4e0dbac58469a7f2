//! TCP sequence numbers and inclusive sequence ranges.
//!
//! `Sequence` is a 32-bit value with wrapping addition and a signed 64-bit
//! difference. `SequenceRange` is an inclusive interval of sequence numbers
//! whose equality is intersection: two ranges compare equal exactly when they
//! overlap, which lets an ordered store find every stored range that touches a
//! query range with one ordered lookup.

use vstd::prelude::*;
use vstd::std_specs::cmp::PartialEqSpec;

verus! {

/// A 32-bit TCP sequence or acknowledgement number.
#[derive(Clone, Copy, Debug, PartialEq, Eq, Structural)]
pub struct Sequence(pub u32);

impl Sequence {
    /// Wrapping addition of an unsigned offset, modulo 2^32.
    pub open spec fn spec_add(self, rhs: u32) -> Sequence {
        Sequence(((self.0 + rhs) % 0x1_0000_0000) as u32)
    }

    /// The signed difference of the two values widened to 64 bits.
    /// It is deliberately not reduced modulo 2^32: callers that need
    /// wrap-aware ordering compare the delta against zero themselves.
    pub open spec fn spec_sub(self, rhs: Sequence) -> i64 {
        (self.0 - rhs.0) as i64
    }

    /// Adds an unsigned 32-bit offset, wrapping modulo 2^32.
    pub fn add(self, rhs: u32) -> (r: Sequence)
        ensures
            r == self.spec_add(rhs),
    {
        Sequence(self.0.wrapping_add(rhs))
    }

    /// Subtracts, widening both operands to signed 64-bit first.
    pub fn sub(self, rhs: Sequence) -> (r: i64)
        ensures
            r == self.spec_sub(rhs),
    {
        self.0 as i64 - rhs.0 as i64
    }

    /// Builds a sequence number from its raw 32-bit value.
    pub fn from_u32(raw: u32) -> (r: Sequence)
        ensures
            r == Sequence(raw),
    {
        Sequence(raw)
    }

    /// The raw 32-bit value.
    pub fn to_u32(self) -> (r: u32)
        ensures
            r == self.0,
    {
        self.0
    }
}

/// Adding an offset and then subtracting the starting point gives the offset
/// back, as long as the sum did not wrap around 2^32.
pub proof fn lemma_add_then_sub_recovers_offset(s: Sequence, k: u32)
    requires
        s.0 + k < 0x1_0000_0000,
    ensures
        s.spec_add(k).spec_sub(s) == k as i64,
{
}

/// An inclusive range `[from, to]` of sequence numbers, used as a key whose
/// equality is intersection.
///
/// Construction sites must keep `from <= to`; see [`SequenceRange::wf`].
#[derive(Clone, Copy, Debug)]
pub struct SequenceRange {
    pub from: Sequence,
    pub to: Sequence,
}

impl SequenceRange {
    /// Well-formed: the bounds are in order.
    pub open spec fn wf(self) -> bool {
        self.from.0 <= self.to.0
    }

    /// The number of sequence positions the range covers, both ends included.
    pub open spec fn spec_size(self) -> int {
        self.to.0 - self.from.0 + 1
    }

    /// Whether the two ranges share at least one position.
    pub open spec fn spec_overlaps(self, other: SequenceRange) -> bool {
        other.from.0 <= self.to.0 && self.from.0 <= other.to.0
    }
}

impl PartialEq for SequenceRange {
    /// Intersection as equality: `a == b` exactly when the ranges overlap.
    fn eq(&self, other: &SequenceRange) -> (r: bool) {
        other.from.0 <= self.to.0 && self.from.0 <= other.to.0
    }
}

impl vstd::std_specs::cmp::PartialEqSpecImpl for SequenceRange {
    open spec fn obeys_eq_spec() -> bool {
        true
    }

    open spec fn eq_spec(&self, other: &SequenceRange) -> bool {
        self.spec_overlaps(*other)
    }
}

impl PartialOrd for SequenceRange {
    /// A range is less than another exactly when it ends strictly before the
    /// other begins; overlapping ranges compare equal.
    fn partial_cmp(&self, other: &SequenceRange) -> (r: Option<core::cmp::Ordering>) {
        if self.to.0 < other.from.0 {
            Some(core::cmp::Ordering::Less)
        } else if self.from.0 > other.to.0 {
            Some(core::cmp::Ordering::Greater)
        } else {
            Some(core::cmp::Ordering::Equal)
        }
    }
}

impl vstd::std_specs::cmp::PartialOrdSpecImpl for SequenceRange {
    open spec fn obeys_partial_cmp_spec() -> bool {
        true
    }

    open spec fn partial_cmp_spec(&self, other: &SequenceRange) -> Option<core::cmp::Ordering> {
        if self.to.0 < other.from.0 {
            Some(core::cmp::Ordering::Less)
        } else if self.from.0 > other.to.0 {
            Some(core::cmp::Ordering::Greater)
        } else {
            Some(core::cmp::Ordering::Equal)
        }
    }
}

/// Two ranges are equal exactly when they intersect:
/// `a == b  <==>  a.from <= b.to && b.from <= a.to`.
pub proof fn lemma_eq_is_intersection(a: SequenceRange, b: SequenceRange)
    ensures
        a.eq_spec(&b) <==> (a.from.0 <= b.to.0 && b.from.0 <= a.to.0),
{
}

} // verus!
