//! Small helpers on plain integers.

use vstd::prelude::*;

verus! {

/// Tests whether every bit of a mask is set in a value.
pub trait BitMask: Sized {
    /// Whether all bits of `mask` are set in `self`.
    spec fn spec_bits(self, mask: Self) -> bool;

    /// Whether all bits of `mask` are set in `self`.
    fn bits(self, mask: Self) -> (r: bool)
        ensures
            r == self.spec_bits(mask),
    ;
}

impl BitMask for u8 {
    open spec fn spec_bits(self, mask: u8) -> bool {
        self & mask == mask
    }

    fn bits(self, mask: u8) -> (r: bool) {
        (self & mask) == mask
    }
}

impl BitMask for u16 {
    open spec fn spec_bits(self, mask: u16) -> bool {
        self & mask == mask
    }

    fn bits(self, mask: u16) -> (r: bool) {
        (self & mask) == mask
    }
}

impl BitMask for u32 {
    open spec fn spec_bits(self, mask: u32) -> bool {
        self & mask == mask
    }

    fn bits(self, mask: u32) -> (r: bool) {
        (self & mask) == mask
    }
}

impl BitMask for u64 {
    open spec fn spec_bits(self, mask: u64) -> bool {
        self & mask == mask
    }

    fn bits(self, mask: u64) -> (r: bool) {
        (self & mask) == mask
    }
}

} // verus!
