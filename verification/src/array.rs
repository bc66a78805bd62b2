//! A contiguous space-efficient array of 8 bits.

use vstd::prelude::*;

verus! {

/// The packed bit value built from a sequence of booleans, bit `i` taken from
/// element `i`.
pub open spec fn bits_from_bools(a: Seq<bool>, n: int) -> u8
    decreases n,
{
    if n <= 0 {
        0u8
    } else {
        bits_from_bools(a, n - 1) | ((if a[n - 1] {
            1u8
        } else {
            0u8
        }) << (n - 1))
    }
}

/// A contiguous space-efficient array of 8 bits.
#[derive(Debug, Clone, Copy, PartialEq, Eq, Structural)]
pub struct BitArray8 {
    inner: u8,
}

impl BitArray8 {
    /// The raw packed bits, for use in contracts.
    pub closed spec fn spec_bits(self) -> u8 {
        self.inner
    }

    /// The value of bit `index`.
    pub open spec fn spec_test(self, index: u32) -> bool {
        self.spec_bits() & (1u8 << index) != 0
    }

    /// Creates a new `BitArray8` with every bit cleared.
    pub fn new() -> (r: Self)
        ensures
            r.spec_bits() == 0,
    {
        Self { inner: 0 }
    }

    /// The raw packed bits.
    pub fn bits(self) -> (r: u8)
        ensures
            r == self.spec_bits(),
    {
        self.inner
    }

    /// Builds a `BitArray8` holding the given raw bits.
    pub fn from_bits(value: u8) -> (r: Self)
        ensures
            r.spec_bits() == value,
    {
        Self { inner: value }
    }

    /// Determines if the value of the given bit is equal to `1`.
    pub fn test(&self, index: u32) -> (r: bool)
        requires
            index < 8,
        ensures
            r == self.spec_test(index),
    {
        self.inner & (1u8 << index) != 0
    }

    /// Updates the value of the given bit to equal `1`.
    pub fn set(&mut self, index: u32)
        requires
            index < 8,
        ensures
            final(self).spec_bits() == old(self).spec_bits() | (1u8 << index),
    {
        self.inner = self.inner | (1u8 << index);
    }

    /// Updates the value of the given bit to equal `0`.
    pub fn clear(&mut self, index: u32)
        requires
            index < 8,
        ensures
            final(self).spec_bits() == old(self).spec_bits() & !(1u8 << index),
    {
        self.inner = self.inner & !(1u8 << index);
    }
}

impl From<u8> for BitArray8 {
    fn from(value: u8) -> (r: Self) {
        Self { inner: value }
    }
}

impl vstd::std_specs::convert::FromSpecImpl<u8> for BitArray8 {
    open spec fn obeys_from_spec() -> bool {
        true
    }

    closed spec fn from_spec(value: u8) -> Self {
        BitArray8 { inner: value }
    }
}

impl From<[bool; 8]> for BitArray8 {
    fn from(array: [bool; 8]) -> (r: Self) {
        let mut value: u8 = 0;
        let mut index: usize = 0;
        while index < 8
            invariant
                index <= 8,
                value == bits_from_bools(array@, index as int),
            decreases 8 - index,
        {
            let bit: u8 = if array[index] {
                1u8
            } else {
                0u8
            };
            value = value | (bit << (index as u32));
            index += 1;
        }
        Self { inner: value }
    }
}

impl vstd::std_specs::convert::FromSpecImpl<[bool; 8]> for BitArray8 {
    open spec fn obeys_from_spec() -> bool {
        true
    }

    closed spec fn from_spec(array: [bool; 8]) -> Self {
        BitArray8 { inner: bits_from_bools(array@, 8) }
    }
}

} // verus!
