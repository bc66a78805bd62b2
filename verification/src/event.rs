//! Key-value pairs for gameplay event state, keyed by truncated hashes.

use vstd::prelude::*;

use crate::hash::HashCode;

verus! {

/// A key-value pair for a Boolean, packed into 16 bits: the low 15 bits hold
/// the truncated hashed key and the high bit holds the value.
#[derive(Debug, Clone, Copy, PartialEq, Eq, Structural)]
pub struct GameEventFlag {
    inner: u16,
}

impl GameEventFlag {
    /// The raw packed bits, for use in contracts.
    pub closed spec fn spec_bits(self) -> u16 {
        self.inner
    }

    /// The truncated hashed key stored in the low 15 bits.
    pub open spec fn spec_key(self) -> u16 {
        self.spec_bits() & 0x7FFF
    }

    /// The Boolean value stored in the high bit.
    pub open spec fn spec_value(self) -> bool {
        self.spec_bits() & 0x8000 != 0
    }

    /// Creates a new `GameEventFlag`.
    pub fn new(key: HashCode, value: bool) -> (r: Self)
        ensures
            r.spec_key() == (key.spec_raw() as u16) & 0x7FFF,
            r.spec_value() == value,
    {
        let x: u16 = key.into_raw() as u16;
        let k: u16 = x & 0x7FFF;
        let v: u16 = if value {
            0x8000
        } else {
            0
        };
        proof {
            assert(((x & 0x7FFF) | v) & 0x7FFF == x & 0x7FFF && ((((x & 0x7FFF) | v) & 0x8000
                != 0) == (v == 0x8000u16))) by (bit_vector)
                requires
                    v == 0x8000u16 || v == 0u16,
            ;
        }
        Self { inner: k | v }
    }

    /// Rebuilds a `GameEventFlag` from its wire representation.
    pub fn from_bits(bits: u16) -> (r: Self)
        ensures
            r.spec_bits() == bits,
    {
        Self { inner: bits }
    }

    /// The wire representation of the pair.
    pub fn bits(self) -> (r: u16)
        ensures
            r == self.spec_bits(),
    {
        self.inner
    }

    /// Extracts the associated value.
    pub fn value(&self) -> (r: bool)
        ensures
            r == self.spec_value(),
    {
        self.inner & 0x8000 != 0
    }

    /// Updates the associated value, keeping the key.
    pub fn set(&mut self, value: bool)
        ensures
            final(self).spec_key() == old(self).spec_key(),
            final(self).spec_value() == value,
    {
        let x = self.inner;
        let k = x & 0x7FFF;
        let v: u16 = if value {
            0x8000
        } else {
            0
        };
        proof {
            assert(((x & 0x7FFF) | v) & 0x7FFF == x & 0x7FFF && ((((x & 0x7FFF) | v) & 0x8000
                != 0) == (v == 0x8000u16))) by (bit_vector)
                requires
                    v == 0x8000u16 || v == 0u16,
            ;
        }
        self.inner = k | v;
    }

    /// Determines if this pair's key is the truncation of the given hash.
    pub fn matches_key(&self, key: HashCode) -> (r: bool)
        ensures
            r == (self.spec_key() == (key.spec_raw() as u16) & 0x7FFF),
    {
        (self.inner & 0x7FFF) == ((key.into_raw() as u16) & 0x7FFF)
    }

    /// The pair holding the given wire bits, for use in contracts.
    pub closed spec fn from_bits_spec(bits: u16) -> Self {
        GameEventFlag { inner: bits }
    }
}

/// `from_bits_spec` holds exactly the bits it was given, and a pair is
/// determined by its bits.
pub broadcast proof fn lemma_game_event_flag_bits(bits: u16)
    ensures
        (#[trigger] GameEventFlag::from_bits_spec(bits)).spec_bits() == bits,
        forall|f: GameEventFlag| f.spec_bits() == bits ==> f == GameEventFlag::from_bits_spec(
            bits,
        ),
{
}

/// A key-value pair for a 16-bit unsigned integer.
#[derive(Debug, Clone, Copy, PartialEq, Eq, Structural)]
pub struct GameEventValue {
    /// The hashed key, truncated to the least significant 16 bits.
    key: u16,
    /// The associated value.
    value: u16,
}

impl GameEventValue {
    /// The truncated hashed key, for use in contracts.
    pub closed spec fn spec_key(self) -> u16 {
        self.key
    }

    /// The associated value, for use in contracts.
    pub closed spec fn spec_value(self) -> u16 {
        self.value
    }

    /// Creates a new `GameEventValue`.
    pub fn new(key: HashCode, value: u16) -> (r: Self)
        ensures
            r.spec_key() == key.spec_raw() as u16,
            r.spec_value() == value,
    {
        Self { key: key.into_raw() as u16, value }
    }

    /// Rebuilds a `GameEventValue` from its wire fields.
    pub fn from_parts(key: u16, value: u16) -> (r: Self)
        ensures
            r.spec_key() == key,
            r.spec_value() == value,
    {
        Self { key, value }
    }

    /// The truncated hashed key.
    pub fn key_bits(self) -> (r: u16)
        ensures
            r == self.spec_key(),
    {
        self.key
    }

    /// Returns a reference to the associated value.
    pub fn value(&self) -> (r: &u16)
        ensures
            r == self.spec_value(),
    {
        &self.value
    }

    /// Returns a mutable reference to the associated value.
    pub fn value_mut(&mut self) -> (r: &mut u16)
        ensures
            *r == old(self).spec_value(),
            final(self).spec_key() == old(self).spec_key(),
            final(self).spec_value() == *final(r),
    {
        &mut self.value
    }

    /// Determines if this pair's key is the truncation of the given hash.
    pub fn matches_key(&self, key: HashCode) -> (r: bool)
        ensures
            r == (self.spec_key() == key.spec_raw() as u16),
    {
        self.key == key.into_raw() as u16
    }

    /// The pair holding the given wire fields, for use in contracts.
    pub closed spec fn from_parts_spec(key: u16, value: u16) -> Self {
        GameEventValue { key, value }
    }
}

/// `from_parts_spec` holds exactly the fields it was given, and a pair is
/// determined by them.
pub broadcast proof fn lemma_game_event_value_parts(key: u16, value: u16)
    ensures
        (#[trigger] GameEventValue::from_parts_spec(key, value)).spec_key() == key,
        GameEventValue::from_parts_spec(key, value).spec_value() == value,
        forall|v: GameEventValue|
            v.spec_key() == key && v.spec_value() == value ==> v == GameEventValue::from_parts_spec(
                key,
                value,
            ),
{
}

} // verus!
