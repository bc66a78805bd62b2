//! The content hash that tags every chunk, struct field and key-value record
//! on the wire.

pub mod map;

use vstd::prelude::*;

verus! {

/// The value a byte contributes to the hash: the byte reinterpreted as a
/// signed 8-bit quantity, then widened to 32 bits, so that values of 128 and
/// above sign-extend into the high bits.
pub open spec fn sign_extended(b: u8) -> u32 {
    (b as i8) as u32
}

/// The hash of a byte sequence: starting from zero, each byte's
/// sign-extended value is added to 31 times the running result, wrapping
/// modulo 2^32.
pub open spec fn hash_bytes(s: Seq<u8>) -> u32
    decreases s.len(),
{
    if s.len() == 0 {
        0u32
    } else {
        ((hash_bytes(s.drop_last()) * 31 + sign_extended(s.last())) % 0x1_0000_0000) as u32
    }
}

/// The wrapper type for the result of the hash function.
#[derive(Debug, Clone, Copy, PartialEq, Eq, Structural)]
pub struct HashCode {
    inner: u32,
}

impl HashCode {
    /// Creates a new `HashCode` from a raw hash.
    pub fn from_raw(hash: u32) -> (r: Self)
        ensures
            r.spec_raw() == hash,
    {
        Self { inner: hash }
    }

    /// Consumes the `HashCode`, returning the contained value.
    pub fn into_raw(self) -> (r: u32)
        ensures
            r == self.spec_raw(),
    {
        self.inner
    }

    /// The raw hash value, for use in contracts.
    pub closed spec fn spec_raw(self) -> u32 {
        self.inner
    }

    /// Computes the hash of a byte buffer.
    pub fn from_bytes(buf: &[u8]) -> (r: Self)
        ensures
            r.spec_raw() == hash_bytes(buf@),
    {
        let mut hash: u32 = 0;
        let mut i: usize = 0;
        while i < buf.len()
            invariant
                i <= buf@.len(),
                hash == hash_bytes(buf@.take(i as int)),
            decreases buf@.len() - i,
        {
            let byte: u32 = (buf[i] as i8) as u32;
            proof {
                assert(buf@.take(i + 1).drop_last() =~= buf@.take(i as int));
                assert(buf@.take(i + 1).last() == buf@[i as int]);
            }
            hash = byte.wrapping_add(hash.wrapping_mul(31));
            i += 1;
        }
        proof {
            assert(buf@.take(buf@.len() as int) =~= buf@);
        }
        Self { inner: hash }
    }
}

/// The hash is a pure function of the byte sequence alone: equal inputs give
/// equal hashes, with no hidden state.
pub proof fn lemma_hash_deterministic(a: Seq<u8>, b: Seq<u8>)
    requires
        a == b,
    ensures
        hash_bytes(a) == hash_bytes(b),
{
}

/// The 16-bit truncation of a `HashCode`, used where the wire format stores
/// only the least significant half of a hash.
#[derive(Debug, Clone, Copy, PartialEq, Eq, Structural)]
pub struct HashCode16 {
    inner: u16,
}

impl HashCode16 {
    /// Creates a new `HashCode16` from a raw truncated hash.
    pub fn from_raw(hash: u16) -> (r: Self)
        ensures
            r.spec_raw() == hash,
    {
        Self { inner: hash }
    }

    /// Consumes the `HashCode16`, returning the contained value.
    pub fn into_raw(self) -> (r: u16)
        ensures
            r == self.spec_raw(),
    {
        self.inner
    }

    /// The raw truncated hash value, for use in contracts.
    pub closed spec fn spec_raw(self) -> u16 {
        self.inner
    }

    /// The truncated hash holding the given raw bits, for use in contracts.
    pub closed spec fn from_raw_spec(hash: u16) -> Self {
        HashCode16 { inner: hash }
    }

    /// Truncates a full-width hash to its least significant 16 bits.
    pub fn from_code(hash: HashCode) -> (r: Self)
        ensures
            r.spec_raw() == hash.spec_raw() as u16,
    {
        Self { inner: hash.into_raw() as u16 }
    }
}

/// `from_raw_spec` holds exactly the bits it was given, and a truncated
/// hash is determined by its bits.
pub broadcast proof fn lemma_hash_code16_raw(hash: u16)
    ensures
        (#[trigger] HashCode16::from_raw_spec(hash)).spec_raw() == hash,
        forall|a: HashCode16| a.spec_raw() == hash ==> a == HashCode16::from_raw_spec(hash),
{
}

} // verus!
