//! The whole-file checksum.

use vstd::prelude::*;

use crate::bytes::dec_u16;
use crate::endian::Endian;

verus! {

/// The 16-bit word starting at byte `2 * i`.
pub open spec fn word_at(b: Seq<u8>, i: int, e: Endian) -> u16 {
    dec_u16(b[2 * i], b[2 * i + 1], e)
}

/// The wrapping sum of the first `n` words of `b`.
pub open spec fn word_sum(b: Seq<u8>, n: int, e: Endian) -> u16
    decreases n,
{
    if n <= 0 {
        0u16
    } else {
        ((word_sum(b, n - 1, e) + word_at(b, n - 1, e)) % 0x1_0000) as u16
    }
}

/// The wrapping sum of the bitwise complements of the first `n` words of `b`.
pub open spec fn word_inv_sum(b: Seq<u8>, n: int, e: Endian) -> u16
    decreases n,
{
    if n <= 0 {
        0u16
    } else {
        ((word_inv_sum(b, n - 1, e) + !word_at(b, n - 1, e)) % 0x1_0000) as u16
    }
}

/// The checksum of a byte sequence: the buffer is read as exact 16-bit words
/// (a trailing odd byte is ignored); the word sum occupies the high half and
/// the complement sum the low half.
pub open spec fn checksum_bytes(b: Seq<u8>, e: Endian) -> u32 {
    ((word_sum(b, b.len() as int / 2, e) as u32) << 16) | (word_inv_sum(
        b,
        b.len() as int / 2,
        e,
    ) as u32)
}

/// The word sums depend only on the bytes the words cover.
pub proof fn lemma_word_sum_prefix(b: Seq<u8>, c: Seq<u8>, n: int, e: Endian)
    requires
        2 * n <= b.len(),
        2 * n <= c.len(),
        forall|i: int| 0 <= i < 2 * n ==> b[i] == c[i],
    ensures
        word_sum(b, n, e) == word_sum(c, n, e),
        word_inv_sum(b, n, e) == word_inv_sum(c, n, e),
    decreases n,
{
    if n > 0 {
        lemma_word_sum_prefix(b, c, n - 1, e);
    }
}

/// A buffer whose length is odd has the same checksum as the same buffer
/// without its dangling final byte: words beyond the last exact pair take no
/// part in the sum.
pub proof fn lemma_checksum_ignores_trailing_byte(b: Seq<u8>, e: Endian)
    requires
        b.len() % 2 == 1,
    ensures
        checksum_bytes(b, e) == checksum_bytes(b.drop_last(), e),
{
    let n = b.len() as int / 2;
    lemma_word_sum_prefix(b, b.drop_last(), n, e);
}

/// The wrapper type for the result of the checksum function.
#[derive(Debug, Clone, Copy, PartialEq, Eq, Structural)]
pub struct Checksum {
    inner: u32,
}

impl Checksum {
    /// The raw checksum value, for use in contracts.
    pub closed spec fn spec_raw(self) -> u32 {
        self.inner
    }

    /// Computes a new `Checksum` from a byte slice with the given word order.
    fn from_bytes(buf: &[u8], e: Endian) -> (r: Self)
        ensures
            r.spec_raw() == checksum_bytes(buf@, e),
    {
        let n = buf.len() / 2;
        let mut sum: u16 = 0;
        let mut inv_sum: u16 = 0;
        let mut i: usize = 0;
        while i < n
            invariant
                n == buf@.len() / 2,
                buf@.len() <= usize::MAX,
                i <= n,
                sum == word_sum(buf@, i as int, e),
                inv_sum == word_inv_sum(buf@, i as int, e),
            decreases n - i,
        {
            let b0 = buf[2 * i];
            let b1 = buf[2 * i + 1];
            let term = match e {
                Endian::Big => ((b0 as u16) << 8u16) | (b1 as u16),
                Endian::Little => ((b1 as u16) << 8u16) | (b0 as u16),
            };
            sum = sum.wrapping_add(term);
            inv_sum = inv_sum.wrapping_add(!term);
            i += 1;
        }
        Self { inner: ((sum as u32) << 16u32) | (inv_sum as u32) }
    }

    /// Computes a new `Checksum` from a byte slice in big endian.
    pub fn from_be_bytes(buf: &[u8]) -> (r: Self)
        ensures
            r.spec_raw() == checksum_bytes(buf@, Endian::Big),
    {
        Self::from_bytes(buf, Endian::Big)
    }

    /// Computes a new `Checksum` from a byte slice in little endian.
    pub fn from_le_bytes(buf: &[u8]) -> (r: Self)
        ensures
            r.spec_raw() == checksum_bytes(buf@, Endian::Little),
    {
        Self::from_bytes(buf, Endian::Little)
    }

    /// Creates a new `Checksum` from a raw checksum.
    pub fn from_raw(checksum: u32) -> (r: Self)
        ensures
            r.spec_raw() == checksum,
    {
        Self { inner: checksum }
    }

    /// Consumes the `Checksum`, returning the contained value.
    pub fn into_raw(self) -> (r: u32)
        ensures
            r == self.spec_raw(),
    {
        self.inner
    }
}

} // verus!
