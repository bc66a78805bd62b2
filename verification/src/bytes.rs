//! Primitive integer codecs shared by every layer of the wire format.
//!
//! Each width has a spec-level encoding into a byte sequence, a spec-level
//! decoding from individual bytes, executable readers and writers proved
//! against them, and lemmas showing the two directions invert each other.

use vstd::prelude::*;

use crate::endian::Endian;
use crate::error::BinError;

verus! {

/// A sequence of `n` zero bytes, as written for reserved fields and padding.
pub open spec fn zeros(n: int) -> Seq<u8> {
    Seq::new(n as nat, |i: int| 0u8)
}

/// `pos` rounded up to the next multiple of 4.
pub open spec fn spec_align4(pos: int) -> int {
    ((pos + 3) / 4) * 4
}

/// Rounding up to a multiple of 4 moves at most 3 bytes and lands on a
/// multiple of 4.
pub proof fn lemma_spec_align4(pos: int)
    requires
        0 <= pos,
    ensures
        pos <= spec_align4(pos) <= pos + 3,
        spec_align4(pos) % 4 == 0,
{
    assert(pos <= ((pos + 3) / 4) * 4 <= pos + 3 && (((pos + 3) / 4) * 4) % 4 == 0)
        by (nonlinear_arith)
        requires
            0 <= pos,
    ;
}

pub open spec fn enc_u8(v: u8) -> Seq<u8> {
    seq![v]
}

pub open spec fn enc_u16(v: u16, e: Endian) -> Seq<u8> {
    match e {
        Endian::Big => seq![(v >> 8) as u8, v as u8],
        Endian::Little => seq![v as u8, (v >> 8) as u8],
    }
}

pub open spec fn enc_u32(v: u32, e: Endian) -> Seq<u8> {
    match e {
        Endian::Big => seq![(v >> 24) as u8, (v >> 16) as u8, (v >> 8) as u8, v as u8],
        Endian::Little => seq![v as u8, (v >> 8) as u8, (v >> 16) as u8, (v >> 24) as u8],
    }
}

pub open spec fn enc_u64(v: u64, e: Endian) -> Seq<u8> {
    match e {
        Endian::Big => seq![
            (v >> 56) as u8,
            (v >> 48) as u8,
            (v >> 40) as u8,
            (v >> 32) as u8,
            (v >> 24) as u8,
            (v >> 16) as u8,
            (v >> 8) as u8,
            v as u8,
        ],
        Endian::Little => seq![
            v as u8,
            (v >> 8) as u8,
            (v >> 16) as u8,
            (v >> 24) as u8,
            (v >> 32) as u8,
            (v >> 40) as u8,
            (v >> 48) as u8,
            (v >> 56) as u8,
        ],
    }
}

pub open spec fn enc_i64(v: i64, e: Endian) -> Seq<u8> {
    enc_u64(v as u64, e)
}

pub open spec fn dec_u16(b0: u8, b1: u8, e: Endian) -> u16 {
    match e {
        Endian::Big => ((b0 as u16) << 8) | (b1 as u16),
        Endian::Little => ((b1 as u16) << 8) | (b0 as u16),
    }
}

pub open spec fn dec_u32(b0: u8, b1: u8, b2: u8, b3: u8, e: Endian) -> u32 {
    match e {
        Endian::Big => ((b0 as u32) << 24) | ((b1 as u32) << 16) | ((b2 as u32) << 8) | (
        b3 as u32),
        Endian::Little => ((b3 as u32) << 24) | ((b2 as u32) << 16) | ((b1 as u32) << 8) | (
        b0 as u32),
    }
}

/// The eight bytes of a 64-bit value, most significant first.
pub open spec fn dec_u64_be(b: Seq<u8>) -> u64
    recommends
        b.len() == 8,
{
    ((b[0] as u64) << 56) | ((b[1] as u64) << 48) | ((b[2] as u64) << 40) | ((b[3] as u64) << 32)
        | ((b[4] as u64) << 24) | ((b[5] as u64) << 16) | ((b[6] as u64) << 8) | (b[7] as u64)
}

pub open spec fn dec_u64(b: Seq<u8>, e: Endian) -> u64
    recommends
        b.len() == 8,
{
    match e {
        Endian::Big => dec_u64_be(b),
        Endian::Little => dec_u64_be(b.reverse()),
    }
}

/// Splitting a 16-bit value into bytes and reassembling it gives the value
/// back, and assembling two bytes and splitting them gives the bytes back.
pub proof fn lemma_u16_round_trip(v: u16, b0: u8, b1: u8, e: Endian)
    ensures
        dec_u16(enc_u16(v, e)[0], enc_u16(v, e)[1], e) == v,
        enc_u16(dec_u16(b0, b1, e), e) =~= seq![b0, b1],
{
    assert((((v >> 8) as u8 as u16) << 8) | (v as u8 as u16) == v) by (bit_vector);
    let w = dec_u16(b0, b1, e);
    match e {
        Endian::Big => {
            assert(((((b0 as u16) << 8) | (b1 as u16)) >> 8) as u8 == b0 && ((((b0 as u16) << 8)
                | (b1 as u16))) as u8 == b1) by (bit_vector);
        },
        Endian::Little => {
            assert(((((b1 as u16) << 8) | (b0 as u16)) >> 8) as u8 == b1 && ((((b1 as u16) << 8)
                | (b0 as u16))) as u8 == b0) by (bit_vector);
        },
    }
}

/// The same inversion for 32-bit values.
pub proof fn lemma_u32_round_trip(v: u32, b0: u8, b1: u8, b2: u8, b3: u8, e: Endian)
    ensures
        dec_u32(enc_u32(v, e)[0], enc_u32(v, e)[1], enc_u32(v, e)[2], enc_u32(v, e)[3], e) == v,
        enc_u32(dec_u32(b0, b1, b2, b3, e), e) =~= seq![b0, b1, b2, b3],
{
    assert((((v >> 24) as u8 as u32) << 24) | (((v >> 16) as u8 as u32) << 16) | (((v
        >> 8) as u8 as u32) << 8) | (v as u8 as u32) == v) by (bit_vector);
    match e {
        Endian::Big => {
            let w = ((b0 as u32) << 24) | ((b1 as u32) << 16) | ((b2 as u32) << 8) | (b3 as u32);
            assert((w >> 24) as u8 == b0 && (w >> 16) as u8 == b1 && (w >> 8) as u8 == b2 && w as u8
                == b3) by (bit_vector)
                requires
                    w == ((b0 as u32) << 24) | ((b1 as u32) << 16) | ((b2 as u32) << 8) | (
                    b3 as u32),
            ;
        },
        Endian::Little => {
            let w = ((b3 as u32) << 24) | ((b2 as u32) << 16) | ((b1 as u32) << 8) | (b0 as u32);
            assert((w >> 24) as u8 == b3 && (w >> 16) as u8 == b2 && (w >> 8) as u8 == b1 && w as u8
                == b0) by (bit_vector)
                requires
                    w == ((b3 as u32) << 24) | ((b2 as u32) << 16) | ((b1 as u32) << 8) | (
                    b0 as u32),
            ;
        },
    }
}

/// The same inversion for 64-bit values, stated over a byte sequence.
pub proof fn lemma_u64_round_trip(v: u64, b: Seq<u8>, e: Endian)
    requires
        b.len() == 8,
    ensures
        dec_u64(enc_u64(v, e), e) == v,
        enc_u64(dec_u64(b, e), e) =~= b,
{
    assert((((v >> 56) as u8 as u64) << 56) | (((v >> 48) as u8 as u64) << 48) | (((v
        >> 40) as u8 as u64) << 40) | (((v >> 32) as u8 as u64) << 32) | (((v
        >> 24) as u8 as u64) << 24) | (((v >> 16) as u8 as u64) << 16) | (((v
        >> 8) as u8 as u64) << 8) | (v as u8 as u64) == v) by (bit_vector);
    match e {
        Endian::Big => {
            assert(enc_u64(v, Endian::Big)[0] == (v >> 56) as u8);
            let (c0, c1, c2, c3, c4, c5, c6, c7) = (b[0], b[1], b[2], b[3], b[4], b[5], b[6], b[7]);
            let w = dec_u64_be(b);
            assert((w >> 56) as u8 == c0 && (w >> 48) as u8 == c1 && (w >> 40) as u8 == c2 && (w
                >> 32) as u8 == c3 && (w >> 24) as u8 == c4 && (w >> 16) as u8 == c5 && (w
                >> 8) as u8 == c6 && w as u8 == c7) by (bit_vector)
                requires
                    w == ((c0 as u64) << 56) | ((c1 as u64) << 48) | ((c2 as u64) << 40) | ((
                    c3 as u64) << 32) | ((c4 as u64) << 24) | ((c5 as u64) << 16) | ((c6 as u64)
                        << 8) | (c7 as u64),
            ;
            assert(enc_u64(w, Endian::Big) =~= b);
            assert(enc_u64(v, Endian::Big).reverse() =~= enc_u64(v, Endian::Little));
            assert(dec_u64(enc_u64(v, Endian::Big), Endian::Big) == v);
        },
        Endian::Little => {
            assert(enc_u64(v, Endian::Little).reverse() =~= enc_u64(v, Endian::Big));
            let r = b.reverse();
            let (c0, c1, c2, c3, c4, c5, c6, c7) = (r[0], r[1], r[2], r[3], r[4], r[5], r[6], r[7]);
            let w = dec_u64_be(r);
            assert((w >> 56) as u8 == c0 && (w >> 48) as u8 == c1 && (w >> 40) as u8 == c2 && (w
                >> 32) as u8 == c3 && (w >> 24) as u8 == c4 && (w >> 16) as u8 == c5 && (w
                >> 8) as u8 == c6 && w as u8 == c7) by (bit_vector)
                requires
                    w == ((c0 as u64) << 56) | ((c1 as u64) << 48) | ((c2 as u64) << 40) | ((
                    c3 as u64) << 32) | ((c4 as u64) << 24) | ((c5 as u64) << 16) | ((c6 as u64)
                        << 8) | (c7 as u64),
            ;
            assert(enc_u64(w, Endian::Little) =~= b);
            let u = enc_u64(v, Endian::Little).reverse();
            assert(dec_u64_be(u) == v) by {
                assert(u =~= enc_u64(v, Endian::Big));
            };
        },
    }
}

/// Casting a signed 64-bit value through its unsigned bit pattern and back
/// gives the value back, in both directions.
pub proof fn lemma_i64_round_trip(v: i64, w: u64)
    ensures
        (v as u64) as i64 == v,
        (w as i64) as u64 == w,
{
    assert((v as u64) as i64 == v) by (bit_vector);
    assert((w as i64) as u64 == w) by (bit_vector);
}

pub fn read_u8(buf: &[u8], pos: usize) -> (r: Result<(u8, usize), BinError>)
    ensures
        match r {
            Ok(t) => pos < buf@.len() && t.0 == buf@[pos as int] && t.1 == pos + 1,
            Err(er) => pos >= buf@.len() && er == (BinError::Eof { pos }),
        },
{
    if pos < buf.len() {
        Ok((buf[pos], pos + 1))
    } else {
        Err(BinError::Eof { pos })
    }
}

pub fn read_u16(buf: &[u8], pos: usize, e: Endian) -> (r: Result<(u16, usize), BinError>)
    ensures
        match r {
            Ok(t) => pos + 2 <= buf@.len() && t.0 == dec_u16(buf@[pos as int], buf@[pos + 1], e)
                && t.1 == pos + 2,
            Err(er) => pos + 2 > buf@.len() && er == (BinError::Eof { pos }),
        },
{
    if buf.len() >= 2 && pos <= buf.len() - 2 {
        let b0 = buf[pos];
        let b1 = buf[pos + 1];
        let v = match e {
            Endian::Big => ((b0 as u16) << 8u16) | (b1 as u16),
            Endian::Little => ((b1 as u16) << 8u16) | (b0 as u16),
        };
        Ok((v, pos + 2))
    } else {
        Err(BinError::Eof { pos })
    }
}

pub fn read_u32(buf: &[u8], pos: usize, e: Endian) -> (r: Result<(u32, usize), BinError>)
    ensures
        match r {
            Ok(t) => pos + 4 <= buf@.len() && t.0 == dec_u32(
                buf@[pos as int],
                buf@[pos + 1],
                buf@[pos + 2],
                buf@[pos + 3],
                e,
            ) && t.1 == pos + 4,
            Err(er) => pos + 4 > buf@.len() && er == (BinError::Eof { pos }),
        },
{
    if buf.len() >= 4 && pos <= buf.len() - 4 {
        let b0 = buf[pos];
        let b1 = buf[pos + 1];
        let b2 = buf[pos + 2];
        let b3 = buf[pos + 3];
        let v = match e {
            Endian::Big => ((b0 as u32) << 24u32) | ((b1 as u32) << 16u32) | ((b2 as u32) << 8u32)
                | (b3 as u32),
            Endian::Little => ((b3 as u32) << 24u32) | ((b2 as u32) << 16u32) | ((b1 as u32)
                << 8u32) | (b0 as u32),
        };
        Ok((v, pos + 4))
    } else {
        Err(BinError::Eof { pos })
    }
}

pub fn read_u64(buf: &[u8], pos: usize, e: Endian) -> (r: Result<(u64, usize), BinError>)
    ensures
        match r {
            Ok(t) => pos + 8 <= buf@.len() && t.0 == dec_u64(
                buf@.subrange(pos as int, pos + 8),
                e,
            ) && t.1 == pos + 8,
            Err(er) => pos + 8 > buf@.len() && er == (BinError::Eof { pos }),
        },
{
    if buf.len() >= 8 && pos <= buf.len() - 8 {
        let b0 = buf[pos];
        let b1 = buf[pos + 1];
        let b2 = buf[pos + 2];
        let b3 = buf[pos + 3];
        let b4 = buf[pos + 4];
        let b5 = buf[pos + 5];
        let b6 = buf[pos + 6];
        let b7 = buf[pos + 7];
        let v = match e {
            Endian::Big => ((b0 as u64) << 56u64) | ((b1 as u64) << 48u64) | ((b2 as u64) << 40u64)
                | ((b3 as u64) << 32u64) | ((b4 as u64) << 24u64) | ((b5 as u64) << 16u64) | ((
            b6 as u64) << 8u64) | (b7 as u64),
            Endian::Little => ((b7 as u64) << 56u64) | ((b6 as u64) << 48u64) | ((b5 as u64)
                << 40u64) | ((b4 as u64) << 32u64) | ((b3 as u64) << 24u64) | ((b2 as u64)
                << 16u64) | ((b1 as u64) << 8u64) | (b0 as u64),
        };
        proof {
            let s = buf@.subrange(pos as int, pos + 8);
            match e {
                Endian::Big => {
                    assert(dec_u64(s, e) == dec_u64_be(s));
                },
                Endian::Little => {
                    let t = s.reverse();
                    assert(t[0] == b7 && t[1] == b6 && t[2] == b5 && t[3] == b4 && t[4] == b3
                        && t[5] == b2 && t[6] == b1 && t[7] == b0);
                },
            }
        }
        Ok((v, pos + 8))
    } else {
        Err(BinError::Eof { pos })
    }
}

pub fn read_i64(buf: &[u8], pos: usize, e: Endian) -> (r: Result<(i64, usize), BinError>)
    ensures
        match r {
            Ok(t) => pos + 8 <= buf@.len() && t.0 == dec_u64(
                buf@.subrange(pos as int, pos + 8),
                e,
            ) as i64 && t.1 == pos + 8,
            Err(er) => pos + 8 > buf@.len() && er == (BinError::Eof { pos }),
        },
{
    match read_u64(buf, pos, e) {
        Ok((v, p)) => Ok((v as i64, p)),
        Err(er) => Err(er),
    }
}

/// Reads `n` bytes starting at `pos` into an owned buffer.
pub fn read_exact(buf: &[u8], pos: usize, n: usize) -> (r: Result<(Vec<u8>, usize), BinError>)
    ensures
        match r {
            Ok(t) => pos + n <= buf@.len() && t.0@ == buf@.subrange(pos as int, pos + n) && t.1
                == pos + n,
            Err(er) => pos + n > buf@.len() && er == (BinError::Eof { pos }),
        },
{
    let blen: usize = buf.len();
    if n <= blen && pos <= blen - n {
        let mut v: Vec<u8> = Vec::new();
        let mut i: usize = 0;
        while i < n
            invariant
                buf@.len() == blen,
                pos + n <= blen,
                i <= n,
                v@ == buf@.subrange(pos as int, pos + i),
            decreases n - i,
        {
            v.push(buf[pos + i]);
            proof {
                assert(v@ =~= buf@.subrange(pos as int, pos + i + 1));
            }
            i += 1;
        }
        Ok((v, pos + n))
    } else {
        Err(BinError::Eof { pos })
    }
}

/// A position already on a 4-byte boundary is unchanged by rounding.
pub proof fn lemma_align4_multiple(pos: int)
    requires
        0 <= pos,
        pos % 4 == 0,
    ensures
        spec_align4(pos) == pos,
{
    assert(((pos + 3) / 4) * 4 == pos) by (nonlinear_arith)
        requires
            0 <= pos && pos % 4 == 0,
    ;
}

/// The concatenated encodings of a sequence of 16-bit values.
pub open spec fn u16s_enc(s: Seq<u16>, e: Endian) -> Seq<u8>
    decreases s.len(),
{
    if s.len() == 0 {
        Seq::empty()
    } else {
        enc_u16(s[0], e) + u16s_enc(s.drop_first(), e)
    }
}

pub proof fn lemma_u16s_enc_len(s: Seq<u16>, e: Endian)
    ensures
        u16s_enc(s, e).len() == 2 * s.len(),
    decreases s.len(),
{
    if s.len() > 0 {
        lemma_u16s_enc_len(s.drop_first(), e);
    }
}

/// Splitting a value sequence splits its encoding at the matching byte
/// boundary.
pub proof fn lemma_u16s_enc_split(s: Seq<u16>, i: int, e: Endian)
    requires
        0 <= i <= s.len(),
    ensures
        u16s_enc(s, e) == u16s_enc(s.take(i), e) + u16s_enc(s.skip(i), e),
    decreases i,
{
    if i == 0 {
        assert(s.take(0) =~= Seq::empty());
        assert(s.skip(0) =~= s);
        assert(u16s_enc(s, e) =~= u16s_enc(s.take(0), e) + u16s_enc(s.skip(0), e));
    } else {
        let tail = s.drop_first();
        lemma_u16s_enc_split(tail, i - 1, e);
        assert(tail.take(i - 1) =~= s.take(i).drop_first());
        assert(tail.skip(i - 1) =~= s.skip(i));
        assert(s.take(i)[0] == s[0]);
        assert(u16s_enc(s.take(i), e) == enc_u16(s[0], e) + u16s_enc(tail.take(i - 1), e));
        assert(u16s_enc(s, e) =~= u16s_enc(s.take(i), e) + u16s_enc(s.skip(i), e));
    }
}

/// Appending one value to a sequence appends its encoding.
pub proof fn lemma_u16s_enc_snoc(s: Seq<u16>, i: int, e: Endian)
    requires
        0 <= i < s.len(),
    ensures
        u16s_enc(s.take(i + 1), e) == u16s_enc(s.take(i), e) + enc_u16(s[i], e),
{
    lemma_u16s_enc_split(s.take(i + 1), i, e);
    assert(s.take(i + 1).take(i) =~= s.take(i));
    let last = s.take(i + 1).skip(i);
    assert(last.len() == 1);
    assert(last[0] == s[i]);
    assert(u16s_enc(last.drop_first(), e) =~= Seq::<u8>::empty());
    assert(u16s_enc(last, e) =~= enc_u16(s[i], e));
}

/// Decodes `n` consecutive 16-bit values.
pub open spec fn u16s_dec(buf: Seq<u8>, pos: int, n: int, e: Endian) -> Option<(Seq<u16>, int)>
    decreases n,
{
    if n <= 0 {
        Some((Seq::empty(), pos))
    } else if pos + 2 > buf.len() {
        None
    } else {
        let v = dec_u16(buf[pos], buf[pos + 1], e);
        match u16s_dec(buf, pos + 2, n - 1, e) {
            None => None,
            Some((s, q)) => Some((seq![v] + s, q)),
        }
    }
}

/// A value sequence written and read back is recovered exactly.
pub proof fn lemma_u16s_round_trip(s: Seq<u16>, buf: Seq<u8>, pos: int, e: Endian)
    requires
        0 <= pos,
        pos + u16s_enc(s, e).len() <= buf.len(),
        buf.subrange(pos, pos + u16s_enc(s, e).len() as int) == u16s_enc(s, e),
    ensures
        u16s_dec(buf, pos, s.len() as int, e) == Some((s, pos + 2 * s.len())),
    decreases s.len(),
{
    lemma_u16s_enc_len(s, e);
    let whole = u16s_enc(s, e);
    if s.len() == 0 {
        assert(s =~= Seq::<u16>::empty());
    } else {
        let head = enc_u16(s[0], e);
        let tail = s.drop_first();
        let tenc = u16s_enc(tail, e);
        assert(whole == head + tenc);
        assert(forall|i: int| 0 <= i < whole.len() ==> buf[pos + i] == #[trigger] whole[i]) by {
            assert(forall|i: int|
                0 <= i < whole.len() ==> buf.subrange(pos, pos + whole.len() as int)[i]
                    == #[trigger] whole[i]);
        }
        assert(buf[pos + 0] == whole[0] && buf[pos + 1] == whole[1]);
        assert(whole[0] == head[0] && whole[1] == head[1]);
        lemma_u16_round_trip(s[0], 0, 0, e);
        assert(dec_u16(buf[pos], buf[pos + 1], e) == s[0]);
        assert(buf.subrange(pos + 2, pos + 2 + tenc.len() as int) =~= tenc) by {
            assert(forall|i: int|
                0 <= i < tenc.len() ==> whole[2 + i] == #[trigger] tenc[i]);
        }
        lemma_u16s_round_trip(tail, buf, pos + 2, e);
        assert(seq![s[0]] + tail =~= s);
    }
}

/// Appends the encodings of all values in order.
pub fn write_u16s(out: &mut Vec<u8>, v: &Vec<u16>, e: Endian)
    ensures
        final(out)@ == old(out)@ + u16s_enc(v@, e),
{
    let mut i: usize = 0;
    proof {
        assert(out@ =~= old(out)@ + u16s_enc(v@.take(0), e));
    }
    while i < v.len()
        invariant
            i <= v@.len(),
            out@ == old(out)@ + u16s_enc(v@.take(i as int), e),
        decreases v@.len() - i,
    {
        proof {
            lemma_u16s_enc_snoc(v@, i as int, e);
        }
        write_u16(out, v[i], e);
        i += 1;
    }
    proof {
        assert(v@.take(v@.len() as int) =~= v@);
    }
}

/// Reads `n` consecutive 16-bit values.
pub fn read_u16s(buf: &[u8], pos: usize, n: usize, e: Endian) -> (r: Result<
    (Vec<u16>, usize),
    BinError,
>)
    requires
        pos <= buf@.len(),
        buf@.len() <= 0x1000_0000,
        n <= 0x1000_0000,
    ensures
        match r {
            Ok(t) => u16s_dec(buf@, pos as int, n as int, e) == Some((t.0@, t.1 as int)) && pos
                <= t.1 <= buf@.len() && t.0@.len() == n,
            Err(_) => u16s_dec(buf@, pos as int, n as int, e) is None,
        },
{
    let mut v: Vec<u16> = Vec::new();
    let mut p: usize = pos;
    let mut i: usize = 0;
    proof {
        if let Some((s, q)) = u16s_dec(buf@, pos as int, n as int, e) {
            assert(Seq::<u16>::empty() + s =~= s);
        }
        assert(v@ =~= Seq::<u16>::empty());
    }
    while i < n
        invariant
            pos <= p <= buf@.len(),
            buf@.len() <= 0x1000_0000,
            n <= 0x1000_0000,
            i <= n,
            v@.len() == i,
            u16s_dec(buf@, pos as int, n as int, e) == (match u16s_dec(
                buf@,
                p as int,
                n - i,
                e,
            ) {
                None => None::<(Seq<u16>, int)>,
                Some((s, q)) => Some((v@ + s, q)),
            }),
        decreases n - i,
    {
        match read_u16(buf, p, e) {
            Ok((w, q)) => {
                v.push(w);
                proof {
                    assert(v@.drop_last() + seq![w] =~= v@);
                    if let Some((s, r2)) = u16s_dec(buf@, q as int, n - i - 1, e) {
                        assert(v@.drop_last() + (seq![w] + s) =~= v@ + s);
                    }
                }
                p = q;
            },
            Err(er) => {
                proof {
                    assert(u16s_dec(buf@, p as int, n - i, e) is None);
                }
                return Err(er);
            },
        }
        i += 1;
    }
    proof {
        assert(v@ + Seq::<u16>::empty() =~= v@);
    }
    Ok((v, p))
}

pub fn write_u8(out: &mut Vec<u8>, v: u8)
    ensures
        final(out)@ == old(out)@ + enc_u8(v),
{
    out.push(v);
    proof {
        assert(out@ =~= old(out)@ + enc_u8(v));
    }
}

pub fn write_u16(out: &mut Vec<u8>, v: u16, e: Endian)
    ensures
        final(out)@ == old(out)@ + enc_u16(v, e),
{
    match e {
        Endian::Big => {
            out.push((v >> 8u16) as u8);
            out.push(v as u8);
        },
        Endian::Little => {
            out.push(v as u8);
            out.push((v >> 8u16) as u8);
        },
    }
    proof {
        assert(out@ =~= old(out)@ + enc_u16(v, e));
    }
}

pub fn write_u32(out: &mut Vec<u8>, v: u32, e: Endian)
    ensures
        final(out)@ == old(out)@ + enc_u32(v, e),
{
    match e {
        Endian::Big => {
            out.push((v >> 24u32) as u8);
            out.push((v >> 16u32) as u8);
            out.push((v >> 8u32) as u8);
            out.push(v as u8);
        },
        Endian::Little => {
            out.push(v as u8);
            out.push((v >> 8u32) as u8);
            out.push((v >> 16u32) as u8);
            out.push((v >> 24u32) as u8);
        },
    }
    proof {
        assert(out@ =~= old(out)@ + enc_u32(v, e));
    }
}

pub fn write_u64(out: &mut Vec<u8>, v: u64, e: Endian)
    ensures
        final(out)@ == old(out)@ + enc_u64(v, e),
{
    match e {
        Endian::Big => {
            out.push((v >> 56u64) as u8);
            out.push((v >> 48u64) as u8);
            out.push((v >> 40u64) as u8);
            out.push((v >> 32u64) as u8);
            out.push((v >> 24u64) as u8);
            out.push((v >> 16u64) as u8);
            out.push((v >> 8u64) as u8);
            out.push(v as u8);
        },
        Endian::Little => {
            out.push(v as u8);
            out.push((v >> 8u64) as u8);
            out.push((v >> 16u64) as u8);
            out.push((v >> 24u64) as u8);
            out.push((v >> 32u64) as u8);
            out.push((v >> 40u64) as u8);
            out.push((v >> 48u64) as u8);
            out.push((v >> 56u64) as u8);
        },
    }
    proof {
        assert(out@ =~= old(out)@ + enc_u64(v, e));
    }
}

pub fn write_i64(out: &mut Vec<u8>, v: i64, e: Endian)
    ensures
        final(out)@ == old(out)@ + enc_i64(v, e),
{
    write_u64(out, v as u64, e);
}

/// Appends `n` zero bytes, as for reserved fields and container padding.
pub fn write_zeros(out: &mut Vec<u8>, n: usize)
    ensures
        final(out)@ == old(out)@ + zeros(n as int),
{
    let mut i: usize = 0;
    while i < n
        invariant
            i <= n,
            out@ == old(out)@ + zeros(i as int),
        decreases n - i,
    {
        out.push(0u8);
        proof {
            assert(out@ =~= old(out)@ + zeros(i + 1));
        }
        i += 1;
    }
}

/// Rounds `pos` up to the next multiple of 4, the alignment applied to chunk
/// ends under the little-endian layout.
pub fn align4(pos: usize) -> (r: usize)
    requires
        pos + 3 <= usize::MAX,
    ensures
        r == spec_align4(pos as int),
        pos <= r <= pos + 3,
        r % 4 == 0,
{
    let rem = pos % 4;
    if rem == 0 {
        proof {
            lemma_align4_multiple(pos as int);
        }
        pos
    } else {
        let r = pos + (4 - rem);
        proof {
            assert(r == ((pos + 3) / 4) * 4 && r % 4 == 0) by (nonlinear_arith)
                requires
                    r == pos + 4 - (pos % 4),
                    pos % 4 != 0,
                    0 <= pos,
            ;
        }
        r
    }
}

} // verus!
