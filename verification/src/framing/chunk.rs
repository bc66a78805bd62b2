//! A single self-identifying block of data: magic number, content hash,
//! declared size, content bytes, and an endian-conditional alignment tail.

use vstd::prelude::*;

use crate::bytes::{
    align4, dec_u32, enc_u32, lemma_u32_round_trip, read_u32, spec_align4, write_u32, write_zeros,
    zeros,
};
use crate::endian::Endian;
use crate::error::BinError;
use crate::framing::BUF_MAX;
use crate::hash::HashCode;

verus! {

/// A trait for types which must be represented as a data block.
///
/// A content type describes its own validity, its fixed identity hash, and a
/// spec-level encoding and decoding; its executable codec is proved against
/// those, and `lemma_content_round_trip` obliges every implementor to show
/// that decoding an encoding gives the original value back.
pub trait Chunk: Sized {
    /// The mathematical model of a value: what a decoder recovers. Types
    /// whose fields are all plain values use `Self`; types holding
    /// collections use a sequence-based model, since two collections with
    /// the same elements need not be the same value.
    type Model;

    /// The model of this value.
    spec fn model(&self) -> Self::Model;

    /// Structural validity of a value: what must hold for it to be encodable.
    spec fn wf(&self) -> bool;

    /// The extra condition under which a value survives a little-endian
    /// round trip. The declared chunk size includes the alignment tail, so a
    /// decoder that derives an element count from the handed length only
    /// reads its own bytes back when the content is 4-byte aligned; decoders
    /// that ignore the handed length put no condition here.
    spec fn le_ok(&self) -> bool;

    /// The fixed identity hash of the content type.
    spec fn hash_spec() -> u32;

    /// The encoded content bytes.
    spec fn content_enc(&self, e: Endian) -> Seq<u8>;

    /// The value and final position read from `buf` starting at `pos`, given
    /// a declared content length of `len`; `None` where the bytes do not
    /// parse.
    spec fn content_dec(buf: Seq<u8>, pos: int, len: int, e: Endian) -> Option<(Self::Model, int)>;

    /// Decoding an encoded value from its own window gives the value back
    /// and consumes exactly the content bytes. `len` is the length the chunk
    /// frame hands down: the declared size minus the header, which under the
    /// little-endian layout also counts the alignment tail.
    proof fn lemma_content_round_trip(&self, buf: Seq<u8>, pos: int, len: int, e: Endian)
        requires
            self.wf(),
            0 <= pos,
            pos + self.content_enc(e).len() <= buf.len(),
            buf.subrange(pos, pos + self.content_enc(e).len() as int) == self.content_enc(e),
            self.content_enc(e).len() <= len <= self.content_enc(e).len() + 3,
            e == Endian::Big ==> len == self.content_enc(e).len(),
            e == Endian::Little ==> self.le_ok() && pos % 4 == 0 && pos + len == spec_align4(
                pos + self.content_enc(e).len(),
            ),
        ensures
            Self::content_dec(buf, pos, len, e) == Some(
                (self.model(), pos + self.content_enc(e).len() as int),
            ),
    ;

    /// Returns the hash digest identifying the data block.
    fn hash_code() -> (h: HashCode)
        ensures
            h.spec_raw() == Self::hash_spec(),
    ;

    /// Appends the encoded content bytes to `out`.
    fn encode(&self, out: &mut Vec<u8>, e: Endian)
        requires
            self.wf(),
        ensures
            final(out)@ == old(out)@ + self.content_enc(e),
    ;

    /// Decodes a value from `buf` starting at `pos` with declared content
    /// length `len`.
    fn decode(buf: &[u8], pos: usize, len: usize, e: Endian) -> (r: Result<
        (Self, usize),
        BinError,
    >)
        requires
            pos <= buf@.len(),
            buf@.len() <= BUF_MAX,
        ensures
            match r {
                Ok(t) => Self::content_dec(buf@, pos as int, len as int, e) == Some(
                    (t.0.model(), t.1 as int),
                ) && pos <= t.1 <= buf@.len(),
                Err(_) => Self::content_dec(buf@, pos as int, len as int, e) is None,
            },
    ;
}

/// A block of data: the value carried by one chunk, as held by a container
/// variant. The frame fields around it are recomputed on encode and checked
/// on decode rather than stored.
pub struct BinaryDataChunk<T: Chunk> {
    /// The wrapped value.
    pub inner: T,
}

/// The full encoding of one chunk whose magic number begins at absolute
/// position `start`: magic, content hash, total size, content, and, under the
/// little-endian layout, zero padding up to the next 4-byte boundary.
pub open spec fn chunk_enc<T: Chunk>(x: T, magic: u32, e: Endian, start: int) -> Seq<u8> {
    let content = x.content_enc(e);
    let unpadded = start + 12 + content.len() as int;
    let end = match e {
        Endian::Big => unpadded,
        Endian::Little => spec_align4(unpadded),
    };
    let size = (end - start) as u32;
    enc_u32(magic, e) + enc_u32(T::hash_spec(), e) + enc_u32(size, e) + content + zeros(
        end - unpadded,
    )
}

/// Decodes one chunk of content type `T` from `buf`. `pos` points at the
/// hash field; the magic number was consumed by the caller's dispatch at
/// `pos - 4`, and the declared size counts from there.
pub open spec fn chunk_dec<T: Chunk>(buf: Seq<u8>, pos: int, e: Endian) -> Option<(T::Model, int)> {
    if pos + 8 > buf.len() {
        None
    } else {
        let h = dec_u32(buf[pos], buf[pos + 1], buf[pos + 2], buf[pos + 3], e);
        if h != T::hash_spec() {
            None
        } else {
            let size = dec_u32(buf[pos + 4], buf[pos + 5], buf[pos + 6], buf[pos + 7], e);
            if size < 12 {
                None
            } else {
                match T::content_dec(buf, pos + 8, size - 12, e) {
                    None => None,
                    Some((x, q)) => {
                        let end = match e {
                            Endian::Big => q,
                            Endian::Little => spec_align4(q),
                        };
                        if end - (pos - 4) == size && end <= buf.len() {
                            Some((x, end))
                        } else {
                            None
                        }
                    },
                }
            }
        }
    }
}

/// Appends one chunk to `out`, whose first byte sits at absolute position
/// `base` in the enclosing stream: the magic number, the content hash, the
/// backpatched total size, the content, and the alignment tail. Fails, with
/// `out` untouched, only on content no container could hold.
pub fn encode_chunk<T: Chunk>(out: &mut Vec<u8>, x: &T, magic: u32, e: Endian, base: usize) -> (r:
    Result<(), BinError>)
    requires
        x.wf(),
        base + old(out)@.len() + 16 <= BUF_MAX,
    ensures
        match r {
            Ok(()) => final(out)@ == old(out)@ + chunk_enc(*x, magic, e, base + old(out)@.len())
                && base + old(out)@.len() + 16 + x.content_enc(e).len() <= BUF_MAX,
            Err(_) => final(out)@ == old(out)@ && base + old(out)@.len() + 16
                + x.content_enc(e).len() > BUF_MAX,
        },
{
    let start: usize = base + out.len();
    let mut content: Vec<u8> = Vec::new();
    x.encode(&mut content, e);
    if content.len() > BUF_MAX - 16 - start {
        return Err(BinError::BudgetOverflow { budget: BUF_MAX - 16 - start, size: content.len() });
    }
    let unpadded: usize = start + 12 + content.len();
    let end: usize = match e {
        Endian::Big => unpadded,
        Endian::Little => align4(unpadded),
    };
    let pad: usize = end - unpadded;
    let size: u32 = (end - start) as u32;
    let hash = T::hash_code();
    write_u32(out, magic, e);
    write_u32(out, hash.into_raw(), e);
    write_u32(out, size, e);
    out.append(&mut content);
    write_zeros(out, pad);
    proof {
        assert(out@ =~= old(out)@ + chunk_enc(*x, magic, e, base + old(out)@.len()));
    }
    Ok(())
}

/// Decodes one chunk from `buf` with `pos` at the hash field, after the
/// caller's dispatch consumed the magic number at `pos - 4`. Verifies the
/// content hash, decodes the content, applies the endian-conditional
/// alignment, and checks the declared size against the bytes consumed.
pub fn decode_chunk<T: Chunk>(buf: &[u8], pos: usize, e: Endian) -> (r: Result<
    (T, usize),
    BinError,
>)
    requires
        4 <= pos <= buf@.len(),
        buf@.len() <= BUF_MAX,
    ensures
        match r {
            Ok(t) => chunk_dec::<T>(buf@, pos as int, e) == Some((t.0.model(), t.1 as int))
                && t.1 <= buf@.len(),
            Err(_) => chunk_dec::<T>(buf@, pos as int, e) is None,
        },
{
    let (found, p) = match read_u32(buf, pos, e) {
        Ok(t) => t,
        Err(er) => {
            return Err(er);
        },
    };
    let expected = T::hash_code().into_raw();
    if found != expected {
        return Err(BinError::HashMismatch { pos, expected, found });
    }
    let (size, p) = match read_u32(buf, p, e) {
        Ok(t) => t,
        Err(er) => {
            return Err(er);
        },
    };
    if size < 12 {
        return Err(BinError::SizeMismatch { pos: p, expected: size, found: 12 });
    }
    let (x, q) = match T::decode(buf, p, (size - 12) as usize, e) {
        Ok(t) => t,
        Err(er) => {
            return Err(er);
        },
    };
    let end: usize = match e {
        Endian::Big => q,
        Endian::Little => align4(q),
    };
    let consumed: u64 = (end as u64) - ((pos - 4) as u64);
    if consumed != size as u64 {
        return Err(BinError::SizeMismatch { pos: end, expected: size, found: consumed as u32 });
    }
    if end > buf.len() {
        return Err(BinError::Eof { pos: end });
    }
    Ok((x, end))
}

/// Round trip for the chunk frame: a chunk encoded at `start` and read back
/// from the same stream yields the original value and stops exactly at the
/// frame's end, for every content type satisfying the `Chunk` contract.
pub proof fn lemma_chunk_round_trip<T: Chunk>(
    x: T,
    magic: u32,
    e: Endian,
    buf: Seq<u8>,
    start: int,
)
    requires
        x.wf(),
        0 <= start,
        start + chunk_enc(x, magic, e, start).len() <= buf.len(),
        buf.subrange(start, start + chunk_enc(x, magic, e, start).len() as int) == chunk_enc(
            x,
            magic,
            e,
            start,
        ),
        chunk_enc(x, magic, e, start).len() <= 0xFFFF_FF00,
        e == Endian::Little ==> x.le_ok() && start % 4 == 0,
    ensures
        chunk_dec::<T>(buf, start + 4, e) == Some(
            (x.model(), start + chunk_enc(x, magic, e, start).len() as int),
        ),
{
    let whole = chunk_enc(x, magic, e, start);
    let content = x.content_enc(e);
    let clen = content.len() as int;
    let unpadded = start + 12 + clen;
    let end = match e {
        Endian::Big => unpadded,
        Endian::Little => spec_align4(unpadded),
    };
    let size = (end - start) as u32;
    let pos = start + 4;
    assert(spec_align4(unpadded) - unpadded < 4 && unpadded <= spec_align4(unpadded));
    assert(whole.len() == 12 + clen + (end - unpadded));
    assert(forall|i: int| 0 <= i < whole.len() ==> buf[start + i] == #[trigger] whole[i]) by {
        assert(forall|i: int|
            0 <= i < whole.len() ==> buf.subrange(start, start + whole.len() as int)[i]
                == #[trigger] whole[i]);
    }
    let hb = enc_u32(T::hash_spec(), e);
    let sb = enc_u32(size, e);
    assert(whole[4] == hb[0] && whole[5] == hb[1] && whole[6] == hb[2] && whole[7] == hb[3]);
    assert(whole[8] == sb[0] && whole[9] == sb[1] && whole[10] == sb[2] && whole[11] == sb[3]);
    lemma_u32_round_trip(T::hash_spec(), 0, 0, 0, 0, e);
    lemma_u32_round_trip(size, 0, 0, 0, 0, e);
    assert(dec_u32(buf[pos], buf[pos + 1], buf[pos + 2], buf[pos + 3], e) == T::hash_spec());
    assert(dec_u32(buf[pos + 4], buf[pos + 5], buf[pos + 6], buf[pos + 7], e) == size);
    assert(size >= 12);
    assert(buf.subrange(start + 12, start + 12 + clen) =~= content) by {
        assert(forall|i: int| 0 <= i < clen ==> buf[start + 12 + i] == #[trigger] content[i]) by {
            assert(forall|i: int| 0 <= i < clen ==> whole[12 + i] == #[trigger] content[i]);
        }
    }
    let len = size - 12;
    if e == Endian::Little {
        assert((start + 12) % 4 == 0) by (nonlinear_arith)
            requires
                start % 4 == 0,
        ;
        assert((start + 12) + len == spec_align4((start + 12) + clen));
    }
    x.lemma_content_round_trip(buf, start + 12, len, e);
    assert(T::content_dec(buf, pos + 8, size - 12, e) == Some((x.model(), unpadded)));
    if e == Endian::Little {
        assert(spec_align4(unpadded) == end);
    }
    assert(end - (pos - 4) == size);
    assert(end <= buf.len());
    assert(chunk_dec::<T>(buf, pos, e) == Some((x.model(), end)));
    assert(start + whole.len() as int == end);
}

} // verus!
