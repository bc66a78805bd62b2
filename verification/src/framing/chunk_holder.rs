//! A fixed-byte-budget container holding a versioned, counted, ordered list
//! of chunks.

use vstd::prelude::*;

use crate::bytes::{read_u8, write_u8, write_zeros, zeros};
use crate::endian::Endian;
use crate::error::BinError;
use crate::framing::BUF_MAX;

verus! {

/// A trait for types which must be represented as a data block container:
/// the closed set of chunk variants one container kind can hold, together
/// with its fixed byte budget and version number.
///
/// `variant_enc` covers one whole chunk including the magic number chosen by
/// the variant; `variant_dec` reads the magic number and dispatches on it.
pub trait ChunkHolder: Sized {
    /// The mathematical model of one chunk variant: what a decoder
    /// recovers; see `Chunk::Model`.
    type Model;

    /// The model of this variant.
    spec fn model(&self) -> Self::Model;

    /// Structural validity of one chunk variant.
    spec fn wf(&self) -> bool;

    /// The condition under which this chunk survives a little-endian round
    /// trip; see `Chunk::le_ok`.
    spec fn le_ok(&self) -> bool;

    /// The size of the container's data buffer, in bytes.
    spec fn budget_spec() -> int;

    /// The version number of the container.
    spec fn version_spec() -> u8;

    /// The encoding of one chunk, magic number first, whose first byte sits
    /// at absolute position `start`.
    spec fn variant_enc(&self, e: Endian, start: int) -> Seq<u8>;

    /// Reads the magic number at `pos`, selects the variant it names, and
    /// decodes that chunk; `None` for an unknown magic number or a framing
    /// violation.
    spec fn variant_dec(buf: Seq<u8>, pos: int, e: Endian) -> Option<(Self::Model, int)>;

    /// Decoding an encoded chunk from its own window gives the value back.
    proof fn lemma_variant_round_trip(&self, buf: Seq<u8>, pos: int, e: Endian)
        requires
            self.wf(),
            0 <= pos,
            pos + self.variant_enc(e, pos).len() <= buf.len(),
            buf.subrange(pos, pos + self.variant_enc(e, pos).len() as int) == self.variant_enc(
                e,
                pos,
            ),
            self.variant_enc(e, pos).len() <= 0xFFFF_FF00,
            e == Endian::Little ==> pos % 4 == 0 && self.le_ok(),
        ensures
            Self::variant_dec(buf, pos, e) == Some(
                (self.model(), pos + self.variant_enc(e, pos).len() as int),
            ),
            e == Endian::Little ==> (pos + self.variant_enc(e, pos).len()) % 4 == 0,
    ;

    /// The version number of the container.
    fn version() -> (v: u8)
        ensures
            v == Self::version_spec(),
    ;

    /// The size of the container's data buffer, in bytes.
    fn buffer_size() -> (n: usize)
        ensures
            n == Self::budget_spec(),
            4 <= n <= 0xF80,
    ;

    /// Appends one encoded chunk to `out`, whose first byte sits at absolute
    /// position `base` in the enclosing stream. Fails only on a content too
    /// large for any container.
    fn encode_variant(&self, out: &mut Vec<u8>, e: Endian, base: usize) -> (r: Result<
        (),
        BinError,
    >)
        requires
            self.wf(),
            base + old(out)@.len() + 0x1_0000 <= BUF_MAX,
        ensures
            match r {
                Ok(()) => final(out)@ == old(out)@ + self.variant_enc(
                    e,
                    base + old(out)@.len() as int,
                ),
                Err(_) => final(out)@ == old(out)@ && self.variant_enc(
                    e,
                    base + old(out)@.len() as int,
                ).len() > 0xF80,
            },
    ;

    /// Decodes one chunk, magic number first.
    fn decode_variant(buf: &[u8], pos: usize, e: Endian) -> (r: Result<(Self, usize), BinError>)
        requires
            pos <= buf@.len(),
            buf@.len() <= BUF_MAX,
        ensures
            match r {
                Ok(t) => Self::variant_dec(buf@, pos as int, e) == Some(
                    (t.0.model(), t.1 as int),
                ) && pos <= t.1 <= buf@.len(),
                Err(_) => Self::variant_dec(buf@, pos as int, e) is None,
            },
    ;
}

/// The concatenated encodings of a sequence of chunks, the first beginning
/// at absolute position `start`.
pub open spec fn chunks_enc<T: ChunkHolder>(chunks: Seq<T>, e: Endian, start: int) -> Seq<u8>
    decreases chunks.len(),
{
    if chunks.len() == 0 {
        Seq::empty()
    } else {
        let head = chunks[0].variant_enc(e, start);
        head + chunks_enc(chunks.drop_first(), e, start + head.len())
    }
}

/// Splitting a chunk sequence at `i` splits its encoding at the matching
/// byte boundary.
pub proof fn lemma_chunks_enc_split<T: ChunkHolder>(chunks: Seq<T>, i: int, e: Endian, start: int)
    requires
        0 <= i <= chunks.len(),
    ensures
        chunks_enc(chunks, e, start) == chunks_enc(chunks.take(i), e, start) + chunks_enc(
            chunks.skip(i),
            e,
            start + chunks_enc(chunks.take(i), e, start).len(),
        ),
    decreases i,
{
    if i == 0 {
        assert(chunks.take(0) =~= Seq::empty());
        assert(chunks.skip(0) =~= chunks);
        assert(chunks_enc(chunks, e, start) =~= chunks_enc(chunks.take(0), e, start) + chunks_enc(
            chunks.skip(0),
            e,
            start,
        ));
    } else {
        let head = chunks[0].variant_enc(e, start);
        let tail = chunks.drop_first();
        lemma_chunks_enc_split(tail, i - 1, e, start + head.len());
        assert(tail.take(i - 1) =~= chunks.take(i).drop_first());
        assert(tail.skip(i - 1) =~= chunks.skip(i));
        assert(chunks.take(i)[0] == chunks[0]);
        assert(chunks_enc(chunks.take(i), e, start) == head + chunks_enc(
            tail.take(i - 1),
            e,
            start + head.len(),
        ));
        assert(chunks_enc(chunks, e, start) =~= chunks_enc(chunks.take(i), e, start) + chunks_enc(
            chunks.skip(i),
            e,
            start + chunks_enc(chunks.take(i), e, start).len(),
        ));
    }
}

/// Appending one chunk to a sequence appends its encoding.
pub proof fn lemma_chunks_enc_snoc<T: ChunkHolder>(chunks: Seq<T>, i: int, e: Endian, start: int)
    requires
        0 <= i < chunks.len(),
    ensures
        chunks_enc(chunks.take(i + 1), e, start) == chunks_enc(chunks.take(i), e, start)
            + chunks.take(i + 1)[i].variant_enc(
            e,
            start + chunks_enc(chunks.take(i), e, start).len(),
        ),
{
    lemma_chunks_enc_split(chunks.take(i + 1), i, e, start);
    assert(chunks.take(i + 1).take(i) =~= chunks.take(i));
    let off = start + chunks_enc(chunks.take(i), e, start).len();
    let last = chunks.take(i + 1).skip(i);
    assert(last.len() == 1);
    assert(chunks_enc(last, e, off) == last[0].variant_enc(e, off) + chunks_enc(
        last.drop_first(),
        e,
        off + last[0].variant_enc(e, off).len(),
    ));
    assert(chunks_enc(last.drop_first(), e, off + last[0].variant_enc(e, off).len())
        =~= Seq::<u8>::empty());
    assert(chunks_enc(last, e, off) =~= last[0].variant_enc(e, off));
}

/// The models of a sequence of chunks.
pub open spec fn chunks_model<T: ChunkHolder>(s: Seq<T>) -> Seq<T::Model> {
    s.map_values(|c: T| c.model())
}

/// Decodes `n` consecutive chunks starting at `pos`.
pub open spec fn chunks_dec<T: ChunkHolder>(buf: Seq<u8>, pos: int, n: int, e: Endian) -> Option<
    (Seq<T::Model>, int),
>
    decreases n,
{
    if n <= 0 {
        Some((Seq::empty(), pos))
    } else {
        match T::variant_dec(buf, pos, e) {
            None => None,
            Some((x, q)) => match chunks_dec::<T>(buf, q, n - 1, e) {
                None => None,
                Some((s, r)) => Some((seq![x] + s, r)),
            },
        }
    }
}

/// A container for data blocks.
pub struct BinaryDataChunkHolder<T: ChunkHolder> {
    /// The collection of data blocks.
    pub chunks: Vec<T>,
}

impl<T: ChunkHolder> BinaryDataChunkHolder<T> {
    /// Structural validity: every chunk is valid and the chunk count fits
    /// the one-byte count field.
    pub open spec fn wf(&self) -> bool {
        &&& self.chunks@.len() <= 255
        &&& forall|i: int| 0 <= i < self.chunks@.len() ==> self.chunks@[i].wf()
    }

    /// Every chunk survives a little-endian round trip; see `Chunk::le_ok`.
    pub open spec fn le_ok(&self) -> bool {
        forall|i: int| 0 <= i < self.chunks@.len() ==> self.chunks@[i].le_ok()
    }

    /// The container's bytes before padding: version, count, two reserved
    /// zero bytes, then the chunks.
    pub open spec fn body_enc(&self, e: Endian, start: int) -> Seq<u8> {
        seq![T::version_spec(), self.chunks@.len() as u8, 0u8, 0u8] + chunks_enc(
            self.chunks@,
            e,
            start + 4,
        )
    }

    /// The full container encoding: the body padded with zero bytes to
    /// exactly the fixed byte budget.
    pub open spec fn holder_enc(&self, e: Endian, start: int) -> Seq<u8> {
        self.body_enc(e, start) + zeros(T::budget_spec() - self.body_enc(e, start).len())
    }
}

/// Decodes a container beginning at `pos`: a version byte that is read but
/// not validated, the chunk count, two reserved bytes, the chunks, then
/// unread padding up to the fixed byte budget. The result position is always
/// `pos` plus the budget.
pub open spec fn holder_dec<T: ChunkHolder>(buf: Seq<u8>, pos: int, e: Endian) -> Option<
    (Seq<T::Model>, int),
> {
    if pos + 4 > buf.len() {
        None
    } else {
        let count = buf[pos + 1] as int;
        match chunks_dec::<T>(buf, pos + 4, count, e) {
            None => None,
            Some((s, q)) => {
                if q <= pos + T::budget_spec() && pos + T::budget_spec() <= buf.len() {
                    Some((s, pos + T::budget_spec()))
                } else {
                    None
                }
            },
        }
    }
}

/// Encodes a container that will sit at absolute position `start`, producing
/// exactly `T::budget_spec()` bytes: the version, the chunk count, two
/// reserved bytes, every chunk, and zero padding up to the budget. A body
/// larger than the budget is a fatal encode error.
pub fn encode_holder<T: ChunkHolder>(h: &BinaryDataChunkHolder<T>, e: Endian, start: usize) -> (r:
    Result<Vec<u8>, BinError>)
    requires
        h.wf(),
        start + 0x2_0000 <= BUF_MAX,
    ensures
        match r {
            Ok(v) => h.body_enc(e, start as int).len() <= T::budget_spec() && v@ == h.holder_enc(
                e,
                start as int,
            ) && v@.len() == T::budget_spec(),
            Err(_) => h.body_enc(e, start as int).len() > T::budget_spec(),
        },
{
    let budget = T::buffer_size();
    let mut out: Vec<u8> = Vec::new();
    let count: u8 = h.chunks.len() as u8;
    write_u8(&mut out, T::version());
    write_u8(&mut out, count);
    write_u8(&mut out, 0);
    write_u8(&mut out, 0);
    let ghost hdr: Seq<u8> = seq![T::version_spec(), h.chunks@.len() as u8, 0u8, 0u8];
    proof {
        assert(out@ =~= hdr + chunks_enc::<T>(h.chunks@.take(0), e, start + 4));
        assert(h.chunks@.take(h.chunks@.len() as int) =~= h.chunks@);
    }
    let n = h.chunks.len();
    let mut i: usize = 0;
    while i < n
        invariant
            h.wf(),
            start + 0x2_0000 <= BUF_MAX,
            n == h.chunks@.len(),
            i <= n,
            budget == T::budget_spec(),
            4 <= budget <= 0xF80,
            hdr == seq![T::version_spec(), h.chunks@.len() as u8, 0u8, 0u8],
            out@ == hdr + chunks_enc::<T>(h.chunks@.take(i as int), e, start + 4),
        decreases n - i,
    {
        if out.len() > budget {
            proof {
                lemma_chunks_enc_split(h.chunks@, i as int, e, start as int + 4);
            }
            return Err(BinError::BudgetOverflow { budget, size: out.len() });
        }
        let r = h.chunks[i].encode_variant(&mut out, e, start);
        proof {
            lemma_chunks_enc_snoc(h.chunks@, i as int, e, start as int + 4);
            assert(h.chunks@.take(i + 1)[i as int] == h.chunks@[i as int]);
        }
        match r {
            Ok(()) => {},
            Err(_) => {
                proof {
                    lemma_chunks_enc_split(h.chunks@, i as int + 1, e, start as int + 4);
                }
                return Err(BinError::BudgetOverflow { budget, size: out.len() });
            },
        }
        i += 1;
    }
    if out.len() > budget {
        return Err(BinError::BudgetOverflow { budget, size: out.len() });
    }
    let pad = budget - out.len();
    write_zeros(&mut out, pad);
    proof {
        assert(out@ =~= h.holder_enc(e, start as int));
    }
    Ok(out)
}

/// Decodes a container beginning at `pos`, returning the chunks and the
/// position just past the container's fixed byte budget.
pub fn decode_holder<T: ChunkHolder>(buf: &[u8], pos: usize, e: Endian) -> (r: Result<
    (BinaryDataChunkHolder<T>, usize),
    BinError,
>)
    requires
        pos <= buf@.len(),
        buf@.len() <= BUF_MAX,
    ensures
        match r {
            Ok(t) => holder_dec::<T>(buf@, pos as int, e) == Some(
                (chunks_model(t.0.chunks@), t.1 as int),
            ) && pos <= t.1 <= buf@.len(),
            Err(_) => holder_dec::<T>(buf@, pos as int, e) is None,
        },
{
    if buf.len() - pos < 4 {
        return Err(BinError::Eof { pos });
    }
    let (_version, p) = match read_u8(buf, pos) {
        Ok(t) => t,
        Err(er) => {
            return Err(er);
        },
    };
    let (count, _) = match read_u8(buf, p) {
        Ok(t) => t,
        Err(er) => {
            return Err(er);
        },
    };
    let mut chunks: Vec<T> = Vec::new();
    let mut p: usize = pos + 4;
    let mut i: usize = 0;
    proof {
        if let Some((s, q)) = chunks_dec::<T>(buf@, pos + 4, count as int, e) {
            assert(Seq::<T::Model>::empty() + s =~= s);
        }
        assert(chunks@ =~= Seq::<T>::empty());
        assert(chunks_model(chunks@) =~= Seq::<T::Model>::empty());
    }
    while i < count as usize
        invariant
            pos + 4 <= buf@.len(),
            buf@.len() <= BUF_MAX,
            count == buf@[pos + 1],
            i <= count,
            pos <= p <= buf@.len(),
            chunks@.len() == i,
            chunks_dec::<T>(buf@, pos + 4, count as int, e) == (match chunks_dec::<T>(
                buf@,
                p as int,
                count - i,
                e,
            ) {
                None => None::<(Seq<T::Model>, int)>,
                Some((s, q)) => Some((chunks_model(chunks@) + s, q)),
            }),
        decreases count - i,
    {
        match T::decode_variant(buf, p, e) {
            Ok((x, q)) => {
                chunks.push(x);
                proof {
                    assert(chunks_model(chunks@.drop_last()) + seq![x.model()] =~= chunks_model(
                        chunks@,
                    ));
                    if let Some((s, r2)) = chunks_dec::<T>(buf@, q as int, count - i - 1, e) {
                        assert(chunks_model(chunks@.drop_last()) + (seq![x.model()] + s)
                            =~= chunks_model(chunks@) + s);
                    }
                }
                p = q;
            },
            Err(er) => {
                proof {
                    assert(chunks_dec::<T>(buf@, p as int, count - i, e) is None);
                    assert(holder_dec::<T>(buf@, pos as int, e) is None);
                }
                return Err(er);
            },
        }
        i += 1;
    }
    proof {
        assert(chunks_dec::<T>(buf@, p as int, 0, e) == Some(
            (Seq::<T::Model>::empty(), p as int),
        ));
        assert(chunks_model(chunks@) + Seq::<T::Model>::empty() =~= chunks_model(chunks@));
    }
    let budget = T::buffer_size();
    if buf.len() - pos < budget {
        return Err(BinError::Eof { pos: pos + budget });
    }
    if p > pos + budget {
        return Err(
            BinError::SizeMismatch { pos: p, expected: budget as u32, found: (p - pos) as u32 },
        );
    }
    Ok((BinaryDataChunkHolder { chunks }, pos + budget))
}

/// Round trip for consecutive chunks, by induction over the sequence.
pub proof fn lemma_chunks_round_trip<T: ChunkHolder>(s: Seq<T>, e: Endian, buf: Seq<u8>, pos: int)
    requires
        forall|i: int| 0 <= i < s.len() ==> s[i].wf(),
        0 <= pos,
        pos + chunks_enc(s, e, pos).len() <= buf.len(),
        buf.subrange(pos, pos + chunks_enc(s, e, pos).len() as int) == chunks_enc(s, e, pos),
        chunks_enc(s, e, pos).len() <= 0xFFFF_FF00,
        e == Endian::Little ==> pos % 4 == 0 && (forall|i: int|
            0 <= i < s.len() ==> s[i].le_ok()),
    ensures
        chunks_dec::<T>(buf, pos, s.len() as int, e) == Some(
            (chunks_model(s), pos + chunks_enc(s, e, pos).len() as int),
        ),
    decreases s.len(),
{
    let whole = chunks_enc(s, e, pos);
    if s.len() == 0 {
        assert(chunks_dec::<T>(buf, pos, 0, e) == Some((Seq::<T::Model>::empty(), pos)));
        assert(chunks_model(s) =~= Seq::<T::Model>::empty());
    } else {
        let head = s[0].variant_enc(e, pos);
        let tail = s.drop_first();
        let tenc = chunks_enc(tail, e, pos + head.len());
        assert(whole == head + tenc);
        assert(forall|i: int| 0 <= i < whole.len() ==> buf[pos + i] == #[trigger] whole[i]) by {
            assert(forall|i: int|
                0 <= i < whole.len() ==> buf.subrange(pos, pos + whole.len() as int)[i]
                    == #[trigger] whole[i]);
        }
        assert(buf.subrange(pos, pos + head.len() as int) =~= head) by {
            assert(forall|i: int| 0 <= i < head.len() ==> whole[i] == head[i]);
        }
        s[0].lemma_variant_round_trip(buf, pos, e);
        assert(buf.subrange(pos + head.len(), pos + head.len() + tenc.len() as int) =~= tenc) by {
            assert(forall|i: int|
                0 <= i < tenc.len() ==> whole[head.len() + i] == #[trigger] tenc[i]);
        }
        assert(forall|i: int| 0 <= i < tail.len() ==> tail[i] == s[i + 1]);
        lemma_chunks_round_trip(tail, e, buf, pos + head.len());
        assert(seq![s[0].model()] + chunks_model(tail) =~= chunks_model(s));
    }
}

/// Round trip for the container frame: a container encoded within budget at
/// `start` and read back from the same stream yields the original chunks and
/// stops exactly one budget past `start`, for every holder kind satisfying
/// the `ChunkHolder` contract.
pub proof fn lemma_holder_round_trip<T: ChunkHolder>(
    h: BinaryDataChunkHolder<T>,
    e: Endian,
    buf: Seq<u8>,
    start: int,
)
    requires
        h.wf(),
        0 <= start,
        h.body_enc(e, start).len() <= T::budget_spec(),
        4 <= T::budget_spec() <= 0xF80,
        start + T::budget_spec() <= buf.len(),
        buf.subrange(start, start + T::budget_spec()) == h.holder_enc(e, start),
        e == Endian::Little ==> start % 4 == 0 && h.le_ok(),
    ensures
        holder_dec::<T>(buf, start, e) == Some(
            (chunks_model(h.chunks@), start + T::budget_spec()),
        ),
{
    let body = h.body_enc(e, start);
    let whole = h.holder_enc(e, start);
    assert(whole.len() == T::budget_spec());
    assert(forall|i: int| 0 <= i < whole.len() ==> buf[start + i] == #[trigger] whole[i]) by {
        assert(forall|i: int|
            0 <= i < whole.len() ==> buf.subrange(start, start + T::budget_spec())[i]
                == #[trigger] whole[i]);
    }
    let cenc = chunks_enc(h.chunks@, e, start + 4);
    assert(whole[1] == h.chunks@.len() as u8);
    assert(buf[start + 1] == whole[1]);
    assert((h.chunks@.len() as u8) as int == h.chunks@.len() as int);
    assert(buf.subrange(start + 4, start + 4 + cenc.len() as int) =~= cenc) by {
        assert(forall|i: int| 0 <= i < cenc.len() ==> whole[4 + i] == #[trigger] cenc[i]);
    }
    assert((start + 4) % 4 == start % 4) by (nonlinear_arith);
    lemma_chunks_round_trip(h.chunks@, e, buf, start + 4);
    assert(chunks_dec::<T>(buf, start + 4, h.chunks@.len() as int, e) == Some(
        (chunks_model(h.chunks@), start + 4 + cenc.len() as int),
    ));
    assert(holder_dec::<T>(buf, start, e) == Some(
        (chunks_model(h.chunks@), start + T::budget_spec()),
    ));
}

} // verus!
