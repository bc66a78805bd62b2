//! The data block of shared state between all user files, and its container
//! kind.

use vstd::prelude::*;

use crate::bytes::{
    dec_u32, enc_i64, enc_u32, lemma_i64_round_trip, lemma_u32_round_trip, lemma_u64_round_trip,
    read_i64, read_u32, write_i64, write_u32,
};
use crate::data1::config::lemma_variant_dispatch;
use crate::endian::Endian;
use crate::error::BinError;
use crate::framing::chunk::{
    chunk_dec, chunk_enc, decode_chunk, encode_chunk, BinaryDataChunk, Chunk,
};
use crate::framing::chunk_holder::ChunkHolder;
use crate::framing::content::{
    build_header_serializer, data_size_spec, emitted_count, encode_table, fields_view, skip_table,
    table_enc, table_skip_dec, BinaryDataContentHeaderSerializer, FieldDef, HeaderSerializer,
};
use crate::hash::HashCode;

verus! {

/// A container for shared state between all user files. Its content begins
/// with its own field descriptor table.
#[derive(Debug, Clone, Copy, PartialEq, Eq, Structural)]
pub struct SysConfigData {
    /// The timestamp representing when the player was encouraged to change
    /// their TV Type from 50 Hz to 60 Hz.
    pub time_announced: i64,
    /// The timestamp representing when the most recent message was sent to
    /// the Wii Message Board.
    pub time_sent: i64,
    /// The number of bytes sent to the Wii Message Board since that date.
    pub sent_bytes: u32,
}

impl HeaderSerializer for SysConfigData {
    /// The declared field list: the two timestamps and the byte counter.
    open spec fn schema() -> Seq<(Seq<u8>, u16, bool)> {
        seq![
            (
                seq![0x6Du8, 0x54, 0x69, 0x6D, 0x65, 0x41, 0x6E, 0x6E, 0x6F, 0x75, 0x6E, 0x63, 0x65, 0x64],
                8u16,
                false,
            ),
            (seq![0x6Du8, 0x54, 0x69, 0x6D, 0x65, 0x53, 0x65, 0x6E, 0x74], 8u16, false),
            (seq![0x6Du8, 0x53, 0x65, 0x6E, 0x74, 0x42, 0x79, 0x74, 0x65, 0x73], 4u16, false),
        ]
    }

    fn fields() -> (v: Vec<FieldDef>) {
        let f0 = FieldDef {
            name: vec![
                0x6Du8,
                0x54,
                0x69,
                0x6D,
                0x65,
                0x41,
                0x6E,
                0x6E,
                0x6F,
                0x75,
                0x6E,
                0x63,
                0x65,
                0x64,
            ],
            width: 8,
            skip: false,
        };
        let f1 = FieldDef {
            name: vec![0x6Du8, 0x54, 0x69, 0x6D, 0x65, 0x53, 0x65, 0x6E, 0x74],
            width: 8,
            skip: false,
        };
        let f2 = FieldDef {
            name: vec![0x6Du8, 0x53, 0x65, 0x6E, 0x74, 0x42, 0x79, 0x74, 0x65, 0x73],
            width: 4,
            skip: false,
        };
        let v = vec![f0, f1, f2];
        proof {
            assert(fields_view(v@) =~= Self::schema()) by {
                assert(fields_view(v@).len() == 3);
                assert(fields_view(v@)[0] == v@[0]@);
                assert(fields_view(v@)[1] == v@[1]@);
                assert(fields_view(v@)[2] == v@[2]@);
                assert(v@[0]@.0 =~= Self::schema()[0].0);
                assert(v@[1]@.0 =~= Self::schema()[1].0);
                assert(v@[2]@.0 =~= Self::schema()[2].0);
            }
        }
        v
    }

    fn header_serializer() -> (r: BinaryDataContentHeaderSerializer) {
        proof {
            lemma_sysconf_schema_sizes();
        }
        let fields = Self::fields();
        build_header_serializer(&fields)
    }

    fn header_size() -> (n: usize) {
        proof {
            lemma_sysconf_schema_sizes();
        }
        16
    }

    fn data_size() -> (n: usize) {
        proof {
            lemma_sysconf_schema_sizes();
        }
        20
    }
}

/// The emitted table of the shared-state schema holds three descriptors
/// covering twenty data bytes.
pub proof fn lemma_sysconf_schema_sizes()
    ensures
        emitted_count(SysConfigData::schema()) == 3,
        data_size_spec(SysConfigData::schema()) == 20,
{
    let fs = SysConfigData::schema();
    let f2 = fs.drop_last();
    let f1 = f2.drop_last();
    let f0 = f1.drop_last();
    assert(f0 =~= Seq::<(Seq<u8>, u16, bool)>::empty());
    assert(emitted_count(f0) == 0 && data_size_spec(f0) == 0);
    assert(emitted_count(f1) == 1 && data_size_spec(f1) == 8);
    assert(emitted_count(f2) == 2 && data_size_spec(f2) == 16);
}

impl Chunk for SysConfigData {
    type Model = SysConfigData;

    open spec fn model(&self) -> SysConfigData {
        *self
    }

    open spec fn wf(&self) -> bool {
        true
    }

    open spec fn le_ok(&self) -> bool {
        true
    }

    open spec fn hash_spec() -> u32 {
        0x1
    }

    /// The field descriptor table, then the three fields it describes.
    open spec fn content_enc(&self, e: Endian) -> Seq<u8> {
        table_enc(SysConfigData::schema(), e) + enc_i64(self.time_announced, e) + enc_i64(
            self.time_sent,
            e,
        ) + enc_u32(self.sent_bytes, e)
    }

    open spec fn content_dec(buf: Seq<u8>, pos: int, len: int, e: Endian) -> Option<(Self, int)> {
        match table_skip_dec(buf, pos, e) {
            None => None,
            Some(q) => {
                if q + 20 <= buf.len() {
                    Some(
                        (
                            SysConfigData {
                                time_announced: crate::bytes::dec_u64(
                                    buf.subrange(q, q + 8),
                                    e,
                                ) as i64,
                                time_sent: crate::bytes::dec_u64(
                                    buf.subrange(q + 8, q + 16),
                                    e,
                                ) as i64,
                                sent_bytes: dec_u32(
                                    buf[q + 16],
                                    buf[q + 17],
                                    buf[q + 18],
                                    buf[q + 19],
                                    e,
                                ),
                            },
                            q + 20,
                        ),
                    )
                } else {
                    None
                }
            },
        }
    }

    proof fn lemma_content_round_trip(&self, buf: Seq<u8>, pos: int, len: int, e: Endian) {
        let whole = self.content_enc(e);
        let tenc = table_enc(SysConfigData::schema(), e);
        lemma_sysconf_schema_sizes();
        assert(forall|i: int| 0 <= i < whole.len() ==> buf[pos + i] == #[trigger] whole[i]) by {
            assert(forall|i: int|
                0 <= i < whole.len() ==> buf.subrange(pos, pos + whole.len() as int)[i]
                    == #[trigger] whole[i]);
        }
        assert(buf.subrange(pos, pos + tenc.len() as int) =~= tenc) by {
            assert(forall|i: int| 0 <= i < tenc.len() ==> whole[i] == #[trigger] tenc[i]);
        }
        crate::framing::content::lemma_table_round_trip(SysConfigData::schema(), buf, pos, e);
        let q = pos + tenc.len() as int;
        let ta = crate::bytes::enc_u64(self.time_announced as u64, e);
        let ts = crate::bytes::enc_u64(self.time_sent as u64, e);
        let sb = enc_u32(self.sent_bytes, e);
        assert(buf.subrange(q, q + 8) =~= ta) by {
            assert(forall|i: int| 0 <= i < 8 ==> whole[tenc.len() as int + i] == #[trigger] ta[i]);
        }
        assert(buf.subrange(q + 8, q + 16) =~= ts) by {
            assert(forall|i: int| 0 <= i < 8 ==> whole[tenc.len() as int + 8 + i] == #[trigger] ts[i]);
        }
        assert(buf[q + 16] == whole[tenc.len() as int + 16] && buf[q + 17] == whole[tenc.len() as int + 17]
            && buf[q + 18] == whole[tenc.len() as int + 18] && buf[q + 19] == whole[tenc.len() as int + 19]);
        assert(whole[tenc.len() as int + 16] == sb[0] && whole[tenc.len() as int + 17] == sb[1] && whole[
        tenc.len() as int + 18] == sb[2] && whole[tenc.len() as int + 19] == sb[3]);
        lemma_u64_round_trip(self.time_announced as u64, ta, e);
        lemma_u64_round_trip(self.time_sent as u64, ts, e);
        lemma_i64_round_trip(self.time_announced, 0);
        lemma_i64_round_trip(self.time_sent, 0);
        lemma_u32_round_trip(self.sent_bytes, 0, 0, 0, 0, e);
    }

    fn hash_code() -> (h: HashCode) {
        HashCode::from_raw(0x1)
    }

    fn encode(&self, out: &mut Vec<u8>, e: Endian) {
        let serializer = SysConfigData::header_serializer();
        proof {
            lemma_sysconf_schema_sizes();
            crate::framing::content::lemma_attrs_len(SysConfigData::schema());
        }
        encode_table(out, &serializer, e);
        write_i64(out, self.time_announced, e);
        write_i64(out, self.time_sent, e);
        write_u32(out, self.sent_bytes, e);
        proof {
            assert(out@ =~= old(out)@ + self.content_enc(e));
        }
    }

    fn decode(buf: &[u8], pos: usize, len: usize, e: Endian) -> (r: Result<
        (Self, usize),
        BinError,
    >) {
        let p = match skip_table(buf, pos, e) {
            Ok(q) => q,
            Err(er) => {
                return Err(er);
            },
        };
        let (ta, p) = match read_i64(buf, p, e) {
            Ok(t) => t,
            Err(er) => {
                return Err(er);
            },
        };
        let (ts, p) = match read_i64(buf, p, e) {
            Ok(t) => t,
            Err(er) => {
                return Err(er);
            },
        };
        let (sb, p) = match read_u32(buf, p, e) {
            Ok(t) => t,
            Err(er) => {
                return Err(er);
            },
        };
        Ok((Self { time_announced: ta, time_sent: ts, sent_bytes: sb }, p))
    }
}

/// The magic number naming a shared-state chunk, the bytes `SYSC`.
pub const MAGIC_SYSC: u32 = 0x53595343;

/// The storage for some block of shared data between all user files.
pub enum SysConfigDataChunk {
    /// The data block dedicated to preserving shared state between all user
    /// files.
    SysConfig(BinaryDataChunk<SysConfigData>),
}

impl ChunkHolder for SysConfigDataChunk {
    type Model = SysConfigDataChunk;

    open spec fn model(&self) -> SysConfigDataChunk {
        *self
    }

    open spec fn wf(&self) -> bool {
        match self {
            SysConfigDataChunk::SysConfig(c) => c.inner.wf(),
        }
    }

    open spec fn le_ok(&self) -> bool {
        match self {
            SysConfigDataChunk::SysConfig(c) => c.inner.le_ok(),
        }
    }

    open spec fn budget_spec() -> int {
        0x80
    }

    open spec fn version_spec() -> u8 {
        1
    }

    open spec fn variant_enc(&self, e: Endian, start: int) -> Seq<u8> {
        match self {
            SysConfigDataChunk::SysConfig(c) => chunk_enc(c.inner, MAGIC_SYSC, e, start),
        }
    }

    open spec fn variant_dec(buf: Seq<u8>, pos: int, e: Endian) -> Option<(Self, int)> {
        if pos + 4 > buf.len() {
            None
        } else {
            let magic = dec_u32(buf[pos], buf[pos + 1], buf[pos + 2], buf[pos + 3], e);
            if magic == MAGIC_SYSC {
                match chunk_dec::<SysConfigData>(buf, pos + 4, e) {
                    Some((x, q)) => Some(
                        (SysConfigDataChunk::SysConfig(BinaryDataChunk { inner: x }), q),
                    ),
                    None => None,
                }
            } else {
                None
            }
        }
    }

    proof fn lemma_variant_round_trip(&self, buf: Seq<u8>, pos: int, e: Endian) {
        let whole = self.variant_enc(e, pos);
        assert(forall|i: int| 0 <= i < 4 ==> buf[pos + i] == #[trigger] whole[i]) by {
            assert(forall|i: int|
                0 <= i < whole.len() ==> buf.subrange(pos, pos + whole.len() as int)[i]
                    == #[trigger] whole[i]);
        }
        match self {
            SysConfigDataChunk::SysConfig(c) => {
                lemma_variant_dispatch::<SysConfigData>(c.inner, MAGIC_SYSC, e, buf, pos);
            },
        }
    }

    fn version() -> (v: u8) {
        1
    }

    fn buffer_size() -> (n: usize) {
        0x80
    }

    fn encode_variant(&self, out: &mut Vec<u8>, e: Endian, base: usize) -> (r: Result<
        (),
        BinError,
    >) {
        match self {
            SysConfigDataChunk::SysConfig(c) => encode_chunk(out, &c.inner, MAGIC_SYSC, e, base),
        }
    }

    fn decode_variant(buf: &[u8], pos: usize, e: Endian) -> (r: Result<(Self, usize), BinError>) {
        let (magic, p) = match crate::bytes::read_u32(buf, pos, e) {
            Ok(t) => t,
            Err(er) => {
                return Err(er);
            },
        };
        if magic == MAGIC_SYSC {
            match decode_chunk::<SysConfigData>(buf, p, e) {
                Ok((x, q)) => Ok((SysConfigDataChunk::SysConfig(BinaryDataChunk { inner: x }), q)),
                Err(er) => Err(er),
            }
        } else {
            Err(BinError::UnknownMagic { pos, found: magic })
        }
    }
}

} // verus!
