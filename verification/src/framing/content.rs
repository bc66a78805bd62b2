//! The field descriptor table embedded in certain chunk contents: an ordered
//! table of (hashed field name, byte offset) pairs plus the struct's total
//! encoded size, derived from a declarative field list.
//!
//! The table is written for external introspection and never re-parsed by
//! this framework's own decode path, which skips it as a fixed-size region.

use vstd::prelude::*;

use crate::bytes::{dec_u16, enc_u16, lemma_u16_round_trip, read_u16, write_u16};
use crate::endian::Endian;
use crate::error::BinError;
use crate::hash::{hash_bytes, HashCode, HashCode16};

verus! {

/// One declared field of a serializable struct: its serialized name, its
/// encoded byte width, and whether it is left out of the descriptor table.
pub struct FieldDef {
    /// The serialized name of the field.
    pub name: Vec<u8>,
    /// The encoded width of the field, in bytes.
    pub width: u16,
    /// Determines if the field should not be considered.
    pub skip: bool,
}

impl View for FieldDef {
    type V = (Seq<u8>, u16, bool);

    open spec fn view(&self) -> (Seq<u8>, u16, bool) {
        (self.name@, self.width, self.skip)
    }
}

/// The view of a declared field list.
pub open spec fn fields_view(v: Seq<FieldDef>) -> Seq<(Seq<u8>, u16, bool)> {
    v.map_values(|f: FieldDef| f@)
}

/// The total encoded size of the non-skipped fields.
pub open spec fn data_size_spec(fs: Seq<(Seq<u8>, u16, bool)>) -> int
    decreases fs.len(),
{
    if fs.len() == 0 {
        0
    } else {
        data_size_spec(fs.drop_last()) + (if fs.last().2 {
            0int
        } else {
            fs.last().1 as int
        })
    }
}

/// The number of descriptors the table holds: one per non-skipped field.
pub open spec fn emitted_count(fs: Seq<(Seq<u8>, u16, bool)>) -> int
    decreases fs.len(),
{
    if fs.len() == 0 {
        0
    } else {
        emitted_count(fs.drop_last()) + (if fs.last().2 {
            0int
        } else {
            1int
        })
    }
}

/// The descriptor pairs: each non-skipped field's truncated name hash and
/// its offset, the cumulative width of the non-skipped fields before it.
pub open spec fn attrs_of(fs: Seq<(Seq<u8>, u16, bool)>) -> Seq<(u16, u16)>
    decreases fs.len(),
{
    if fs.len() == 0 {
        Seq::empty()
    } else {
        attrs_of(fs.drop_last()) + (if fs.last().2 {
            Seq::empty()
        } else {
            seq![
                (
                    hash_bytes(fs.last().0) as u16,
                    data_size_spec(fs.drop_last()) as u16,
                ),
            ]
        })
    }
}

/// The encoding of the descriptor pairs, each as two 16-bit fields.
pub open spec fn pairs_enc(attrs: Seq<(u16, u16)>, e: Endian) -> Seq<u8>
    decreases attrs.len(),
{
    if attrs.len() == 0 {
        Seq::empty()
    } else {
        pairs_enc(attrs.drop_last(), e) + enc_u16(attrs.last().0, e) + enc_u16(attrs.last().1, e)
    }
}

pub proof fn lemma_pairs_enc_len(attrs: Seq<(u16, u16)>, e: Endian)
    ensures
        pairs_enc(attrs, e).len() == 4 * attrs.len(),
    decreases attrs.len(),
{
    if attrs.len() > 0 {
        lemma_pairs_enc_len(attrs.drop_last(), e);
    }
}

/// The full table encoding: the descriptor count, the total data size, then
/// the descriptor pairs.
pub open spec fn table_enc(fs: Seq<(Seq<u8>, u16, bool)>, e: Endian) -> Seq<u8> {
    enc_u16(emitted_count(fs) as u16, e) + enc_u16(data_size_spec(fs) as u16, e) + pairs_enc(
        attrs_of(fs),
        e,
    )
}

/// The serialized size of a table with `count` descriptors.
pub open spec fn table_size_spec(count: int) -> int {
    4 + 4 * count
}

/// Skipping a table on decode: read the descriptor count and step over the
/// whole fixed-size region without interpreting it.
pub open spec fn table_skip_dec(buf: Seq<u8>, pos: int, e: Endian) -> Option<int> {
    if pos + 4 > buf.len() {
        None
    } else {
        let count = dec_u16(buf[pos], buf[pos + 1], e) as int;
        if pos + table_size_spec(count) <= buf.len() {
            Some(pos + table_size_spec(count))
        } else {
            None
        }
    }
}

/// The descriptor for a field stored in a data block.
#[derive(Debug, Clone, Copy, PartialEq, Eq, Structural)]
pub struct BinaryDataContentAttribute {
    /// The hashed name of the serialized field, truncated to the least
    /// significant 16 bits.
    pub key: HashCode16,
    /// The offset to the field in bytes, relative to the start of the
    /// serialized field data.
    pub offset: u16,
}

/// The emitted reader/writer for the content of a data block: the ordered
/// descriptor table plus the total serialized size of the described struct.
pub struct BinaryDataContentHeaderSerializer {
    /// The collection of field descriptors.
    pub attributes: Vec<BinaryDataContentAttribute>,
    /// The serialized size of the described struct, in bytes.
    pub data_size: u16,
}

impl BinaryDataContentHeaderSerializer {
    /// The descriptor pairs held, for use in contracts.
    pub open spec fn pairs(&self) -> Seq<(u16, u16)> {
        self.attributes@.map_values(|a: BinaryDataContentAttribute| (a.key.spec_raw(), a.offset))
    }
}

/// A trait for types which must support storing a descriptor table: the
/// declarative field list is the single source from which the table, its
/// serialized size and the struct's data size are derived.
pub trait HeaderSerializer: Sized {
    /// The declared field list of the type.
    spec fn schema() -> Seq<(Seq<u8>, u16, bool)>;

    /// Builds the declared field list.
    fn fields() -> (v: Vec<FieldDef>)
        ensures
            fields_view(v@) == Self::schema(),
    ;

    /// Creates a new `BinaryDataContentHeaderSerializer`.
    fn header_serializer() -> (r: BinaryDataContentHeaderSerializer)
        ensures
            r.pairs() == attrs_of(Self::schema()),
            r.data_size == data_size_spec(Self::schema()) as u16,
    ;

    /// Returns the serialized size of the descriptor table, in bytes.
    fn header_size() -> (n: usize)
        ensures
            n == table_size_spec(emitted_count(Self::schema())),
    ;

    /// Returns the serialized size of the described struct, in bytes.
    fn data_size() -> (n: usize)
        ensures
            n == data_size_spec(Self::schema()),
    ;
}

/// Computes the descriptor table from a declared field list: one descriptor
/// per non-skipped field, whose key is the truncated hash of the field's
/// name and whose offset is the cumulative width of the non-skipped fields
/// preceding it.
pub fn build_header_serializer(fields: &Vec<FieldDef>) -> (r: BinaryDataContentHeaderSerializer)
    requires
        data_size_spec(fields_view(fields@)) <= 0xFFFF,
    ensures
        r.pairs() == attrs_of(fields_view(fields@)),
        r.data_size == data_size_spec(fields_view(fields@)) as u16,
{
    let mut attributes: Vec<BinaryDataContentAttribute> = Vec::new();
    let mut offset: u16 = 0;
    let mut i: usize = 0;
    while i < fields.len()
        invariant
            data_size_spec(fields_view(fields@)) <= 0xFFFF,
            i <= fields@.len(),
            offset == data_size_spec(fields_view(fields@).take(i as int)),
            attributes@.map_values(
                |a: BinaryDataContentAttribute| (a.key.spec_raw(), a.offset),
            ) == attrs_of(fields_view(fields@).take(i as int)),
        decreases fields@.len() - i,
    {
        proof {
            lemma_data_size_take_bound(fields_view(fields@), i as int + 1);
            assert(fields_view(fields@).take(i + 1).drop_last() =~= fields_view(fields@).take(
                i as int,
            ));
            assert(fields_view(fields@).take(i + 1).last() == fields@[i as int]@);
        }
        let f = &fields[i];
        if !f.skip {
            let key = HashCode16::from_code(HashCode::from_bytes(f.name.as_slice()));
            attributes.push(BinaryDataContentAttribute { key, offset });
            proof {
                let view = |a: BinaryDataContentAttribute| (a.key.spec_raw(), a.offset);
                assert(attributes@.map_values(view) =~= attributes@.drop_last().map_values(view)
                    + seq![(key.spec_raw(), offset)]);
                assert(attributes@.map_values(view) =~= attrs_of(
                    fields_view(fields@).take(i + 1),
                ));
            }
            offset = offset + f.width;
        } else {
            proof {
                assert(attrs_of(fields_view(fields@).take(i + 1)) =~= attrs_of(
                    fields_view(fields@).take(i as int),
                ));
            }
        }
        i += 1;
    }
    proof {
        assert(fields_view(fields@).take(fields@.len() as int) =~= fields_view(fields@));
    }
    let data_size = offset;
    BinaryDataContentHeaderSerializer { attributes, data_size }
}

/// Every prefix of a field list needs no more data bytes than the whole.
pub proof fn lemma_data_size_take_bound(fs: Seq<(Seq<u8>, u16, bool)>, i: int)
    requires
        0 <= i <= fs.len(),
    ensures
        data_size_spec(fs.take(i)) <= data_size_spec(fs),
        0 <= data_size_spec(fs.take(i)),
        emitted_count(fs.take(i)) <= emitted_count(fs),
        0 <= emitted_count(fs.take(i)),
    decreases fs.len(),
{
    if fs.len() > 0 {
        if i == fs.len() {
            assert(fs.take(i) =~= fs);
            lemma_data_size_take_bound(fs.drop_last(), i - 1);
            assert(fs.drop_last().take(i - 1) =~= fs.drop_last());
        } else {
            lemma_data_size_take_bound(fs.drop_last(), i);
            assert(fs.drop_last().take(i) =~= fs.take(i));
        }
    }
}

/// Writes the descriptor table: the count, the data size, then each
/// descriptor's key and offset.
pub fn encode_table(
    out: &mut Vec<u8>,
    s: &BinaryDataContentHeaderSerializer,
    e: Endian,
)
    requires
        s.attributes@.len() <= 0xFFFF,
    ensures
        final(out)@ == old(out)@ + enc_u16(s.attributes@.len() as u16, e) + enc_u16(
            s.data_size,
            e,
        ) + pairs_enc(s.pairs(), e),
{
    write_u16(out, s.attributes.len() as u16, e);
    write_u16(out, s.data_size, e);
    let base: Ghost<Seq<u8>> = Ghost(out@);
    let mut i: usize = 0;
    while i < s.attributes.len()
        invariant
            i <= s.attributes@.len(),
            out@ == base@ + pairs_enc(s.pairs().take(i as int), e),
        decreases s.attributes@.len() - i,
    {
        proof {
            assert(s.pairs().take(i + 1).drop_last() =~= s.pairs().take(i as int));
            assert(s.pairs().take(i + 1).last() == s.pairs()[i as int]);
        }
        let a = &s.attributes[i];
        write_u16(out, a.key.into_raw(), e);
        write_u16(out, a.offset, e);
        i += 1;
    }
    proof {
        assert(s.pairs().take(s.pairs().len() as int) =~= s.pairs());
        assert(out@ =~= old(out)@ + enc_u16(s.attributes@.len() as u16, e) + enc_u16(
            s.data_size,
            e,
        ) + pairs_enc(s.pairs(), e));
    }
}

/// Steps over a descriptor table on decode, treating it as an opaque region
/// whose size follows from its stored descriptor count.
pub fn skip_table(buf: &[u8], pos: usize, e: Endian) -> (r: Result<usize, BinError>)
    requires
        pos <= buf@.len(),
        buf@.len() <= 0x1000_0000,
    ensures
        match r {
            Ok(q) => table_skip_dec(buf@, pos as int, e) == Some(q as int) && pos <= q
                <= buf@.len(),
            Err(_) => table_skip_dec(buf@, pos as int, e) is None,
        },
{
    let (count, p) = match read_u16(buf, pos, e) {
        Ok(t) => t,
        Err(er) => {
            return Err(er);
        },
    };
    let skip: usize = 4 + 4 * (count as usize);
    if buf.len() - pos < skip {
        return Err(BinError::Eof { pos });
    }
    if pos + 4 > buf.len() {
        return Err(BinError::Eof { pos });
    }
    Ok(pos + skip)
}

/// Round trip for the table region: a table written from a field list and
/// then skipped consumes exactly its own bytes.
pub proof fn lemma_table_round_trip(fs: Seq<(Seq<u8>, u16, bool)>, buf: Seq<u8>, pos: int, e: Endian)
    requires
        0 <= pos,
        emitted_count(fs) <= 0xFFFF,
        pos + table_enc(fs, e).len() <= buf.len(),
        buf.subrange(pos, pos + table_enc(fs, e).len() as int) == table_enc(fs, e),
    ensures
        table_enc(fs, e).len() == table_size_spec(emitted_count(fs)),
        table_skip_dec(buf, pos, e) == Some(pos + table_enc(fs, e).len() as int),
{
    let whole = table_enc(fs, e);
    lemma_pairs_enc_len(attrs_of(fs), e);
    lemma_attrs_len(fs);
    assert(whole.len() == 4 + 4 * emitted_count(fs));
    assert(forall|i: int|
        0 <= i < whole.len() ==> buf[pos + i] == #[trigger] whole[i]) by {
        assert(forall|i: int|
            0 <= i < whole.len() ==> buf.subrange(pos, pos + whole.len() as int)[i]
                == #[trigger] whole[i]);
    }
    let cnt = emitted_count(fs) as u16;
    let cb = enc_u16(cnt, e);
    assert(whole[0] == cb[0] && whole[1] == cb[1]);
    assert(buf[pos] == whole[0] && buf[pos + 1] == whole[1]);
    lemma_u16_round_trip(cnt, 0, 0, e);
    assert(dec_u16(buf[pos], buf[pos + 1], e) == cnt);
    assert(cnt as int == emitted_count(fs));
}

/// The descriptor count equals the number of emitted pairs.
pub proof fn lemma_attrs_len(fs: Seq<(Seq<u8>, u16, bool)>)
    ensures
        attrs_of(fs).len() == emitted_count(fs),
    decreases fs.len(),
{
    if fs.len() > 0 {
        lemma_attrs_len(fs.drop_last());
    }
}

} // verus!
