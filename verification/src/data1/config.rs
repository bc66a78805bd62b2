//! Data blocks storing shared data between all associated user files:
//! creation state, icon state and miscellaneous state.

use vstd::prelude::*;

use crate::bytes::{
    dec_u32, enc_i64, enc_u32, enc_u8, lemma_i64_round_trip, lemma_u32_round_trip,
    lemma_u64_round_trip, read_i64, read_u32, read_u8, write_i64, write_u32, write_u8,
};
use crate::endian::Endian;
use crate::error::BinError;
use crate::face::RFLCreateID;
use crate::framing::chunk::{
    chunk_dec, chunk_enc, decode_chunk, encode_chunk, lemma_chunk_round_trip, BinaryDataChunk,
    Chunk,
};
use crate::framing::chunk_holder::ChunkHolder;
use crate::hash::HashCode;

verus! {

broadcast use crate::face::lemma_rfl_create_id_raw;

/// A container for user file creation state.
#[derive(Debug, Clone, Copy, PartialEq, Eq, Structural)]
pub struct ConfigDataCreate {
    /// Determines if the user file currently exists.
    pub is_created: bool,
}

impl Default for ConfigDataCreate {
    fn default() -> (r: Self)
        ensures
            !r.is_created,
    {
        Self { is_created: false }
    }
}

impl Chunk for ConfigDataCreate {
    type Model = ConfigDataCreate;

    open spec fn model(&self) -> ConfigDataCreate {
        *self
    }

    open spec fn wf(&self) -> bool {
        true
    }

    open spec fn le_ok(&self) -> bool {
        true
    }

    open spec fn hash_spec() -> u32 {
        0x2432DA
    }

    /// One byte: the existence flag, written as a negated signed byte, so
    /// `true` appears as `0xFF`.
    open spec fn content_enc(&self, e: Endian) -> Seq<u8> {
        enc_u8(
            if self.is_created {
                0xFFu8
            } else {
                0u8
            },
        )
    }

    open spec fn content_dec(buf: Seq<u8>, pos: int, len: int, e: Endian) -> Option<(Self, int)> {
        if pos + 1 <= buf.len() {
            Some((ConfigDataCreate { is_created: buf[pos] != 0 }, pos + 1))
        } else {
            None
        }
    }

    proof fn lemma_content_round_trip(&self, buf: Seq<u8>, pos: int, len: int, e: Endian) {
        assert(buf[pos] == self.content_enc(e)[0]) by {
            assert(buf.subrange(pos, pos + 1)[0] == self.content_enc(e)[0]);
        }
    }

    fn hash_code() -> (h: HashCode) {
        HashCode::from_raw(0x2432DA)
    }

    fn encode(&self, out: &mut Vec<u8>, e: Endian) {
        let b: u8 = if self.is_created {
            0xFF
        } else {
            0
        };
        write_u8(out, b);
    }

    fn decode(buf: &[u8], pos: usize, len: usize, e: Endian) -> (r: Result<
        (Self, usize),
        BinError,
    >) {
        match read_u8(buf, pos) {
            Ok((b, p)) => Ok((Self { is_created: b != 0 }, p)),
            Err(er) => Err(er),
        }
    }
}

/// A collection of packed binary settings for user file icon state: two
/// flags in the low bits of one byte.
#[derive(Debug, Clone, Copy, PartialEq, Eq, Structural)]
pub struct ConfigDataMiiFlag {
    /// Unused; tested only when the icon field is absent from tampered data.
    pub unk1: bool,
    /// Set when the player chooses a Mii for their file, never read back.
    pub unk2: bool,
}

impl ConfigDataMiiFlag {
    /// The packed wire byte.
    pub open spec fn spec_bits(self) -> u8 {
        (if self.unk1 {
            1u8
        } else {
            0u8
        }) | (if self.unk2 {
            2u8
        } else {
            0u8
        })
    }

    /// Unpacks the two flags from the wire byte.
    pub open spec fn from_bits_spec(b: u8) -> Self {
        ConfigDataMiiFlag { unk1: b & 1 != 0, unk2: b & 2 != 0 }
    }

    /// Packs the flags into the wire byte.
    pub fn bits(self) -> (r: u8)
        ensures
            r == self.spec_bits(),
    {
        (if self.unk1 {
            1u8
        } else {
            0u8
        }) | (if self.unk2 {
            2u8
        } else {
            0u8
        })
    }

    /// Unpacks the flags from the wire byte; the six reserved bits are
    /// dropped.
    pub fn from_bits(b: u8) -> (r: Self)
        ensures
            r == Self::from_bits_spec(b),
    {
        Self { unk1: b & 1 != 0, unk2: b & 2 != 0 }
    }
}

impl Default for ConfigDataMiiFlag {
    fn default() -> (r: Self)
        ensures
            !r.unk1,
            !r.unk2,
    {
        Self { unk1: false, unk2: false }
    }
}

/// An icon for a user file.
#[derive(Debug, Clone, Copy, PartialEq, Eq, Structural)]
pub enum ConfigDataMiiIcon {
    /// The Mii head icon.
    Mii,
    /// The Mario head icon.
    Mario,
    /// The Luigi head icon.
    Luigi,
    /// The Yoshi head icon.
    Yoshi,
    /// The Toad head icon.
    Kinopio,
    /// The Peach head icon.
    Peach,
}

impl ConfigDataMiiIcon {
    /// The wire discriminant of the icon.
    pub open spec fn spec_code(self) -> u8 {
        match self {
            ConfigDataMiiIcon::Mii => 0,
            ConfigDataMiiIcon::Mario => 1,
            ConfigDataMiiIcon::Luigi => 2,
            ConfigDataMiiIcon::Yoshi => 3,
            ConfigDataMiiIcon::Kinopio => 4,
            ConfigDataMiiIcon::Peach => 5,
        }
    }

    /// The icon a wire discriminant selects, if any.
    pub open spec fn from_code_spec(b: u8) -> Option<Self> {
        match b {
            0u8 => Some(ConfigDataMiiIcon::Mii),
            1u8 => Some(ConfigDataMiiIcon::Mario),
            2u8 => Some(ConfigDataMiiIcon::Luigi),
            3u8 => Some(ConfigDataMiiIcon::Yoshi),
            4u8 => Some(ConfigDataMiiIcon::Kinopio),
            5u8 => Some(ConfigDataMiiIcon::Peach),
            _ => None,
        }
    }

    /// The wire discriminant of the icon.
    pub fn code(self) -> (r: u8)
        ensures
            r == self.spec_code(),
    {
        match self {
            ConfigDataMiiIcon::Mii => 0,
            ConfigDataMiiIcon::Mario => 1,
            ConfigDataMiiIcon::Luigi => 2,
            ConfigDataMiiIcon::Yoshi => 3,
            ConfigDataMiiIcon::Kinopio => 4,
            ConfigDataMiiIcon::Peach => 5,
        }
    }

    /// Selects the icon a wire discriminant names.
    pub fn from_code(b: u8) -> (r: Option<Self>)
        ensures
            r == Self::from_code_spec(b),
    {
        match b {
            0u8 => Some(ConfigDataMiiIcon::Mii),
            1u8 => Some(ConfigDataMiiIcon::Mario),
            2u8 => Some(ConfigDataMiiIcon::Luigi),
            3u8 => Some(ConfigDataMiiIcon::Yoshi),
            4u8 => Some(ConfigDataMiiIcon::Kinopio),
            5u8 => Some(ConfigDataMiiIcon::Peach),
            _ => None,
        }
    }
}

impl Default for ConfigDataMiiIcon {
    fn default() -> (r: Self)
        ensures
            r == ConfigDataMiiIcon::Mario,
    {
        ConfigDataMiiIcon::Mario
    }
}

/// A container for user file icon state.
#[derive(Debug, Clone, Copy, PartialEq, Eq, Structural)]
pub struct ConfigDataMii {
    /// The collection of packed binary settings.
    pub flag: ConfigDataMiiFlag,
    /// The unique identifier of the Mii.
    pub mii_id: RFLCreateID,
    /// The icon of the user file.
    pub icon_id: ConfigDataMiiIcon,
}

impl Default for ConfigDataMii {
    fn default() -> (r: Self)
        ensures
            !r.flag.unk1,
            !r.flag.unk2,
            r.mii_id.spec_raw() == 0,
            r.icon_id == ConfigDataMiiIcon::Mario,
    {
        Self {
            flag: ConfigDataMiiFlag { unk1: false, unk2: false },
            mii_id: RFLCreateID::from_raw(0),
            icon_id: ConfigDataMiiIcon::Mario,
        }
    }
}

impl Chunk for ConfigDataMii {
    type Model = ConfigDataMii;

    open spec fn model(&self) -> ConfigDataMii {
        *self
    }

    open spec fn wf(&self) -> bool {
        true
    }

    open spec fn le_ok(&self) -> bool {
        true
    }

    open spec fn hash_spec() -> u32 {
        0x2836E9
    }

    /// The flag byte, the eight identifier bytes in their on-disk order, and
    /// the icon discriminant. The identifier is a raw byte blob, so its
    /// order does not vary with the endianness.
    open spec fn content_enc(&self, e: Endian) -> Seq<u8> {
        enc_u8(self.flag.spec_bits()) + crate::bytes::enc_u64(self.mii_id.spec_raw(), Endian::Big)
            + enc_u8(self.icon_id.spec_code())
    }

    open spec fn content_dec(buf: Seq<u8>, pos: int, len: int, e: Endian) -> Option<(Self, int)> {
        if pos + 10 <= buf.len() {
            match ConfigDataMiiIcon::from_code_spec(buf[pos + 9]) {
                None => None,
                Some(icon) => Some(
                    (
                        ConfigDataMii {
                            flag: ConfigDataMiiFlag::from_bits_spec(buf[pos]),
                            mii_id: RFLCreateID::from_raw_spec(
                                crate::bytes::dec_u64_be(buf.subrange(pos + 1, pos + 9)),
                            ),
                            icon_id: icon,
                        },
                        pos + 10,
                    ),
                ),
            }
        } else {
            None
        }
    }

    proof fn lemma_content_round_trip(&self, buf: Seq<u8>, pos: int, len: int, e: Endian) {
        let whole = self.content_enc(e);
        assert(forall|i: int| 0 <= i < 10 ==> buf[pos + i] == #[trigger] whole[i]) by {
            assert(forall|i: int|
                0 <= i < 10 ==> buf.subrange(pos, pos + 10)[i] == #[trigger] whole[i]);
        }
        let idb = crate::bytes::enc_u64(self.mii_id.spec_raw(), Endian::Big);
        assert(buf.subrange(pos + 1, pos + 9) =~= idb) by {
            assert(forall|i: int| 0 <= i < 8 ==> whole[1 + i] == #[trigger] idb[i]);
        }
        lemma_u64_round_trip(self.mii_id.spec_raw(), idb, Endian::Big);
        let v0: u8 = if self.flag.unk1 {
            1
        } else {
            0
        };
        let v1: u8 = if self.flag.unk2 {
            2
        } else {
            0
        };
        lemma_flag_bit_fields(v0, v1, 0);
        assert(self.flag.spec_bits() == v0 | v1);
        assert(v0 | v1 == v0 | v1 | 0);
        assert(ConfigDataMiiFlag::from_bits_spec(whole[0]) == self.flag);
        assert(ConfigDataMiiIcon::from_code_spec(whole[9]) == Some(self.icon_id));
    }

    fn hash_code() -> (h: HashCode) {
        HashCode::from_raw(0x2836E9)
    }

    fn encode(&self, out: &mut Vec<u8>, e: Endian) {
        write_u8(out, self.flag.bits());
        crate::bytes::write_u64(out, self.mii_id.into_raw(), Endian::Big);
        write_u8(out, self.icon_id.code());
    }

    fn decode(buf: &[u8], pos: usize, len: usize, e: Endian) -> (r: Result<
        (Self, usize),
        BinError,
    >) {
        let (fb, p) = match read_u8(buf, pos) {
            Ok(t) => t,
            Err(er) => {
                return Err(er);
            },
        };
        let (id, p) = match crate::bytes::read_u64(buf, p, Endian::Big) {
            Ok(t) => t,
            Err(er) => {
                return Err(er);
            },
        };
        let (ic, p) = match read_u8(buf, p) {
            Ok(t) => t,
            Err(er) => {
                return Err(er);
            },
        };
        let icon = match ConfigDataMiiIcon::from_code(ic) {
            Some(icon) => icon,
            None => {
                return Err(BinError::UnknownDiscriminant { pos: p - 1, byte: ic });
            },
        };
        Ok(
            (
                Self {
                    flag: ConfigDataMiiFlag::from_bits(fb),
                    mii_id: RFLCreateID::from_raw(id),
                    icon_id: icon,
                },
                p,
            ),
        )
    }
}

/// A collection of packed binary settings for miscellaneous user file
/// state: three flags in the low bits of one byte.
#[derive(Debug, Clone, Copy, PartialEq, Eq, Structural)]
pub struct ConfigDataMiscFlag {
    /// Determines if Mario was the most recently played character.
    pub last_loaded_mario: bool,
    /// Determines if Mario has completed his part of the file.
    pub complete_ending_mario: bool,
    /// Determines if Luigi has completed his part of the file.
    pub complete_ending_luigi: bool,
}

impl ConfigDataMiscFlag {
    /// The packed wire byte.
    pub open spec fn spec_bits(self) -> u8 {
        (if self.last_loaded_mario {
            1u8
        } else {
            0u8
        }) | (if self.complete_ending_mario {
            2u8
        } else {
            0u8
        }) | (if self.complete_ending_luigi {
            4u8
        } else {
            0u8
        })
    }

    /// Unpacks the three flags from the wire byte.
    pub open spec fn from_bits_spec(b: u8) -> Self {
        ConfigDataMiscFlag {
            last_loaded_mario: b & 1 != 0,
            complete_ending_mario: b & 2 != 0,
            complete_ending_luigi: b & 4 != 0,
        }
    }

    /// Packs the flags into the wire byte.
    pub fn bits(self) -> (r: u8)
        ensures
            r == self.spec_bits(),
    {
        (if self.last_loaded_mario {
            1u8
        } else {
            0u8
        }) | (if self.complete_ending_mario {
            2u8
        } else {
            0u8
        }) | (if self.complete_ending_luigi {
            4u8
        } else {
            0u8
        })
    }

    /// Unpacks the flags from the wire byte; the five reserved bits are
    /// dropped.
    pub fn from_bits(b: u8) -> (r: Self)
        ensures
            r == Self::from_bits_spec(b),
    {
        Self {
            last_loaded_mario: b & 1 != 0,
            complete_ending_mario: b & 2 != 0,
            complete_ending_luigi: b & 4 != 0,
        }
    }
}

impl Default for ConfigDataMiscFlag {
    fn default() -> (r: Self)
        ensures
            r.last_loaded_mario,
            !r.complete_ending_mario,
            !r.complete_ending_luigi,
    {
        Self {
            last_loaded_mario: true,
            complete_ending_mario: false,
            complete_ending_luigi: false,
        }
    }
}

/// A container for miscellaneous user file state.
#[derive(Debug, Clone, Copy, PartialEq, Eq, Structural)]
pub struct ConfigDataMisc {
    /// The collection of packed binary settings.
    pub flag: ConfigDataMiscFlag,
    /// The timestamp representing when the user file was most recently
    /// saved.
    pub last_modified: i64,
}

impl Chunk for ConfigDataMisc {
    type Model = ConfigDataMisc;

    open spec fn model(&self) -> ConfigDataMisc {
        *self
    }

    open spec fn wf(&self) -> bool {
        true
    }

    open spec fn le_ok(&self) -> bool {
        true
    }

    open spec fn hash_spec() -> u32 {
        0x1
    }

    open spec fn content_enc(&self, e: Endian) -> Seq<u8> {
        enc_u8(self.flag.spec_bits()) + enc_i64(self.last_modified, e)
    }

    open spec fn content_dec(buf: Seq<u8>, pos: int, len: int, e: Endian) -> Option<(Self, int)> {
        if pos + 9 <= buf.len() {
            Some(
                (
                    ConfigDataMisc {
                        flag: ConfigDataMiscFlag::from_bits_spec(buf[pos]),
                        last_modified: crate::bytes::dec_u64(
                            buf.subrange(pos + 1, pos + 9),
                            e,
                        ) as i64,
                    },
                    pos + 9,
                ),
            )
        } else {
            None
        }
    }

    proof fn lemma_content_round_trip(&self, buf: Seq<u8>, pos: int, len: int, e: Endian) {
        let whole = self.content_enc(e);
        assert(forall|i: int| 0 <= i < 9 ==> buf[pos + i] == #[trigger] whole[i]) by {
            assert(forall|i: int|
                0 <= i < 9 ==> buf.subrange(pos, pos + 9)[i] == #[trigger] whole[i]);
        }
        let tb = crate::bytes::enc_u64(self.last_modified as u64, e);
        assert(buf.subrange(pos + 1, pos + 9) =~= tb) by {
            assert(forall|i: int| 0 <= i < 8 ==> whole[1 + i] == #[trigger] tb[i]);
        }
        lemma_u64_round_trip(self.last_modified as u64, tb, e);
        lemma_i64_round_trip(self.last_modified, 0);
        let v0: u8 = if self.flag.last_loaded_mario {
            1
        } else {
            0
        };
        let v1: u8 = if self.flag.complete_ending_mario {
            2
        } else {
            0
        };
        let v2: u8 = if self.flag.complete_ending_luigi {
            4
        } else {
            0
        };
        lemma_flag_bit_fields(v0, v1, v2);
        assert(self.flag.spec_bits() == v0 | v1 | v2);
        assert(ConfigDataMiscFlag::from_bits_spec(whole[0]) == self.flag);
    }

    fn hash_code() -> (h: HashCode) {
        HashCode::from_raw(0x1)
    }

    fn encode(&self, out: &mut Vec<u8>, e: Endian) {
        write_u8(out, self.flag.bits());
        write_i64(out, self.last_modified, e);
    }

    fn decode(buf: &[u8], pos: usize, len: usize, e: Endian) -> (r: Result<
        (Self, usize),
        BinError,
    >) {
        let (fb, p) = match read_u8(buf, pos) {
            Ok(t) => t,
            Err(er) => {
                return Err(er);
            },
        };
        let (t, p) = match read_i64(buf, p, e) {
            Ok(t) => t,
            Err(er) => {
                return Err(er);
            },
        };
        Ok((Self { flag: ConfigDataMiscFlag::from_bits(fb), last_modified: t }, p))
    }
}

/// The magic number naming a creation-state chunk, the bytes `CONF`.
pub const MAGIC_CONF: u32 = 0x434F4E46;

/// The magic number naming an icon-state chunk, the bytes `MII` and a space.
pub const MAGIC_MII: u32 = 0x4D494920;

/// The magic number naming a miscellaneous-state chunk, the bytes `MISC`.
pub const MAGIC_MISC: u32 = 0x4D495343;

/// The storage for some block of shared data between all associated user
/// files.
pub enum ConfigDataChunk {
    /// The data block dedicated to preserving user file creation state.
    Create(BinaryDataChunk<ConfigDataCreate>),
    /// The data block dedicated to preserving user file icon state.
    Mii(BinaryDataChunk<ConfigDataMii>),
    /// The data block dedicated to preserving miscellaneous user file state.
    Misc(BinaryDataChunk<ConfigDataMisc>),
}

impl ChunkHolder for ConfigDataChunk {
    type Model = ConfigDataChunk;

    open spec fn model(&self) -> ConfigDataChunk {
        *self
    }

    open spec fn wf(&self) -> bool {
        match self {
            ConfigDataChunk::Create(c) => c.inner.wf(),
            ConfigDataChunk::Mii(c) => c.inner.wf(),
            ConfigDataChunk::Misc(c) => c.inner.wf(),
        }
    }

    open spec fn le_ok(&self) -> bool {
        match self {
            ConfigDataChunk::Create(c) => c.inner.le_ok(),
            ConfigDataChunk::Mii(c) => c.inner.le_ok(),
            ConfigDataChunk::Misc(c) => c.inner.le_ok(),
        }
    }

    open spec fn budget_spec() -> int {
        0x60
    }

    open spec fn version_spec() -> u8 {
        1
    }

    open spec fn variant_enc(&self, e: Endian, start: int) -> Seq<u8> {
        match self {
            ConfigDataChunk::Create(c) => chunk_enc(c.inner, MAGIC_CONF, e, start),
            ConfigDataChunk::Mii(c) => chunk_enc(c.inner, MAGIC_MII, e, start),
            ConfigDataChunk::Misc(c) => chunk_enc(c.inner, MAGIC_MISC, e, start),
        }
    }

    open spec fn variant_dec(buf: Seq<u8>, pos: int, e: Endian) -> Option<(Self, int)> {
        if pos + 4 > buf.len() {
            None
        } else {
            let magic = dec_u32(buf[pos], buf[pos + 1], buf[pos + 2], buf[pos + 3], e);
            if magic == MAGIC_CONF {
                match chunk_dec::<ConfigDataCreate>(buf, pos + 4, e) {
                    Some((x, q)) => Some(
                        (ConfigDataChunk::Create(BinaryDataChunk { inner: x }), q),
                    ),
                    None => None,
                }
            } else if magic == MAGIC_MII {
                match chunk_dec::<ConfigDataMii>(buf, pos + 4, e) {
                    Some((x, q)) => Some((ConfigDataChunk::Mii(BinaryDataChunk { inner: x }), q)),
                    None => None,
                }
            } else if magic == MAGIC_MISC {
                match chunk_dec::<ConfigDataMisc>(buf, pos + 4, e) {
                    Some((x, q)) => Some((ConfigDataChunk::Misc(BinaryDataChunk { inner: x }), q)),
                    None => None,
                }
            } else {
                None
            }
        }
    }

    proof fn lemma_variant_round_trip(&self, buf: Seq<u8>, pos: int, e: Endian) {
        let whole = self.variant_enc(e, pos);
        assert(forall|i: int| 0 <= i < 4 ==> buf[pos + i] == #[trigger] whole[i]) by {
            assert(forall|i: int|
                0 <= i < whole.len() ==> buf.subrange(pos, pos + whole.len() as int)[i]
                    == #[trigger] whole[i]);
        }
        match self {
            ConfigDataChunk::Create(c) => {
                lemma_variant_dispatch::<ConfigDataCreate>(c.inner, MAGIC_CONF, e, buf, pos);
            },
            ConfigDataChunk::Mii(c) => {
                lemma_variant_dispatch::<ConfigDataMii>(c.inner, MAGIC_MII, e, buf, pos);
            },
            ConfigDataChunk::Misc(c) => {
                lemma_variant_dispatch::<ConfigDataMisc>(c.inner, MAGIC_MISC, e, buf, pos);
            },
        }
    }

    fn version() -> (v: u8) {
        1
    }

    fn buffer_size() -> (n: usize) {
        0x60
    }

    fn encode_variant(&self, out: &mut Vec<u8>, e: Endian, base: usize) -> (r: Result<
        (),
        BinError,
    >) {
        match self {
            ConfigDataChunk::Create(c) => encode_chunk(out, &c.inner, MAGIC_CONF, e, base),
            ConfigDataChunk::Mii(c) => encode_chunk(out, &c.inner, MAGIC_MII, e, base),
            ConfigDataChunk::Misc(c) => encode_chunk(out, &c.inner, MAGIC_MISC, e, base),
        }
    }

    fn decode_variant(buf: &[u8], pos: usize, e: Endian) -> (r: Result<(Self, usize), BinError>) {
        let (magic, p) = match read_u32(buf, pos, e) {
            Ok(t) => t,
            Err(er) => {
                return Err(er);
            },
        };
        if magic == MAGIC_CONF {
            match decode_chunk::<ConfigDataCreate>(buf, p, e) {
                Ok((x, q)) => Ok((ConfigDataChunk::Create(BinaryDataChunk { inner: x }), q)),
                Err(er) => Err(er),
            }
        } else if magic == MAGIC_MII {
            match decode_chunk::<ConfigDataMii>(buf, p, e) {
                Ok((x, q)) => Ok((ConfigDataChunk::Mii(BinaryDataChunk { inner: x }), q)),
                Err(er) => Err(er),
            }
        } else if magic == MAGIC_MISC {
            match decode_chunk::<ConfigDataMisc>(buf, p, e) {
                Ok((x, q)) => Ok((ConfigDataChunk::Misc(BinaryDataChunk { inner: x }), q)),
                Err(er) => Err(er),
            }
        } else {
            Err(BinError::UnknownMagic { pos, found: magic })
        }
    }
}

/// Packing single-bit flag values with `|` keeps each one recoverable with
/// its own mask.
pub proof fn lemma_flag_bit_fields(v0: u8, v1: u8, v2: u8)
    requires
        v0 == 0 || v0 == 1,
        v1 == 0 || v1 == 2,
        v2 == 0 || v2 == 4,
    ensures
        (v0 | v1 | v2) & 1 == v0,
        (v0 | v1 | v2) & 2 == v1,
        (v0 | v1 | v2) & 4 == v2,
        v2 == 0 ==> v0 | v1 | v2 == v0 | v1,
{
    assert((v0 | v1 | v2) & 1 == v0 && (v0 | v1 | v2) & 2 == v1 && (v0 | v1 | v2) & 4 == v2 && (v2
        == 0 ==> v0 | v1 | v2 == v0 | v1)) by (bit_vector)
        requires
            (v0 == 0 || v0 == 1) && (v1 == 0 || v1 == 2) && (v2 == 0 || v2 == 4),
    ;
}

/// One dispatch arm of a container variant's round trip: the magic number
/// reads back and selects the arm, and the chunk frame behind it round
/// trips.
pub proof fn lemma_variant_dispatch<T: Chunk>(x: T, magic: u32, e: Endian, buf: Seq<u8>, pos: int)
    requires
        x.wf(),
        0 <= pos,
        pos + chunk_enc(x, magic, e, pos).len() <= buf.len(),
        buf.subrange(pos, pos + chunk_enc(x, magic, e, pos).len() as int) == chunk_enc(
            x,
            magic,
            e,
            pos,
        ),
        chunk_enc(x, magic, e, pos).len() <= 0xFFFF_FF00,
        e == Endian::Little ==> pos % 4 == 0 && x.le_ok(),
    ensures
        dec_u32(buf[pos], buf[pos + 1], buf[pos + 2], buf[pos + 3], e) == magic,
        chunk_dec::<T>(buf, pos + 4, e) == Some(
            (x.model(), pos + chunk_enc(x, magic, e, pos).len() as int),
        ),
        e == Endian::Little ==> (pos + chunk_enc(x, magic, e, pos).len()) % 4 == 0,
{
    let whole = chunk_enc(x, magic, e, pos);
    let mb = enc_u32(magic, e);
    assert(forall|i: int| 0 <= i < 4 ==> buf[pos + i] == #[trigger] whole[i]) by {
        assert(forall|i: int|
            0 <= i < whole.len() ==> buf.subrange(pos, pos + whole.len() as int)[i]
                == #[trigger] whole[i]);
    }
    assert(whole[0] == mb[0] && whole[1] == mb[1] && whole[2] == mb[2] && whole[3] == mb[3]);
    lemma_u32_round_trip(magic, 0, 0, 0, 0, e);
    lemma_chunk_round_trip(x, magic, e, buf, pos);
    if e == Endian::Little {
        let content = x.content_enc(e);
        let unpadded = pos + 12 + content.len() as int;
        crate::bytes::lemma_spec_align4(unpadded);
    }
}

} // verus!
