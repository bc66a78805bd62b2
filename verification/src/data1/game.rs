//! Data blocks storing gameplay data: player state, Hungry Luma state and
//! the two key-value pair stores.

use vstd::prelude::*;

use crate::bytes::{
    dec_u16, dec_u32, enc_u16, enc_u32, enc_u8, lemma_align4_multiple, lemma_u16_round_trip,
    lemma_u16s_enc_len, lemma_u16s_round_trip, lemma_u32_round_trip, read_u16, read_u16s, read_u32,
    read_u8, u16s_dec, u16s_enc, write_u16, write_u16s, write_u32, write_u8,
};
use crate::data1::config::lemma_variant_dispatch;
use crate::data1::galaxy::GameDataAllGalaxyStorage;
use crate::data1::spin_driver_path::{SpinDriverPathStorage, SpinDriverPathStorageOne};
use crate::endian::Endian;
use crate::error::BinError;
use crate::event::{GameEventFlag, GameEventValue};
use crate::framing::chunk::{
    chunk_dec, chunk_enc, decode_chunk, encode_chunk, BinaryDataChunk, Chunk,
};
use crate::framing::chunk_holder::ChunkHolder;
use crate::hash::{hash_bytes, HashCode};

verus! {

broadcast use crate::event::lemma_game_event_flag_bits, crate::event::lemma_game_event_value_parts;

/// A container for player state.
#[derive(Debug, Clone, Copy, PartialEq, Eq, Structural)]
pub struct GameDataPlayerStatus {
    /// The value of sequential progression through the story.
    pub story_progress: u8,
    /// The number of stashed Star Bits.
    pub stocked_star_piece_num: u32,
    /// The number of remaining lives.
    pub player_left: u16,
}

impl Default for GameDataPlayerStatus {
    fn default() -> (r: Self)
        ensures
            r.story_progress == 0,
            r.stocked_star_piece_num == 0,
            r.player_left == 4,
    {
        Self { story_progress: 0, stocked_star_piece_num: 0, player_left: 4 }
    }
}

impl Chunk for GameDataPlayerStatus {
    type Model = GameDataPlayerStatus;

    open spec fn model(&self) -> GameDataPlayerStatus {
        *self
    }

    open spec fn wf(&self) -> bool {
        true
    }

    open spec fn le_ok(&self) -> bool {
        true
    }

    open spec fn hash_spec() -> u32 {
        0x27C90F
    }

    open spec fn content_enc(&self, e: Endian) -> Seq<u8> {
        enc_u8(self.story_progress) + enc_u32(self.stocked_star_piece_num, e) + enc_u16(
            self.player_left,
            e,
        )
    }

    open spec fn content_dec(buf: Seq<u8>, pos: int, len: int, e: Endian) -> Option<(Self, int)> {
        if pos + 7 <= buf.len() {
            Some(
                (
                    GameDataPlayerStatus {
                        story_progress: buf[pos],
                        stocked_star_piece_num: dec_u32(
                            buf[pos + 1],
                            buf[pos + 2],
                            buf[pos + 3],
                            buf[pos + 4],
                            e,
                        ),
                        player_left: dec_u16(buf[pos + 5], buf[pos + 6], e),
                    },
                    pos + 7,
                ),
            )
        } else {
            None
        }
    }

    proof fn lemma_content_round_trip(&self, buf: Seq<u8>, pos: int, len: int, e: Endian) {
        let whole = self.content_enc(e);
        assert(forall|i: int| 0 <= i < 7 ==> buf[pos + i] == #[trigger] whole[i]) by {
            assert(forall|i: int|
                0 <= i < 7 ==> buf.subrange(pos, pos + 7)[i] == #[trigger] whole[i]);
        }
        let sb = enc_u32(self.stocked_star_piece_num, e);
        let pb = enc_u16(self.player_left, e);
        assert(whole[0] == self.content_enc(e)[0]);
        assert(whole[1] == sb[0] && whole[2] == sb[1] && whole[3] == sb[2] && whole[4] == sb[3]);
        assert(whole[5] == pb[0] && whole[6] == pb[1]);
        lemma_u32_round_trip(self.stocked_star_piece_num, 0, 0, 0, 0, e);
        lemma_u16_round_trip(self.player_left, 0, 0, e);
    }

    fn hash_code() -> (h: HashCode) {
        HashCode::from_raw(0x27C90F)
    }

    fn encode(&self, out: &mut Vec<u8>, e: Endian) {
        write_u8(out, self.story_progress);
        write_u32(out, self.stocked_star_piece_num, e);
        write_u16(out, self.player_left, e);
    }

    fn decode(buf: &[u8], pos: usize, len: usize, e: Endian) -> (r: Result<
        (Self, usize),
        BinError,
    >) {
        let (sp, p) = match read_u8(buf, pos) {
            Ok(t) => t,
            Err(er) => {
                return Err(er);
            },
        };
        let (st, p) = match read_u32(buf, p, e) {
            Ok(t) => t,
            Err(er) => {
                return Err(er);
            },
        };
        let (pl, p) = match read_u16(buf, p, e) {
            Ok(t) => t,
            Err(er) => {
                return Err(er);
            },
        };
        Ok((Self { story_progress: sp, stocked_star_piece_num: st, player_left: pl }, p))
    }
}

/// The serialized name of the Hungry Luma storage, whose shifted hash
/// identifies its chunk.
pub open spec fn star_piece_alms_name() -> Seq<u8> {
    seq![
        0x53u8,
        0x74,
        0x61,
        0x72,
        0x50,
        0x69,
        0x65,
        0x63,
        0x65,
        0x41,
        0x6C,
        0x6D,
        0x73,
        0x53,
        0x74,
        0x6F,
        0x72,
        0x61,
        0x67,
        0x65,
    ]
}

/// A container for Hungry Luma state: one row of Star Bit counters for
/// individual galaxies and one for the Comet Observatory.
#[derive(Debug, Clone, PartialEq, Eq)]
pub struct StarPieceAlmsStorage {
    /// The Star Bit counters for individual galaxies.
    galaxy_row: Vec<u16>,
    /// The Star Bit counters for the Comet Observatory.
    astro_row: Vec<u16>,
}

impl StarPieceAlmsStorage {
    /// The galaxy counters, for use in contracts.
    pub closed spec fn galaxy_counters(&self) -> Seq<u16> {
        self.galaxy_row@
    }

    /// The Comet Observatory counters, for use in contracts.
    pub closed spec fn astro_counters(&self) -> Seq<u16> {
        self.astro_row@
    }

    /// Creates a storage with every counter at zero.
    pub fn new() -> (r: Self)
        ensures
            r.wf(),
            r.galaxy_counters() == Seq::new(8, |i: int| 0u16),
            r.astro_counters() == Seq::new(8, |i: int| 0u16),
    {
        let mut g: Vec<u16> = Vec::new();
        let mut a: Vec<u16> = Vec::new();
        let mut i: usize = 0;
        while i < 8
            invariant
                i <= 8,
                g@ =~= Seq::new(i as nat, |k: int| 0u16),
                a@ =~= Seq::new(i as nat, |k: int| 0u16),
            decreases 8 - i,
        {
            g.push(0);
            a.push(0);
            proof {
                assert(g@ =~= Seq::new(i as nat + 1, |k: int| 0u16));
                assert(a@ =~= Seq::new(i as nat + 1, |k: int| 0u16));
            }
            i += 1;
        }
        Self { galaxy_row: g, astro_row: a }
    }

    /// Returns references to the two counter rows: the galaxies and the
    /// Comet Observatory.
    pub fn rows(&self) -> (r: (&Vec<u16>, &Vec<u16>))
        ensures
            r.0@ == self.galaxy_counters(),
            r.1@ == self.astro_counters(),
    {
        (&self.galaxy_row, &self.astro_row)
    }

    /// Builds a storage from its two counter rows.
    pub fn from_rows(galaxy_row: Vec<u16>, astro_row: Vec<u16>) -> (r: Self)
        ensures
            r.galaxy_counters() == galaxy_row@,
            r.astro_counters() == astro_row@,
    {
        Self { galaxy_row, astro_row }
    }

    /// Returns a reference to a Star Bit counter from the row of a galaxy.
    pub fn galaxy(&self, index: usize) -> (r: Option<&u16>)
        requires
            self.wf(),
        ensures
            match r {
                Some(v) => index < 8 && *v == self.galaxy_counters()[index as int],
                None => index >= 8,
            },
    {
        if index < self.galaxy_row.len() {
            Some(&self.galaxy_row[index])
        } else {
            None
        }
    }

    /// Returns a mutable reference to a Star Bit counter from a galaxy.
    pub fn galaxy_mut(&mut self, index: usize) -> (r: Option<&mut u16>)
        requires
            old(self).wf(),
        ensures
            match r {
                Some(v) => {
                    &&& index < 8
                    &&& *v == old(self).galaxy_counters()[index as int]
                    &&& final(self).galaxy_counters() == old(self).galaxy_counters().update(
                        index as int,
                        *final(v),
                    )
                    &&& final(self).astro_counters() == old(self).astro_counters()
                    &&& final(self).wf()
                },
                None => index >= 8 && *final(self) == *old(self),
            },
    {
        if index < self.galaxy_row.len() {
            Some(&mut self.galaxy_row[index])
        } else {
            None
        }
    }

    /// Returns a reference to a Star Bit counter from the Comet Observatory.
    pub fn astro_galaxy(&self, index: usize) -> (r: Option<&u16>)
        requires
            self.wf(),
        ensures
            match r {
                Some(v) => index < 8 && *v == self.astro_counters()[index as int],
                None => index >= 8,
            },
    {
        if index < self.astro_row.len() {
            Some(&self.astro_row[index])
        } else {
            None
        }
    }

    /// Returns a mutable reference to a Star Bit counter from the Comet
    /// Observatory.
    pub fn astro_galaxy_mut(&mut self, index: usize) -> (r: Option<&mut u16>)
        requires
            old(self).wf(),
        ensures
            match r {
                Some(v) => {
                    &&& index < 8
                    &&& *v == old(self).astro_counters()[index as int]
                    &&& final(self).astro_counters() == old(self).astro_counters().update(
                        index as int,
                        *final(v),
                    )
                    &&& final(self).galaxy_counters() == old(self).galaxy_counters()
                    &&& final(self).wf()
                },
                None => index >= 8 && *final(self) == *old(self),
            },
    {
        if index < self.astro_row.len() {
            Some(&mut self.astro_row[index])
        } else {
            None
        }
    }
}

impl Chunk for StarPieceAlmsStorage {
    type Model = (Seq<u16>, Seq<u16>);

    open spec fn model(&self) -> (Seq<u16>, Seq<u16>) {
        (self.galaxy_counters(), self.astro_counters())
    }

    open spec fn wf(&self) -> bool {
        self.galaxy_counters().len() == 8 && self.astro_counters().len() == 8
    }

    open spec fn le_ok(&self) -> bool {
        true
    }

    /// The shifted hash of the storage's serialized name.
    open spec fn hash_spec() -> u32 {
        hash_bytes(star_piece_alms_name()) << 5
    }

    open spec fn content_enc(&self, e: Endian) -> Seq<u8> {
        u16s_enc(self.galaxy_counters(), e) + u16s_enc(self.astro_counters(), e)
    }

    open spec fn content_dec(buf: Seq<u8>, pos: int, len: int, e: Endian) -> Option<
        ((Seq<u16>, Seq<u16>), int),
    > {
        match u16s_dec(buf, pos, 8, e) {
            None => None,
            Some((g, q)) => match u16s_dec(buf, q, 8, e) {
                None => None,
                Some((a, r)) => Some(((g, a), r)),
            },
        }
    }

    proof fn lemma_content_round_trip(&self, buf: Seq<u8>, pos: int, len: int, e: Endian) {
        let whole = self.content_enc(e);
        let genc = u16s_enc(self.galaxy_counters(), e);
        let aenc = u16s_enc(self.astro_counters(), e);
        lemma_u16s_enc_len(self.galaxy_counters(), e);
        lemma_u16s_enc_len(self.astro_counters(), e);
        assert(forall|i: int| 0 <= i < whole.len() ==> buf[pos + i] == #[trigger] whole[i]) by {
            assert(forall|i: int|
                0 <= i < whole.len() ==> buf.subrange(pos, pos + whole.len() as int)[i]
                    == #[trigger] whole[i]);
        }
        assert(buf.subrange(pos, pos + 16) =~= genc) by {
            assert(forall|i: int| 0 <= i < 16 ==> whole[i] == #[trigger] genc[i]);
        }
        assert(buf.subrange(pos + 16, pos + 32) =~= aenc) by {
            assert(forall|i: int| 0 <= i < 16 ==> whole[16 + i] == #[trigger] aenc[i]);
        }
        lemma_u16s_round_trip(self.galaxy_counters(), buf, pos, e);
        lemma_u16s_round_trip(self.astro_counters(), buf, pos + 16, e);
    }

    fn hash_code() -> (h: HashCode) {
        let name: Vec<u8> = vec![
            0x53u8,
            0x74,
            0x61,
            0x72,
            0x50,
            0x69,
            0x65,
            0x63,
            0x65,
            0x41,
            0x6C,
            0x6D,
            0x73,
            0x53,
            0x74,
            0x6F,
            0x72,
            0x61,
            0x67,
            0x65,
        ];
        proof {
            assert(name@ =~= star_piece_alms_name());
        }
        let h = HashCode::from_bytes(name.as_slice()).into_raw();
        HashCode::from_raw(h << 5u32)
    }

    fn encode(&self, out: &mut Vec<u8>, e: Endian) {
        write_u16s(out, &self.galaxy_row, e);
        write_u16s(out, &self.astro_row, e);
    }

    fn decode(buf: &[u8], pos: usize, len: usize, e: Endian) -> (r: Result<
        (Self, usize),
        BinError,
    >) {
        let (g, p) = match read_u16s(buf, pos, 8, e) {
            Ok(t) => t,
            Err(er) => {
                return Err(er);
            },
        };
        let (a, p) = match read_u16s(buf, p, 8, e) {
            Ok(t) => t,
            Err(er) => {
                return Err(er);
            },
        };
        Ok((Self { galaxy_row: g, astro_row: a }, p))
    }
}

/// The serialized tag whose hash identifies the Boolean key-value store.
pub open spec fn flag_storage_tag() -> Seq<u8> {
    seq![0x32u8, 0x62, 0x79, 0x74, 0x65, 0x73, 0x2F, 0x66, 0x6C, 0x61, 0x67]
}

/// The packed wire words of a sequence of Boolean key-value pairs.
pub open spec fn flag_bits_of(s: Seq<GameEventFlag>) -> Seq<u16> {
    s.map_values(|f: GameEventFlag| f.spec_bits())
}

/// The pairs read back from a sequence of wire words.
pub open spec fn flags_of_bits(ws: Seq<u16>) -> Seq<GameEventFlag> {
    ws.map_values(|w: u16| GameEventFlag::from_bits_spec(w))
}

/// The index of the first pair whose truncated key equals `k`, or `-1`.
pub open spec fn find_flag(s: Seq<GameEventFlag>, k: u16) -> int
    decreases s.len(),
{
    if s.len() == 0 {
        -1
    } else if s[0].spec_key() == k {
        0
    } else {
        let r = find_flag(s.drop_first(), k);
        if r < 0 {
            -1
        } else {
            r + 1
        }
    }
}

/// The scan that stops at the first matching key finds exactly `find_flag`.
pub proof fn lemma_find_flag_at(s: Seq<GameEventFlag>, k: u16, j: int)
    requires
        0 <= j < s.len(),
        forall|l: int| 0 <= l < j ==> (#[trigger] s[l].spec_key()) != k,
        s[j].spec_key() == k,
    ensures
        find_flag(s, k) == j,
    decreases s.len(),
{
    if s.len() > 0 {
        if j == 0 {
        } else {
            assert(s[0].spec_key() != k);
            let tail = s.drop_first();
            assert(forall|l: int|
                0 <= l < j - 1 ==> (#[trigger] tail[l].spec_key()) != k) by {
                assert(forall|l: int| 0 <= l < j - 1 ==> tail[l] == s[l + 1]);
            }
            assert(tail[j - 1] == s[j as int]);
            lemma_find_flag_at(tail, k, j - 1);
        }
    }
}

/// If no pair matches, the search reports none.
pub proof fn lemma_find_flag_none(s: Seq<GameEventFlag>, k: u16)
    requires
        forall|l: int| 0 <= l < s.len() ==> (#[trigger] s[l].spec_key()) != k,
    ensures
        find_flag(s, k) == -1,
    decreases s.len(),
{
    if s.len() > 0 {
        let tail = s.drop_first();
        assert(forall|l: int| 0 <= l < tail.len() ==> (#[trigger] tail[l].spec_key()) != k) by {
            assert(forall|l: int| 0 <= l < tail.len() ==> tail[l] == s[l + 1]);
        }
        lemma_find_flag_none(tail, k);
    }
}

/// A container for key-value pair state, where each value is a Boolean.
#[derive(Debug, Clone, PartialEq, Eq)]
pub struct GameEventFlagStorage {
    /// The collection of key-value pairs.
    event_flag: Vec<GameEventFlag>,
}

impl GameEventFlagStorage {
    /// The stored pairs, for use in contracts.
    pub closed spec fn flags(&self) -> Seq<GameEventFlag> {
        self.event_flag@
    }

    /// Builds a storage holding the given pairs.
    pub fn from_flags(event_flag: Vec<GameEventFlag>) -> (r: Self)
        ensures
            r.flags() == event_flag@,
    {
        Self { event_flag }
    }

    /// Returns a reference to the stored pairs.
    pub fn entries(&self) -> (r: &Vec<GameEventFlag>)
        ensures
            r@ == self.flags(),
    {
        &self.event_flag
    }

    /// Returns the value of the first pair matching the key, if any.
    pub fn get(&self, key: HashCode) -> (r: Option<bool>)
        ensures
            ({
                let i = find_flag(self.flags(), (key.spec_raw() as u16) & 0x7FFF);
                match r {
                    Some(v) => i >= 0 && v == self.flags()[i].spec_value(),
                    None => i == -1,
                }
            }),
    {
        let mut j: usize = 0;
        while j < self.event_flag.len()
            invariant
                j <= self.event_flag@.len(),
                forall|l: int|
                    0 <= l < j ==> (#[trigger] self.event_flag@[l].spec_key()) != (
                    key.spec_raw() as u16) & 0x7FFF,
            decreases self.event_flag@.len() - j,
        {
            if self.event_flag[j].matches_key(key) {
                proof {
                    lemma_find_flag_at(self.flags(), (key.spec_raw() as u16) & 0x7FFF, j as int);
                }
                return Some(self.event_flag[j].value());
            }
            j += 1;
        }
        proof {
            lemma_find_flag_none(self.flags(), (key.spec_raw() as u16) & 0x7FFF);
        }
        None
    }

    /// Updates the value of the first pair matching the key; a missing key
    /// changes nothing.
    pub fn set(&mut self, key: HashCode, value: bool)
        ensures
            ({
                let i = find_flag(old(self).flags(), (key.spec_raw() as u16) & 0x7FFF);
                if i >= 0 {
                    &&& final(self).flags().len() == old(self).flags().len()
                    &&& final(self).flags()[i].spec_key() == old(self).flags()[i].spec_key()
                    &&& final(self).flags()[i].spec_value() == value
                    &&& forall|l: int|
                        0 <= l < old(self).flags().len() && l != i ==> final(self).flags()[l]
                            == old(self).flags()[l]
                } else {
                    final(self).flags() == old(self).flags()
                }
            }),
    {
        let mut j: usize = 0;
        while j < self.event_flag.len()
            invariant
                self.event_flag@ == old(self).event_flag@,
                j <= self.event_flag@.len(),
                forall|l: int|
                    0 <= l < j ==> (#[trigger] self.event_flag@[l].spec_key()) != (
                    key.spec_raw() as u16) & 0x7FFF,
            decreases self.event_flag@.len() - j,
        {
            if self.event_flag[j].matches_key(key) {
                proof {
                    lemma_find_flag_at(self.flags(), (key.spec_raw() as u16) & 0x7FFF, j as int);
                }
                let f = &mut self.event_flag[j];
                f.set(value);
                return ;
            }
            j += 1;
        }
        proof {
            lemma_find_flag_none(self.flags(), (key.spec_raw() as u16) & 0x7FFF);
        }
    }
}

impl Chunk for GameEventFlagStorage {
    type Model = Seq<GameEventFlag>;

    open spec fn model(&self) -> Seq<GameEventFlag> {
        self.flags()
    }

    open spec fn wf(&self) -> bool {
        self.flags().len() <= 0x80_0000
    }

    /// The handed length fixes the pair count, so a little-endian round trip
    /// needs the content 4-byte aligned: an even number of pairs.
    open spec fn le_ok(&self) -> bool {
        self.flags().len() % 2 == 0
    }

    open spec fn hash_spec() -> u32 {
        hash_bytes(flag_storage_tag())
    }

    open spec fn content_enc(&self, e: Endian) -> Seq<u8> {
        u16s_enc(flag_bits_of(self.flags()), e)
    }

    /// The handed length decides how many pairs are read: one per exact
    /// 16-bit word.
    open spec fn content_dec(buf: Seq<u8>, pos: int, len: int, e: Endian) -> Option<
        (Seq<GameEventFlag>, int),
    > {
        match u16s_dec(buf, pos, len / 2, e) {
            None => None,
            Some((ws, q)) => Some((flags_of_bits(ws), q)),
        }
    }

    proof fn lemma_content_round_trip(&self, buf: Seq<u8>, pos: int, len: int, e: Endian) {
        let bits = flag_bits_of(self.flags());
        lemma_u16s_enc_len(bits, e);
        assert(bits.len() == self.flags().len());
        if e == Endian::Little {
            assert(self.content_enc(e).len() % 4 == 0) by (nonlinear_arith)
                requires
                    self.content_enc(e).len() == 2 * self.flags().len(),
                    self.flags().len() % 2 == 0,
            ;
            assert((pos + self.content_enc(e).len()) % 4 == 0) by (nonlinear_arith)
                requires
                    pos % 4 == 0,
                    self.content_enc(e).len() % 4 == 0,
                    0 <= pos,
            ;
            lemma_align4_multiple(pos + self.content_enc(e).len() as int);
        }
        assert(len == 2 * self.flags().len());
        assert(len / 2 == self.flags().len());
        lemma_u16s_round_trip(bits, buf, pos, e);
        assert(flags_of_bits(bits) =~= self.flags());
    }

    fn hash_code() -> (h: HashCode) {
        let tag: Vec<u8> = vec![
            0x32u8,
            0x62,
            0x79,
            0x74,
            0x65,
            0x73,
            0x2F,
            0x66,
            0x6C,
            0x61,
            0x67,
        ];
        proof {
            assert(tag@ =~= flag_storage_tag());
        }
        HashCode::from_bytes(tag.as_slice())
    }

    fn encode(&self, out: &mut Vec<u8>, e: Endian) {
        let mut i: usize = 0;
        let ghost base = out@;
        while i < self.event_flag.len()
            invariant
                i <= self.event_flag@.len(),
                out@ == base + u16s_enc(flag_bits_of(self.event_flag@).take(i as int), e),
            decreases self.event_flag@.len() - i,
        {
            proof {
                crate::bytes::lemma_u16s_enc_snoc(flag_bits_of(self.event_flag@), i as int, e);
            }
            write_u16(out, self.event_flag[i].bits(), e);
            i += 1;
        }
        proof {
            assert(flag_bits_of(self.event_flag@).take(self.event_flag@.len() as int)
                =~= flag_bits_of(self.event_flag@));
        }
    }

    fn decode(buf: &[u8], pos: usize, len: usize, e: Endian) -> (r: Result<
        (Self, usize),
        BinError,
    >) {
        let n = len / 2;
        if n > (buf.len() - pos) / 2 {
            proof {
                lemma_u16s_dec_eof(buf@, pos as int, n as int, e);
            }
            return Err(BinError::Eof { pos });
        }
        let (ws, p) = match read_u16s(buf, pos, n, e) {
            Ok(t) => t,
            Err(er) => {
                return Err(er);
            },
        };
        let mut flags: Vec<GameEventFlag> = Vec::new();
        let mut i: usize = 0;
        while i < ws.len()
            invariant
                i <= ws@.len(),
                flags@ =~= flags_of_bits(ws@.take(i as int)),
            decreases ws@.len() - i,
        {
            flags.push(GameEventFlag::from_bits(ws[i]));
            proof {
                assert(flags@ =~= flags_of_bits(ws@.take(i + 1)));
            }
            i += 1;
        }
        proof {
            assert(ws@.take(ws@.len() as int) =~= ws@);
            assert(flags@.len() <= (buf@.len() - pos) / 2);
        }
        Ok((Self { event_flag: flags }, p))
    }
}


/// The serialized encodings of a sequence of integer key-value pairs: each
/// pair is its truncated key then its value.
pub open spec fn vals_enc(s: Seq<GameEventValue>, e: Endian) -> Seq<u8>
    decreases s.len(),
{
    if s.len() == 0 {
        Seq::empty()
    } else {
        enc_u16(s[0].spec_key(), e) + enc_u16(s[0].spec_value(), e) + vals_enc(s.drop_first(), e)
    }
}

pub proof fn lemma_vals_enc_len(s: Seq<GameEventValue>, e: Endian)
    ensures
        vals_enc(s, e).len() == 4 * s.len(),
    decreases s.len(),
{
    if s.len() > 0 {
        lemma_vals_enc_len(s.drop_first(), e);
    }
}

/// Decodes `n` consecutive integer key-value pairs.
pub open spec fn vals_dec(buf: Seq<u8>, pos: int, n: int, e: Endian) -> Option<
    (Seq<GameEventValue>, int),
>
    decreases n,
{
    if n <= 0 {
        Some((Seq::empty(), pos))
    } else if pos + 4 > buf.len() {
        None
    } else {
        let k = dec_u16(buf[pos], buf[pos + 1], e);
        let v = dec_u16(buf[pos + 2], buf[pos + 3], e);
        match vals_dec(buf, pos + 4, n - 1, e) {
            None => None,
            Some((s, q)) => Some((seq![GameEventValue::from_parts_spec(k, v)] + s, q)),
        }
    }
}

/// A pair sequence written and read back is recovered exactly.
pub proof fn lemma_vals_round_trip(s: Seq<GameEventValue>, buf: Seq<u8>, pos: int, e: Endian)
    requires
        0 <= pos,
        pos + vals_enc(s, e).len() <= buf.len(),
        buf.subrange(pos, pos + vals_enc(s, e).len() as int) == vals_enc(s, e),
    ensures
        vals_dec(buf, pos, s.len() as int, e) == Some((s, pos + 4 * s.len())),
    decreases s.len(),
{
    lemma_vals_enc_len(s, e);
    let whole = vals_enc(s, e);
    if s.len() == 0 {
        assert(s =~= Seq::<GameEventValue>::empty());
    } else {
        let kb = enc_u16(s[0].spec_key(), e);
        let vb = enc_u16(s[0].spec_value(), e);
        let tail = s.drop_first();
        let tenc = vals_enc(tail, e);
        assert(whole == kb + vb + tenc);
        assert(forall|i: int| 0 <= i < whole.len() ==> buf[pos + i] == #[trigger] whole[i]) by {
            assert(forall|i: int|
                0 <= i < whole.len() ==> buf.subrange(pos, pos + whole.len() as int)[i]
                    == #[trigger] whole[i]);
        }
        assert(buf[pos + 0] == whole[0] && buf[pos + 1] == whole[1] && buf[pos + 2] == whole[2]
            && buf[pos + 3] == whole[3]);
        assert(whole[0] == kb[0] && whole[1] == kb[1] && whole[2] == vb[0] && whole[3] == vb[1]);
        lemma_u16_round_trip(s[0].spec_key(), 0, 0, e);
        lemma_u16_round_trip(s[0].spec_value(), 0, 0, e);
        assert(buf.subrange(pos + 4, pos + 4 + tenc.len() as int) =~= tenc) by {
            assert(forall|i: int|
                0 <= i < tenc.len() ==> whole[4 + i] == #[trigger] tenc[i]);
        }
        lemma_vals_round_trip(tail, buf, pos + 4, e);
        assert(GameEventValue::from_parts_spec(s[0].spec_key(), s[0].spec_value()) == s[0]);
        assert(seq![s[0]] + tail =~= s);
    }
}

/// Fewer bytes than four per requested pair cannot decode.
pub proof fn lemma_vals_dec_eof(buf: Seq<u8>, pos: int, n: int, e: Endian)
    requires
        pos + 4 * n > buf.len(),
        n > 0,
        0 <= pos,
    ensures
        vals_dec(buf, pos, n, e) is None,
    decreases n,
{
    if pos + 4 <= buf.len() {
        lemma_vals_dec_eof(buf, pos + 4, n - 1, e);
    }
}

/// The index of the first pair whose truncated key equals `k`, or `-1`.
pub open spec fn find_value(s: Seq<GameEventValue>, k: u16) -> int
    decreases s.len(),
{
    if s.len() == 0 {
        -1
    } else if s[0].spec_key() == k {
        0
    } else {
        let r = find_value(s.drop_first(), k);
        if r < 0 {
            -1
        } else {
            r + 1
        }
    }
}

/// The scan that stops at the first matching key finds exactly `find_value`.
pub proof fn lemma_find_value_at(s: Seq<GameEventValue>, k: u16, j: int)
    requires
        0 <= j < s.len(),
        forall|l: int| 0 <= l < j ==> (#[trigger] s[l].spec_key()) != k,
        s[j].spec_key() == k,
    ensures
        find_value(s, k) == j,
    decreases s.len(),
{
    if s.len() > 0 && j > 0 {
        let tail = s.drop_first();
        assert(forall|l: int| 0 <= l < j - 1 ==> (#[trigger] tail[l].spec_key()) != k) by {
            assert(forall|l: int| 0 <= l < j - 1 ==> tail[l] == s[l + 1]);
        }
        assert(tail[j - 1] == s[j as int]);
        lemma_find_value_at(tail, k, j - 1);
    }
}

/// If no pair matches, the search reports none.
pub proof fn lemma_find_value_none(s: Seq<GameEventValue>, k: u16)
    requires
        forall|l: int| 0 <= l < s.len() ==> (#[trigger] s[l].spec_key()) != k,
    ensures
        find_value(s, k) == -1,
    decreases s.len(),
{
    if s.len() > 0 {
        let tail = s.drop_first();
        assert(forall|l: int| 0 <= l < tail.len() ==> (#[trigger] tail[l].spec_key()) != k) by {
            assert(forall|l: int| 0 <= l < tail.len() ==> tail[l] == s[l + 1]);
        }
        lemma_find_value_none(tail, k);
    }
}

/// A container for key-value pair state, where each value is a 16-bit
/// unsigned integer.
#[derive(Debug, Clone, PartialEq, Eq)]
pub struct GameEventValueStorage {
    /// The collection of key-value pairs.
    event_value: Vec<GameEventValue>,
}

impl GameEventValueStorage {
    /// The stored pairs, for use in contracts.
    pub closed spec fn values(&self) -> Seq<GameEventValue> {
        self.event_value@
    }

    /// Builds a storage holding the given pairs.
    pub fn from_values(event_value: Vec<GameEventValue>) -> (r: Self)
        ensures
            r.values() == event_value@,
    {
        Self { event_value }
    }

    /// Returns a reference to the stored pairs.
    pub fn entries(&self) -> (r: &Vec<GameEventValue>)
        ensures
            r@ == self.values(),
    {
        &self.event_value
    }

    /// Returns a reference to the value of the first pair matching the key,
    /// if any.
    pub fn get(&self, key: HashCode) -> (r: Option<&u16>)
        ensures
            ({
                let i = find_value(self.values(), key.spec_raw() as u16);
                match r {
                    Some(v) => i >= 0 && *v == self.values()[i].spec_value(),
                    None => i == -1,
                }
            }),
    {
        let mut j: usize = 0;
        while j < self.event_value.len()
            invariant
                j <= self.event_value@.len(),
                forall|l: int|
                    0 <= l < j ==> (#[trigger] self.event_value@[l].spec_key())
                        != key.spec_raw() as u16,
            decreases self.event_value@.len() - j,
        {
            if self.event_value[j].matches_key(key) {
                proof {
                    lemma_find_value_at(self.values(), key.spec_raw() as u16, j as int);
                }
                return Some(self.event_value[j].value());
            }
            j += 1;
        }
        proof {
            lemma_find_value_none(self.values(), key.spec_raw() as u16);
        }
        None
    }

    /// Returns a mutable reference to the value of the first pair matching
    /// the key, if any.
    pub fn get_mut(&mut self, key: HashCode) -> (r: Option<&mut u16>)
        ensures
            ({
                let i = find_value(old(self).values(), key.spec_raw() as u16);
                match r {
                    Some(v) => {
                        &&& i >= 0
                        &&& *v == old(self).values()[i].spec_value()
                        &&& final(self).values().len() == old(self).values().len()
                        &&& final(self).values()[i].spec_key() == old(self).values()[i].spec_key()
                        &&& final(self).values()[i].spec_value() == *final(v)
                        &&& forall|l: int|
                            0 <= l < old(self).values().len() && l != i
                                ==> final(self).values()[l] == old(self).values()[l]
                    },
                    None => i == -1 && final(self).values() == old(self).values(),
                }
            }),
    {
        let n = self.event_value.len();
        let mut j: usize = 0;
        while j < n
            invariant
                n == self.event_value@.len(),
                self.event_value@ == old(self).event_value@,
                j <= n,
                forall|l: int|
                    0 <= l < j ==> (#[trigger] self.event_value@[l].spec_key())
                        != key.spec_raw() as u16,
            decreases n - j,
        {
            if self.event_value[j].matches_key(key) {
                proof {
                    lemma_find_value_at(self.values(), key.spec_raw() as u16, j as int);
                }
                let p = &mut self.event_value[j];
                return Some(p.value_mut());
            }
            j += 1;
        }
        proof {
            lemma_find_value_none(self.values(), key.spec_raw() as u16);
        }
        None
    }
}

impl Chunk for GameEventValueStorage {
    type Model = Seq<GameEventValue>;

    open spec fn model(&self) -> Seq<GameEventValue> {
        self.values()
    }

    open spec fn wf(&self) -> bool {
        self.values().len() <= 0x40_0000
    }

    open spec fn le_ok(&self) -> bool {
        true
    }

    /// The big-endian reading of the bytes `VLE1`.
    open spec fn hash_spec() -> u32 {
        0x564C4531
    }

    open spec fn content_enc(&self, e: Endian) -> Seq<u8> {
        vals_enc(self.values(), e)
    }

    /// The handed length decides how many pairs are read: one per exact
    /// four-byte group.
    open spec fn content_dec(buf: Seq<u8>, pos: int, len: int, e: Endian) -> Option<
        (Seq<GameEventValue>, int),
    > {
        vals_dec(buf, pos, len / 4, e)
    }

    proof fn lemma_content_round_trip(&self, buf: Seq<u8>, pos: int, len: int, e: Endian) {
        lemma_vals_enc_len(self.values(), e);
        if e == Endian::Little {
            assert(self.content_enc(e).len() % 4 == 0) by (nonlinear_arith)
                requires
                    self.content_enc(e).len() == 4 * self.values().len(),
            ;
            assert((pos + self.content_enc(e).len()) % 4 == 0) by (nonlinear_arith)
                requires
                    pos % 4 == 0,
                    self.content_enc(e).len() % 4 == 0,
                    0 <= pos,
            ;
            lemma_align4_multiple(pos + self.content_enc(e).len() as int);
        }
        assert(len == 4 * self.values().len());
        assert(len / 4 == self.values().len());
        lemma_vals_round_trip(self.values(), buf, pos, e);
    }

    fn hash_code() -> (h: HashCode) {
        HashCode::from_raw(0x564C4531)
    }

    fn encode(&self, out: &mut Vec<u8>, e: Endian) {
        let mut i: usize = 0;
        let n = self.event_value.len();
        proof {
            assert(out@ =~= old(out)@ + vals_enc(self.event_value@.take(0), e));
        }
        while i < n
            invariant
                n == self.event_value@.len(),
                i <= n,
                out@ == old(out)@ + vals_enc(self.event_value@.take(i as int), e),
            decreases n - i,
        {
            proof {
                lemma_vals_enc_snoc(self.event_value@, i as int, e);
            }
            let p = self.event_value[i];
            write_u16(out, p.key_bits(), e);
            write_u16(out, *p.value(), e);
            i += 1;
        }
        proof {
            assert(self.event_value@.take(n as int) =~= self.event_value@);
        }
    }

    fn decode(buf: &[u8], pos: usize, len: usize, e: Endian) -> (r: Result<
        (Self, usize),
        BinError,
    >) {
        let n = len / 4;
        if n > (buf.len() - pos) / 4 {
            proof {
                lemma_vals_dec_eof(buf@, pos as int, n as int, e);
            }
            return Err(BinError::Eof { pos });
        }
        let mut vals: Vec<GameEventValue> = Vec::new();
        let mut p: usize = pos;
        let mut i: usize = 0;
        proof {
            if let Some((s, q)) = vals_dec(buf@, pos as int, n as int, e) {
                assert(Seq::<GameEventValue>::empty() + s =~= s);
            }
            assert(vals@ =~= Seq::<GameEventValue>::empty());
        }
        while i < n
            invariant
                pos <= p <= buf@.len(),
                buf@.len() <= 0x100_0000,
                n == len / 4,
                n <= 0x100_0000,
                i <= n,
                vals@.len() == i,
                vals_dec(buf@, pos as int, n as int, e) == (match vals_dec(
                    buf@,
                    p as int,
                    n - i,
                    e,
                ) {
                    None => None::<(Seq<GameEventValue>, int)>,
                    Some((s, q)) => Some((vals@ + s, q)),
                }),
            decreases n - i,
        {
            let (k, q) = match read_u16(buf, p, e) {
                Ok(t) => t,
                Err(er) => {
                    proof {
                        assert(vals_dec(buf@, p as int, n - i, e) is None);
                    }
                    return Err(er);
                },
            };
            let (v, q) = match read_u16(buf, q, e) {
                Ok(t) => t,
                Err(er) => {
                    proof {
                        assert(vals_dec(buf@, p as int, n - i, e) is None);
                    }
                    return Err(er);
                },
            };
            let gv = GameEventValue::from_parts(k, v);
            vals.push(gv);
            proof {
                assert(vals@.drop_last() + seq![gv] =~= vals@);
                if let Some((s, r2)) = vals_dec(buf@, q as int, n - i - 1, e) {
                    assert(vals@.drop_last() + (seq![gv] + s) =~= vals@ + s);
                }
            }
            p = q;
            i += 1;
        }
        proof {
            assert(vals@ + Seq::<GameEventValue>::empty() =~= vals@);
        }
        Ok((Self { event_value: vals }, p))
    }
}

/// Splitting a pair sequence splits its encoding at the matching byte
/// boundary.
pub proof fn lemma_vals_enc_split(s: Seq<GameEventValue>, i: int, e: Endian)
    requires
        0 <= i <= s.len(),
    ensures
        vals_enc(s, e) == vals_enc(s.take(i), e) + vals_enc(s.skip(i), e),
    decreases i,
{
    if i == 0 {
        assert(s.take(0) =~= Seq::empty());
        assert(s.skip(0) =~= s);
        assert(vals_enc(s, e) =~= vals_enc(s.take(0), e) + vals_enc(s.skip(0), e));
    } else {
        let tail = s.drop_first();
        lemma_vals_enc_split(tail, i - 1, e);
        assert(tail.take(i - 1) =~= s.take(i).drop_first());
        assert(tail.skip(i - 1) =~= s.skip(i));
        assert(s.take(i)[0] == s[0]);
        assert(vals_enc(s.take(i), e) == enc_u16(s[0].spec_key(), e) + enc_u16(
            s[0].spec_value(),
            e,
        ) + vals_enc(tail.take(i - 1), e));
        assert(vals_enc(s, e) =~= vals_enc(s.take(i), e) + vals_enc(s.skip(i), e));
    }
}

/// Appending one pair to a sequence appends its encoding.
pub proof fn lemma_vals_enc_snoc(s: Seq<GameEventValue>, i: int, e: Endian)
    requires
        0 <= i < s.len(),
    ensures
        vals_enc(s.take(i + 1), e) == vals_enc(s.take(i), e) + enc_u16(s[i].spec_key(), e)
            + enc_u16(s[i].spec_value(), e),
{
    lemma_vals_enc_split(s.take(i + 1), i, e);
    assert(s.take(i + 1).take(i) =~= s.take(i));
    let last = s.take(i + 1).skip(i);
    assert(last.len() == 1);
    assert(last[0] == s[i]);
    assert(vals_enc(last.drop_first(), e) =~= Seq::<u8>::empty());
    assert(vals_enc(last, e) =~= enc_u16(s[i].spec_key(), e) + enc_u16(s[i].spec_value(), e));
}

/// Fewer bytes than two per requested word cannot decode.
pub proof fn lemma_u16s_dec_eof(buf: Seq<u8>, pos: int, n: int, e: Endian)
    requires
        pos + 2 * n > buf.len(),
        n > 0,
        0 <= pos,
    ensures
        u16s_dec(buf, pos, n, e) is None,
    decreases n,
{
    if pos + 2 <= buf.len() {
        lemma_u16s_dec_eof(buf, pos + 2, n - 1, e);
    }
}


/// The magic number naming a player-state chunk, the bytes `PLAY`.
pub const MAGIC_PLAY: u32 = 0x504C4159;

/// The magic number naming a Boolean key-value chunk, the bytes `FLG1`.
pub const MAGIC_FLG1: u32 = 0x464C4731;

/// The magic number naming a Hungry Luma chunk, the bytes `PCE1`.
pub const MAGIC_PCE1: u32 = 0x50434531;

/// The magic number naming a Launch Star path chunk, the bytes `SPN1`.
pub const MAGIC_SPN1: u32 = 0x53504E31;

/// The magic number naming an integer key-value chunk, the bytes `VLE1`.
pub const MAGIC_VLE1: u32 = 0x564C4531;

/// The magic number naming a galaxy-state chunk, the bytes `GALA`.
pub const MAGIC_GALA: u32 = 0x47414C41;

/// The storage for some block of gameplay data.
pub enum GameDataChunk {
    /// The data block dedicated to preserving player state.
    PlayerStatus(BinaryDataChunk<GameDataPlayerStatus>),
    /// The data block dedicated to preserving key-value pair state, where
    /// each value is a Boolean.
    EventFlag(BinaryDataChunk<GameEventFlagStorage>),
    /// The data block dedicated to preserving Hungry Luma state.
    StarPieceAlms(BinaryDataChunk<StarPieceAlmsStorage>),
    /// The data block dedicated to preserving Launch Star path state.
    SpinDriverPath(BinaryDataChunk<SpinDriverPathStorage>),
    /// The data block dedicated to preserving key-value pair state, where
    /// each value is a 16-bit unsigned integer.
    EventValue(BinaryDataChunk<GameEventValueStorage>),
    /// The data block dedicated to preserving galaxy state.
    Galaxy(BinaryDataChunk<GameDataAllGalaxyStorage>),
}

/// The model of one gameplay chunk: the variant together with the model of
/// its content.
pub enum GameDataChunkModel {
    /// Player state.
    PlayerStatus(GameDataPlayerStatus),
    /// The Boolean key-value pairs.
    EventFlag(Seq<GameEventFlag>),
    /// The two rows of Hungry Luma counters.
    StarPieceAlms((Seq<u16>, Seq<u16>)),
    /// The galaxy path records.
    SpinDriverPath(Seq<(u16, Seq<Seq<SpinDriverPathStorageOne>>)>),
    /// The integer key-value pairs.
    EventValue(Seq<GameEventValue>),
    /// The galaxy records.
    Galaxy(Seq<(u16, u8, u8, Seq<u16>)>),
}

impl ChunkHolder for GameDataChunk {
    type Model = GameDataChunkModel;

    open spec fn model(&self) -> GameDataChunkModel {
        match self {
            GameDataChunk::PlayerStatus(c) => GameDataChunkModel::PlayerStatus(c.inner.model()),
            GameDataChunk::EventFlag(c) => GameDataChunkModel::EventFlag(c.inner.model()),
            GameDataChunk::StarPieceAlms(c) => GameDataChunkModel::StarPieceAlms(c.inner.model()),
            GameDataChunk::SpinDriverPath(c) => GameDataChunkModel::SpinDriverPath(
                c.inner.model(),
            ),
            GameDataChunk::EventValue(c) => GameDataChunkModel::EventValue(c.inner.model()),
            GameDataChunk::Galaxy(c) => GameDataChunkModel::Galaxy(c.inner.model()),
        }
    }

    open spec fn wf(&self) -> bool {
        match self {
            GameDataChunk::PlayerStatus(c) => c.inner.wf(),
            GameDataChunk::EventFlag(c) => c.inner.wf(),
            GameDataChunk::StarPieceAlms(c) => c.inner.wf(),
            GameDataChunk::SpinDriverPath(c) => c.inner.wf(),
            GameDataChunk::EventValue(c) => c.inner.wf(),
            GameDataChunk::Galaxy(c) => c.inner.wf(),
        }
    }

    open spec fn le_ok(&self) -> bool {
        match self {
            GameDataChunk::PlayerStatus(c) => c.inner.le_ok(),
            GameDataChunk::EventFlag(c) => c.inner.le_ok(),
            GameDataChunk::StarPieceAlms(c) => c.inner.le_ok(),
            GameDataChunk::SpinDriverPath(c) => c.inner.le_ok(),
            GameDataChunk::EventValue(c) => c.inner.le_ok(),
            GameDataChunk::Galaxy(c) => c.inner.le_ok(),
        }
    }

    open spec fn budget_spec() -> int {
        0xF80
    }

    open spec fn version_spec() -> u8 {
        1
    }

    open spec fn variant_enc(&self, e: Endian, start: int) -> Seq<u8> {
        match self {
            GameDataChunk::PlayerStatus(c) => chunk_enc(c.inner, MAGIC_PLAY, e, start),
            GameDataChunk::EventFlag(c) => chunk_enc(c.inner, MAGIC_FLG1, e, start),
            GameDataChunk::StarPieceAlms(c) => chunk_enc(c.inner, MAGIC_PCE1, e, start),
            GameDataChunk::SpinDriverPath(c) => chunk_enc(c.inner, MAGIC_SPN1, e, start),
            GameDataChunk::EventValue(c) => chunk_enc(c.inner, MAGIC_VLE1, e, start),
            GameDataChunk::Galaxy(c) => chunk_enc(c.inner, MAGIC_GALA, e, start),
        }
    }

    open spec fn variant_dec(buf: Seq<u8>, pos: int, e: Endian) -> Option<
        (GameDataChunkModel, int),
    > {
        if pos + 4 > buf.len() {
            None
        } else {
            let magic = crate::bytes::dec_u32(buf[pos], buf[pos + 1], buf[pos + 2], buf[pos + 3], e);
            if magic == MAGIC_PLAY {
                match chunk_dec::<GameDataPlayerStatus>(buf, pos + 4, e) {
                    Some((x, q)) => Some((GameDataChunkModel::PlayerStatus(x), q)),
                    None => None,
                }
            } else if magic == MAGIC_FLG1 {
                match chunk_dec::<GameEventFlagStorage>(buf, pos + 4, e) {
                    Some((x, q)) => Some((GameDataChunkModel::EventFlag(x), q)),
                    None => None,
                }
            } else if magic == MAGIC_PCE1 {
                match chunk_dec::<StarPieceAlmsStorage>(buf, pos + 4, e) {
                    Some((x, q)) => Some((GameDataChunkModel::StarPieceAlms(x), q)),
                    None => None,
                }
            } else if magic == MAGIC_SPN1 {
                match chunk_dec::<SpinDriverPathStorage>(buf, pos + 4, e) {
                    Some((x, q)) => Some((GameDataChunkModel::SpinDriverPath(x), q)),
                    None => None,
                }
            } else if magic == MAGIC_VLE1 {
                match chunk_dec::<GameEventValueStorage>(buf, pos + 4, e) {
                    Some((x, q)) => Some((GameDataChunkModel::EventValue(x), q)),
                    None => None,
                }
            } else if magic == MAGIC_GALA {
                match chunk_dec::<GameDataAllGalaxyStorage>(buf, pos + 4, e) {
                    Some((x, q)) => Some((GameDataChunkModel::Galaxy(x), q)),
                    None => None,
                }
            } else {
                None
            }
        }
    }

    #[verifier::rlimit(100)]
    proof fn lemma_variant_round_trip(&self, buf: Seq<u8>, pos: int, e: Endian) {
        let whole = self.variant_enc(e, pos);
        assert(forall|i: int| 0 <= i < 4 ==> buf[pos + i] == #[trigger] whole[i]) by {
            assert(forall|i: int|
                0 <= i < whole.len() ==> buf.subrange(pos, pos + whole.len() as int)[i]
                    == #[trigger] whole[i]);
        }
        match self {
            GameDataChunk::PlayerStatus(c) => {
                lemma_variant_dispatch::<GameDataPlayerStatus>(c.inner, MAGIC_PLAY, e, buf, pos);
            },
            GameDataChunk::EventFlag(c) => {
                lemma_variant_dispatch::<GameEventFlagStorage>(c.inner, MAGIC_FLG1, e, buf, pos);
            },
            GameDataChunk::StarPieceAlms(c) => {
                lemma_variant_dispatch::<StarPieceAlmsStorage>(c.inner, MAGIC_PCE1, e, buf, pos);
            },
            GameDataChunk::SpinDriverPath(c) => {
                lemma_variant_dispatch::<SpinDriverPathStorage>(c.inner, MAGIC_SPN1, e, buf, pos);
            },
            GameDataChunk::EventValue(c) => {
                lemma_variant_dispatch::<GameEventValueStorage>(c.inner, MAGIC_VLE1, e, buf, pos);
            },
            GameDataChunk::Galaxy(c) => {
                lemma_variant_dispatch::<GameDataAllGalaxyStorage>(c.inner, MAGIC_GALA, e, buf, pos);
            },
        }
    }

    fn version() -> (v: u8) {
        1
    }

    fn buffer_size() -> (n: usize) {
        0xF80
    }

    fn encode_variant(&self, out: &mut Vec<u8>, e: Endian, base: usize) -> (r: Result<
        (),
        BinError,
    >) {
        match self {
            GameDataChunk::PlayerStatus(c) => encode_chunk(out, &c.inner, MAGIC_PLAY, e, base),
            GameDataChunk::EventFlag(c) => encode_chunk(out, &c.inner, MAGIC_FLG1, e, base),
            GameDataChunk::StarPieceAlms(c) => encode_chunk(out, &c.inner, MAGIC_PCE1, e, base),
            GameDataChunk::SpinDriverPath(c) => encode_chunk(out, &c.inner, MAGIC_SPN1, e, base),
            GameDataChunk::EventValue(c) => encode_chunk(out, &c.inner, MAGIC_VLE1, e, base),
            GameDataChunk::Galaxy(c) => encode_chunk(out, &c.inner, MAGIC_GALA, e, base),
        }
    }

    fn decode_variant(buf: &[u8], pos: usize, e: Endian) -> (r: Result<(Self, usize), BinError>) {
        let (magic, p) = match read_u32(buf, pos, e) {
            Ok(t) => t,
            Err(er) => {
                return Err(er);
            },
        };
        if magic == MAGIC_PLAY {
            match decode_chunk::<GameDataPlayerStatus>(buf, p, e) {
                Ok((x, q)) => Ok((GameDataChunk::PlayerStatus(BinaryDataChunk { inner: x }), q)),
                Err(er) => Err(er),
            }
        } else if magic == MAGIC_FLG1 {
            match decode_chunk::<GameEventFlagStorage>(buf, p, e) {
                Ok((x, q)) => Ok((GameDataChunk::EventFlag(BinaryDataChunk { inner: x }), q)),
                Err(er) => Err(er),
            }
        } else if magic == MAGIC_PCE1 {
            match decode_chunk::<StarPieceAlmsStorage>(buf, p, e) {
                Ok((x, q)) => Ok((GameDataChunk::StarPieceAlms(BinaryDataChunk { inner: x }), q)),
                Err(er) => Err(er),
            }
        } else if magic == MAGIC_SPN1 {
            match decode_chunk::<SpinDriverPathStorage>(buf, p, e) {
                Ok((x, q)) => Ok((GameDataChunk::SpinDriverPath(BinaryDataChunk { inner: x }), q)),
                Err(er) => Err(er),
            }
        } else if magic == MAGIC_VLE1 {
            match decode_chunk::<GameEventValueStorage>(buf, p, e) {
                Ok((x, q)) => Ok((GameDataChunk::EventValue(BinaryDataChunk { inner: x }), q)),
                Err(er) => Err(er),
            }
        } else if magic == MAGIC_GALA {
            match decode_chunk::<GameDataAllGalaxyStorage>(buf, p, e) {
                Ok((x, q)) => Ok((GameDataChunk::Galaxy(BinaryDataChunk { inner: x }), q)),
                Err(er) => Err(er),
            }
        } else {
            Err(BinError::UnknownMagic { pos, found: magic })
        }
    }
}

} // verus!
