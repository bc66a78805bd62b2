//! Types associated with galaxy state: a keyed table of per-galaxy mission
//! flags and coin records, prefixed by its own field descriptor table.

use vstd::prelude::*;

use crate::array::BitArray8;
use crate::bytes::{
    dec_u16, enc_u16, enc_u8, lemma_u16_round_trip, lemma_u16s_enc_len, lemma_u16s_round_trip,
    read_u16, read_u16s, read_u8, u16s_dec, u16s_enc, write_u16, write_u16s, write_u8,
};
use crate::endian::Endian;
use crate::error::BinError;
use crate::framing::chunk::Chunk;
use crate::framing::content::{
    build_header_serializer, data_size_spec, emitted_count, encode_table, fields_view, skip_table,
    table_enc, table_skip_dec, BinaryDataContentHeaderSerializer, FieldDef, HeaderSerializer,
};
use crate::hash::{HashCode, HashCode16};

verus! {

/// A container for the state of a galaxy.
#[derive(Debug, Clone, PartialEq, Eq)]
pub struct GameDataSomeGalaxyStorage {
    /// The hashed internal name of the galaxy, truncated to the least
    /// significant 16 bits.
    pub galaxy_name: HashCode16,
    /// The flags representing the Star collection status for each mission.
    pub power_star_flag: BitArray8,
    /// The flags representing the selection status for each base mission.
    pub first_play_flag: BitArray8,
    /// The greatest number of collected coins for each mission.
    pub max_coin_num: Vec<u16>,
}

impl GameDataSomeGalaxyStorage {
    /// The model of one galaxy record: name, the two flag bytes, and the
    /// coin counters.
    pub open spec fn stage_model(&self) -> (u16, u8, u8, Seq<u16>) {
        (
            self.galaxy_name.spec_raw(),
            self.power_star_flag.spec_bits(),
            self.first_play_flag.spec_bits(),
            self.max_coin_num@,
        )
    }

    /// Structural validity: one coin counter per possible mission.
    pub open spec fn wf(&self) -> bool {
        self.max_coin_num@.len() == 8
    }
}

impl HeaderSerializer for GameDataSomeGalaxyStorage {
    /// The declared field list: the galaxy name, the two flag bytes and the
    /// eight coin counters.
    open spec fn schema() -> Seq<(Seq<u8>, u16, bool)> {
        seq![
            (seq![0x6Du8, 0x47, 0x61, 0x6C, 0x61, 0x78, 0x79, 0x4E, 0x61, 0x6D, 0x65], 2u16, false),
            (
                seq![0x6Du8, 0x50, 0x6F, 0x77, 0x65, 0x72, 0x53, 0x74, 0x61, 0x72, 0x46, 0x6C, 0x61, 0x67],
                1u16,
                false,
            ),
            (
                seq![0x6Du8, 0x46, 0x69, 0x72, 0x73, 0x74, 0x50, 0x6C, 0x61, 0x79, 0x46, 0x6C, 0x61, 0x67],
                1u16,
                false,
            ),
            (seq![0x6Du8, 0x4D, 0x61, 0x78, 0x43, 0x6F, 0x69, 0x6E, 0x4E, 0x75, 0x6D], 16u16, false),
        ]
    }

    fn fields() -> (v: Vec<FieldDef>) {
        let f0 = FieldDef {
            name: vec![0x6Du8, 0x47, 0x61, 0x6C, 0x61, 0x78, 0x79, 0x4E, 0x61, 0x6D, 0x65],
            width: 2,
            skip: false,
        };
        let f1 = FieldDef {
            name: vec![
                0x6Du8,
                0x50,
                0x6F,
                0x77,
                0x65,
                0x72,
                0x53,
                0x74,
                0x61,
                0x72,
                0x46,
                0x6C,
                0x61,
                0x67,
            ],
            width: 1,
            skip: false,
        };
        let f2 = FieldDef {
            name: vec![
                0x6Du8,
                0x46,
                0x69,
                0x72,
                0x73,
                0x74,
                0x50,
                0x6C,
                0x61,
                0x79,
                0x46,
                0x6C,
                0x61,
                0x67,
            ],
            width: 1,
            skip: false,
        };
        let f3 = FieldDef {
            name: vec![0x6Du8, 0x4D, 0x61, 0x78, 0x43, 0x6F, 0x69, 0x6E, 0x4E, 0x75, 0x6D],
            width: 16,
            skip: false,
        };
        let v = vec![f0, f1, f2, f3];
        proof {
            assert(fields_view(v@) =~= Self::schema()) by {
                assert(fields_view(v@).len() == 4);
                assert(fields_view(v@)[0] == v@[0]@);
                assert(fields_view(v@)[1] == v@[1]@);
                assert(fields_view(v@)[2] == v@[2]@);
                assert(fields_view(v@)[3] == v@[3]@);
                assert(v@[0]@.0 =~= Self::schema()[0].0);
                assert(v@[1]@.0 =~= Self::schema()[1].0);
                assert(v@[2]@.0 =~= Self::schema()[2].0);
                assert(v@[3]@.0 =~= Self::schema()[3].0);
            }
        }
        v
    }

    fn header_serializer() -> (r: BinaryDataContentHeaderSerializer) {
        proof {
            lemma_galaxy_schema_sizes();
        }
        let fields = Self::fields();
        build_header_serializer(&fields)
    }

    fn header_size() -> (n: usize) {
        proof {
            lemma_galaxy_schema_sizes();
        }
        20
    }

    fn data_size() -> (n: usize) {
        proof {
            lemma_galaxy_schema_sizes();
        }
        20
    }
}

/// The emitted table of the galaxy record schema holds four descriptors
/// covering twenty data bytes.
pub proof fn lemma_galaxy_schema_sizes()
    ensures
        emitted_count(GameDataSomeGalaxyStorage::schema()) == 4,
        data_size_spec(GameDataSomeGalaxyStorage::schema()) == 20,
{
    let fs = GameDataSomeGalaxyStorage::schema();
    let f3 = fs.drop_last();
    let f2 = f3.drop_last();
    let f1 = f2.drop_last();
    let f0 = f1.drop_last();
    assert(f0 =~= Seq::<(Seq<u8>, u16, bool)>::empty());
    assert(emitted_count(f0) == 0 && data_size_spec(f0) == 0);
    assert(emitted_count(f1) == 1 && data_size_spec(f1) == 2);
    assert(emitted_count(f2) == 2 && data_size_spec(f2) == 3);
    assert(emitted_count(f3) == 3 && data_size_spec(f3) == 4);
}

/// The encoding of one galaxy record: the truncated name, the two flag
/// bytes, then the coin counters.
pub open spec fn stage_enc(m: (u16, u8, u8, Seq<u16>), e: Endian) -> Seq<u8> {
    enc_u16(m.0, e) + enc_u8(m.1) + enc_u8(m.2) + u16s_enc(m.3, e)
}

/// Decodes one galaxy record.
pub open spec fn stage_dec(buf: Seq<u8>, pos: int, e: Endian) -> Option<
    ((u16, u8, u8, Seq<u16>), int),
> {
    if pos + 4 > buf.len() {
        None
    } else {
        let name = dec_u16(buf[pos], buf[pos + 1], e);
        match u16s_dec(buf, pos + 4, 8, e) {
            None => None,
            Some((coins, q)) => Some(((name, buf[pos + 2], buf[pos + 3], coins), q)),
        }
    }
}

/// The concatenated encodings of a sequence of galaxy records.
pub open spec fn stages_enc(ms: Seq<(u16, u8, u8, Seq<u16>)>, e: Endian) -> Seq<u8>
    decreases ms.len(),
{
    if ms.len() == 0 {
        Seq::empty()
    } else {
        stage_enc(ms[0], e) + stages_enc(ms.drop_first(), e)
    }
}

/// Splitting a record sequence splits its encoding.
pub proof fn lemma_stages_enc_split(ms: Seq<(u16, u8, u8, Seq<u16>)>, i: int, e: Endian)
    requires
        0 <= i <= ms.len(),
    ensures
        stages_enc(ms, e) == stages_enc(ms.take(i), e) + stages_enc(ms.skip(i), e),
    decreases i,
{
    if i == 0 {
        assert(ms.take(0) =~= Seq::empty());
        assert(ms.skip(0) =~= ms);
        assert(stages_enc(ms, e) =~= stages_enc(ms.take(0), e) + stages_enc(ms.skip(0), e));
    } else {
        let tail = ms.drop_first();
        lemma_stages_enc_split(tail, i - 1, e);
        assert(tail.take(i - 1) =~= ms.take(i).drop_first());
        assert(tail.skip(i - 1) =~= ms.skip(i));
        assert(ms.take(i)[0] == ms[0]);
        assert(stages_enc(ms.take(i), e) == stage_enc(ms[0], e) + stages_enc(
            tail.take(i - 1),
            e,
        ));
        assert(stages_enc(ms, e) =~= stages_enc(ms.take(i), e) + stages_enc(ms.skip(i), e));
    }
}

/// Appending one record appends its encoding.
pub proof fn lemma_stages_enc_snoc(ms: Seq<(u16, u8, u8, Seq<u16>)>, i: int, e: Endian)
    requires
        0 <= i < ms.len(),
    ensures
        stages_enc(ms.take(i + 1), e) == stages_enc(ms.take(i), e) + stage_enc(ms[i], e),
{
    lemma_stages_enc_split(ms.take(i + 1), i, e);
    assert(ms.take(i + 1).take(i) =~= ms.take(i));
    let last = ms.take(i + 1).skip(i);
    assert(last.len() == 1);
    assert(last[0] == ms[i]);
    assert(stages_enc(last.drop_first(), e) =~= Seq::<u8>::empty());
    assert(stages_enc(last, e) =~= stage_enc(ms[i], e));
}

/// Decodes `n` consecutive galaxy records.
pub open spec fn stages_dec(buf: Seq<u8>, pos: int, n: int, e: Endian) -> Option<
    (Seq<(u16, u8, u8, Seq<u16>)>, int),
>
    decreases n,
{
    if n <= 0 {
        Some((Seq::empty(), pos))
    } else {
        match stage_dec(buf, pos, e) {
            None => None,
            Some((m, q)) => match stages_dec(buf, q, n - 1, e) {
                None => None,
                Some((ms, r)) => Some((seq![m] + ms, r)),
            },
        }
    }
}

/// Round trip for one galaxy record.
pub proof fn lemma_stage_round_trip(m: (u16, u8, u8, Seq<u16>), buf: Seq<u8>, pos: int, e: Endian)
    requires
        m.3.len() == 8,
        0 <= pos,
        pos + 20 <= buf.len(),
        buf.subrange(pos, pos + 20) == stage_enc(m, e),
    ensures
        stage_dec(buf, pos, e) == Some((m, pos + 20)),
{
    let whole = stage_enc(m, e);
    let nb = enc_u16(m.0, e);
    let cenc = u16s_enc(m.3, e);
    lemma_u16s_enc_len(m.3, e);
    assert(whole.len() == 20);
    assert(forall|i: int| 0 <= i < 20 ==> buf[pos + i] == #[trigger] whole[i]) by {
        assert(forall|i: int|
            0 <= i < 20 ==> buf.subrange(pos, pos + 20)[i] == #[trigger] whole[i]);
    }
    assert(buf[pos + 0] == whole[0] && buf[pos + 1] == whole[1] && buf[pos + 2] == whole[2]
        && buf[pos + 3] == whole[3]);
    assert(whole[0] == nb[0] && whole[1] == nb[1] && whole[2] == m.1 && whole[3] == m.2);
    lemma_u16_round_trip(m.0, 0, 0, e);
    assert(buf.subrange(pos + 4, pos + 4 + 16) =~= cenc) by {
        assert(forall|i: int| 0 <= i < 16 ==> whole[4 + i] == #[trigger] cenc[i]);
    }
    lemma_u16s_round_trip(m.3, buf, pos + 4, e);
}

/// Round trip for consecutive galaxy records.
pub proof fn lemma_stages_round_trip(
    ms: Seq<(u16, u8, u8, Seq<u16>)>,
    buf: Seq<u8>,
    pos: int,
    e: Endian,
)
    requires
        forall|j: int| 0 <= j < ms.len() ==> (#[trigger] ms[j]).3.len() == 8,
        0 <= pos,
        pos + stages_enc(ms, e).len() <= buf.len(),
        buf.subrange(pos, pos + stages_enc(ms, e).len() as int) == stages_enc(ms, e),
    ensures
        stages_dec(buf, pos, ms.len() as int, e) == Some(
            (ms, pos + stages_enc(ms, e).len() as int),
        ),
    decreases ms.len(),
{
    let whole = stages_enc(ms, e);
    if ms.len() == 0 {
        assert(ms =~= Seq::<(u16, u8, u8, Seq<u16>)>::empty());
    } else {
        let head = stage_enc(ms[0], e);
        let tail = ms.drop_first();
        let tenc = stages_enc(tail, e);
        lemma_u16s_enc_len(ms[0].3, e);
        assert(head.len() == 20);
        assert(whole == head + tenc);
        assert(forall|i: int| 0 <= i < whole.len() ==> buf[pos + i] == #[trigger] whole[i]) by {
            assert(forall|i: int|
                0 <= i < whole.len() ==> buf.subrange(pos, pos + whole.len() as int)[i]
                    == #[trigger] whole[i]);
        }
        assert(buf.subrange(pos, pos + 20) =~= head) by {
            assert(forall|i: int| 0 <= i < 20 ==> whole[i] == head[i]);
        }
        lemma_stage_round_trip(ms[0], buf, pos, e);
        assert(buf.subrange(pos + 20, pos + 20 + tenc.len() as int) =~= tenc) by {
            assert(forall|i: int| 0 <= i < tenc.len() ==> whole[20 + i] == #[trigger] tenc[i]);
        }
        assert(forall|j: int| 0 <= j < tail.len() ==> (#[trigger] tail[j]) == ms[j + 1]);
        lemma_stages_round_trip(tail, buf, pos + 20, e);
        assert(seq![ms[0]] + tail =~= ms);
    }
}

/// The index of the first record whose name equals `k`, or `-1`.
pub open spec fn find_stage(gs: Seq<GameDataSomeGalaxyStorage>, k: u16) -> int
    decreases gs.len(),
{
    if gs.len() == 0 {
        -1
    } else if gs[0].galaxy_name.spec_raw() == k {
        0
    } else {
        let r = find_stage(gs.drop_first(), k);
        if r < 0 {
            -1
        } else {
            r + 1
        }
    }
}

pub proof fn lemma_find_stage_at(gs: Seq<GameDataSomeGalaxyStorage>, k: u16, j: int)
    requires
        0 <= j < gs.len(),
        forall|l: int| 0 <= l < j ==> (#[trigger] gs[l].galaxy_name.spec_raw()) != k,
        gs[j].galaxy_name.spec_raw() == k,
    ensures
        find_stage(gs, k) == j,
    decreases gs.len(),
{
    if gs.len() > 0 && j > 0 {
        let tail = gs.drop_first();
        assert(forall|l: int|
            0 <= l < j - 1 ==> (#[trigger] tail[l].galaxy_name.spec_raw()) != k) by {
            assert(forall|l: int| 0 <= l < j - 1 ==> tail[l] == gs[l + 1]);
        }
        assert(tail[j - 1] == gs[j as int]);
        lemma_find_stage_at(tail, k, j - 1);
    }
}

pub proof fn lemma_find_stage_none(gs: Seq<GameDataSomeGalaxyStorage>, k: u16)
    requires
        forall|l: int| 0 <= l < gs.len() ==> (#[trigger] gs[l].galaxy_name.spec_raw()) != k,
    ensures
        find_stage(gs, k) == -1,
    decreases gs.len(),
{
    if gs.len() > 0 {
        let tail = gs.drop_first();
        assert(forall|l: int|
            0 <= l < tail.len() ==> (#[trigger] tail[l].galaxy_name.spec_raw()) != k) by {
            assert(forall|l: int| 0 <= l < tail.len() ==> tail[l] == gs[l + 1]);
        }
        lemma_find_stage_none(tail, k);
    }
}

/// A container for galaxy state: the record count, the records' own field
/// descriptor table, then the records.
#[derive(Debug, Clone, PartialEq, Eq)]
pub struct GameDataAllGalaxyStorage {
    /// The collection of galaxy states.
    galaxy: Vec<GameDataSomeGalaxyStorage>,
}

impl GameDataAllGalaxyStorage {
    /// The held records, for use in contracts.
    pub closed spec fn stages(&self) -> Seq<GameDataSomeGalaxyStorage> {
        self.galaxy@
    }

    /// Builds a storage holding the given records.
    pub fn from_stages(galaxy: Vec<GameDataSomeGalaxyStorage>) -> (r: Self)
        ensures
            r.stages() == galaxy@,
    {
        Self { galaxy }
    }

    /// Returns a reference to the stored records.
    pub fn entries(&self) -> (r: &Vec<GameDataSomeGalaxyStorage>)
        ensures
            r@ == self.stages(),
    {
        &self.galaxy
    }

    /// Returns a reference to the record whose name is the truncation of
    /// the given key, if any.
    pub fn get(&self, galaxy_name: HashCode) -> (r: Option<&GameDataSomeGalaxyStorage>)
        ensures
            ({
                let i = find_stage(self.stages(), galaxy_name.spec_raw() as u16);
                match r {
                    Some(g) => i >= 0 && *g == self.stages()[i],
                    None => i == -1,
                }
            }),
    {
        let k = HashCode16::from_code(galaxy_name).into_raw();
        let mut j: usize = 0;
        while j < self.galaxy.len()
            invariant
                k == galaxy_name.spec_raw() as u16,
                j <= self.galaxy@.len(),
                forall|l: int|
                    0 <= l < j ==> (#[trigger] self.galaxy@[l].galaxy_name.spec_raw()) != k,
            decreases self.galaxy@.len() - j,
        {
            if self.galaxy[j].galaxy_name.into_raw() == k {
                proof {
                    lemma_find_stage_at(self.stages(), k, j as int);
                }
                return Some(&self.galaxy[j]);
            }
            j += 1;
        }
        proof {
            lemma_find_stage_none(self.stages(), k);
        }
        None
    }

    /// Returns a mutable reference to the record whose name is the
    /// truncation of the given key, if any.
    pub fn get_mut(&mut self, galaxy_name: HashCode) -> (r: Option<&mut GameDataSomeGalaxyStorage>)
        ensures
            ({
                let i = find_stage(old(self).stages(), galaxy_name.spec_raw() as u16);
                match r {
                    Some(g) => {
                        &&& i >= 0
                        &&& *g == old(self).stages()[i]
                        &&& final(self).stages() == old(self).stages().update(i, *final(g))
                    },
                    None => i == -1 && final(self).stages() == old(self).stages(),
                }
            }),
    {
        let k = HashCode16::from_code(galaxy_name).into_raw();
        let n = self.galaxy.len();
        let mut j: usize = 0;
        while j < n
            invariant
                k == galaxy_name.spec_raw() as u16,
                n == self.galaxy@.len(),
                self.galaxy@ == old(self).galaxy@,
                j <= n,
                forall|l: int|
                    0 <= l < j ==> (#[trigger] self.galaxy@[l].galaxy_name.spec_raw()) != k,
            decreases n - j,
        {
            if self.galaxy[j].galaxy_name.into_raw() == k {
                proof {
                    lemma_find_stage_at(self.stages(), k, j as int);
                }
                return Some(&mut self.galaxy[j]);
            }
            j += 1;
        }
        proof {
            lemma_find_stage_none(self.stages(), k);
        }
        None
    }

    /// The models of the held records.
    pub open spec fn stage_models(&self) -> Seq<(u16, u8, u8, Seq<u16>)> {
        self.stages().map_values(|g: GameDataSomeGalaxyStorage| g.stage_model())
    }
}

impl Chunk for GameDataAllGalaxyStorage {
    type Model = Seq<(u16, u8, u8, Seq<u16>)>;

    open spec fn model(&self) -> Seq<(u16, u8, u8, Seq<u16>)> {
        self.stage_models()
    }

    open spec fn wf(&self) -> bool {
        &&& self.stages().len() <= 0xFFFF
        &&& forall|j: int| 0 <= j < self.stages().len() ==> (#[trigger] self.stages()[j]).wf()
    }

    open spec fn le_ok(&self) -> bool {
        true
    }

    open spec fn hash_spec() -> u32 {
        0xBF0640EE
    }

    /// The record count, the records' field descriptor table, then the
    /// records.
    open spec fn content_enc(&self, e: Endian) -> Seq<u8> {
        enc_u16(self.stages().len() as u16, e) + table_enc(GameDataSomeGalaxyStorage::schema(), e)
            + stages_enc(self.model(), e)
    }

    open spec fn content_dec(buf: Seq<u8>, pos: int, len: int, e: Endian) -> Option<
        (Seq<(u16, u8, u8, Seq<u16>)>, int),
    > {
        if pos + 2 > buf.len() {
            None
        } else {
            let count = dec_u16(buf[pos], buf[pos + 1], e) as int;
            match table_skip_dec(buf, pos + 2, e) {
                None => None,
                Some(q) => stages_dec(buf, q, count, e),
            }
        }
    }

    proof fn lemma_content_round_trip(&self, buf: Seq<u8>, pos: int, len: int, e: Endian) {
        let whole = self.content_enc(e);
        let cb = enc_u16(self.stages().len() as u16, e);
        let tenc = table_enc(GameDataSomeGalaxyStorage::schema(), e);
        let senc = stages_enc(self.model(), e);
        lemma_galaxy_schema_sizes();
        assert(forall|i: int| 0 <= i < whole.len() ==> buf[pos + i] == #[trigger] whole[i]) by {
            assert(forall|i: int|
                0 <= i < whole.len() ==> buf.subrange(pos, pos + whole.len() as int)[i]
                    == #[trigger] whole[i]);
        }
        assert(buf[pos + 0] == whole[0] && buf[pos + 1] == whole[1]);
        assert(whole[0] == cb[0] && whole[1] == cb[1]);
        lemma_u16_round_trip(self.stages().len() as u16, 0, 0, e);
        assert(dec_u16(buf[pos], buf[pos + 1], e) == self.stages().len() as u16);
        assert((self.stages().len() as u16) as int == self.stages().len() as int);
        assert(buf.subrange(pos + 2, pos + 2 + tenc.len() as int) =~= tenc) by {
            assert(forall|i: int| 0 <= i < tenc.len() ==> whole[2 + i] == #[trigger] tenc[i]);
        }
        crate::framing::content::lemma_table_round_trip(
            GameDataSomeGalaxyStorage::schema(),
            buf,
            pos + 2,
            e,
        );
        let q = pos + 2 + tenc.len() as int;
        assert(buf.subrange(q, q + senc.len() as int) =~= senc) by {
            assert(forall|i: int|
                0 <= i < senc.len() ==> whole[2 + tenc.len() + i] == #[trigger] senc[i]);
        }
        assert forall|j: int| 0 <= j < self.model().len() implies (#[trigger] self.model()[
        j]).3.len() == 8 by {
            assert(self.stages()[j].wf());
            assert(self.model()[j] == self.stages()[j].stage_model());
        }
        lemma_stages_round_trip(self.model(), buf, q, e);
        assert(self.model().len() == self.stages().len());
    }

    fn hash_code() -> (h: HashCode) {
        HashCode::from_raw(0xBF0640EE)
    }

    fn encode(&self, out: &mut Vec<u8>, e: Endian) {
        let n = self.galaxy.len();
        write_u16(out, n as u16, e);
        let serializer = GameDataSomeGalaxyStorage::header_serializer();
        proof {
            lemma_galaxy_schema_sizes();
            crate::framing::content::lemma_attrs_len(GameDataSomeGalaxyStorage::schema());
        }
        encode_table(out, &serializer, e);
        let ghost base = out@;
        let mut i: usize = 0;
        proof {
            assert(out@ =~= base + stages_enc(self.model().take(0), e));
        }
        while i < n
            invariant
                self.wf(),
                n == self.galaxy@.len(),
                i <= n,
                out@ == base + stages_enc(self.model().take(i as int), e),
            decreases n - i,
        {
            proof {
                lemma_stages_enc_snoc(self.model(), i as int, e);
                assert(self.model()[i as int] == self.galaxy@[i as int].stage_model());
                assert(self.stages()[i as int].wf());
            }
            let g = &self.galaxy[i];
            write_u16(out, g.galaxy_name.into_raw(), e);
            write_u8(out, g.power_star_flag.bits());
            write_u8(out, g.first_play_flag.bits());
            write_u16s(out, &g.max_coin_num, e);
            proof {
                assert(out@ =~= base + stages_enc(self.model().take(i as int), e) + stage_enc(
                    self.model()[i as int],
                    e,
                ));
            }
            i += 1;
        }
        proof {
            assert(self.model().take(n as int) =~= self.model());
            assert(out@ =~= old(out)@ + self.content_enc(e));
        }
    }

    fn decode(buf: &[u8], pos: usize, len: usize, e: Endian) -> (r: Result<
        (Self, usize),
        BinError,
    >) {
        let (count, p) = match read_u16(buf, pos, e) {
            Ok(t) => t,
            Err(er) => {
                return Err(er);
            },
        };
        let p = match skip_table(buf, p, e) {
            Ok(q) => q,
            Err(er) => {
                return Err(er);
            },
        };
        let mut stages: Vec<GameDataSomeGalaxyStorage> = Vec::new();
        let mut p: usize = p;
        let mut i: usize = 0;
        let ghost q0 = p as int;
        proof {
            if let Some((ms, q)) = stages_dec(buf@, q0, count as int, e) {
                assert(Seq::<(u16, u8, u8, Seq<u16>)>::empty() + ms =~= ms);
            }
            assert(stages@.map_values(|g: GameDataSomeGalaxyStorage| g.stage_model()) =~= Seq::<
                (u16, u8, u8, Seq<u16>),
            >::empty());
        }
        while i < count as usize
            invariant
                buf@.len() <= 0x100_0000,
                pos + 2 <= buf@.len(),
                count == dec_u16(buf@[pos as int], buf@[pos + 1], e),
                table_skip_dec(buf@, pos + 2, e) == Some(q0),
                i <= count,
                0 <= q0 <= p <= buf@.len(),
                stages@.len() == i,
                stages_dec(buf@, q0, count as int, e) == (match stages_dec(
                    buf@,
                    p as int,
                    count - i,
                    e,
                ) {
                    None => None::<(Seq<(u16, u8, u8, Seq<u16>)>, int)>,
                    Some((ms, q)) => Some(
                        (
                            stages@.map_values(|g: GameDataSomeGalaxyStorage| g.stage_model())
                                + ms,
                            q,
                        ),
                    ),
                }),
            decreases count - i,
        {
            if buf.len() - p < 4 {
                proof {
                    assert(stages_dec(buf@, p as int, count - i, e) is None);
                }
                return Err(BinError::Eof { pos: p });
            }
            let (name, p2) = match read_u16(buf, p, e) {
                Ok(t) => t,
                Err(er) => {
                    return Err(er);
                },
            };
            let (pw, p3) = match read_u8(buf, p2) {
                Ok(t) => t,
                Err(er) => {
                    return Err(er);
                },
            };
            let (fp, p4) = match read_u8(buf, p3) {
                Ok(t) => t,
                Err(er) => {
                    return Err(er);
                },
            };
            let (coins, p5) = match read_u16s(buf, p4, 8, e) {
                Ok(t) => t,
                Err(er) => {
                    proof {
                        assert(stages_dec(buf@, p as int, count - i, e) is None);
                    }
                    return Err(er);
                },
            };
            let g = GameDataSomeGalaxyStorage {
                galaxy_name: HashCode16::from_raw(name),
                power_star_flag: BitArray8::from_bits(pw),
                first_play_flag: BitArray8::from_bits(fp),
                max_coin_num: coins,
            };
            let ghost before = stages@.map_values(
                |g: GameDataSomeGalaxyStorage| g.stage_model(),
            );
            let ghost gm = g.stage_model();
            stages.push(g);
            proof {
                let after = stages@.map_values(|g: GameDataSomeGalaxyStorage| g.stage_model());
                assert(before + seq![gm] =~= after);
                if let Some((ms, r2)) = stages_dec(buf@, p5 as int, count - i - 1, e) {
                    assert(before + (seq![gm] + ms) =~= after + ms);
                }
            }
            p = p5;
            i += 1;
        }
        proof {
            assert(stages_dec(buf@, p as int, 0, e) == Some(
                (Seq::<(u16, u8, u8, Seq<u16>)>::empty(), p as int),
            ));
            let m = stages@.map_values(|g: GameDataSomeGalaxyStorage| g.stage_model());
            assert(m + Seq::<(u16, u8, u8, Seq<u16>)>::empty() =~= m);
        }
        Ok((Self { galaxy: stages }, p))
    }
}

} // verus!
