//! The save-file envelope: the validated header, the directory of named
//! entries, and the pointed-to containers laid out after the directory.

use vstd::prelude::*;

use crate::bytes::{dec_u32, enc_u32, read_u32, write_u32};
use crate::data1::config::ConfigDataChunk;
use crate::data1::game::{GameDataChunk, GameDataChunkModel};
use crate::data1::sysconf::SysConfigDataChunk;
use crate::endian::Endian;
use crate::error::BinError;
use crate::framing::chunk_holder::{
    chunks_model, decode_holder, encode_holder, holder_dec, BinaryDataChunkHolder, ChunkHolder,
};
use crate::framing::BUF_MAX;
use crate::mem::{checksum_bytes, Checksum};
use crate::ptr::Ptr;
use crate::save::{spec_check_sum, CheckSaveFileError, SaveFileHeader};
use crate::string::{name_dec, name_enc, starts_with, FixedString12};

verus! {

/// The storage for some container of data blocks, selected by the prefix of
/// the directory entry's name.
pub enum SaveDataUserFile {
    /// The container for blocks of gameplay data.
    GameData(BinaryDataChunkHolder<GameDataChunk>),
    /// The container for blocks of shared data between all associated user
    /// files.
    ConfigData(BinaryDataChunkHolder<ConfigDataChunk>),
    /// The container for blocks of shared data between all user files.
    SysConfigData(BinaryDataChunkHolder<SysConfigDataChunk>),
}

/// The model of one container: the variant with the models of its chunks.
pub enum SaveDataUserFileModel {
    /// The gameplay container's chunks.
    GameData(Seq<GameDataChunkModel>),
    /// The per-file shared-config container's chunks.
    ConfigData(Seq<ConfigDataChunk>),
    /// The global sysconfig container's chunks.
    SysConfigData(Seq<SysConfigDataChunk>),
}

impl SaveDataUserFile {
    /// The model of the container.
    pub open spec fn model(&self) -> SaveDataUserFileModel {
        match self {
            SaveDataUserFile::GameData(h) => SaveDataUserFileModel::GameData(
                chunks_model(h.chunks@),
            ),
            SaveDataUserFile::ConfigData(h) => SaveDataUserFileModel::ConfigData(
                chunks_model(h.chunks@),
            ),
            SaveDataUserFile::SysConfigData(h) => SaveDataUserFileModel::SysConfigData(
                chunks_model(h.chunks@),
            ),
        }
    }

    /// The fixed byte budget of the container kind.
    pub open spec fn budget(&self) -> int {
        match self {
            SaveDataUserFile::GameData(h) => GameDataChunk::budget_spec(),
            SaveDataUserFile::ConfigData(h) => ConfigDataChunk::budget_spec(),
            SaveDataUserFile::SysConfigData(h) => SysConfigDataChunk::budget_spec(),
        }
    }

    /// Structural validity of the container.
    pub open spec fn wf(&self) -> bool {
        match self {
            SaveDataUserFile::GameData(h) => h.wf(),
            SaveDataUserFile::ConfigData(h) => h.wf(),
            SaveDataUserFile::SysConfigData(h) => h.wf(),
        }
    }

    /// Every chunk survives a little-endian round trip.
    pub open spec fn le_ok(&self) -> bool {
        match self {
            SaveDataUserFile::GameData(h) => h.le_ok(),
            SaveDataUserFile::ConfigData(h) => h.le_ok(),
            SaveDataUserFile::SysConfigData(h) => h.le_ok(),
        }
    }

    /// The container's body fits its fixed byte budget.
    pub open spec fn fits(&self, e: Endian, start: int) -> bool {
        match self {
            SaveDataUserFile::GameData(h) => h.body_enc(e, start).len()
                <= GameDataChunk::budget_spec(),
            SaveDataUserFile::ConfigData(h) => h.body_enc(e, start).len()
                <= ConfigDataChunk::budget_spec(),
            SaveDataUserFile::SysConfigData(h) => h.body_enc(e, start).len()
                <= SysConfigDataChunk::budget_spec(),
        }
    }

    /// The container's encoding at absolute position `start`: exactly one
    /// budget of bytes.
    pub open spec fn container_enc(&self, e: Endian, start: int) -> Seq<u8> {
        match self {
            SaveDataUserFile::GameData(h) => h.holder_enc(e, start),
            SaveDataUserFile::ConfigData(h) => h.holder_enc(e, start),
            SaveDataUserFile::SysConfigData(h) => h.holder_enc(e, start),
        }
    }
}

/// The bytes of the name `mario`, one gameplay-save prefix.
pub open spec fn prefix_mario() -> Seq<u8> {
    seq![0x6Du8, 0x61, 0x72, 0x69, 0x6F]
}

/// The bytes of the name `luigi`, the other gameplay-save prefix.
pub open spec fn prefix_luigi() -> Seq<u8> {
    seq![0x6Cu8, 0x75, 0x69, 0x67, 0x69]
}

/// The bytes of the name `config`, the shared-config prefix.
pub open spec fn prefix_config() -> Seq<u8> {
    seq![0x63u8, 0x6F, 0x6E, 0x66, 0x69, 0x67]
}

/// The bytes of the exact name `sysconf`, naming the global container.
pub open spec fn name_sysconf() -> Seq<u8> {
    seq![0x73u8, 0x79, 0x73, 0x63, 0x6F, 0x6E, 0x66]
}

/// Does an entry name select the container kind its entry holds? The two
/// gameplay prefixes select the gameplay container, the `config` prefix the
/// shared-config container, and the exact name `sysconf` the global one.
pub open spec fn name_selects(name: Seq<u8>, u: SaveDataUserFileModel) -> bool {
    if starts_with(name, prefix_mario()) || starts_with(name, prefix_luigi()) {
        u is GameData
    } else if starts_with(name, prefix_config()) {
        u is ConfigData
    } else if name == name_sysconf() {
        u is SysConfigData
    } else {
        false
    }
}

/// Decodes the container an entry name selects, at the entry's stored
/// offset.
pub open spec fn container_dec(buf: Seq<u8>, name: Seq<u8>, off: int, e: Endian) -> Option<
    SaveDataUserFileModel,
> {
    if starts_with(name, prefix_mario()) || starts_with(name, prefix_luigi()) {
        match holder_dec::<GameDataChunk>(buf, off, e) {
            Some((s, _)) => Some(SaveDataUserFileModel::GameData(s)),
            None => None,
        }
    } else if starts_with(name, prefix_config()) {
        match holder_dec::<ConfigDataChunk>(buf, off, e) {
            Some((s, _)) => Some(SaveDataUserFileModel::ConfigData(s)),
            None => None,
        }
    } else if name == name_sysconf() {
        match holder_dec::<SysConfigDataChunk>(buf, off, e) {
            Some((s, _)) => Some(SaveDataUserFileModel::SysConfigData(s)),
            None => None,
        }
    } else {
        None
    }
}

/// The descriptor for a user file: its fixed 12-byte name and the pointer
/// to its container.
pub struct SaveDataUserFileInfo {
    /// The name of the user file.
    pub name: FixedString12,
    /// The pointer to the corresponding container of data blocks.
    pub user_file: Ptr<SaveDataUserFile>,
}

impl SaveDataUserFileInfo {
    /// The model of one entry: its name bytes and its container's model.
    pub open spec fn entry_model(&self) -> (Seq<u8>, SaveDataUserFileModel) {
        (self.name.content(), self.user_file.spec_inner().model())
    }

    /// Structural validity: the name fits its field and selects the held
    /// container kind, and the container is valid.
    pub open spec fn wf(&self) -> bool {
        &&& self.name.wf()
        &&& name_selects(self.name.content(), self.user_file.spec_inner().model())
        &&& self.user_file.spec_inner().wf()
    }
}

/// The directory: each entry is its name field and the absolute offset its
/// container will occupy, offsets advancing one budget per entry.
pub open spec fn entries_enc(infos: Seq<SaveDataUserFileInfo>, e: Endian, off: int) -> Seq<u8>
    decreases infos.len(),
{
    if infos.len() == 0 {
        Seq::empty()
    } else {
        name_enc(infos[0].name.content(), 12) + enc_u32(off as u32, e) + entries_enc(
            infos.drop_first(),
            e,
            off + infos[0].user_file.spec_inner().budget(),
        )
    }
}

/// The containers, laid out contiguously in descriptor order from `off`.
pub open spec fn containers_enc(infos: Seq<SaveDataUserFileInfo>, e: Endian, off: int) -> Seq<u8>
    decreases infos.len(),
{
    if infos.len() == 0 {
        Seq::empty()
    } else {
        infos[0].user_file.spec_inner().container_enc(e, off) + containers_enc(
            infos.drop_first(),
            e,
            off + infos[0].user_file.spec_inner().budget(),
        )
    }
}

/// The total byte budget of a run of containers.
pub open spec fn budgets_sum(infos: Seq<SaveDataUserFileInfo>) -> int
    decreases infos.len(),
{
    if infos.len() == 0 {
        0
    } else {
        infos[0].user_file.spec_inner().budget() + budgets_sum(infos.drop_first())
    }
}

/// The container for the save data.
pub struct SaveDataFile {
    /// The collection of user file descriptors.
    pub user_file_info: Vec<SaveDataUserFileInfo>,
}

impl SaveDataFile {
    /// The model of the whole file: each entry's name and container model,
    /// in directory order.
    pub open spec fn model(&self) -> Seq<(Seq<u8>, SaveDataUserFileModel)> {
        self.user_file_info@.map_values(|i: SaveDataUserFileInfo| i.entry_model())
    }

    /// Structural validity: at most the directory maximum of entries, each
    /// valid.
    pub open spec fn wf(&self) -> bool {
        &&& self.user_file_info@.len() <= 23
        &&& forall|i: int|
            0 <= i < self.user_file_info@.len() ==> (#[trigger] self.user_file_info@[i]).wf()
    }

    /// Every chunk of every container survives a little-endian round trip.
    pub open spec fn le_ok(&self) -> bool {
        forall|i: int|
            0 <= i < self.user_file_info@.len()
                ==> (#[trigger] self.user_file_info@[i]).user_file.spec_inner().le_ok()
    }

    /// Every container's body fits its budget at its laid-out position.
    pub open spec fn all_fit(&self, e: Endian) -> bool {
        forall|i: int|
            0 <= i < self.user_file_info@.len()
                ==> (#[trigger] self.user_file_info@[i]).user_file.spec_inner().fits(
                e,
                16 + 16 * self.user_file_info@.len() + budgets_sum(
                    self.user_file_info@.take(i),
                ),
            )
    }

    /// The bytes after the checksum field: version, entry count, file size,
    /// the directory, then the containers.
    pub open spec fn body_enc(&self, e: Endian) -> Seq<u8> {
        let n = self.user_file_info@.len() as int;
        let first = 16 + 16 * n;
        let size = first + budgets_sum(self.user_file_info@);
        enc_u32(2, e) + enc_u32(n as u32, e) + enc_u32(size as u32, e) + entries_enc(
            self.user_file_info@,
            e,
            first,
        ) + containers_enc(self.user_file_info@, e, first)
    }

    /// The whole file: the checksum of the body, then the body.
    pub open spec fn file_enc(&self, e: Endian) -> Seq<u8> {
        enc_u32(checksum_bytes(self.body_enc(e), e), e) + self.body_enc(e)
    }
}

/// Decodes one directory entry beginning at `pos`: its name field, its
/// container offset, and the container the name selects at that offset.
pub open spec fn entry_dec(buf: Seq<u8>, pos: int, e: Endian) -> Option<
    ((Seq<u8>, SaveDataUserFileModel), int),
> {
    match name_dec(buf, pos, 12) {
        None => None,
        Some((name, p)) => {
            if p + 4 > buf.len() {
                None
            } else {
                let off = dec_u32(buf[p], buf[p + 1], buf[p + 2], buf[p + 3], e) as int;
                match container_dec(buf, name, off, e) {
                    None => None,
                    Some(u) => Some(((name, u), p + 4)),
                }
            }
        },
    }
}

/// Decodes `n` directory entries beginning at `pos`, following each entry's
/// pointer to its container. The checksum, version and file-size header
/// fields take no part: a caller who skips validation still decodes.
pub open spec fn entries_dec(buf: Seq<u8>, pos: int, n: int, e: Endian) -> Option<
    (Seq<(Seq<u8>, SaveDataUserFileModel)>, int),
>
    decreases n,
{
    if n <= 0 {
        Some((Seq::empty(), pos))
    } else {
        match entry_dec(buf, pos, e) {
            None => None,
            Some((x, q)) => match entries_dec(buf, q, n - 1, e) {
                None => None,
                Some((s, r)) => Some((seq![x] + s, r)),
            },
        }
    }
}

/// Decodes one directory entry, dispatching on its name prefix.
#[verifier::rlimit(100)]
fn decode_entry(buf: &[u8], p: usize, e: Endian) -> (r: Result<
    (SaveDataUserFileInfo, usize),
    BinError,
>)
    requires
        p <= buf@.len(),
        buf@.len() <= BUF_MAX,
    ensures
        match r {
            Ok(t) => entry_dec(buf@, p as int, e) == Some((t.0.entry_model(), t.1 as int)) && p
                <= t.1 <= buf@.len(),
            Err(_) => entry_dec(buf@, p as int, e) is None,
        },
{
    proof {
        assert([0x6Du8, 0x61, 0x72, 0x69, 0x6F]@ =~= prefix_mario());
        assert([0x6Cu8, 0x75, 0x69, 0x67, 0x69]@ =~= prefix_luigi());
        assert([0x63u8, 0x6F, 0x6E, 0x66, 0x69, 0x67]@ =~= prefix_config());
        assert([0x73u8, 0x79, 0x73, 0x63, 0x6F, 0x6E, 0x66]@ =~= name_sysconf());
    }
    let (name, p1) = match FixedString12::decode(buf, p, 12) {
        Ok(t) => t,
        Err(er) => {
            return Err(er);
        },
    };
    if p1 > buf.len() {
        return Err(BinError::Eof { pos: p });
    }
    let (off32, p2) = match read_u32(buf, p1, e) {
        Ok(t) => t,
        Err(er) => {
            return Err(er);
        },
    };
    let off = off32 as usize;
    if off > buf.len() {
        proof {
            lemma_container_dec_offset(buf@, name.content(), off as int, e);
        }
        return Err(BinError::Eof { pos: off });
    }
    let uf: SaveDataUserFile = if name.starts_with_bytes(&[0x6Du8, 0x61, 0x72, 0x69, 0x6F])
        || name.starts_with_bytes(&[0x6Cu8, 0x75, 0x69, 0x67, 0x69]) {
        match decode_holder::<GameDataChunk>(buf, off, e) {
            Ok((h, _)) => SaveDataUserFile::GameData(h),
            Err(er) => {
                return Err(er);
            },
        }
    } else if name.starts_with_bytes(&[0x63u8, 0x6F, 0x6E, 0x66, 0x69, 0x67]) {
        match decode_holder::<ConfigDataChunk>(buf, off, e) {
            Ok((h, _)) => SaveDataUserFile::ConfigData(h),
            Err(er) => {
                return Err(er);
            },
        }
    } else if name.equals_bytes(&[0x73u8, 0x79, 0x73, 0x63, 0x6F, 0x6E, 0x66]) {
        match decode_holder::<SysConfigDataChunk>(buf, off, e) {
            Ok((h, _)) => SaveDataUserFile::SysConfigData(h),
            Err(er) => {
                return Err(er);
            },
        }
    } else {
        proof {
            assert(container_dec(buf@, name.content(), off as int, e) is None);
        }
        return Err(BinError::InvalidName { pos: p });
    };
    let info = SaveDataUserFileInfo { name, user_file: Ptr::new(uf) };
    Ok((info, p2))
}

/// Decodes a whole save file: the header fields, then the directory with
/// its containers.
pub open spec fn file_dec(buf: Seq<u8>, e: Endian) -> Option<
    Seq<(Seq<u8>, SaveDataUserFileModel)>,
> {
    if buf.len() < 16 {
        None
    } else {
        let count = dec_u32(buf[8], buf[9], buf[10], buf[11], e) as int;
        match entries_dec(buf, 16, count, e) {
            None => None,
            Some((s, _)) => Some(s),
        }
    }
}

/// The supplementary information of the save file.
#[derive(Debug, Clone, Copy, PartialEq, Eq, Structural)]
pub struct SaveDataFileHeader {
    /// The precomputed checksum derived from the file data, excluding the
    /// checksum itself.
    pub checksum: u32,
    /// The version number of the save data.
    pub version: u32,
    /// The number of stored user file descriptors.
    pub user_file_info_num: u32,
    /// The size of the file, in bytes.
    pub file_size: u32,
}

impl SaveDataFileHeader {
    /// The header read from the head of a buffer, where it holds one.
    pub open spec fn decode_spec(buf: Seq<u8>, e: Endian) -> Option<SaveDataFileHeader> {
        if buf.len() < 16 {
            None
        } else {
            Some(
                SaveDataFileHeader {
                    checksum: dec_u32(buf[0], buf[1], buf[2], buf[3], e),
                    version: dec_u32(buf[4], buf[5], buf[6], buf[7], e),
                    user_file_info_num: dec_u32(buf[8], buf[9], buf[10], buf[11], e),
                    file_size: dec_u32(buf[12], buf[13], buf[14], buf[15], e),
                },
            )
        }
    }

    /// Reads the four header fields from the head of a buffer.
    pub fn decode(buf: &[u8], e: Endian) -> (r: Result<Self, CheckSaveFileError>)
        ensures
            match r {
                Ok(h) => Self::decode_spec(buf@, e) == Some(h),
                Err(er) => buf@.len() < 16 && er == CheckSaveFileError::Truncated,
            },
    {
        if buf.len() < 16 {
            return Err(CheckSaveFileError::Truncated);
        }
        let (checksum, p) = match read_u32(buf, 0, e) {
            Ok(t) => t,
            Err(_) => {
                return Err(CheckSaveFileError::Truncated);
            },
        };
        let (version, p) = match read_u32(buf, p, e) {
            Ok(t) => t,
            Err(_) => {
                return Err(CheckSaveFileError::Truncated);
            },
        };
        let (num, p) = match read_u32(buf, p, e) {
            Ok(t) => t,
            Err(_) => {
                return Err(CheckSaveFileError::Truncated);
            },
        };
        let (size, _) = match read_u32(buf, p, e) {
            Ok(t) => t,
            Err(_) => {
                return Err(CheckSaveFileError::Truncated);
            },
        };
        Ok(Self { checksum, version, user_file_info_num: num, file_size: size })
    }
}

impl SaveFileHeader for SaveDataFileHeader {
    open spec fn version_expected_spec() -> u32 {
        2
    }

    open spec fn user_file_info_max_spec() -> u32 {
        23
    }

    open spec fn file_size_max_spec() -> u32 {
        0xFFFF
    }

    open spec fn checksum_spec(&self) -> u32 {
        self.checksum
    }

    open spec fn version_spec(&self) -> u32 {
        self.version
    }

    open spec fn user_file_info_num_spec(&self) -> u32 {
        self.user_file_info_num
    }

    open spec fn file_size_spec(&self) -> u32 {
        self.file_size
    }

    fn checksum(&self) -> (r: Checksum) {
        Checksum::from_raw(self.checksum)
    }

    fn version(&self) -> (r: u32) {
        self.version
    }

    fn user_file_info_num(&self) -> (r: u32) {
        self.user_file_info_num
    }

    fn file_size(&self) -> (r: u32) {
        self.file_size
    }

    fn version_expected() -> (r: u32) {
        2
    }

    fn user_file_info_max() -> (r: u32) {
        23
    }

    fn file_size_max() -> (r: u32) {
        0xFFFF
    }
}

impl SaveDataFile {
    /// Validates a big-endian buffer's header and checksum without decoding
    /// the directory.
    pub fn check_be(buf: &[u8]) -> (r: Result<(), CheckSaveFileError>)
        ensures
            match SaveDataFileHeader::decode_spec(buf@, Endian::Big) {
                None => r == Err::<(), CheckSaveFileError>(CheckSaveFileError::Truncated),
                Some(h) => r == spec_check_sum(h, buf@, Endian::Big),
            },
    {
        Self::check(buf, Endian::Big)
    }

    /// Validates a little-endian buffer's header and checksum without
    /// decoding the directory.
    pub fn check_le(buf: &[u8]) -> (r: Result<(), CheckSaveFileError>)
        ensures
            match SaveDataFileHeader::decode_spec(buf@, Endian::Little) {
                None => r == Err::<(), CheckSaveFileError>(CheckSaveFileError::Truncated),
                Some(h) => r == spec_check_sum(h, buf@, Endian::Little),
            },
    {
        Self::check(buf, Endian::Little)
    }

    /// Validates a buffer's header and checksum without decoding the
    /// directory.
    pub fn check(buf: &[u8], e: Endian) -> (r: Result<(), CheckSaveFileError>)
        ensures
            match SaveDataFileHeader::decode_spec(buf@, e) {
                None => r == Err::<(), CheckSaveFileError>(CheckSaveFileError::Truncated),
                Some(h) => r == spec_check_sum(h, buf@, e),
            },
    {
        let h = match SaveDataFileHeader::decode(buf, e) {
            Ok(h) => h,
            Err(er) => {
                return Err(er);
            },
        };
        crate::save::check_header_sum(&h, buf, e)
    }

    /// Decodes a big-endian save file.
    pub fn read_be(buf: &[u8]) -> (r: Result<SaveDataFile, BinError>)
        requires
            buf@.len() <= BUF_MAX,
        ensures
            match r {
                Ok(f) => file_dec(buf@, Endian::Big) == Some(f.model()),
                Err(_) => file_dec(buf@, Endian::Big) is None,
            },
    {
        Self::read(buf, Endian::Big)
    }

    /// Decodes a little-endian save file.
    pub fn read_le(buf: &[u8]) -> (r: Result<SaveDataFile, BinError>)
        requires
            buf@.len() <= BUF_MAX,
        ensures
            match r {
                Ok(f) => file_dec(buf@, Endian::Little) == Some(f.model()),
                Err(_) => file_dec(buf@, Endian::Little) is None,
            },
    {
        Self::read(buf, Endian::Little)
    }

    /// Decodes a save file: the header fields, the directory, and each
    /// entry's container, reached through its stored offset. The header is
    /// not validated here; `check` is the separate validation entry point.
    #[verifier::rlimit(100)]
    pub fn read(buf: &[u8], e: Endian) -> (r: Result<SaveDataFile, BinError>)
        requires
            buf@.len() <= BUF_MAX,
        ensures
            match r {
                Ok(f) => file_dec(buf@, e) == Some(f.model()),
                Err(_) => file_dec(buf@, e) is None,
            },
    {
        if buf.len() < 16 {
            return Err(BinError::Eof { pos: 0 });
        }
        let (count, _) = match read_u32(buf, 8, e) {
            Ok(t) => t,
            Err(er) => {
                return Err(er);
            },
        };
        let mut infos: Vec<SaveDataUserFileInfo> = Vec::new();
        let mut p: usize = 16;
        let mut i: u32 = 0;
        proof {
            if let Some((s, q)) = entries_dec(buf@, 16, count as int, e) {
                assert(Seq::<(Seq<u8>, SaveDataUserFileModel)>::empty() + s =~= s);
            }
            assert(infos@.map_values(|x: SaveDataUserFileInfo| x.entry_model()) =~= Seq::<
                (Seq<u8>, SaveDataUserFileModel),
            >::empty());
        }
        while i < count
            invariant
                16 <= buf@.len() <= BUF_MAX,
                count == dec_u32(buf@[8], buf@[9], buf@[10], buf@[11], e),
                i <= count,
                16 <= p <= buf@.len(),
                infos@.len() == i,
                entries_dec(buf@, 16, count as int, e) == (match entries_dec(
                    buf@,
                    p as int,
                    count - i,
                    e,
                ) {
                    None => None::<(Seq<(Seq<u8>, SaveDataUserFileModel)>, int)>,
                    Some((s, q)) => Some(
                        (infos@.map_values(|x: SaveDataUserFileInfo| x.entry_model()) + s, q),
                    ),
                }),
            decreases count - i,
        {
            let (info, p2) = match decode_entry(buf, p, e) {
                Ok(t) => t,
                Err(er) => {
                    proof {
                        assert(entries_dec(buf@, p as int, count - i, e) is None);
                    }
                    return Err(er);
                },
            };
            let ghost before = infos@.map_values(|x: SaveDataUserFileInfo| x.entry_model());
            let ghost em = info.entry_model();
            infos.push(info);
            proof {
                let after = infos@.map_values(|x: SaveDataUserFileInfo| x.entry_model());
                assert(before + seq![em] =~= after);
                if let Some((s, r2)) = entries_dec(buf@, p2 as int, count - i - 1, e) {
                    assert(before + (seq![em] + s) =~= after + s);
                }
            }
            p = p2;
            i += 1;
        }
        proof {
            assert(entries_dec(buf@, p as int, 0, e) == Some(
                (Seq::<(Seq<u8>, SaveDataUserFileModel)>::empty(), p as int),
            ));
            let m = infos@.map_values(|x: SaveDataUserFileInfo| x.entry_model());
            assert(m + Seq::<(Seq<u8>, SaveDataUserFileModel)>::empty() =~= m);
        }
        Ok(SaveDataFile { user_file_info: infos })
    }
}


/// Splitting the directory splits its encoding, the offsets advancing one
/// budget per entry.
#[verifier::rlimit(100)]
pub proof fn lemma_entries_enc_split(
    infos: Seq<SaveDataUserFileInfo>,
    i: int,
    e: Endian,
    off: int,
)
    requires
        0 <= i <= infos.len(),
    ensures
        entries_enc(infos, e, off) == entries_enc(infos.take(i), e, off) + entries_enc(
            infos.skip(i),
            e,
            off + budgets_sum(infos.take(i)),
        ),
        containers_enc(infos, e, off) == containers_enc(infos.take(i), e, off) + containers_enc(
            infos.skip(i),
            e,
            off + budgets_sum(infos.take(i)),
        ),
        budgets_sum(infos) == budgets_sum(infos.take(i)) + budgets_sum(infos.skip(i)),
    decreases i,
{
    if i == 0 {
        assert(infos.take(0) =~= Seq::empty());
        assert(infos.skip(0) =~= infos);
        assert(entries_enc(infos, e, off) =~= entries_enc(infos.take(0), e, off) + entries_enc(
            infos.skip(0),
            e,
            off,
        ));
        assert(containers_enc(infos, e, off) =~= containers_enc(infos.take(0), e, off)
            + containers_enc(infos.skip(0), e, off));
    } else {
        let tail = infos.drop_first();
        let b0 = infos[0].user_file.spec_inner().budget();
        lemma_entries_enc_split(tail, i - 1, e, off + b0);
        assert(tail.take(i - 1) =~= infos.take(i).drop_first());
        assert(tail.skip(i - 1) =~= infos.skip(i));
        assert(infos.take(i)[0] == infos[0]);
        assert(entries_enc(infos.take(i), e, off) == name_enc(infos[0].name.content(), 12)
            + enc_u32(off as u32, e) + entries_enc(tail.take(i - 1), e, off + b0));
        assert(containers_enc(infos.take(i), e, off) == infos[0].user_file.spec_inner().container_enc(
            e,
            off,
        ) + containers_enc(tail.take(i - 1), e, off + b0));
        assert(budgets_sum(infos.take(i)) == b0 + budgets_sum(tail.take(i - 1)));
        assert(entries_enc(infos, e, off) =~= entries_enc(infos.take(i), e, off) + entries_enc(
            infos.skip(i),
            e,
            off + budgets_sum(infos.take(i)),
        ));
        assert(containers_enc(infos, e, off) =~= containers_enc(infos.take(i), e, off)
            + containers_enc(infos.skip(i), e, off + budgets_sum(infos.take(i))));
    }
}

/// Appending one entry appends its directory line and its container.
#[verifier::rlimit(100)]
pub proof fn lemma_entries_enc_snoc(infos: Seq<SaveDataUserFileInfo>, i: int, e: Endian, off: int)
    requires
        0 <= i < infos.len(),
    ensures
        entries_enc(infos.take(i + 1), e, off) == entries_enc(infos.take(i), e, off) + name_enc(
            infos[i].name.content(),
            12,
        ) + enc_u32((off + budgets_sum(infos.take(i))) as u32, e),
        containers_enc(infos.take(i + 1), e, off) == containers_enc(infos.take(i), e, off)
            + infos[i].user_file.spec_inner().container_enc(e, off + budgets_sum(infos.take(i))),
        budgets_sum(infos.take(i + 1)) == budgets_sum(infos.take(i))
            + infos[i].user_file.spec_inner().budget(),
    decreases i + 1,
{
    lemma_entries_enc_split(infos.take(i + 1), i, e, off);
    assert(infos.take(i + 1).take(i) =~= infos.take(i));
    let last = infos.take(i + 1).skip(i);
    assert(last.len() == 1);
    assert(last[0] == infos[i]);
    let off2 = off + budgets_sum(infos.take(i));
    assert(entries_enc(last.drop_first(), e, off2 + last[0].user_file.spec_inner().budget())
        =~= Seq::<u8>::empty());
    assert(containers_enc(last.drop_first(), e, off2 + last[0].user_file.spec_inner().budget())
        =~= Seq::<u8>::empty());
    assert(last.drop_first() =~= Seq::<SaveDataUserFileInfo>::empty());
    assert(budgets_sum(last.drop_first()) == 0);
    assert(budgets_sum(last) == infos[i].user_file.spec_inner().budget());
    assert(entries_enc(last, e, off2) =~= name_enc(infos[i].name.content(), 12) + enc_u32(
        off2 as u32,
        e,
    ));
    assert(containers_enc(last, e, off2) =~= infos[i].user_file.spec_inner().container_enc(
        e,
        off2,
    ));
    assert(entries_enc(infos.take(i + 1), e, off) =~= entries_enc(infos.take(i), e, off)
        + name_enc(infos[i].name.content(), 12) + enc_u32(off2 as u32, e));
}

/// Every container budget is at most the largest container kind's budget.
pub proof fn lemma_budgets_sum_bound(infos: Seq<SaveDataUserFileInfo>)
    ensures
        0 <= budgets_sum(infos) <= 0xF80 * infos.len(),
    decreases infos.len(),
{
    if infos.len() > 0 {
        lemma_budgets_sum_bound(infos.drop_first());
    }
}

impl SaveDataFile {
    /// Encodes a big-endian save file.
    pub fn write_be(&self) -> (r: Result<Vec<u8>, BinError>)
        requires
            self.wf(),
        ensures
            match r {
                Ok(v) => self.all_fit(Endian::Big) && v@ == self.file_enc(Endian::Big),
                Err(_) => !self.all_fit(Endian::Big),
            },
    {
        self.write(Endian::Big)
    }

    /// Encodes a little-endian save file.
    pub fn write_le(&self) -> (r: Result<Vec<u8>, BinError>)
        requires
            self.wf(),
        ensures
            match r {
                Ok(v) => self.all_fit(Endian::Little) && v@ == self.file_enc(Endian::Little),
                Err(_) => !self.all_fit(Endian::Little),
            },
    {
        self.write(Endian::Little)
    }

    /// Encodes a save file: the directory entries with their computed
    /// offsets, the containers laid out contiguously in descriptor order,
    /// the backpatched header fields, and the checksum over everything but
    /// the checksum field itself. A container too large for its fixed
    /// budget is a fatal encode error.
    #[verifier::rlimit(100)]
    pub fn write(&self, e: Endian) -> (r: Result<Vec<u8>, BinError>)
        requires
            self.wf(),
        ensures
            match r {
                Ok(v) => self.all_fit(e) && v@ == self.file_enc(e),
                Err(_) => !self.all_fit(e),
            },
    {
        let infos = &self.user_file_info;
        let n = infos.len();
        let first: usize = 16 + 16 * n;
        let mut total: usize = 0;
        let mut i: usize = 0;
        proof {
            assert(budgets_sum(infos@.take(0)) == 0);
            lemma_budgets_sum_bound(infos@);
        }
        while i < n
            invariant
                self.wf(),
                infos == &self.user_file_info,
                n == infos@.len() <= 23,
                i <= n,
                total == budgets_sum(infos@.take(i as int)),
                total <= 0xF80 * i,
            decreases n - i,
        {
            proof {
                lemma_entries_enc_snoc(infos@, i as int, e, 0);
                lemma_budgets_sum_bound(infos@.take(i as int));
            }
            let b = match &infos[i].user_file.get() {
                SaveDataUserFile::GameData(_) => GameDataChunk::buffer_size(),
                SaveDataUserFile::ConfigData(_) => ConfigDataChunk::buffer_size(),
                SaveDataUserFile::SysConfigData(_) => SysConfigDataChunk::buffer_size(),
            };
            total = total + b;
            i += 1;
        }
        proof {
            assert(infos@.take(n as int) =~= infos@);
        }
        let mut body: Vec<u8> = Vec::new();
        write_u32(&mut body, 2, e);
        write_u32(&mut body, n as u32, e);
        write_u32(&mut body, (first + total) as u32, e);
        let ghost hdr = body@;
        let mut off: usize = first;
        let mut i: usize = 0;
        proof {
            assert(body@ =~= hdr + entries_enc(infos@.take(0), e, first as int));
        }
        while i < n
            invariant
                self.wf(),
                infos == &self.user_file_info,
                n == infos@.len() <= 23,
                i <= n,
                first == 16 + 16 * n,
                off == first + budgets_sum(infos@.take(i as int)),
                off <= first + 0xF80 * i,
                body@ == hdr + entries_enc(infos@.take(i as int), e, first as int),
            decreases n - i,
        {
            proof {
                lemma_entries_enc_snoc(infos@, i as int, e, first as int);
                lemma_budgets_sum_bound(infos@.take(i as int));
                assert(infos@[i as int].wf());
            }
            let info = &infos[i];
            info.name.encode(&mut body, 12);
            write_u32(&mut body, off as u32, e);
            let b = match info.user_file.get() {
                SaveDataUserFile::GameData(_) => GameDataChunk::buffer_size(),
                SaveDataUserFile::ConfigData(_) => ConfigDataChunk::buffer_size(),
                SaveDataUserFile::SysConfigData(_) => SysConfigDataChunk::buffer_size(),
            };
            off = off + b;
            i += 1;
        }
        let ghost dir = body@;
        let mut off: usize = first;
        let mut i: usize = 0;
        proof {
            assert(infos@.take(n as int) =~= infos@);
            assert(body@ =~= dir + containers_enc(infos@.take(0), e, first as int));
        }
        while i < n
            invariant
                self.wf(),
                infos == &self.user_file_info,
                n == infos@.len() <= 23,
                i <= n,
                first == 16 + 16 * n,
                off == first + budgets_sum(infos@.take(i as int)),
                off <= first + 0xF80 * i,
                forall|j: int|
                    0 <= j < i ==> (#[trigger] infos@[j]).user_file.spec_inner().fits(
                        e,
                        first + budgets_sum(infos@.take(j)),
                    ),
                body@ == dir + containers_enc(infos@.take(i as int), e, first as int),
            decreases n - i,
        {
            proof {
                lemma_entries_enc_snoc(infos@, i as int, e, first as int);
                lemma_budgets_sum_bound(infos@.take(i as int));
                assert(infos@[i as int].wf());
            }
            let info = &infos[i];
            let mut cv = match info.user_file.get() {
                SaveDataUserFile::GameData(h) => {
                    match encode_holder::<GameDataChunk>(h, e, off) {
                        Ok(v) => v,
                        Err(er) => {
                            return Err(er);
                        },
                    }
                },
                SaveDataUserFile::ConfigData(h) => {
                    match encode_holder::<ConfigDataChunk>(h, e, off) {
                        Ok(v) => v,
                        Err(er) => {
                            return Err(er);
                        },
                    }
                },
                SaveDataUserFile::SysConfigData(h) => {
                    match encode_holder::<SysConfigDataChunk>(h, e, off) {
                        Ok(v) => v,
                        Err(er) => {
                            return Err(er);
                        },
                    }
                },
            };
            let b = cv.len();
            body.append(&mut cv);
            off = off + b;
            i += 1;
        }
        proof {
            assert(infos@.take(n as int) =~= infos@);
            assert(body@ =~= self.body_enc(e));
        }
        let cs = match e {
            Endian::Big => Checksum::from_be_bytes(body.as_slice()),
            Endian::Little => Checksum::from_le_bytes(body.as_slice()),
        };
        let mut out: Vec<u8> = Vec::new();
        write_u32(&mut out, cs.into_raw(), e);
        out.append(&mut body);
        proof {
            assert(out@ =~= self.file_enc(e));
        }
        Ok(out)
    }
}

/// A container offset beyond the end of the buffer decodes nothing,
/// whatever kind the name selects.
proof fn lemma_container_dec_offset(buf: Seq<u8>, name: Seq<u8>, off: int, e: Endian)
    requires
        off > buf.len(),
    ensures
        container_dec(buf, name, off, e) is None,
{
}

} // verus!
