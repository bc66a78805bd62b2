//! Tests for the chunk codec, the fixed-budget containers, the path-trace
//! codec and the save-file envelope.

use galaxy_save::data1::config::{
    ConfigDataChunk, ConfigDataCreate, ConfigDataMisc, ConfigDataMiscFlag,
};
use galaxy_save::data1::game::{GameDataChunk, GameDataPlayerStatus, GameEventFlagStorage};
use galaxy_save::data1::save::{SaveDataFile, SaveDataUserFile, SaveDataUserFileInfo};
use galaxy_save::data1::spin_driver_path::{
    decode_scenario, encode_scenario, SpinDriverPathStorageOne, SpinDriverPathStorageScenario,
};
use galaxy_save::endian::Endian;
use galaxy_save::framing::chunk::Chunk;
use galaxy_save::error::BinError;
use galaxy_save::event::GameEventFlag;
use galaxy_save::framing::chunk::BinaryDataChunk;
use galaxy_save::framing::chunk_holder::{decode_holder, encode_holder, BinaryDataChunkHolder};
use galaxy_save::hash::HashCode;
use galaxy_save::ptr::Ptr;
use galaxy_save::save::CheckSaveFileError;
use galaxy_save::string::FixedString12;

fn create_chunk(is_created: bool) -> ConfigDataChunk {
    ConfigDataChunk::Create(BinaryDataChunk { inner: ConfigDataCreate { is_created } })
}

#[test]
fn chunk_round_trip_be() {
    let holder = BinaryDataChunkHolder {
        chunks: vec![
            create_chunk(true),
            ConfigDataChunk::Misc(BinaryDataChunk {
                inner: ConfigDataMisc {
                    flag: ConfigDataMiscFlag {
                        last_loaded_mario: true,
                        complete_ending_mario: false,
                        complete_ending_luigi: true,
                    },
                    last_modified: -12345678901234,
                },
            }),
        ],
    };
    let bytes = encode_holder::<ConfigDataChunk>(&holder, Endian::Big, 0).unwrap();
    assert_eq!(bytes.len(), 0x60);

    let (decoded, end) = decode_holder::<ConfigDataChunk>(&bytes, 0, Endian::Big).unwrap();
    assert_eq!(end, 0x60);
    assert_eq!(decoded.chunks.len(), 2);
    match &decoded.chunks[0] {
        ConfigDataChunk::Create(c) => assert!(c.inner.is_created),
        _ => panic!("wrong first variant"),
    }
    match &decoded.chunks[1] {
        ConfigDataChunk::Misc(c) => {
            assert!(c.inner.flag.last_loaded_mario);
            assert!(!c.inner.flag.complete_ending_mario);
            assert!(c.inner.flag.complete_ending_luigi);
            assert_eq!(c.inner.last_modified, -12345678901234);
        },
        _ => panic!("wrong second variant"),
    }
}

#[test]
fn chunk_round_trip_le() {
    let holder = BinaryDataChunkHolder { chunks: vec![create_chunk(false)] };
    let bytes = encode_holder::<ConfigDataChunk>(&holder, Endian::Little, 0).unwrap();
    assert_eq!(bytes.len(), 0x60);

    let (decoded, _) = decode_holder::<ConfigDataChunk>(&bytes, 0, Endian::Little).unwrap();
    assert_eq!(decoded.chunks.len(), 1);
    match &decoded.chunks[0] {
        ConfigDataChunk::Create(c) => assert!(!c.inner.is_created),
        _ => panic!("wrong variant"),
    }
}

#[test]
fn container_budget_invariant() {
    // The encoded container is exactly its fixed byte budget however few
    // chunks it holds.
    let empty = BinaryDataChunkHolder::<ConfigDataChunk> { chunks: vec![] };
    let bytes = encode_holder::<ConfigDataChunk>(&empty, Endian::Big, 0).unwrap();
    assert_eq!(bytes.len(), 0x60);

    let game = BinaryDataChunkHolder::<GameDataChunk> { chunks: vec![] };
    let bytes = encode_holder::<GameDataChunk>(&game, Endian::Big, 0).unwrap();
    assert_eq!(bytes.len(), 0xF80);
}

#[test]
fn container_budget_overflow() {
    // Eight creation chunks of 13 bytes each cannot fit the 0x60 budget.
    let holder = BinaryDataChunkHolder {
        chunks: vec![
            create_chunk(true),
            create_chunk(true),
            create_chunk(true),
            create_chunk(true),
            create_chunk(true),
            create_chunk(true),
            create_chunk(true),
            create_chunk(true),
        ],
    };
    let r = encode_holder::<ConfigDataChunk>(&holder, Endian::Big, 0);
    assert!(matches!(r, Err(BinError::BudgetOverflow { .. })));
}

#[test]
fn chunk_unknown_magic() {
    let mut bytes = vec![0u8; 0x60];
    bytes[0] = 1; // version
    bytes[1] = 1; // one chunk
    bytes[4] = 0x58; // 'XXXX', no known magic
    bytes[5] = 0x58;
    bytes[6] = 0x58;
    bytes[7] = 0x58;
    let r = decode_holder::<ConfigDataChunk>(&bytes, 0, Endian::Big);
    assert!(matches!(r, Err(BinError::UnknownMagic { found: 0x58585858, .. })));
}

#[test]
fn chunk_hash_mismatch() {
    let holder = BinaryDataChunkHolder { chunks: vec![create_chunk(true)] };
    let mut bytes = encode_holder::<ConfigDataChunk>(&holder, Endian::Big, 0).unwrap();
    // The content hash sits right after the version/count word and the magic.
    bytes[11] ^= 0xFF;
    let r = decode_holder::<ConfigDataChunk>(&bytes, 0, Endian::Big);
    assert!(matches!(r, Err(BinError::HashMismatch { expected: 0x2432DA, .. })));
}

#[test]
fn event_flag_storage_get_set() {
    let key = HashCode::from_bytes(b"LuigiTalkAfterRescued");
    let other = HashCode::from_bytes(b"ViewCompleteEnding");
    let mut storage = GameEventFlagStorage::from_flags(vec![
        GameEventFlag::new(key, false),
        GameEventFlag::new(other, true),
    ]);
    assert_eq!(storage.get(key), Some(false));
    assert_eq!(storage.get(other), Some(true));
    storage.set(key, true);
    assert_eq!(storage.get(key), Some(true));
    assert_eq!(storage.get(HashCode::from_raw(0x1234)), None);
}

#[test]
fn path_exact_bytes() {
    // One record in zone 1 with index 2 and numerator 128: the declared
    // length, the zone escape, the flagged index, the numerator, and the
    // terminator.
    let sc = SpinDriverPathStorageScenario {
        one: vec![SpinDriverPathStorageOne { zone_id: 1, draw_range_index: 2, draw_range_q: 128 }],
    };
    let mut out = Vec::new();
    encode_scenario(&sc, &mut out, Endian::Big);
    assert_eq!(out, vec![0x00, 0x06, 0xC1, 0x82, 0x80, 0xFF]);

    let (decoded, end) = decode_scenario(&out, 0, Endian::Big).unwrap();
    assert_eq!(end, 6);
    assert_eq!(decoded, sc.one);
}

#[test]
fn path_round_trip_groups_zones() {
    // Records of two zones, offered out of zone order, come back grouped by
    // ascending zone with the order inside each zone kept.
    let r10 = SpinDriverPathStorageOne { zone_id: 1, draw_range_index: 0, draw_range_q: 256 };
    let r11 = SpinDriverPathStorageOne { zone_id: 1, draw_range_index: 1, draw_range_q: 64 };
    let r30 = SpinDriverPathStorageOne { zone_id: 3, draw_range_index: 5, draw_range_q: 1 };
    let sc = SpinDriverPathStorageScenario { one: vec![r30, r10, r11] };
    let mut out = Vec::new();
    encode_scenario(&sc, &mut out, Endian::Big);

    let (decoded, _) = decode_scenario(&out, 0, Endian::Big).unwrap();
    assert_eq!(decoded, vec![r10, r11, r30]);
}

#[test]
fn path_drops_below_tolerance() {
    // A record whose numerator quantizes to zero vanishes after a round
    // trip; the survivors remain.
    let keep = SpinDriverPathStorageOne { zone_id: 0, draw_range_index: 3, draw_range_q: 2 };
    let drop = SpinDriverPathStorageOne { zone_id: 0, draw_range_index: 4, draw_range_q: 0 };
    let sc = SpinDriverPathStorageScenario { one: vec![keep, drop] };
    let mut out = Vec::new();
    encode_scenario(&sc, &mut out, Endian::Big);

    let (decoded, _) = decode_scenario(&out, 0, Endian::Big).unwrap();
    assert_eq!(decoded, vec![keep]);
}

#[test]
fn path_record_before_zone() {
    // A record byte before any zone escape is a structural error.
    let bytes = vec![0x00, 0x04, 0x82, 0xFF];
    let r = decode_scenario(&bytes, 0, Endian::Big);
    assert!(matches!(r, Err(BinError::MissingZone { .. })));
}

#[test]
fn path_length_mismatch() {
    // A declared length that does not match the bytes consumed is fatal.
    let bytes = vec![0x00, 0x09, 0xC1, 0x82, 0x80, 0xFF];
    let r = decode_scenario(&bytes, 0, Endian::Big);
    assert!(matches!(r, Err(BinError::SizeMismatch { expected: 9, found: 6, .. })));
}

fn sample_file() -> SaveDataFile {
    let player = GameDataChunk::PlayerStatus(BinaryDataChunk {
        inner: GameDataPlayerStatus { story_progress: 15, stocked_star_piece_num: 777, player_left: 4 },
    });
    let game = SaveDataUserFile::GameData(BinaryDataChunkHolder { chunks: vec![player] });
    let config = SaveDataUserFile::ConfigData(BinaryDataChunkHolder {
        chunks: vec![create_chunk(true)],
    });
    SaveDataFile {
        user_file_info: vec![
            SaveDataUserFileInfo {
                name: FixedString12::from_str("mario1").unwrap(),
                user_file: Ptr::new(game),
            },
            SaveDataUserFileInfo {
                name: FixedString12::from_str("config1").unwrap(),
                user_file: Ptr::new(config),
            },
        ],
    }
}

#[test]
fn envelope_round_trip() {
    let file = sample_file();
    let bytes = file.write_be().unwrap();
    assert_eq!(bytes.len(), 16 + 2 * 16 + 0xF80 + 0x60);

    assert_eq!(SaveDataFile::check_be(&bytes), Ok(()));
    let decoded = SaveDataFile::read_be(&bytes).unwrap();
    assert_eq!(decoded.user_file_info.len(), 2);
    assert_eq!(decoded.user_file_info[0].name.to_string().unwrap(), "mario1");
    match decoded.user_file_info[0].user_file.get() {
        SaveDataUserFile::GameData(h) => {
            assert_eq!(h.chunks.len(), 1);
            match &h.chunks[0] {
                GameDataChunk::PlayerStatus(c) => {
                    assert_eq!(c.inner.story_progress, 15);
                    assert_eq!(c.inner.stocked_star_piece_num, 777);
                    assert_eq!(c.inner.player_left, 4);
                },
                _ => panic!("wrong chunk variant"),
            }
        },
        _ => panic!("wrong container kind"),
    }
    match decoded.user_file_info[1].user_file.get() {
        SaveDataUserFile::ConfigData(h) => {
            assert_eq!(h.chunks.len(), 1);
        },
        _ => panic!("wrong container kind"),
    }
}

#[test]
fn envelope_corrupt_checksum_still_decodes() {
    // A corrupted stored checksum fails validation but the structure still
    // decodes when validation is bypassed.
    let file = sample_file();
    let mut bytes = file.write_be().unwrap();
    bytes[0] ^= 0xFF;

    assert_eq!(SaveDataFile::check_be(&bytes), Err(CheckSaveFileError::InequalChecksum));
    let decoded = SaveDataFile::read_be(&bytes).unwrap();
    assert_eq!(decoded.user_file_info.len(), 2);
}

#[test]
fn envelope_file_size_mismatch() {
    // A declared file size that does not match the actual byte length fails
    // with the exact expected and actual values.
    let file = sample_file();
    let mut bytes = file.write_be().unwrap();
    let declared = bytes.len() as u32;
    bytes.push(0);

    assert_eq!(
        SaveDataFile::check_be(&bytes),
        Err(CheckSaveFileError::InequalFileSize {
            expected: declared,
            found: declared as usize + 1,
        })
    );
}

#[test]
fn envelope_bad_version() {
    let file = sample_file();
    let mut bytes = file.write_be().unwrap();
    bytes[7] = 9;

    assert_eq!(
        SaveDataFile::check_be(&bytes),
        Err(CheckSaveFileError::IncompatibleVersion { expected: 2, found: 9 })
    );
}

#[test]
fn envelope_entry_count_limit() {
    // A header declaring more entries than the directory maximum fails the
    // count check; the byte count and version are made to pass first.
    let mut bytes = vec![0u8; 16];
    bytes[7] = 2; // version
    bytes[11] = 24; // one entry over the maximum
    bytes[15] = 16; // declared size equals the actual size
    assert_eq!(
        SaveDataFile::check_be(&bytes),
        Err(CheckSaveFileError::InvalidUserFileInfoNum { expected_max: 23, found: 24 })
    );
}

#[test]
fn envelope_size_over_maximum() {
    let len = 0x1_0010usize;
    let mut bytes = vec![0u8; len];
    bytes[7] = 2; // version
    bytes[12] = 0; // declared size equals the actual size, over the maximum
    bytes[13] = 1;
    bytes[14] = 0;
    bytes[15] = 0x10;
    assert_eq!(
        SaveDataFile::check_be(&bytes),
        Err(CheckSaveFileError::InvalidFileSize { expected_max: 0xFFFF, found: 0x1_0010 })
    );
}

#[test]
fn envelope_truncated() {
    let bytes = vec![0u8; 8];
    assert_eq!(SaveDataFile::check_be(&bytes), Err(CheckSaveFileError::Truncated));
}

#[test]
fn envelope_bad_entry_name() {
    // A directory name matching no container prefix is a structural error.
    let file = SaveDataFile {
        user_file_info: vec![SaveDataUserFileInfo {
            name: FixedString12::from_str("other1").unwrap(),
            user_file: Ptr::new(SaveDataUserFile::ConfigData(BinaryDataChunkHolder {
                chunks: vec![],
            })),
        }],
    };
    let bytes = file.write_be().unwrap();
    let r = SaveDataFile::read_be(&bytes);
    assert!(matches!(r, Err(BinError::InvalidName { .. })));
}

#[test]
fn mii_unknown_icon() {
    let bytes = vec![0u8, 0, 0, 0, 0, 0, 0, 0, 0, 9];
    let r = galaxy_save::data1::config::ConfigDataMii::decode(&bytes, 0, 10, Endian::Big);
    assert!(matches!(r, Err(BinError::UnknownDiscriminant { byte: 9, .. })));
}

#[test]
fn eof_mid_chunk() {
    let bytes = vec![0u8; 3];
    let r = decode_holder::<ConfigDataChunk>(&bytes, 0, Endian::Big);
    assert!(matches!(r, Err(BinError::Eof { .. })));
}
