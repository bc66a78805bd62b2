//! Tests for the hash, checksum, bit array and fixed string primitives.

use galaxy_save::array::BitArray8;
use galaxy_save::hash::HashCode;
use galaxy_save::mem::Checksum;
use galaxy_save::string::{FixedString12, ParseFixedStringError};

#[test]
fn test_on() {
    let array = [false, false, true, true, false, true, true, false];
    let bit_array = BitArray8::from(array);

    for i in 0..8 {
        assert_eq!(bit_array.test(i), array[i as usize]);
    }
}

#[test]
fn test_set() {
    let mut bits = 0b00000000u8;
    let mut bit_array = BitArray8::from(bits);

    for i in 0..8 {
        bit_array.set(i);
        bits |= 1 << i;
        assert_eq!(bit_array, BitArray8::from(bits));
    }
}

#[test]
fn test_clear() {
    let mut bits = 0b11111111u8;
    let mut bit_array = BitArray8::from(bits);

    for i in 0..8 {
        bit_array.clear(i);
        bits &= !(1 << i);
        assert_eq!(bit_array, BitArray8::from(bits));
    }
}

#[test]
fn from_ascii() {
    let hash = HashCode::from_bytes("LuigiTalkAfterRescued".as_bytes());
    assert_eq!(hash, HashCode::from_raw(0x8A57D763));

    let hash = HashCode::from_bytes("RosettaTalkAboutTico".as_bytes());
    assert_eq!(hash, HashCode::from_raw(0x41E64290));

    let hash = HashCode::from_bytes("RosettaTalkAfterNormalEnding".as_bytes());
    assert_eq!(hash, HashCode::from_raw(0xF41632AC));

    let hash = HashCode::from_bytes("ViewCompleteEnding".as_bytes());
    assert_eq!(hash, HashCode::from_raw(0xCF9AE9E5));

    let hash = HashCode::from_bytes("StarPieceCounterStop".as_bytes());
    assert_eq!(hash, HashCode::from_raw(0x6143AAE2));
}

#[test]
fn from_japanese_shift_jis() {
    // Strings in Rust are exclusively UTF-8, so treat them as byte slices for compatibility.
    let hash = HashCode::from_bytes(
        b"\x83\x6E\x83\x60\x83\x7D\x83\x8A\x83\x49\x8F\x89\x95\xCF\x90\x67".as_slice(),
    );
    assert_eq!(hash, HashCode::from_raw(0x878D7ABA));

    let hash = HashCode::from_bytes(
        b"\x83\x65\x83\x8C\x83\x54\x83\x7D\x83\x8A\x83\x49\x8F\x89\x95\xCF\x90\x67".as_slice(),
    );
    assert_eq!(hash, HashCode::from_raw(0xDD7E8C8E));

    let hash = HashCode::from_bytes(
        b"\x83\x7A\x83\x62\x83\x70\x81\x5B\x83\x7D\x83\x8A\x83\x49\x8F\x89\x95\xCF\x90\x67"
            .as_slice(),
    );
    assert_eq!(hash, HashCode::from_raw(0x9DF2184F));

    let hash = HashCode::from_bytes(
        b"\x83\x74\x83\x40\x83\x43\x83\x41\x83\x7D\x83\x8A\x83\x49\x8F\x89\x95\xCF\x90\x67"
            .as_slice(),
    );
    assert_eq!(hash, HashCode::from_raw(0xD43F8E5E));

    let hash = HashCode::from_bytes(
        b"\x83\x41\x83\x43\x83\x58\x83\x7D\x83\x8A\x83\x49\x8F\x89\x95\xCF\x90\x67".as_slice(),
    );
    assert_eq!(hash, HashCode::from_raw(0x7B8062E5));
}

#[test]
fn from_japanese_utf8() {
    let hash = HashCode::from_bytes("ハチマリオ初変身".as_bytes());
    assert_eq!(hash, HashCode::from_raw(0x7BB6DD3C));

    let hash = HashCode::from_bytes("テレサマリオ初変身".as_bytes());
    assert_eq!(hash, HashCode::from_raw(0x3385D79A));

    let hash = HashCode::from_bytes("ホッパーマリオ初変身".as_bytes());
    assert_eq!(hash, HashCode::from_raw(0xBC1AD7FD));

    let hash = HashCode::from_bytes("ファイアマリオ初変身".as_bytes());
    assert_eq!(hash, HashCode::from_raw(0x79CFDB55));

    let hash = HashCode::from_bytes("アイスマリオ初変身".as_bytes());
    assert_eq!(hash, HashCode::from_raw(0x5F3F0962));
}

#[test]
fn from_chunks_exact() {
    let bytes = b"\x00\x00\x00\x02\x00\x00\x00\x13\x00\x00\xBE\x00";
    let checksum = Checksum::from_be_bytes(bytes);
    assert_eq!(checksum, Checksum::from_raw(0xBE1541E5));

    let bytes = b"\x02\x00\x00\x00\x13\x00\x00\x00\x00\xBE\x00\x00";
    let checksum = Checksum::from_le_bytes(bytes);
    assert_eq!(checksum, Checksum::from_raw(0xBE1541E5));
}

#[test]
fn from_chunks_inexact() {
    let bytes = b"\x00\x00\x00\x02\x00\x00\x00\x13\x00\x00\xBE\x00\x00";
    let checksum = Checksum::from_be_bytes(bytes);
    assert_eq!(checksum, Checksum::from_raw(0xBE1541E5));

    let bytes = b"\x02\x00\x00\x00\x13\x00\x00\x00\x00\xBE\x00\x00\x00";
    let checksum = Checksum::from_le_bytes(bytes);
    assert_eq!(checksum, Checksum::from_raw(0xBE1541E5));
}

#[test]
fn read_buf_init() {
    let buf = b"mario1\0\0\0\0\0\0";
    let (value, pos) = FixedString12::decode(buf, 0, 12).unwrap();

    assert_eq!(value.to_string().unwrap(), "mario1");
    assert_eq!(pos, 12);
}

#[test]
fn read_buf_uninit() {
    let buf = b"luigi1\0\xFF\xFF\xFF\xFF\xFF";
    let (value, _) = FixedString12::decode(buf, 0, 12).unwrap();

    assert_eq!(value.to_string().unwrap(), "luigi1");
}

#[test]
fn read_buf_empty_init() {
    let buf = b"\0\0\0\0\0\0\0\0";
    let (value, pos) = FixedString12::decode(buf, 0, 12).unwrap();

    assert_eq!(value.to_string().unwrap(), "");
    assert_eq!(pos, 12);
}

#[test]
fn read_buf_empty_uninit() {
    let buf = b"\0\xFF\xFF\xFF\xFF\xFF\xFF\xFF";
    let (value, _) = FixedString12::decode(buf, 0, 12).unwrap();

    assert_eq!(value.to_string().unwrap(), "");
}

#[test]
fn read_buf_missing_nul() {
    let buf = b"user1";
    let value = FixedString12::decode(buf, 0, 5);

    assert!(value.is_err());
}

#[test]
fn from_str_ok() {
    let s = "";
    let value = FixedString12::from_str(s).unwrap();
    assert_eq!(value.to_string().unwrap(), s);

    let s = "config1";
    let value = FixedString12::from_str(s).unwrap();
    assert_eq!(value.to_string().unwrap(), s);
}

#[test]
fn from_str_err() {
    let s = "buffer_overflow";
    let value = FixedString12::from_str(s);

    assert_eq!(value, Err(ParseFixedStringError::BufferOverflow));
}

#[test]
fn write_buf() {
    let value = FixedString12::from_str("sysconf").unwrap();
    let mut out = Vec::new();

    value.encode(&mut out, 12);

    assert_eq!(out, b"sysconf\0\0\0\0\0");
}

#[test]
fn write_buf_empty() {
    let value = FixedString12::new();
    let mut out = Vec::new();

    value.encode(&mut out, 12);

    assert_eq!(out, b"\0\0\0\0\0\0\0\0\0\0\0\0");
}

#[test]
fn checksum_ignores_platform_swap() {
    // The little-endian checksum of the byte-swapped buffer matches the
    // big-endian checksum of the original.
    let be = b"\x12\x34\x56\x78";
    let le = b"\x34\x12\x78\x56";
    assert_eq!(
        Checksum::from_be_bytes(be).into_raw(),
        Checksum::from_le_bytes(le).into_raw()
    );
}
