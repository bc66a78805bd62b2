//! Tests for the sequel's Hungry Luma and World Map storages.

use galaxy_save::data2::{SaveDataStorageTicoFat, SaveDataStorageWorldMap};
use galaxy_save::hash::HashCode;

#[test]
fn tico_fat_counters() {
    let mut storage = SaveDataStorageTicoFat::new();
    assert_eq!(storage.star_piece_num(1, 0), Some(&0));
    assert_eq!(storage.star_piece_num(9, 0), None);
    assert_eq!(storage.star_piece_num(1, 6), None);

    *storage.star_piece_num_mut(3, 2).unwrap() = 40;
    assert_eq!(storage.star_piece_num(3, 2), Some(&40));
    assert_eq!(storage.star_piece_num(3, 1), Some(&0));
    assert_eq!(storage.star_piece_num(2, 2), Some(&0));
}

#[test]
fn tico_fat_coin_feed() {
    let a = HashCode::from_bytes(b"LuigiTalkAfterRescued");
    let b = HashCode::from_bytes(b"ViewCompleteEnding");
    let c = HashCode::from_bytes(b"StarPieceCounterStop");
    let mut storage = SaveDataStorageTicoFat::new();

    assert!(!storage.is_coin_feed(a));
    storage.on_coin_feed(a);
    storage.on_coin_feed(b);
    storage.on_coin_feed(c);
    assert!(storage.is_coin_feed(a));
    assert!(storage.is_coin_feed(b));
    assert!(storage.is_coin_feed(c));

    // Registering an already-registered galaxy changes nothing.
    storage.on_coin_feed(b);
    assert!(storage.is_coin_feed(b));

    // Removing the first entry compacts the later ones down; the removed
    // galaxy is gone and the others stay registered.
    storage.off_coin_feed(a);
    assert!(!storage.is_coin_feed(a));
    assert!(storage.is_coin_feed(b));
    assert!(storage.is_coin_feed(c));

    // The freed slot is reusable.
    storage.on_coin_feed(a);
    assert!(storage.is_coin_feed(a));
}

#[test]
fn world_map_defaults() {
    let map = SaveDataStorageWorldMap::new();
    assert_eq!(map.world_no, 1);
    assert_eq!(map.star_check_point_flag, vec![0u8; 8]);
}
