//! Tests for the label registry: population under a fixed encoding, the
//! strict and lenient resolution policies, and the masked lookup.

use galaxy_save::hash::map::{HashCodeMap, ParseLabelError};
use galaxy_save::hash::HashCode;

#[test]
fn registry_resolves_stored_labels() {
    let mut map = HashCodeMap::new();
    map.extend_utf8(vec!["ViewCompleteEnding".to_string(), "LuigiTalkAfterRescued".to_string()])
        .unwrap();

    let hash = map.hash_of(&"ViewCompleteEnding".to_string()).unwrap();
    assert_eq!(hash.into_raw(), 0xCF9AE9E5);
    assert_eq!(
        map.label_of(HashCode::from_raw(0xCF9AE9E5), None).unwrap(),
        "ViewCompleteEnding"
    );
    assert_eq!(map.label_of(HashCode::from_raw(0xDEADBEEF), None), None);
}

#[test]
fn registry_rejects_mixed_encodings() {
    // Populating with one encoding then offering the other is an
    // inconsistent-encoding error, in both orders.
    let mut map = HashCodeMap::new();
    map.extend_utf8(vec!["ViewCompleteEnding".to_string()]).unwrap();
    assert_eq!(
        map.extend_shift_jis(vec!["StarPieceCounterStop".to_string()]),
        Err(ParseLabelError::InconsistentEncoding)
    );

    let mut map = HashCodeMap::new();
    map.extend_shift_jis(vec!["StarPieceCounterStop".to_string()]).unwrap();
    assert_eq!(
        map.extend_utf8(vec!["ViewCompleteEnding".to_string()]),
        Err(ParseLabelError::InconsistentEncoding)
    );
}

#[test]
fn registry_lenient_recomputes_unknown() {
    // In the lenient policy an unknown label hashes to the same value the
    // hash function gives its bytes under the registry's encoding.
    let mut map = HashCodeMap::new();
    map.extend_utf8(vec!["ViewCompleteEnding".to_string()]).unwrap();

    let hash = map.hash_of(&"LuigiTalkAfterRescued".to_string()).unwrap();
    assert_eq!(hash.into_raw(), 0x8A57D763);
}

#[test]
fn registry_strict_rejects_unknown() {
    let mut map = HashCodeMap::new();
    map.extend_utf8(vec!["ViewCompleteEnding".to_string()]).unwrap();
    map.set_strict(true);

    assert_eq!(map.hash_of(&"LuigiTalkAfterRescued".to_string()), None);
    // The stored label still resolves.
    assert!(map.hash_of(&"ViewCompleteEnding".to_string()).is_some());
}

#[test]
fn registry_shift_jis_population() {
    // A Japanese label ingested under Shift JIS is hashed from its encoded
    // bytes, matching the known vector for that byte string.
    let mut map = HashCodeMap::new();
    map.extend_shift_jis(vec!["ハチマリオ初変身".to_string()]).unwrap();

    let hash = map.hash_of(&"ハチマリオ初変身".to_string()).unwrap();
    assert_eq!(hash.into_raw(), 0x878D7ABA);
    assert_eq!(
        map.label_of(HashCode::from_raw(0x878D7ABA), None).unwrap(),
        "ハチマリオ初変身"
    );
}

#[test]
fn registry_lenient_shift_jis_recompute() {
    // The lenient fallback hashes an unknown label under the registry's
    // fixed encoding: Shift JIS here, so the Shift JIS vector.
    let mut map = HashCodeMap::new();
    map.extend_shift_jis(vec!["アイスマリオ初変身".to_string()]).unwrap();

    let hash = map.hash_of(&"ハチマリオ初変身".to_string()).unwrap();
    assert_eq!(hash.into_raw(), 0x878D7ABA);
}

#[test]
fn registry_masked_lookup() {
    // A 16-bit field hash finds its label by comparing only the low bits.
    let mut map = HashCodeMap::new();
    map.extend_utf8(vec!["ViewCompleteEnding".to_string()]).unwrap();

    let label = map.label_of(HashCode::from_raw(0x0000E9E5), Some(16)).unwrap();
    assert_eq!(label, "ViewCompleteEnding");
    assert_eq!(map.label_of(HashCode::from_raw(0x0000E9E6), Some(16)), None);
}

#[test]
fn registry_clear_and_reset() {
    let mut map = HashCodeMap::new();
    map.extend_utf8(vec!["ViewCompleteEnding".to_string()]).unwrap();
    map.clear();
    assert_eq!(map.label_of(HashCode::from_raw(0xCF9AE9E5), None), None);
    // The encoding survives a clear.
    assert_eq!(
        map.extend_shift_jis(vec!["ハチマリオ初変身".to_string()]),
        Err(ParseLabelError::InconsistentEncoding)
    );
    map.reset();
    // After a reset the encoding is free again.
    map.extend_shift_jis(vec!["ハチマリオ初変身".to_string()]).unwrap();
}
