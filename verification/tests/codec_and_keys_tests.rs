//! The snapshot byte encoding and the key-listing computations.

use abci::codec::decode_entries_from;
use abci::codec::encode_entries_exec;
use abci::codec::u32_be_bytes_exec;
use abci::codec::u64_be_bytes_exec;
use abci::keys::ed25519_key_hex;
use abci::keys::hex_string;
use abci::keys::key_id_label;
use abci::keys::select_asymmetric_key_ids;
use abci::keys::HsmObjectInfo;

#[test]
fn big_endian_bytes_exact_values() {
    assert_eq!(u32_be_bytes_exec(0x01020304), vec![1, 2, 3, 4]);
    assert_eq!(u32_be_bytes_exec(0), vec![0, 0, 0, 0]);
    assert_eq!(
        u64_be_bytes_exec(0x0102030405060708),
        vec![1, 2, 3, 4, 5, 6, 7, 8]
    );
}

#[test]
fn entry_encoding_round_trips() {
    let entries: Vec<(Vec<u8>, Vec<u8>)> = vec![
        (b"key".to_vec(), b"value".to_vec()),
        (Vec::new(), b"empty-key".to_vec()),
        (b"empty-value".to_vec(), Vec::new()),
    ];
    let bytes = encode_entries_exec(&entries);
    let decoded = decode_entries_from(&bytes, 0).unwrap();
    assert_eq!(decoded, entries);
}

#[test]
fn entry_encoding_exact_bytes() {
    let entries: Vec<(Vec<u8>, Vec<u8>)> = vec![(b"ab".to_vec(), b"c".to_vec())];
    let bytes = encode_entries_exec(&entries);
    assert_eq!(bytes, vec![0, 0, 0, 2, b'a', b'b', 0, 0, 0, 1, b'c']);
}

#[test]
fn truncated_encodings_are_rejected() {
    let entries: Vec<(Vec<u8>, Vec<u8>)> = vec![(b"key".to_vec(), b"value".to_vec())];
    let mut bytes = encode_entries_exec(&entries);
    bytes.pop();
    assert!(decode_entries_from(&bytes, 0).is_none());
    assert!(decode_entries_from(&vec![0, 0, 0], 0).is_none());
    assert_eq!(decode_entries_from(&Vec::new(), 0), Some(Vec::new()));
}

#[test]
fn asymmetric_keys_are_selected_and_sorted() {
    let objects = vec![
        HsmObjectInfo { object_id: 0x30, is_asymmetric_key: true },
        HsmObjectInfo { object_id: 0x10, is_asymmetric_key: false },
        HsmObjectInfo { object_id: 0x01, is_asymmetric_key: true },
        HsmObjectInfo { object_id: 0x20, is_asymmetric_key: true },
    ];
    assert_eq!(select_asymmetric_key_ids(&objects), vec![0x01, 0x20, 0x30]);
    assert_eq!(select_asymmetric_key_ids(&Vec::new()), Vec::<u16>::new());
}

#[test]
fn key_id_label_matches_display_format() {
    assert_eq!(key_id_label(0x002a), "- 0x#002a");
    assert_eq!(key_id_label(0xbeef), "- 0x#beef");
    assert_eq!(key_id_label(0), "- 0x#0000");
}

#[test]
fn ed25519_key_hex_requires_exactly_32_bytes() {
    let key: Vec<u8> = (0u8..32).collect();
    let hex = ed25519_key_hex(&key).unwrap();
    assert_eq!(
        hex,
        "000102030405060708090a0b0c0d0e0f101112131415161718191a1b1c1d1e1f"
    );
    assert!(ed25519_key_hex(&vec![0; 31]).is_none());
    assert!(ed25519_key_hex(&vec![0; 33]).is_none());
    assert!(ed25519_key_hex(&Vec::new()).is_none());
}

#[test]
fn hex_string_renders_lowercase_pairs() {
    assert_eq!(hex_string(&vec![0x00, 0xff, 0x1a]), "00ff1a");
    assert_eq!(hex_string(&Vec::new()), "");
}
