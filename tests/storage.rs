use chat_score::error::StoreError;
use chat_score::game::apply_attempt;
use chat_score::record::{PlayerRecord, ScopeStore};
use chat_score::storage::{
    backup_file_for_stem, calculate_md5, data_file_for_stem, decode_store, encode_store, load_from,
    migration_plan, storage_file_name,
};
use std::collections::HashMap;

fn one_player() -> ScopeStore {
    let mut data = ScopeStore::new();
    data.upsert(1, PlayerRecord::new("Test".to_string(), 10, 1234567890));
    data
}

#[test]
fn test_md5_calculation() {
    let hash = calculate_md5("5833285630");
    assert_eq!(hash.len(), 32);

    let hash2 = calculate_md5("5833285630");
    assert_eq!(hash, hash2);
}

#[test]
fn test_serialization() {
    let data = one_player();
    let encoded = encode_store(&data);
    let decoded = decode_store(&encoded).unwrap();
    assert_eq!(data.len(), decoded.len());
}

#[test]
fn md5_is_lowercase_hex() {
    let h = calculate_md5("5833285630");
    assert!(h.chars().all(|c| c.is_ascii_digit() || ('a'..='f').contains(&c)));
    assert_eq!(storage_file_name(5833285630).len(), 36);
    assert_eq!(data_file_for_stem("").len(), 36);
}

#[test]
fn md5_of_known_inputs() {
    assert_eq!(calculate_md5(""), "d41d8cd98f00b204e9800998ecf8427e");
    assert_eq!(calculate_md5("abc"), "900150983cd24fb0d6963f7d28e17f72");
}

#[test]
fn storage_file_name_hashes_decimal_id() {
    assert_eq!(storage_file_name(42), format!("{}.dat", calculate_md5("42")));
    assert_eq!(storage_file_name(-1001234), format!("{}.dat", calculate_md5("-1001234")));
    assert_eq!(storage_file_name(0), format!("{}.dat", calculate_md5("0")));
    assert_eq!(storage_file_name(42), storage_file_name(42));
    assert_ne!(storage_file_name(42), storage_file_name(43));
}

#[test]
fn file_names_of_a_stem() {
    assert_eq!(data_file_for_stem("42"), format!("{}.dat", calculate_md5("42")));
    assert_eq!(backup_file_for_stem("42"), "42.json.bak");
}

#[test]
fn encoding_matches_map_of_records() {
    let mut map: HashMap<i64, (String, i16, i64)> = HashMap::new();
    map.insert(1, ("Test".to_string(), 10, 1234567890));
    let expected = bincode::encode_to_vec(&map, bincode::config::standard()).unwrap();
    assert_eq!(encode_store(&one_player()), expected);
}

#[test]
fn decoding_keeps_records() {
    let mut s = one_player();
    s.upsert(-7, PlayerRecord::new("Ann".to_string(), -3, 5));
    let back = decode_store(&encode_store(&s)).unwrap();
    assert_eq!(back.len(), 2);
    let r = back.get(-7).unwrap();
    assert_eq!(r.name, "Ann");
    assert_eq!(r.score, -3);
    assert_eq!(r.last_attempt, 5);
    assert_eq!(back.entry_at(0).0, 1);
    assert_eq!(back.entry_at(1).0, -7);
}

#[test]
fn corrupt_bytes_are_refused() {
    assert!(matches!(decode_store(&[5u8]), Err(StoreError::StorageCorrupt)));
    assert!(matches!(load_from(Some(&[251u8][..])), Err(StoreError::StorageCorrupt)));
    let huge_count = [253u8, 0xFF, 0xFF, 0xFF, 0xFF, 0xFF, 0xFF, 0xFF, 0xFF];
    assert!(matches!(decode_store(&huge_count), Err(StoreError::StorageCorrupt)));
    assert!(matches!(load_from(Some(&huge_count[..])), Err(StoreError::StorageCorrupt)));
    // a count of one million rows with no rows after it
    let million = [252u8, 0x40, 0x42, 0x0F, 0x00];
    assert!(matches!(decode_store(&million), Err(StoreError::StorageCorrupt)));
}

#[test]
fn load_without_file_is_empty() {
    let s = load_from(None).unwrap();
    assert!(s.is_empty());
    let written = encode_store(&s);
    let again = load_from(Some(&written[..])).unwrap();
    assert!(again.is_empty());
}

#[test]
fn load_twice_gives_equal_stores() {
    let bytes = encode_store(&one_player());
    let a = load_from(Some(&bytes[..])).unwrap();
    let b = load_from(Some(&bytes[..])).unwrap();
    assert_eq!(a.to_rows(), b.to_rows());
}

#[test]
fn save_then_load_after_update() {
    let mut s = one_player();
    apply_attempt(&mut s, 1, "Other".to_string(), 5, 1234600000);
    apply_attempt(&mut s, 2, "New".to_string(), -4, 1234600001);
    let saved = encode_store(&s);
    let loaded = load_from(Some(&saved[..])).unwrap();
    assert_eq!(loaded.to_rows(), s.to_rows());
    assert_eq!(loaded.get(1).unwrap().score, 15);
    assert_eq!(loaded.get(1).unwrap().name, "Test");
    assert_eq!(loaded.get(2).unwrap().score, -4);
}

#[test]
fn later_save_wins() {
    let base = one_player();
    let mut first = ScopeStore::from_rows(base.to_rows());
    apply_attempt(&mut first, 1, "Test".to_string(), 3, 1300000000);
    let mut second = ScopeStore::from_rows(base.to_rows());
    apply_attempt(&mut second, 1, "Test".to_string(), -2, 1300000001);
    let mut file = encode_store(&first);
    assert_eq!(load_from(Some(&file[..])).unwrap().get(1).unwrap().score, 13);
    file = encode_store(&second);
    let loaded = load_from(Some(&file[..])).unwrap();
    assert_eq!(loaded.get(1).unwrap().score, 8);
    assert_eq!(loaded.get(1).unwrap().last_attempt, 1300000001);
}

#[test]
fn migration_of_a_text_file() {
    let text = r#"{"42": {"name":"Alice","size":7,"last":1000}}"#;
    let value: serde_json::Value = serde_json::from_str(text).unwrap();
    let mut rows = Vec::new();
    for (key, rec) in value.as_object().unwrap() {
        rows.push((
            key.parse::<i64>().unwrap(),
            rec["name"].as_str().unwrap().to_string(),
            rec["size"].as_i64().unwrap() as i16,
            rec["last"].as_i64().unwrap(),
        ));
    }
    let plan = migration_plan("42", rows);
    assert_eq!(plan.data_file, format!("{}.dat", calculate_md5("42")));
    assert_eq!(plan.data_file, storage_file_name(42));
    assert_eq!(plan.backup_file, "42.json.bak");
    let store = decode_store(&plan.bytes).unwrap();
    assert_eq!(store.len(), 1);
    assert_eq!(store.get(42).unwrap().score, 7);
    assert_eq!(store.get(42).unwrap().name, "Alice");
    assert_eq!(store.get(42).unwrap().last_attempt, 1000);
}

#[test]
fn migration_keeps_last_duplicate() {
    let rows = vec![(5, "A".to_string(), 1, 10), (5, "B".to_string(), 2, 20)];
    let plan = migration_plan("5", rows);
    let store = decode_store(&plan.bytes).unwrap();
    assert_eq!(store.len(), 1);
    assert_eq!(store.get(5).unwrap().name, "B");
}

#[test]
fn store_error_messages() {
    assert_eq!(StoreError::NotFound.message(), "no such record");
    assert_eq!(StoreError::Parse.message(), "input is not valid structured data of the expected shape");
    assert_eq!(StoreError::StorageCorrupt.message(), "stored bytes do not decode as records");
    assert_eq!(StoreError::Io.message(), "a file system operation failed");
}
