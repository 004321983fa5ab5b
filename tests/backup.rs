use icda::backup::{generate_backup_file_name, parse_canister_id_from_file_name};
use regex::Regex;
use std::time::{SystemTime, UNIX_EPOCH};

fn now_ns() -> u128 {
    SystemTime::now()
        .duration_since(UNIX_EPOCH)
        .expect("Failed to get timestamp")
        .as_nanos()
}

#[test]
fn test_generate_backup_file_name() {
    let canister_id = "r2xtu-uiaaa-aaaag-alf6q-cai".to_string();
    let data_type = "chunk";
    let file_name = generate_backup_file_name(canister_id, data_type, now_ns());
    let re = Regex::new(r"([a-z0-9-]+)_chunk_\d+\.bin").expect("failed to compile regex");
    assert!(re.is_match(&file_name));
}

#[test]
fn test_parse_canister_id_from_file_name() {
    let canister_id = "r2xtu-uiaaa-aaaag-alf6q-cai".to_string();
    let data_type = "chunk";
    let file_name = generate_backup_file_name(canister_id.clone(), data_type, now_ns());
    let parsed_canister_id = parse_canister_id_from_file_name(&file_name).unwrap();
    assert_eq!(canister_id, parsed_canister_id);
}

#[test]
fn backup_file_name_has_exact_layout() {
    let name = generate_backup_file_name("abc-1".to_string(), "chunk", 1234567890);
    assert_eq!(name, "abc-1_chunk_1234567890.bin");
    let name = generate_backup_file_name("x".to_string(), "chunk", 0);
    assert_eq!(name, "x_chunk_0.bin");
}

#[test]
fn backup_file_name_matches_spill_pattern() {
    let re = Regex::new(r"^[a-z0-9-]+_chunk_\d+\.bin$").unwrap();
    let name = generate_backup_file_name("hxctj-oiaaa-aaaap-qhltq-cai".to_string(), "chunk", u128::MAX);
    assert!(re.is_match(&name));
    assert!(name.ends_with("_340282366920938463463374607431768211455.bin"));
}

#[test]
fn malformed_backup_names_are_rejected() {
    for name in [
        "",
        "_chunk_1.bin",
        "abc_chunk_.bin",
        "abc_chunk_12.bi",
        "abc_chunk_1x.bin",
        "ABC_chunk_1.bin",
        "abc_block_1.bin",
        "abc-chunk-1.bin",
        "abc_chunk_1.bin.tmp",
    ] {
        assert_eq!(parse_canister_id_from_file_name(name), None, "{}", name);
    }
    assert_eq!(
        parse_canister_id_from_file_name("a-b-c9_chunk_007.bin"),
        Some("a-b-c9".to_string())
    );
}
