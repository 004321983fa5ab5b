use icda::client::{
    after_write_attempt, check_expiry, first_verified, prepare_blob, ReadError, ReplicaSelector,
    WriteAction, BLOB_LIVE_TIME, COLLECTION_SIZE,
};
use icda::replica::Blob;
use sha2::{Digest, Sha256};

#[test]
fn small_blob_key() {
    let blob = vec![1u8, 2, 3, 4, 5, 6, 7, 8, 9, 0, 15];
    let (key, chunks) = prepare_blob(&blob, 1_000, vec!["hxctj-oiaaa-aaaap-qhltq-cai".to_string()]);
    let expected: [u8; 32] = Sha256::digest(&blob).into();
    assert_eq!(key.digest, expected);
    assert_eq!(key.routing_info.total_size, 11);
    assert_eq!(key.expiry_timestamp, 1_000 + BLOB_LIVE_TIME);
    assert_eq!(key.routing_info.host_canisters, vec!["hxctj-oiaaa-aaaap-qhltq-cai".to_string()]);
    assert_eq!(chunks.len(), 1);
    assert_eq!(chunks[0].data, blob);
    assert_eq!(chunks[0].digest, expected);
    assert_eq!(chunks[0].timestamp, 1_000);
}

#[test]
fn four_mib_blob_makes_four_chunks() {
    let blob = vec![1u8; 4_194_304];
    let (key, chunks) = prepare_blob(&blob, 7, vec![]);
    assert_eq!(key.routing_info.total_size, 4_194_304);
    assert_eq!(chunks.len(), 4);
    for (i, c) in chunks.iter().enumerate() {
        assert_eq!(c.index, i);
        assert_eq!(c.total, 4_194_304);
        assert_eq!(c.data.len(), 1_048_576);
    }
}

#[test]
fn expired_key_is_refused() {
    let (key, _) = prepare_blob(&[1, 2, 3], 10, vec![]);
    let now = key.expiry_timestamp + 1;
    assert_eq!(check_expiry(&key, now), Err(ReadError::Expired));
    assert_eq!(check_expiry(&key, key.expiry_timestamp), Ok(()));
    assert_eq!(check_expiry(&key, 0), Ok(()));
}

#[test]
fn flipped_byte_is_detected() {
    let blob = vec![10u8, 20, 30, 40];
    let digest: [u8; 32] = Sha256::digest(&blob).into();
    let mut flipped = blob.clone();
    flipped[2] ^= 0x01;
    assert_eq!(first_verified(vec![flipped.clone()], &digest), Err(ReadError::NotRetrievable));
    assert_eq!(first_verified(vec![flipped.clone(), blob.clone()], &digest), Ok(blob.clone()));
    assert_eq!(first_verified(vec![vec![], blob.clone(), flipped], &digest), Ok(blob));
    assert_eq!(first_verified(vec![], &digest), Err(ReadError::NotRetrievable));
}

#[test]
fn empty_read_is_not_accepted() {
    let digest: [u8; 32] = Sha256::digest([]).into();
    assert_eq!(first_verified(vec![vec![]], &digest), Err(ReadError::NotRetrievable));
}

#[test]
fn windows_are_appended_in_order() {
    let mut buffer = vec![1u8];
    let next = icda::client::append_window(&mut buffer, Blob { data: vec![2, 3], next: Some(4) });
    assert_eq!(next, Some(4));
    assert_eq!(buffer, vec![1, 2, 3]);
}

#[test]
fn chunk_write_is_tried_three_times() {
    assert_eq!(after_write_attempt(0, true), WriteAction::NextChunk);
    assert_eq!(after_write_attempt(0, false), WriteAction::Retry);
    assert_eq!(after_write_attempt(1, false), WriteAction::Retry);
    assert_eq!(after_write_attempt(2, false), WriteAction::Spill);
    assert_eq!(after_write_attempt(2, true), WriteAction::NextChunk);
}

#[test]
fn replica_sets_are_chosen_round_robin() {
    let mut s = ReplicaSelector::new(COLLECTION_SIZE * 3 + 9, COLLECTION_SIZE);
    assert_eq!(s.get_storage_canisters(), 9);
    assert_eq!(s.get_storage_canisters(), 10);
    assert_eq!(s.get_storage_canisters(), 0);
    assert_eq!(s.get_storage_canisters(), 1);
}
