use icda::chunk::{BlobChunk, CHUNK_SIZE};
use icda::client::{accept_blob, append_window};
use icda::digest::sha256;
use icda::replica::{
    ReplicaError, SaveOutcome, StorageConfig, StorageReplica, QUERY_RESPONSE_SIZE,
};

fn replica_with(threshold: u32) -> StorageReplica {
    let mut config = StorageConfig::new();
    config.canister_storage_threshold = threshold;
    StorageReplica::new(config).unwrap()
}

fn chunks_of(blob: &[u8], timestamp: u128) -> Vec<BlobChunk> {
    BlobChunk::generate_chunks(blob, sha256(blob), timestamp)
}

fn read_all(replica: &StorageReplica, digest: &[u8; 32]) -> (Vec<u8>, usize) {
    let mut buffer = Vec::new();
    let mut windows = 1;
    let mut next = append_window(&mut buffer, replica.get_blob(digest));
    while let Some(i) = next {
        windows += 1;
        next = append_window(&mut buffer, replica.get_blob_with_index(digest, i));
    }
    (buffer, windows)
}

#[test]
fn small_blob_round_trip() {
    let blob = vec![1u8, 2, 3, 4, 5, 6, 7, 8, 9, 0, 15];
    let mut r = replica_with(10);
    let chunks = chunks_of(&blob, 1);
    assert_eq!(chunks.len(), 1);
    assert_eq!(r.save_blob(&chunks[0]), Ok(SaveOutcome::Complete));
    let window = r.get_blob(&chunks[0].digest);
    assert_eq!(window.data, blob);
    assert_eq!(window.next, None);
    assert_eq!(accept_blob(window.data, &sha256(&blob)), Ok(blob));
}

#[test]
fn four_mib_blob_in_chunks_and_windows() {
    let blob = vec![1u8; 4_194_304];
    let chunks = chunks_of(&blob, 5);
    assert_eq!(chunks.len(), 4);
    for (i, c) in chunks.iter().enumerate() {
        assert_eq!(c.index, i);
        assert_eq!(c.total, 4_194_304);
        assert_eq!(c.data.len(), CHUNK_SIZE);
    }
    let mut r = replica_with(10);
    for c in &chunks[..3] {
        assert_eq!(r.save_blob(c), Ok(SaveOutcome::Partial));
    }
    assert_eq!(r.save_blob(&chunks[3]), Ok(SaveOutcome::Complete));

    let digest = chunks[0].digest;
    let first = r.get_blob(&digest);
    assert_eq!(first.data.len(), QUERY_RESPONSE_SIZE);
    assert_eq!(first.next, Some(1));
    let second = r.get_blob_with_index(&digest, 1);
    assert_eq!(second.data.len(), 4_194_304 - QUERY_RESPONSE_SIZE);
    assert_eq!(second.next, None);
    let (bytes, windows) = read_all(&r, &digest);
    assert_eq!(windows, 2);
    assert_eq!(bytes, blob);
}

#[test]
fn six_mib_blob_reads_two_full_windows_then_the_rest() {
    let blob: Vec<u8> = (0..6 * 1_048_576u32).map(|i| (i % 251) as u8).collect();
    let mut r = replica_with(10);
    for c in chunks_of(&blob, 9) {
        r.save_blob(&c).unwrap();
    }
    let digest = sha256(&blob);
    assert_eq!(r.get_blob_with_index(&digest, 0).data.len(), QUERY_RESPONSE_SIZE);
    assert_eq!(r.get_blob_with_index(&digest, 1).data.len(), QUERY_RESPONSE_SIZE);
    let last = r.get_blob_with_index(&digest, 2);
    assert_eq!(last.data.len(), 6 * 1_048_576 - 2 * QUERY_RESPONSE_SIZE);
    assert_eq!(last.next, None);
    let (bytes, windows) = read_all(&r, &digest);
    assert_eq!(windows, 3);
    assert_eq!(bytes, blob);
    let past = r.get_blob_with_index(&digest, 7);
    assert!(past.data.is_empty());
    assert_eq!(past.next, None);
}

#[test]
fn chunks_in_any_order_with_repeats_reassemble() {
    let blob: Vec<u8> = (0..3 * 1_048_576u32 + 17).map(|i| (i % 253) as u8).collect();
    let chunks = chunks_of(&blob, 2);
    assert_eq!(chunks.len(), 4);
    let mut r = replica_with(10);
    assert_eq!(r.save_blob(&chunks[2]), Ok(SaveOutcome::Partial));
    assert_eq!(r.save_blob(&chunks[0]), Ok(SaveOutcome::Partial));
    assert_eq!(r.save_blob(&chunks[2]), Ok(SaveOutcome::Partial));
    assert_eq!(r.save_blob(&chunks[1]), Ok(SaveOutcome::Partial));
    assert_eq!(r.save_blob(&chunks[3]), Ok(SaveOutcome::Complete));
    assert_eq!(r.save_blob(&chunks[0]), Ok(SaveOutcome::Partial));
    assert_eq!(r.save_blob(&chunks[3]), Ok(SaveOutcome::Complete));
    assert_eq!(r.retention_len(), 1);
    assert_eq!(read_all(&r, &chunks[0].digest).0, blob);
}

#[test]
fn duplicate_blob_takes_one_retention_entry() {
    let blob = vec![9u8; 100];
    let mut r = replica_with(10);
    let chunks = chunks_of(&blob, 3);
    assert_eq!(r.retention_len(), 0);
    assert_eq!(r.save_blob(&chunks[0]), Ok(SaveOutcome::Complete));
    assert_eq!(r.retention_len(), 1);
    assert_eq!(r.save_blob(&chunks[0]), Ok(SaveOutcome::Complete));
    assert_eq!(r.retention_len(), 1);
}

#[test]
fn wrong_digest_is_rejected_and_dropped() {
    let blob = vec![1u8, 2, 3];
    let mut chunk = chunks_of(&blob, 1).remove(0);
    chunk.digest[0] ^= 1;
    let mut r = replica_with(10);
    assert_eq!(r.save_blob(&chunk), Err(ReplicaError::DigestMismatch));
    assert!(!r.blob_exist(&chunk.digest));
    let w = r.get_blob(&chunk.digest);
    assert!(w.data.is_empty());
    assert_eq!(w.next, None);
}

#[test]
fn malformed_chunks_are_rejected() {
    let blob = vec![5u8; 10];
    let good = chunks_of(&blob, 1).remove(0);
    let mut r = replica_with(10);

    let mut past_end = good.clone();
    past_end.index = 1;
    assert_eq!(r.save_blob(&past_end), Err(ReplicaError::MalformedChunk));

    let mut short = good.clone();
    short.data.pop();
    assert_eq!(r.save_blob(&short), Err(ReplicaError::MalformedChunk));

    let mut empty = good.clone();
    empty.total = 0;
    empty.data.clear();
    assert_eq!(r.save_blob(&empty), Err(ReplicaError::MalformedChunk));
    assert_eq!(r.retention_len(), 0);

    let big = vec![1u8; CHUNK_SIZE + 1];
    let first = chunks_of(&big, 1).remove(0);
    assert_eq!(r.save_blob(&first), Ok(SaveOutcome::Partial));
    let mut other_total = chunks_of(&big, 1).remove(1);
    other_total.total += 1;
    other_total.data.push(1);
    assert_eq!(r.save_blob(&other_total), Err(ReplicaError::MalformedChunk));
}

#[test]
fn oldest_blob_is_evicted_at_the_bound() {
    let mut r = replica_with(2);
    let a = chunks_of(b"first blob", 10).remove(0);
    let b = chunks_of(b"second blob", 20).remove(0);
    let c = chunks_of(b"third blob", 30).remove(0);
    r.save_blob(&a).unwrap();
    r.save_blob(&b).unwrap();
    assert_eq!(r.retention_len(), 2);
    r.save_blob(&c).unwrap();
    assert_eq!(r.retention_len(), 2);
    assert!(!r.blob_exist(&a.digest));
    assert!(r.blob_exist(&b.digest));
    assert!(r.blob_exist(&c.digest));

    let old = chunks_of(b"ancient blob", 1).remove(0);
    assert_eq!(r.save_blob(&old), Ok(SaveOutcome::Evicted));
    assert!(!r.blob_exist(&old.digest));
    assert_eq!(r.retention_len(), 2);
}

#[test]
fn time_heap_evicts_oldest_entry() {
    let mut r = replica_with(1);
    assert_eq!(r.insert_to_time_heap([1u8; 32], 100), Ok(None));
    assert_eq!(r.retention_len(), 1);
    assert_eq!(r.insert_to_time_heap([2u8; 32], 200), Ok(Some((100, [1u8; 32]))));
    assert_eq!(r.retention_len(), 1);
    assert_eq!(r.insert_to_time_heap([3u8; 32], 50), Ok(Some((50, [3u8; 32]))));
    assert_eq!(r.retention_len(), 1);
}

#[test]
fn shrinking_the_bound_evicts_oldest() {
    let mut r = replica_with(5);
    let blobs: Vec<BlobChunk> = (0..4u8)
        .map(|i| chunks_of(&[i; 4], 100 + i as u128).remove(0))
        .collect();
    for c in &blobs {
        r.save_blob(c).unwrap();
    }
    let mut config = r.config();
    config.canister_storage_threshold = 2;
    r.update_config(config);
    assert_eq!(r.retention_len(), 2);
    assert!(!r.blob_exist(&blobs[0].digest));
    assert!(!r.blob_exist(&blobs[1].digest));
    assert!(r.blob_exist(&blobs[2].digest));
    assert!(r.blob_exist(&blobs[3].digest));
}

#[test]
fn split_sizes() {
    assert_eq!(BlobChunk::split_blob_into_chunks(&[]).len(), 0);
    let one = BlobChunk::split_blob_into_chunks(&vec![0u8; CHUNK_SIZE]);
    assert_eq!(one.len(), 1);
    let two = BlobChunk::split_blob_into_chunks(&vec![0u8; CHUNK_SIZE + 1]);
    assert_eq!(two.len(), 2);
    assert_eq!(two[1].len(), 1);
}

#[test]
fn store_map_writes_at_chunk_offsets() {
    let blob: Vec<u8> = (0..CHUNK_SIZE as u32 + 3).map(|i| (i % 7) as u8).collect();
    let digest = sha256(&blob);
    let mut r = replica_with(4);
    r.insert_to_time_heap(digest, 1).unwrap();
    assert_eq!(r.insert_to_store_map(&digest, 1, blob.len(), &vec![9, 9, 9]), Some(true));
    assert!(!r.check_digest(&digest));
    let w = r.get_blob_with_index(&digest, 0);
    assert_eq!(w.data.len(), blob.len());
    assert!(w.data[..CHUNK_SIZE].iter().all(|b| *b == 0));
    assert_eq!(&w.data[CHUNK_SIZE..], &[9, 9, 9]);
    assert_eq!(r.insert_to_store_map(&digest, 1, blob.len() + 1, &vec![9, 9, 9, 9]), None);
    assert_eq!(r.insert_to_store_map(&digest, 1, blob.len(), &blob[CHUNK_SIZE..].to_vec()), Some(true));
    assert_eq!(r.insert_to_store_map(&digest, 0, blob.len(), &blob[..CHUNK_SIZE].to_vec()), Some(false));
    assert!(r.check_digest(&digest));
    r.remove_expired_blob_from_map(&digest);
    assert!(!r.blob_exist(&digest));
    assert!(!r.check_digest(&digest));
}
