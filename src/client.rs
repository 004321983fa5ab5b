//! The client's decisions around dispersal: the key handed back for a
//! blob, the chunks written to each replica, when a write is retried or
//! spilled, which replica set the next blob goes to, and which bytes read
//! back from replicas are accepted.
use vstd::prelude::*;
use crate::chunk::{chunk_bytes, chunk_count, BlobChunk};
use crate::digest::{sha256, sha256_of};
use crate::replica::{same_digest, Blob};

verus! {

broadcast use vstd::array::group_array_axioms;

/// How long a blob stays retrievable, in nanoseconds (one week).
pub const BLOB_LIVE_TIME: u128 = 604800000000000;

/// Attempts made to write one chunk before it is spilled to disk.
pub const WRITE_ATTEMPTS: u32 = 3;

/// Seconds to wait between two attempts to write a chunk.
pub const WRITE_BACKOFF_SECS: u64 = 5;

/// Replicas in one replica set.
pub const REPLICA_NUM: usize = 1;

/// Replica sets to choose from.
pub const COLLECTION_SIZE: usize = 11;

/// Where a blob was written: its length and the replicas that hold it.
#[derive(Clone, Debug)]
pub struct RoutingInfo {
    pub total_size: usize,
    pub host_canisters: Vec<String>,
}

/// The client's handle on a written blob.
#[derive(Clone, Debug)]
pub struct BlobKey {
    pub digest: [u8; 32],
    pub expiry_timestamp: u128,
    pub routing_info: RoutingInfo,
}

/// Why a blob could not be read back.
#[derive(Clone, Copy, Debug, PartialEq, Eq, Structural)]
pub enum ReadError {
    /// The key's expiry time has passed.
    Expired,
    /// No replica returned bytes that hash to the key's digest.
    NotRetrievable,
}

/// What to do after one attempt to write a chunk.
#[derive(Clone, Copy, Debug, PartialEq, Eq, Structural)]
pub enum WriteAction {
    /// The chunk was accepted; go on with the next one.
    NextChunk,
    /// Wait `WRITE_BACKOFF_SECS` and try the same chunk again.
    Retry,
    /// Give up on this replica and spill the chunk to disk.
    Spill,
}

/// The key and chunks of a blob written at `timestamp` to the replicas
/// `hosts`: the digest is the blob's SHA-256, the key expires
/// `BLOB_LIVE_TIME` after the write, and the chunks are those of
/// `BlobChunk::generate_chunks`.
pub fn prepare_blob(blob: &[u8], timestamp: u128, hosts: Vec<String>) -> (r: (BlobKey, Vec<BlobChunk>))
    requires
        timestamp + BLOB_LIVE_TIME <= u128::MAX,
    ensures
        r.0.digest@ == sha256_of(blob@),
        r.0.expiry_timestamp == timestamp + BLOB_LIVE_TIME,
        r.0.routing_info.total_size == blob@.len(),
        r.0.routing_info.host_canisters@ == hosts@,
        r.1@.len() == chunk_count(blob@.len() as nat),
        forall|i: int|
            0 <= i < r.1@.len() ==> {
                &&& (#[trigger] r.1@[i]).index == i
                &&& r.1@[i].digest == r.0.digest
                &&& r.1@[i].timestamp == timestamp
                &&& r.1@[i].total == blob@.len()
                &&& r.1@[i].data@ == chunk_bytes(blob@, i)
            },
{
    let digest = sha256(blob);
    let chunks = BlobChunk::generate_chunks(blob, digest, timestamp);
    let key = BlobKey {
        digest,
        expiry_timestamp: timestamp + BLOB_LIVE_TIME,
        routing_info: RoutingInfo { total_size: blob.len(), host_canisters: hosts },
    };
    (key, chunks)
}

/// A key may be used until its expiry time has passed.
pub fn check_expiry(key: &BlobKey, now: u128) -> (r: Result<(), ReadError>)
    ensures
        r is Err <==> key.expiry_timestamp < now,
        r matches Err(e) ==> e == ReadError::Expired,
{
    if key.expiry_timestamp < now {
        Err(ReadError::Expired)
    } else {
        Ok(())
    }
}

/// Whether bytes read back are those of the blob with this digest.
pub open spec fn acceptable(data: Seq<u8>, digest: [u8; 32]) -> bool {
    data.len() > 0 && sha256_of(data) == digest@
}

/// Appends one window read from a replica to the bytes gathered so far,
/// and gives the index of the window to fetch next, if any.
pub fn append_window(buffer: &mut Vec<u8>, window: Blob) -> (r: Option<u64>)
    ensures
        final(buffer)@ == old(buffer)@ + window.data@,
        r == window.next,
{
    let mut data = window.data;
    buffer.append(&mut data);
    window.next
}

/// Accepts the bytes read from one replica when they are not empty and
/// hash to the key's digest.
pub fn accept_blob(data: Vec<u8>, digest: &[u8; 32]) -> (r: Result<Vec<u8>, ReadError>)
    ensures
        acceptable(data@, *digest) <==> r is Ok,
        r matches Ok(b) ==> b@ == data@,
        r matches Err(e) ==> e == ReadError::NotRetrievable,
{
    if data.len() == 0 {
        return Err(ReadError::NotRetrievable);
    }
    let h = sha256(data.as_slice());
    if same_digest(&h, digest) {
        Ok(data)
    } else {
        proof {
            if h@ == digest@ {
                assert forall|i: int| 0 <= i < 32 implies h[i] == digest[i] by {
                    assert(h[i] == h@[i] && digest[i] == digest@[i]);
                }
                assert(h =~= *digest);
            }
        }
        Err(ReadError::NotRetrievable)
    }
}

/// The first of the replicas' answers, in order of arrival, that hashes to
/// the digest; `NotRetrievable` when none does.
pub fn first_verified(answers: Vec<Vec<u8>>, digest: &[u8; 32]) -> (r: Result<Vec<u8>, ReadError>)
    ensures
        match r {
            Ok(b) => exists|i: int|
                0 <= i < answers@.len() && #[trigger] answers@[i]@ == b@ && acceptable(b@, *digest)
                    && forall|j: int| 0 <= j < i ==> !acceptable(#[trigger] answers@[j]@, *digest),
            Err(e) => e == ReadError::NotRetrievable && forall|j: int|
                0 <= j < answers@.len() ==> !acceptable(#[trigger] answers@[j]@, *digest),
        },
{
    let ghost all = answers@;
    let mut rest = answers;
    let ghost mut taken: int = 0;
    while rest.len() > 0
        invariant
            taken + rest@.len() == all.len(),
            0 <= taken,
            all == answers@,
            rest@ == all.subrange(taken, all.len() as int),
            forall|j: int| 0 <= j < taken ==> !acceptable(#[trigger] all[j]@, *digest),
        decreases rest@.len(),
    {
        let candidate = rest.remove(0);
        proof {
            assert(candidate == all[taken]);
            assert(rest@ =~= all.subrange(taken + 1, all.len() as int));
        }
        match accept_blob(candidate, digest) {
            Ok(b) => {
                proof {
                    assert(0 <= taken < all.len() && all[taken]@ == b@);
                    assert(all == answers@);
                    assert(answers@[taken]@ == b@ && acceptable(b@, *digest));
                    assert(forall|j: int| 0 <= j < taken ==> !acceptable(#[trigger] answers@[j]@, *digest));
                }
                return Ok(b);
            },
            Err(_) => {},
        }
        proof {
            taken = taken + 1;
        }
    }
    Err(ReadError::NotRetrievable)
}

/// The action after attempt number `attempt` (counted from zero) to write
/// a chunk, given whether the replica accepted it.
pub fn after_write_attempt(attempt: u32, accepted: bool) -> (r: WriteAction)
    ensures
        accepted ==> r == WriteAction::NextChunk,
        !accepted && attempt + 1 < WRITE_ATTEMPTS ==> r == WriteAction::Retry,
        !accepted && attempt + 1 >= WRITE_ATTEMPTS ==> r == WriteAction::Spill,
{
    if accepted {
        WriteAction::NextChunk
    } else if attempt < WRITE_ATTEMPTS - 1 {
        WriteAction::Retry
    } else {
        WriteAction::Spill
    }
}

/// Round-robin choice of the replica set for each new blob.
pub struct ReplicaSelector {
    index: usize,
    size: usize,
}

impl ReplicaSelector {
    pub closed spec fn position(self) -> nat {
        self.index as nat
    }

    pub closed spec fn count(self) -> nat {
        self.size as nat
    }

    pub open spec fn wf(self) -> bool {
        self.count() > 0 && self.position() < self.count()
    }

    /// A selector over `size` sets, starting from `seed` (a random number).
    pub fn new(seed: usize, size: usize) -> (r: ReplicaSelector)
        requires
            size > 0,
        ensures
            r.wf(),
            r.count() == size,
            r.position() == seed % size,
    {
        ReplicaSelector { index: seed % size, size }
    }

    /// The set to use now; the next call gives the following one, wrapping
    /// around after the last.
    pub fn get_storage_canisters(&mut self) -> (r: usize)
        requires
            old(self).wf(),
        ensures
            final(self).wf(),
            r == old(self).position(),
            final(self).count() == old(self).count(),
            final(self).position() == (old(self).position() + 1) % old(self).count(),
    {
        let r = self.index;
        proof {
            let p = self.index as int;
            let s = self.size as int;
            if p + 1 == s {
                vstd::arithmetic::div_mod::lemma_mod_self_0(s);
            } else {
                vstd::arithmetic::div_mod::lemma_small_mod((p + 1) as nat, s as nat);
            }
        }
        self.index = if self.index + 1 == self.size {
            0
        } else {
            self.index + 1
        };
        r
    }
}

} // verus!
