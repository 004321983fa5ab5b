//! A storage replica: reassembles chunks into blobs, checks each blob's
//! digest once complete, keeps at most a configured number of blobs (the
//! oldest are evicted first) and serves blobs back in bounded windows.
use vstd::prelude::*;
use vstd::multiset::Multiset;
use crate::chunk::{
    chunk_bytes, chunk_count, chunk_end, chunk_start, copy_range, count_chunks, lemma_chunk_start_in_blob, BlobChunk,
    CHUNK_SIZE,
};
use crate::digest::{hex_encode, hex_text, sha256, sha256_of};
use crate::store::{
    blob_entries, blob_store_contains, blob_store_get, blob_store_insert, blob_store_new,
    blob_store_remove, heap_entries, heap_len, heap_new, heap_pop, heap_push, BlobStore,
    RetentionEntry, RetentionHeap,
};

verus! {

broadcast use vstd::array::group_array_axioms;

/// Largest number of bytes that one read returns.
pub const QUERY_RESPONSE_SIZE: usize = 2621440;

/// Default bound on the number of blobs that a replica keeps.
pub const CANISTER_STORAGE_THRESHOLD: u32 = 30240;

/// Settings of a replica.
#[derive(Clone, Copy, Debug)]
pub struct StorageConfig {
    /// Largest number of bytes that one read returns.
    pub query_response_size: usize,
    /// Largest number of blobs kept.
    pub canister_storage_threshold: u32,
}

impl StorageConfig {
    pub open spec fn valid(self) -> bool {
        self.query_response_size > 0
    }

    /// The default settings.
    pub fn new() -> (r: StorageConfig)
        ensures
            r.query_response_size == QUERY_RESPONSE_SIZE,
            r.canister_storage_threshold == CANISTER_STORAGE_THRESHOLD,
            r.valid(),
    {
        StorageConfig {
            query_response_size: QUERY_RESPONSE_SIZE,
            canister_storage_threshold: CANISTER_STORAGE_THRESHOLD,
        }
    }
}

/// Why a replica refused a chunk.
#[derive(Clone, Copy, Debug, PartialEq, Eq, Structural)]
pub enum ReplicaError {
    /// The reassembled blob does not hash to the digest that its chunks carry.
    DigestMismatch,
    /// The chunk's index, length or total size does not fit the blob.
    MalformedChunk,
    /// Stable memory could not grow to record the blob.
    OutOfMemory,
}

/// What became of an accepted chunk.
#[derive(Clone, Copy, Debug, PartialEq, Eq, Structural)]
pub enum SaveOutcome {
    /// The blob still misses bytes at its end.
    Partial,
    /// The blob is whole and matches its digest.
    Complete,
    /// The blob was older than every kept blob and was evicted at once.
    Evicted,
}

/// One window of a stored blob, and the index of the next window if any.
#[derive(Clone, Debug)]
pub struct Blob {
    pub data: Vec<u8>,
    pub next: Option<u64>,
}

/// The key under which a blob with this digest is stored.
pub open spec fn key_of(digest: [u8; 32]) -> Seq<char> {
    hex_text(digest@)
}

/// Whether some retention entry names the blob stored under `k`.
pub open spec fn retained(entries: Multiset<RetentionEntry>, k: Seq<char>) -> bool {
    exists|e: RetentionEntry| #[trigger] entries.count(e) > 0 && k == key_of(e.1)
}

/// Whether bytes `data` fit as chunk `index` of a blob of `total` bytes,
/// given the buffer already stored for that blob, if any.
pub open spec fn fits(index: nat, total: nat, data: Seq<u8>, stored: Option<Seq<u8>>) -> bool {
    &&& index < chunk_count(total)
    &&& data.len() == chunk_end(total as int, index as int) - chunk_start(index as int)
    &&& stored matches Some(b) ==> b.len() == total
}

/// Whether a chunk fits the blob it belongs to, given the buffer already
/// stored for that blob, if any.
pub open spec fn chunk_fits(c: BlobChunk, stored: Option<Seq<u8>>) -> bool {
    fits(c.index as nat, c.total as nat, c.data@, stored)
}

/// `buf` with `data` written from offset `start` on.
pub open spec fn write_at(buf: Seq<u8>, start: int, data: Seq<u8>) -> Seq<u8> {
    buf.subrange(0, start) + data + buf.subrange(start + data.len(), buf.len() as int)
}

/// A buffer of `n` zero bytes.
pub open spec fn zeros(n: nat) -> Seq<u8> {
    Seq::new(n, |i: int| 0u8)
}

/// The buffer left by writing chunk `index` onto the stored buffer, or onto
/// zeros when there is none.
pub open spec fn written_buffer(index: nat, total: nat, data: Seq<u8>, stored: Option<Seq<u8>>) -> Seq<u8> {
    let base = match stored {
        Some(b) => b,
        None => zeros(total),
    };
    write_at(base, chunk_start(index as int), data)
}

/// The buffer that a fitting chunk leaves behind.
pub open spec fn assembled(c: BlobChunk, stored: Option<Seq<u8>>) -> Seq<u8> {
    written_buffer(c.index as nat, c.total as nat, c.data@, stored)
}

/// Whether a chunk reaches the end of its blob.
pub open spec fn is_last(c: BlobChunk) -> bool {
    chunk_end(c.total as int, c.index as int) == c.total
}

/// Window `i` of `data` for windows of `q` bytes.
pub open spec fn window(data: Seq<u8>, q: int, i: int) -> Seq<u8> {
    if i * q >= data.len() {
        Seq::empty()
    } else if (i + 1) * q < data.len() {
        data.subrange(i * q, (i + 1) * q)
    } else {
        data.subrange(i * q, data.len() as int)
    }
}

/// Whether a window follows window `i` of `data`.
pub open spec fn has_next(data: Seq<u8>, q: int, i: int) -> bool {
    (i + 1) * q < data.len()
}

/// Whether two digests are the same bytes.
pub fn same_digest(a: &[u8; 32], b: &[u8; 32]) -> (r: bool)
    ensures
        r == (*a == *b),
{
    let mut i: usize = 0;
    while i < 32
        invariant
            i <= 32,
            forall|j: int| 0 <= j < i ==> a[j] == b[j],
        decreases 32 - i,
    {
        if a[i] != b[i] {
            return false;
        }
        i += 1;
    }
    assert(*a =~= *b);
    true
}

/// A buffer of `n` zero bytes.
fn zeroed(n: usize) -> (r: Vec<u8>)
    ensures
        r@ == zeros(n as nat),
{
    let mut r: Vec<u8> = Vec::with_capacity(n);
    let mut i: usize = 0;
    while i < n
        invariant
            i <= n,
            r@ =~= zeros(i as nat),
        decreases n - i,
    {
        r.push(0u8);
        i += 1;
    }
    r
}

/// Writes `data` into `buf` from offset `start` on.
fn write_into(buf: &mut Vec<u8>, start: usize, data: &Vec<u8>)
    requires
        start + data@.len() <= old(buf)@.len(),
    ensures
        final(buf)@ == write_at(old(buf)@, start as int, data@),
{
    let n = buf.len();
    let mut j: usize = 0;
    while j < data.len()
        invariant
            n == buf@.len(),
            start + data@.len() <= buf@.len(),
            buf@.len() == old(buf)@.len(),
            j <= data@.len(),
            forall|p: int| 0 <= p < buf@.len() ==> #[trigger] buf@[p] == if start <= p < start + j {
                data@[p - start]
            } else {
                old(buf)@[p]
            },
        decreases data@.len() - j,
    {
        buf.set(start + j, data[j]);
        j += 1;
    }
    assert(buf@ =~= write_at(old(buf)@, start as int, data@));
}

/// The buffer left by writing the chunks in order onto `base`.
pub open spec fn apply_writes(base: Seq<u8>, chunks: Seq<BlobChunk>) -> Seq<u8>
    decreases chunks.len(),
{
    if chunks.len() == 0 {
        base
    } else {
        let c = chunks.last();
        write_at(apply_writes(base, chunks.drop_last()), chunk_start(c.index as int), c.data@)
    }
}

/// Whether some chunk of the list covers byte `p` of a blob of `n` bytes.
pub open spec fn covered(chunks: Seq<BlobChunk>, n: int, p: int) -> bool {
    exists|j: int|
        0 <= j < chunks.len() && chunk_start(#[trigger] chunks[j].index as int) <= p < chunk_end(
            n,
            chunks[j].index as int,
        )
}

/// Whether some chunk of the list has index `i`.
pub open spec fn written(chunks: Seq<BlobChunk>, i: int) -> bool {
    exists|j: int| 0 <= j < chunks.len() && #[trigger] chunks[j].index == i
}

/// Whether every chunk of the list is a true chunk of `blob`.
pub open spec fn chunks_of(blob: Seq<u8>, chunks: Seq<BlobChunk>) -> bool {
    forall|j: int|
        0 <= j < chunks.len() ==> {
            &&& (#[trigger] chunks[j]).total == blob.len()
            &&& chunks[j].index < chunk_count(blob.len() as nat)
            &&& chunks[j].data@ == chunk_bytes(blob, chunks[j].index as int)
        }
}

proof fn lemma_chunk_bounds(n: nat, i: nat)
    requires
        i < chunk_count(n),
    ensures
        0 <= chunk_start(i as int) < chunk_end(n as int, i as int) <= n,
{
    lemma_chunk_start_in_blob(n, i);
    assert(i * CHUNK_SIZE >= 0) by (nonlinear_arith);
    assert((i + 1) * CHUNK_SIZE == i * CHUNK_SIZE + CHUNK_SIZE) by (nonlinear_arith);
}

proof fn lemma_writes_bytewise(blob: Seq<u8>, base: Seq<u8>, chunks: Seq<BlobChunk>)
    requires
        base.len() == blob.len(),
        chunks_of(blob, chunks),
    ensures
        apply_writes(base, chunks).len() == blob.len(),
        forall|p: int|
            0 <= p < blob.len() ==> #[trigger] apply_writes(base, chunks)[p] == if covered(
                chunks,
                blob.len() as int,
                p,
            ) {
                blob[p]
            } else {
                base[p]
            },
    decreases chunks.len(),
{
    if chunks.len() > 0 {
        let rest = chunks.drop_last();
        let c = chunks.last();
        let n = blob.len() as int;
        assert(chunks_of(blob, rest)) by {
            assert forall|j: int| 0 <= j < rest.len() implies {
                &&& (#[trigger] rest[j]).total == blob.len()
                &&& rest[j].index < chunk_count(blob.len() as nat)
                &&& rest[j].data@ == chunk_bytes(blob, rest[j].index as int)
            } by {
                assert(rest[j] == chunks[j]);
            }
        }
        lemma_writes_bytewise(blob, base, rest);
        assert(c == chunks[chunks.len() - 1]);
        lemma_chunk_bounds(blob.len() as nat, c.index as nat);
        let prev = apply_writes(base, rest);
        let st = chunk_start(c.index as int);
        let en = chunk_end(n, c.index as int);
        assert(c.data@.len() == en - st);
        let cur = apply_writes(base, chunks);
        assert(cur == write_at(prev, st, c.data@));
        assert forall|p: int| 0 <= p < n implies #[trigger] cur[p] == if covered(chunks, n, p) {
            blob[p]
        } else {
            base[p]
        } by {
            if st <= p < en {
                assert(cur[p] == c.data@[p - st]);
                assert(covered(chunks, n, p)) by {
                    assert(chunk_start(chunks[chunks.len() - 1].index as int) <= p);
                }
            } else {
                assert(cur[p] == prev[p]);
                if covered(chunks, n, p) {
                    let j = choose|j: int|
                        0 <= j < chunks.len() && chunk_start(#[trigger] chunks[j].index as int) <= p
                            < chunk_end(n, chunks[j].index as int);
                    assert(j < chunks.len() - 1);
                    assert(rest[j] == chunks[j]);
                    assert(covered(rest, n, p));
                } else {
                    if covered(rest, n, p) {
                        let j = choose|j: int|
                            0 <= j < rest.len() && chunk_start(#[trigger] rest[j].index as int) <= p
                                < chunk_end(n, rest[j].index as int);
                        assert(chunks[j] == rest[j]);
                    }
                }
            }
        }
    }
}

/// Chunks of a blob, written onto any buffer of the blob's length in any
/// order and with any repetitions, leave exactly the blob's bytes once
/// every chunk index has been written at least once.
pub proof fn lemma_chunks_reassemble(blob: Seq<u8>, base: Seq<u8>, chunks: Seq<BlobChunk>)
    requires
        base.len() == blob.len(),
        chunks_of(blob, chunks),
        forall|i: int| 0 <= i < chunk_count(blob.len() as nat) ==> #[trigger] written(chunks, i),
    ensures
        apply_writes(base, chunks) == blob,
{
    lemma_writes_bytewise(blob, base, chunks);
    let n = blob.len() as int;
    let s = CHUNK_SIZE as int;
    assert forall|p: int| 0 <= p < n implies #[trigger] apply_writes(base, chunks)[p] == blob[p] by {
        let i = p / s;
        assert(i * s <= p < (i + 1) * s) by (nonlinear_arith)
            requires i == p / s, s > 0, p >= 0;
        assert(0 <= i);
        assert(i < chunk_count(n as nat)) by {
            let q = n / s;
            let m = n % s;
            assert(n == q * s + m && 0 <= m < s) by (nonlinear_arith)
                requires s > 0, q == n / s, m == n % s, n >= 0;
            if m == 0 {
                assert(i < q) by (nonlinear_arith)
                    requires i * s <= p, p < n, n == q * s, s > 0;
            } else {
                assert(i <= q) by (nonlinear_arith)
                    requires i * s <= p, p < n, n == q * s + m, m < s, s > 0;
            }
        }
        assert(written(chunks, i));
        let j = choose|j: int| 0 <= j < chunks.len() && #[trigger] chunks[j].index == i;
        assert(chunk_start(chunks[j].index as int) <= p < chunk_end(n, chunks[j].index as int));
        assert(covered(chunks, n, p));
    }
    assert(apply_writes(base, chunks) =~= blob);
}

/// A replica's blobs, retention heap and settings.
pub struct StorageReplica {
    blobs: BlobStore,
    heap: RetentionHeap,
    config: StorageConfig,
}

impl StorageReplica {
    /// The stored buffers, by key.
    pub closed spec fn stored(self) -> Map<Seq<char>, Seq<u8>> {
        blob_entries(self.blobs)
    }

    /// The retention entries.
    pub closed spec fn entries(self) -> Multiset<RetentionEntry> {
        heap_entries(self.heap)
    }

    pub closed spec fn settings(self) -> StorageConfig {
        self.config
    }

    /// The buffer stored for a digest, if any.
    pub open spec fn buffer(self, digest: [u8; 32]) -> Option<Seq<u8>> {
        if self.stored().contains_key(key_of(digest)) {
            Some(self.stored()[key_of(digest)])
        } else {
            None
        }
    }

    /// The retention heap stays within its bound, and every stored buffer is
    /// named by a retention entry.
    pub open spec fn wf(self) -> bool {
        &&& self.settings().valid()
        &&& self.entries().len() <= self.settings().canister_storage_threshold
        &&& forall|k: Seq<char>| #[trigger]
            self.stored().contains_key(k) ==> retained(self.entries(), k)
    }

    /// After any sequence of writes the retention heap holds at most the
    /// configured number of entries, and every stored buffer is named by a
    /// retention entry.
    pub proof fn lemma_retention_bound(self)
        requires
            self.wf(),
        ensures
            self.entries().len() <= self.settings().canister_storage_threshold,
            forall|k: Seq<char>| #[trigger]
                self.stored().contains_key(k) ==> retained(self.entries(), k),
    {
    }

    /// A replica with no blobs, or nothing when stable memory cannot grow.
    pub fn new(config: StorageConfig) -> (r: Option<StorageReplica>)
        requires
            config.valid(),
        ensures
            r matches Some(s) ==> {
                &&& s.wf()
                &&& s.settings() == config
                &&& s.stored() == Map::<Seq<char>, Seq<u8>>::empty()
                &&& s.entries().len() == 0
            },
    {
        match heap_new() {
            None => None,
            Some(heap) => Some(StorageReplica { blobs: blob_store_new(), heap, config }),
        }
    }

    pub fn config(&self) -> (r: StorageConfig)
        ensures
            r == self.settings(),
    {
        self.config
    }

    /// Number of retention entries.
    pub fn retention_len(&self) -> (r: u64)
        ensures
            r == self.entries().len(),
    {
        heap_len(&self.heap)
    }

    /// Records a new blob in the retention heap. When the heap then holds
    /// more entries than the bound, an entry with the least time leaves it
    /// and is returned.
    pub fn insert_to_time_heap(&mut self, digest: [u8; 32], timestamp: u128) -> (r: Result<
        Option<RetentionEntry>,
        ReplicaError,
    >)
        requires
            old(self).entries().len() <= old(self).settings().canister_storage_threshold,
        ensures
            final(self).stored() == old(self).stored(),
            final(self).settings() == old(self).settings(),
            final(self).entries().len() <= final(self).settings().canister_storage_threshold,
            match r {
                Err(e) => e == ReplicaError::OutOfMemory && final(self).entries() == old(
                    self,
                ).entries(),
                Ok(None) => {
                    &&& old(self).entries().len() < old(self).settings().canister_storage_threshold
                    &&& final(self).entries() == old(self).entries().insert((timestamp, digest))
                },
                Ok(Some(x)) => {
                    let grown = old(self).entries().insert((timestamp, digest));
                    &&& old(self).entries().len() == old(self).settings().canister_storage_threshold
                    &&& grown.count(x) > 0
                    &&& final(self).entries() == grown.remove(x)
                    &&& forall|y: RetentionEntry| grown.count(y) > 0 ==> x.0 <= y.0
                },
            },
    {
        if !heap_push(&mut self.heap, (timestamp, digest)) {
            return Err(ReplicaError::OutOfMemory);
        }
        if heap_len(&self.heap) > self.config.canister_storage_threshold as u64 {
            let popped = heap_pop(&mut self.heap);
            Ok(popped)
        } else {
            Ok(None)
        }
    }

    /// Drops the buffer stored for a digest, if any.
    pub fn remove_expired_blob_from_map(&mut self, digest: &[u8; 32])
        ensures
            final(self).stored() == old(self).stored().remove(key_of(*digest)),
            final(self).entries() == old(self).entries(),
            final(self).settings() == old(self).settings(),
            old(self).wf() ==> final(self).wf(),
    {
        let key = hex_encode(digest.as_slice());
        blob_store_remove(&mut self.blobs, &key);
        proof {
            if old(self).wf() {
                assert forall|k: Seq<char>| #[trigger]
                    self.stored().contains_key(k) implies retained(self.entries(), k) by {
                    assert(old(self).stored().contains_key(k));
                }
            }
        }
    }

    /// Writes bytes as chunk `index` of the blob with this digest: into the
    /// stored buffer, or into a new zero-filled one of `total` bytes. Gives
    /// whether the chunk reaches the blob's end, or nothing (and changes
    /// nothing) when the stored buffer has another length.
    pub fn insert_to_store_map(
        &mut self,
        digest: &[u8; 32],
        index: usize,
        total: usize,
        data: &Vec<u8>,
    ) -> (r: Option<bool>)
        requires
            old(self).wf(),
            fits(index as nat, total as nat, data@, None),
            retained(old(self).entries(), key_of(*digest)),
        ensures
            final(self).wf(),
            final(self).entries() == old(self).entries(),
            final(self).settings() == old(self).settings(),
            !fits(index as nat, total as nat, data@, old(self).buffer(*digest)) ==> r is None
                && final(self).stored() == old(self).stored(),
            fits(index as nat, total as nat, data@, old(self).buffer(*digest)) ==> {
                &&& r == Some(chunk_end(total as int, index as int) == total)
                &&& final(self).stored() == old(self).stored().insert(
                    key_of(*digest),
                    written_buffer(index as nat, total as nat, data@, old(self).buffer(*digest)),
                )
            },
    {
        let key = hex_encode(digest.as_slice());
        let mut buf = match blob_store_get(&self.blobs, &key) {
            Some(b) => {
                if b.len() != total {
                    return None;
                }
                b
            },
            None => zeroed(total),
        };
        proof {
            lemma_chunk_start_in_blob(total as nat, index as nat);
        }
        let start = index * CHUNK_SIZE;
        let end = if total - start > CHUNK_SIZE {
            start + CHUNK_SIZE
        } else {
            total
        };
        write_into(&mut buf, start, data);
        blob_store_insert(&mut self.blobs, key, buf);
        Some(end == total)
    }

    /// Whether the buffer stored for a digest hashes to that digest.
    pub fn check_digest(&self, digest: &[u8; 32]) -> (r: bool)
        ensures
            r == (self.buffer(*digest) matches Some(b) && sha256_of(b) == digest@),
    {
        let key = hex_encode(digest.as_slice());
        match blob_store_get(&self.blobs, &key) {
            None => false,
            Some(b) => {
                let h = sha256(b.as_slice());
                let same = same_digest(&h, digest);
                proof {
                    if !same && h@ == digest@ {
                        assert forall|i: int| 0 <= i < 32 implies h[i] == digest[i] by {
                            assert(h[i] == h@[i] && digest[i] == digest@[i]);
                        }
                        assert(h =~= *digest);
                    }
                }
                same
            },
        }
    }

    /// Takes in one chunk of a blob.
    ///
    /// A blob not seen before is first entered in the retention heap, which
    /// may evict the oldest blob. The chunk's bytes are then written into
    /// the blob's buffer (zero-filled when new). Once a chunk reaches the
    /// blob's end the buffer must hash to the chunk's digest, or it is
    /// dropped.
    pub fn save_blob(&mut self, chunk: &BlobChunk) -> (r: Result<SaveOutcome, ReplicaError>)
        requires
            old(self).wf(),
        ensures
            final(self).wf(),
            final(self).settings() == old(self).settings(),
            !chunk_fits(*chunk, old(self).buffer(chunk.digest)) ==> {
                &&& r == Err::<SaveOutcome, ReplicaError>(ReplicaError::MalformedChunk)
                &&& final(self).stored() == old(self).stored()
                &&& final(self).entries() == old(self).entries()
            },
            chunk_fits(*chunk, old(self).buffer(chunk.digest)) ==> {
                let full = assembled(*chunk, old(self).buffer(chunk.digest));
                match r {
                    Ok(SaveOutcome::Partial) => !is_last(*chunk) && final(self).buffer(chunk.digest)
                        == Some(full),
                    Ok(SaveOutcome::Complete) => {
                        &&& is_last(*chunk)
                        &&& sha256_of(full) == chunk.digest@
                        &&& final(self).buffer(chunk.digest) == Some(full)
                    },
                    Err(ReplicaError::DigestMismatch) => {
                        &&& is_last(*chunk)
                        &&& sha256_of(full) != chunk.digest@
                        &&& final(self).buffer(chunk.digest) is None
                    },
                    Ok(SaveOutcome::Evicted) => {
                        &&& old(self).buffer(chunk.digest) is None
                        &&& final(self).buffer(chunk.digest) is None
                        &&& old(self).entries().len() == old(self).settings().canister_storage_threshold
                        &&& forall|y: RetentionEntry| #[trigger]
                            old(self).entries().count(y) > 0 ==> chunk.timestamp <= y.0
                    },
                    Err(ReplicaError::OutOfMemory) => {
                        &&& old(self).buffer(chunk.digest) is None
                        &&& final(self).stored() == old(self).stored()
                        &&& final(self).entries() == old(self).entries()
                    },
                    Err(ReplicaError::MalformedChunk) => false,
                }
            },
            old(self).buffer(chunk.digest) is Some ==> final(self).entries() == old(self).entries(),
            old(self).buffer(chunk.digest) is None && chunk_fits(
                *chunk,
                old(self).buffer(chunk.digest),
            ) && r != Err::<SaveOutcome, ReplicaError>(ReplicaError::OutOfMemory)
                ==> final(self).entries().len() == if old(self).entries().len() < old(
                self,
            ).settings().canister_storage_threshold {
                old(self).entries().len() + 1 as int
            } else {
                old(self).entries().len() as int
            },
            forall|k: Seq<char>|
                k != key_of(chunk.digest) && #[trigger] final(self).stored().contains_key(k)
                    ==> old(self).stored().contains_key(k) && final(self).stored()[k] == old(
                    self,
                ).stored()[k],
            old(self).buffer(chunk.digest) is Some ==> forall|k: Seq<char>|
                k != key_of(chunk.digest) ==> (#[trigger] final(self).stored().contains_key(k)
                    == old(self).stored().contains_key(k)),
    {
        let ghost key = key_of(chunk.digest);
        let total = chunk.total;
        if chunk.index >= count_chunks(total) {
            return Err(ReplicaError::MalformedChunk);
        }
        proof {
            lemma_chunk_start_in_blob(total as nat, chunk.index as nat);
        }
        let start = chunk.index * CHUNK_SIZE;
        let end = if total - start > CHUNK_SIZE {
            start + CHUNK_SIZE
        } else {
            total
        };
        if chunk.data.len() != end - start {
            return Err(ReplicaError::MalformedChunk);
        }
        if !self.blob_exist(&chunk.digest) {
            match self.insert_to_time_heap(chunk.digest, chunk.timestamp) {
                Err(e) => {
                    return Err(e);
                },
                Ok(popped) => {
                    if let Some(x) = popped {
                        self.remove_expired_blob_from_map(&x.1);
                        proof {
                            assert forall|k: Seq<char>| #[trigger]
                                self.stored().contains_key(k) implies retained(
                                self.entries(),
                                k,
                            ) by {
                                let w = choose|w: RetentionEntry|
                                    #[trigger] old(self).entries().count(w) > 0 && k == key_of(
                                        w.1,
                                    );
                                assert(self.entries().count(w) > 0);
                            }
                        }
                        if x.0 == chunk.timestamp && same_digest(&x.1, &chunk.digest) {
                            proof {
                                let grown = old(self).entries().insert(
                                    (chunk.timestamp, chunk.digest),
                                );
                                assert forall|y: RetentionEntry| #[trigger]
                                    old(self).entries().count(y) > 0 implies chunk.timestamp
                                    <= y.0 by {
                                    assert(grown.count(y) > 0);
                                }
                                assert(!self.stored().contains_key(key));
                            }
                            return Ok(SaveOutcome::Evicted);
                        }
                    }
                    proof {
                        let e = (chunk.timestamp, chunk.digest);
                        assert(self.entries().count(e) > 0);
                        assert forall|k: Seq<char>| #[trigger]
                            self.stored().contains_key(k) implies retained(
                            self.entries(),
                            k,
                        ) by {
                            if popped is None {
                                let w = choose|w: RetentionEntry|
                                    #[trigger] old(self).entries().count(w) > 0 && k == key_of(
                                        w.1,
                                    );
                                assert(self.entries().count(w) > 0);
                            }
                        }
                    }
                },
            }
        }
        proof {
            let e = (chunk.timestamp, chunk.digest);
            assert(self.entries().count(e) > 0 || old(self).stored().contains_key(key));
            assert(retained(self.entries(), key));
        }
        match self.insert_to_store_map(&chunk.digest, chunk.index, total, &chunk.data) {
            None => Err(ReplicaError::MalformedChunk),
            Some(false) => Ok(SaveOutcome::Partial),
            Some(true) => {
                if self.check_digest(&chunk.digest) {
                    Ok(SaveOutcome::Complete)
                } else {
                    self.remove_expired_blob_from_map(&chunk.digest);
                    Err(ReplicaError::DigestMismatch)
                }
            },
        }
    }

    /// Window `index` of the blob stored for a digest: bytes
    /// `[index * q, min((index + 1) * q, len))` for `q` the configured
    /// response size, with the next index when more bytes follow. An unknown
    /// digest, or an index past the end, gives no bytes and no next index.
    pub fn get_blob_with_index(&self, digest: &[u8; 32], index: u64) -> (r: Blob)
        requires
            self.wf(),
        ensures
            match self.buffer(*digest) {
                None => r.data@.len() == 0 && r.next is None,
                Some(b) => {
                    let q = self.settings().query_response_size as int;
                    &&& r.data@ == window(b, q, index as int)
                    &&& r.next == if has_next(b, q, index as int) {
                        Some((index + 1) as u64)
                    } else {
                        None
                    }
                },
            },
    {
        let q = self.config.query_response_size;
        let key = hex_encode(digest.as_slice());
        match blob_store_get(&self.blobs, &key) {
            None => Blob { data: Vec::new(), next: None },
            Some(data) => {
                let len = data.len();
                let full = len / q;
                if index > full as u64 {
                    proof {
                        assert((index as int) * (q as int) > len) by (nonlinear_arith)
                            requires index > full, full == len / q, q > 0;
                        assert((index as int + 1) * (q as int) > len) by (nonlinear_arith)
                            requires index * q > len, q > 0;
                    }
                    return Blob { data: Vec::new(), next: None };
                }
                proof {
                    assert((index as int) * (q as int) <= len) by (nonlinear_arith)
                        requires index <= full, full == len / q, q > 0;
                }
                let start = index as usize * q;
                proof {
                    assert((index as int + 1) * (q as int) == start + q) by (nonlinear_arith)
                        requires start == index * q;
                }
                if start >= len {
                    Blob { data: Vec::new(), next: None }
                } else if len - start > q {
                    proof {
                        assert(index < len) by (nonlinear_arith)
                            requires start == index * q, start < len, q > 0;
                    }
                    Blob { data: copy_range(data.as_slice(), start, start + q), next: Some(index + 1) }
                } else {
                    Blob { data: copy_range(data.as_slice(), start, len), next: None }
                }
            },
        }
    }

    /// The first window of the blob stored for a digest.
    pub fn get_blob(&self, digest: &[u8; 32]) -> (r: Blob)
        requires
            self.wf(),
        ensures
            match self.buffer(*digest) {
                None => r.data@.len() == 0 && r.next is None,
                Some(b) => {
                    let q = self.settings().query_response_size as int;
                    &&& r.data@ == window(b, q, 0)
                    &&& r.next == if has_next(b, q, 0) {
                        Some(1u64)
                    } else {
                        None
                    }
                },
            },
    {
        self.get_blob_with_index(digest, 0)
    }

    /// Replaces the settings, evicting the oldest blobs until the retention
    /// heap fits the new bound.
    pub fn update_config(&mut self, config: StorageConfig)
        requires
            old(self).wf(),
            config.valid(),
        ensures
            final(self).wf(),
            final(self).settings() == config,
            final(self).entries().len() == if old(self).entries().len()
                <= config.canister_storage_threshold {
                old(self).entries().len() as int
            } else {
                config.canister_storage_threshold as int
            },
            forall|k: Seq<char>| #[trigger]
                final(self).stored().contains_key(k) ==> old(self).stored().contains_key(k)
                    && final(self).stored()[k] == old(self).stored()[k],
    {
        self.config = config;
        assert(self.stored() == old(self).stored());
        assert(self.entries() == old(self).entries());
        while heap_len(&self.heap) > config.canister_storage_threshold as u64
            invariant
                self.settings() == config,
                config.valid(),
                forall|k: Seq<char>| #[trigger]
                    self.stored().contains_key(k) ==> retained(self.entries(), k),
                forall|k: Seq<char>| #[trigger]
                    self.stored().contains_key(k) ==> old(self).stored().contains_key(k)
                        && self.stored()[k] == old(self).stored()[k],
                self.entries().len() >= config.canister_storage_threshold || self.entries().len()
                    == old(self).entries().len(),
                self.entries().len() <= old(self).entries().len(),
            decreases self.entries().len(),
        {
            let ghost before = self.entries();
            let ghost stored_before = self.stored();
            let popped = heap_pop(&mut self.heap);
            if let Some(x) = popped {
                self.remove_expired_blob_from_map(&x.1);
                proof {
                    assert forall|k: Seq<char>| #[trigger]
                        self.stored().contains_key(k) implies retained(self.entries(), k) by {
                        assert(stored_before.contains_key(k));
                        assert(retained(before, k));
                        let w = choose|w: RetentionEntry|
                            #[trigger] before.count(w) > 0 && k == key_of(w.1);
                        assert(w != x);
                        assert(self.entries().count(w) > 0);
                    }
                }
            }
        }
    }

    /// Whether a buffer is stored for the digest.
    pub fn blob_exist(&self, digest: &[u8; 32]) -> (r: bool)
        ensures
            r == self.stored().contains_key(key_of(*digest)),
    {
        let key = hex_encode(digest.as_slice());
        blob_store_contains(&self.blobs, &key)
    }
}

} // verus!
