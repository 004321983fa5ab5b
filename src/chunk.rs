//! Splitting a blob into fixed-size chunks that carry the blob's digest,
//! write time and total size.
use vstd::prelude::*;

verus! {

/// Byte length of every chunk but possibly the last.
pub const CHUNK_SIZE: usize = 1048576;

/// One slice of a blob, as sent to a replica.
#[derive(Clone, Debug)]
pub struct BlobChunk {
    /// Position of the chunk within the blob.
    pub index: usize,
    /// SHA-256 of the whole blob.
    pub digest: [u8; 32],
    /// Write time in nanoseconds since the epoch, shared by all chunks.
    pub timestamp: u128,
    /// Length of the whole blob in bytes.
    pub total: usize,
    /// The chunk's bytes.
    pub data: Vec<u8>,
}

/// Number of chunks that a blob of `n` bytes is cut into.
pub open spec fn chunk_count(n: nat) -> nat {
    if n % (CHUNK_SIZE as nat) == 0 {
        n / (CHUNK_SIZE as nat)
    } else {
        n / (CHUNK_SIZE as nat) + 1
    }
}

/// Start of chunk `i` in its blob.
pub open spec fn chunk_start(i: int) -> int {
    i * CHUNK_SIZE
}

/// End (exclusive) of chunk `i` in a blob of `n` bytes.
pub open spec fn chunk_end(n: int, i: int) -> int {
    if (i + 1) * CHUNK_SIZE < n {
        (i + 1) * CHUNK_SIZE
    } else {
        n
    }
}

/// The bytes of chunk `i` of `blob`.
pub open spec fn chunk_bytes(blob: Seq<u8>, i: int) -> Seq<u8> {
    blob.subrange(chunk_start(i), chunk_end(blob.len() as int, i))
}

/// Copies `src[start..end]` into a new vector.
pub fn copy_range(src: &[u8], start: usize, end: usize) -> (r: Vec<u8>)
    requires
        start <= end <= src@.len(),
    ensures
        r@ == src@.subrange(start as int, end as int),
{
    let mut r: Vec<u8> = Vec::with_capacity(end - start);
    let mut i: usize = start;
    while i < end
        invariant
            start <= i <= end <= src@.len(),
            r@ == src@.subrange(start as int, i as int),
        decreases end - i,
    {
        r.push(src[i]);
        i += 1;
    }
    r
}

proof fn lemma_chunk_count_end(n: nat, k: nat)
    requires
        k * (CHUNK_SIZE as nat) >= n,
        k == 0 || (k - 1) * (CHUNK_SIZE as nat) < n,
    ensures
        chunk_count(n) == k,
{
    let s = CHUNK_SIZE as nat;
    if k == 0 {
        assert(n == 0);
    } else {
        let q = n / s;
        let m = n % s;
        assert(n == q * s + m && m < s) by (nonlinear_arith)
            requires s > 0, q == n / s, m == n % s;
        if m == 0 {
            assert(q == k) by (nonlinear_arith)
                requires n == q * s, k * s >= n, (k - 1) * s < n, s > 0;
        } else {
            assert(q + 1 == k) by (nonlinear_arith)
                requires n == q * s + m, 0 < m < s, k * s >= n, (k - 1) * s < n, s > 0, k > 0;
        }
    }
}

/// A chunk index below the chunk count starts inside the blob.
pub proof fn lemma_chunk_start_in_blob(n: nat, i: nat)
    requires
        i < chunk_count(n),
    ensures
        i * (CHUNK_SIZE as nat) < n,
{
    let s = CHUNK_SIZE as nat;
    let q = n / s;
    let m = n % s;
    assert(n == q * s + m && m < s) by (nonlinear_arith)
        requires s > 0, q == n / s, m == n % s;
    if m == 0 {
        assert(i * s < n) by (nonlinear_arith)
            requires i < q, n == q * s, s > 0;
    } else {
        assert(i * s < n) by (nonlinear_arith)
            requires i <= q, n == q * s + m, m > 0;
    }
}

/// The number of chunks of a blob of `n` bytes.
pub fn count_chunks(n: usize) -> (r: usize)
    ensures
        r == chunk_count(n as nat),
{
    if n % CHUNK_SIZE == 0 {
        n / CHUNK_SIZE
    } else {
        n / CHUNK_SIZE + 1
    }
}

impl BlobChunk {
    /// Cuts a blob into chunks of `CHUNK_SIZE` bytes, the last possibly shorter.
    pub fn split_blob_into_chunks(blob: &[u8]) -> (r: Vec<Vec<u8>>)
        ensures
            r@.len() == chunk_count(blob@.len() as nat),
            forall|i: int| 0 <= i < r@.len() ==> #[trigger] r@[i]@ == chunk_bytes(blob@, i),
    {
        let n = blob.len();
        let mut chunks: Vec<Vec<u8>> = Vec::new();
        let mut start: usize = 0;
        let mut k: usize = 0;
        while start < n
            invariant
                n == blob@.len(),
                start == k * CHUNK_SIZE,
                start <= n || k > 0,
                k == 0 || (k - 1) * CHUNK_SIZE < n,
                chunks@.len() == k,
                forall|i: int| 0 <= i < k ==> #[trigger] chunks@[i]@ == chunk_bytes(blob@, i),
            decreases n - start,
        {
            let end: usize = if n - start > CHUNK_SIZE {
                start + CHUNK_SIZE
            } else {
                n
            };
            proof {
                assert((k + 1) * CHUNK_SIZE == k * CHUNK_SIZE + CHUNK_SIZE) by (nonlinear_arith);
            }
            let piece = copy_range(blob, start, end);
            chunks.push(piece);
            k += 1;
            if n - start > CHUNK_SIZE {
                start = start + CHUNK_SIZE;
            } else {
                proof {
                    lemma_chunk_count_end(n as nat, k as nat);
                }
                return chunks;
            }
        }
        proof {
            lemma_chunk_count_end(n as nat, k as nat);
        }
        chunks
    }

    /// The chunks of a blob with the given digest and write time: chunk `i`
    /// carries index `i`, the blob's length and the bytes of slice `i`.
    pub fn generate_chunks(blob: &[u8], digest: [u8; 32], timestamp: u128) -> (r: Vec<BlobChunk>)
        ensures
            r@.len() == chunk_count(blob@.len() as nat),
            forall|i: int|
                0 <= i < r@.len() ==> {
                    &&& (#[trigger] r@[i]).index == i
                    &&& r@[i].digest == digest
                    &&& r@[i].timestamp == timestamp
                    &&& r@[i].total == blob@.len()
                    &&& r@[i].data@ == chunk_bytes(blob@, i)
                },
    {
        let total = blob.len();
        let slices = Self::split_blob_into_chunks(blob);
        let mut chunks: Vec<BlobChunk> = Vec::with_capacity(slices.len());
        let mut index: usize = 0;
        while index < slices.len()
            invariant
                index <= slices@.len(),
                total == blob@.len(),
                slices@.len() == chunk_count(blob@.len() as nat),
                forall|i: int| 0 <= i < slices@.len() ==> #[trigger] slices@[i]@ == chunk_bytes(blob@, i),
                chunks@.len() == index,
                forall|i: int|
                    0 <= i < index ==> {
                        &&& (#[trigger] chunks@[i]).index == i
                        &&& chunks@[i].digest == digest
                        &&& chunks@[i].timestamp == timestamp
                        &&& chunks@[i].total == total
                        &&& chunks@[i].data@ == chunk_bytes(blob@, i)
                    },
            decreases slices@.len() - index,
        {
            let data = copy_range(slices[index].as_slice(), 0, slices[index].len());
            proof {
                assert(data@ =~= slices@[index as int]@);
            }
            chunks.push(BlobChunk { index, digest, timestamp, total, data });
            index += 1;
        }
        chunks
    }
}

} // verus!
