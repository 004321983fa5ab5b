//! A fixed-size buffer of blob ids that reports each time it fills.
use vstd::prelude::*;
use crate::replica::same_digest;

verus! {

/// Blob ids gathered before a batch is committed.
pub const BATCH_SIZE: usize = 12;

/// A blob, named by its digest and the time it was written.
#[derive(Clone, Copy, Debug, Eq)]
pub struct BlobId {
    /// SHA-256 of the blob.
    pub digest: [u8; 32],
    /// Write time in nanoseconds since the epoch.
    pub timestamp: u128,
}

impl BlobId {
    /// The id with an all-zero digest and time zero.
    pub fn new() -> (r: BlobId)
        ensures
            r.digest@ == Seq::new(32, |i: int| 0u8),
            r.timestamp == 0,
    {
        let r = BlobId { digest: [0u8; 32], timestamp: 0 };
        assert(r.digest@ =~= Seq::new(32, |i: int| 0u8));
        r
    }
}

/// A ring of `BATCH_SIZE` slots, filled in order.
#[derive(Clone, Copy)]
pub struct BatchCommit {
    batch: [BlobId; BATCH_SIZE],
    current_index: usize,
}

impl BatchCommit {
    pub closed spec fn slots(self) -> Seq<BlobId> {
        self.batch@
    }

    /// Slots filled since the last commit (a full count just after one).
    pub closed spec fn filled(self) -> nat {
        self.current_index as nat
    }

    pub open spec fn wf(self) -> bool {
        self.filled() <= BATCH_SIZE && self.slots().len() == BATCH_SIZE
    }

    /// An empty buffer.
    pub fn new() -> (r: BatchCommit)
        ensures
            r.wf(),
            r.filled() == 0,
            forall|i: int|
                0 <= i < BATCH_SIZE ==> (#[trigger] r.slots()[i]).timestamp == 0 && r.slots()[i].digest@
                    == Seq::new(32, |j: int| 0u8),
    {
        let r = BatchCommit { batch: [BlobId::new(); BATCH_SIZE], current_index: 0 };
        r
    }

    /// The slots, in order.
    pub fn batch(&self) -> (r: [BlobId; BATCH_SIZE])
        ensures
            r@ == self.slots(),
    {
        self.batch
    }

    /// Puts the id in the next slot, starting over after a commit. When the
    /// last slot is filled the whole batch is returned, to be committed.
    pub fn insert(&mut self, blob_id: BlobId) -> (r: Option<[BlobId; BATCH_SIZE]>)
        requires
            old(self).wf(),
        ensures
            final(self).wf(),
            final(self).slots() == old(self).slots().update(
                (old(self).filled() % BATCH_SIZE as nat) as int,
                blob_id,
            ),
            final(self).filled() == old(self).filled() % BATCH_SIZE as nat + 1,
            r is Some <==> final(self).filled() == BATCH_SIZE,
            r matches Some(b) ==> b@ == final(self).slots(),
    {
        self.current_index = self.current_index % BATCH_SIZE;
        self.batch.set(self.current_index, blob_id);
        self.current_index = self.current_index + 1;
        if self.current_index == BATCH_SIZE {
            Some(self.batch)
        } else {
            None
        }
    }
}

impl PartialEq for BlobId {
    fn eq(&self, o: &BlobId) -> (r: bool) {
        self.timestamp == o.timestamp && same_digest(&self.digest, &o.digest)
    }
}

impl vstd::std_specs::cmp::PartialEqSpecImpl for BlobId {
    open spec fn obeys_eq_spec() -> bool {
        true
    }

    open spec fn eq_spec(&self, o: &BlobId) -> bool {
        self.timestamp == o.timestamp && self.digest == o.digest
    }
}

} // verus!
