//! The signing authority: digests reported by replicas are grouped into
//! fixed-size batches; each full batch is closed, its Merkle root is handed
//! out to be signed, and per-digest confirmations are served once the
//! signature is recorded. Batches older than the configured live time are
//! pruned together with their digests.
use vstd::prelude::*;
use std::collections::BTreeMap;
use crate::digest::{hex_encode, lemma_hex_text_injective, lemma_hex_text_len};
use crate::merkle::{merkle_proof_bytes, merkle_proof_of, merkle_root, merkle_root_of};
use crate::replica::{key_of, same_digest};
use crate::store::{
    index_entries, index_store_get, index_store_insert, index_store_new, index_store_remove,
    IndexStore,
};

verus! {

broadcast use vstd::laws_cmp::group_laws_cmp, vstd::std_specs::btree::group_btree_axioms, vstd::array::group_array_axioms;

/// Default number of digests per batch.
pub const CONFIRMATION_BATCH_SIZE: u32 = 12;

/// Default number of batches that a closed batch outlives before it is pruned.
pub const CONFIRMATION_LIVE_TIME: u32 = 120961;

/// Settings of the signing authority.
#[derive(Clone, Copy, Debug)]
pub struct SignatureConfig {
    pub confirmation_batch_size: u32,
    pub confirmation_live_time: u32,
}

impl SignatureConfig {
    pub open spec fn valid(self) -> bool {
        self.confirmation_batch_size > 0
    }

    /// The default settings.
    pub fn new() -> (r: SignatureConfig)
        ensures
            r.confirmation_batch_size == CONFIRMATION_BATCH_SIZE,
            r.confirmation_live_time == CONFIRMATION_LIVE_TIME,
            r.valid(),
    {
        SignatureConfig {
            confirmation_batch_size: CONFIRMATION_BATCH_SIZE,
            confirmation_live_time: CONFIRMATION_LIVE_TIME,
        }
    }
}

/// One batch: its digests in order of arrival, and once signed, its Merkle
/// root and the hex-encoded signature over that root.
#[derive(Debug)]
pub struct BatchConfirmation {
    pub signature: Option<String>,
    pub root: [u8; 32],
    pub nodes: Vec<[u8; 32]>,
}

impl BatchConfirmation {
    /// An open batch with no digests.
    pub fn new() -> (r: BatchConfirmation)
        ensures
            r.signature is None,
            r.nodes@.len() == 0,
    {
        BatchConfirmation { signature: None, root: [0u8; 32], nodes: Vec::new() }
    }
}

/// An inclusion proof of one digest in a signed batch.
#[derive(Clone, Debug)]
pub struct Proof {
    pub proof_bytes: Vec<u8>,
    pub leaf_index: usize,
    pub leaf_digest: [u8; 32],
}

/// A signed Merkle root with the proof that a digest is one of its leaves.
#[derive(Clone, Debug)]
pub struct Confirmation {
    pub root: [u8; 32],
    pub proof: Proof,
    pub signature: String,
}

/// What the authority knows of a digest.
#[derive(Clone, Debug)]
pub enum ConfirmationStatus {
    /// The digest's batch is not signed yet.
    Pending,
    /// The digest's batch is signed.
    Confirmed(Confirmation),
    /// The digest is unknown, or its batch was pruned.
    Invalid,
}

/// A closed batch whose root is to be signed.
#[derive(Clone, Copy, Debug)]
pub struct SignTask {
    pub batch_index: u32,
    pub root: [u8; 32],
}

/// The key under which the open batch number is kept in the digest index.
pub open spec fn current_key() -> Seq<char> {
    seq!['c', 'u', 'r', 'r', 'e', 'n', 't', '_', 'i', 'n', 'd', 'e', 'x']
}

fn current_key_string() -> (r: String)
    ensures
        r@ == current_key(),
{
    proof {
        reveal_strlit("current_index");
    }
    let r = "current_index".to_owned();
    assert(r@ =~= current_key());
    r
}

proof fn lemma_digest_key_not_current(d: [u8; 32])
    ensures
        key_of(d) != current_key(),
{
    lemma_hex_text_len(d@);
}

/// The authority's digest index, batches and settings.
pub struct Signer {
    index: IndexStore,
    batches: BTreeMap<u32, BatchConfirmation>,
    config: SignatureConfig,
    public_key: Vec<u8>,
}

impl Signer {
    /// The digest index: hexadecimal digest keys, and the open batch number
    /// under `current_key()`.
    pub closed spec fn index_map(self) -> Map<Seq<char>, u32> {
        index_entries(self.index)
    }

    /// The batches by number.
    pub closed spec fn batch_map(self) -> Map<u32, BatchConfirmation> {
        self.batches@
    }

    pub closed spec fn settings(self) -> SignatureConfig {
        self.config
    }

    pub closed spec fn key_bytes(self) -> Seq<u8> {
        self.public_key@
    }

    /// The number of the open batch.
    pub open spec fn open_index(self) -> nat {
        if self.index_map().contains_key(current_key()) {
            self.index_map()[current_key()] as nat
        } else {
            0
        }
    }

    /// The batch that a digest was placed in, if it is indexed.
    pub open spec fn batch_of(self, d: [u8; 32]) -> Option<u32> {
        if self.index_map().contains_key(key_of(d)) {
            Some(self.index_map()[key_of(d)])
        } else {
            None
        }
    }

    /// The digests of batch `i`, empty when there is no such batch.
    pub open spec fn nodes_of(self, i: u32) -> Seq<[u8; 32]> {
        if self.batch_map().contains_key(i) {
            self.batch_map()[i].nodes@
        } else {
            Seq::empty()
        }
    }

    /// The digest index and the batches agree: an indexed digest sits in
    /// the batch it is indexed under, every digest of a batch is indexed
    /// under it, and no batch holds a digest twice.
    pub open spec fn linked(self) -> bool {
        &&& forall|d: [u8; 32]| #[trigger]
            self.index_map().contains_key(key_of(d)) ==> {
                let i = self.index_map()[key_of(d)];
                self.batch_map().contains_key(i) && self.batch_map()[i].nodes@.contains(d)
            }
        &&& forall|i: u32, j: int|
            self.batch_map().contains_key(i) && 0 <= j < self.batch_map()[i].nodes@.len()
                ==> self.index_map().contains_key(key_of(#[trigger] self.batch_map()[i].nodes@[j]))
                && self.index_map()[key_of(self.batch_map()[i].nodes@[j])] == i
        &&& forall|i: u32| #[trigger]
            self.batch_map().contains_key(i) ==> self.batch_map()[i].nodes@.no_duplicates()
    }

    /// Batches are never empty; signed batches carry the root of their
    /// digests; no batch lies past the open one, which is unsigned; and
    /// batches that expired are gone.
    pub open spec fn wf(self) -> bool {
        &&& self.settings().valid()
        &&& self.linked()
        &&& forall|i: u32| #[trigger]
            self.batch_map().contains_key(i) ==> {
                let b = self.batch_map()[i];
                &&& i <= self.open_index()
                &&& i == self.open_index() ==> b.signature is None
                &&& b.nodes@.len() > 0
                &&& b.signature is Some ==> b.root == merkle_root_of(b.nodes@)
                &&& i == 0 || i + self.settings().confirmation_live_time >= self.open_index()
            }
    }

    /// When batch `cur` closes and `cur` exceeds the live time, batch
    /// `cur - live_time` is dropped together with the index entries of its
    /// digests.
    pub fn prune_expired_confirmation(&mut self, cur: u32)
        requires
            old(self).linked(),
        ensures
            final(self).linked(),
            old(self).wf() ==> final(self).wf(),
            final(self).open_index() == old(self).open_index(),
            final(self).settings() == old(self).settings(),
            final(self).key_bytes() == old(self).key_bytes(),
            cur <= old(self).settings().confirmation_live_time ==> final(self).index_map() == old(
                self,
            ).index_map() && final(self).batch_map() == old(self).batch_map(),
            cur > old(self).settings().confirmation_live_time ==> {
                let exp = (cur - old(self).settings().confirmation_live_time) as u32;
                let gone = old(self).nodes_of(exp);
                &&& final(self).batch_map() == old(self).batch_map().remove(exp)
                &&& forall|k: Seq<char>| #[trigger]
                    final(self).index_map().contains_key(k) <==> old(self).index_map().contains_key(
                        k,
                    ) && !(exists|j: int| 0 <= j < gone.len() && k == key_of(#[trigger] gone[j]))
                &&& forall|k: Seq<char>| #[trigger]
                    final(self).index_map().contains_key(k) ==> final(self).index_map()[k] == old(
                        self,
                    ).index_map()[k]
            },
    {
        let live = self.config.confirmation_live_time;
        if cur <= live {
            return;
        }
        let exp = cur - live;
        let removed = self.batches.remove(&exp);
        let ghost gone = old(self).nodes_of(exp);
        match removed {
            None => {
                proof {
                    assert(gone.len() == 0);
                }
            },
            Some(b) => {
                let mut j: usize = 0;
                while j < b.nodes.len()
                    invariant
                        b.nodes@ == gone,
                        j <= gone.len(),
                        self.batches@ == old(self).batches@.remove(exp),
                        self.config == old(self).config,
                        self.public_key == old(self).public_key,
                        forall|k: Seq<char>| #[trigger]
                            self.index_map().contains_key(k) <==> old(self).index_map().contains_key(
                                k,
                            ) && !(exists|jj: int|
                                0 <= jj < j && k == key_of(#[trigger] gone[jj])),
                        forall|k: Seq<char>| #[trigger]
                            self.index_map().contains_key(k) ==> self.index_map()[k] == old(
                                self,
                            ).index_map()[k],
                    decreases gone.len() - j,
                {
                    let key = hex_encode(b.nodes[j].as_slice());
                    let ghost pre = self.index_map();
                    index_store_remove(&mut self.index, &key);
                    proof {
                        assert(self.index_map() == pre.remove(key@));
                        assert forall|k: Seq<char>| #[trigger]
                            self.index_map().contains_key(k) <==> old(self).index_map().contains_key(
                                k,
                            ) && !(exists|jj: int|
                                0 <= jj < j + 1 && k == key_of(#[trigger] gone[jj])) by {
                            if k == key@ {
                                assert(k == key_of(gone[j as int]));
                            } else {
                                assert(self.index_map().contains_key(k) == pre.contains_key(k));
                                if exists|jj: int| 0 <= jj < j + 1 && k == key_of(#[trigger] gone[jj]) {
                                    let jj = choose|jj: int|
                                        0 <= jj < j + 1 && k == key_of(#[trigger] gone[jj]);
                                    assert(jj < j);
                                }
                            }
                        }
                        assert forall|k: Seq<char>| #[trigger]
                            self.index_map().contains_key(k) implies self.index_map()[k] == old(
                                self,
                            ).index_map()[k] by {
                            assert(pre.contains_key(k));
                        }
                    }
                    j += 1;
                }
            },
        }
        proof {
            let om = old(self).index_map();
            let ob = old(self).batch_map();
            if exists|j: int| 0 <= j < gone.len() && current_key() == key_of(#[trigger] gone[j]) {
                let j = choose|j: int| 0 <= j < gone.len() && current_key() == key_of(#[trigger] gone[j]);
                lemma_digest_key_not_current(gone[j]);
            }
            assert(self.index_map().contains_key(current_key()) == om.contains_key(current_key()));
            assert forall|d: [u8; 32]| #[trigger]
                self.index_map().contains_key(key_of(d)) implies {
                let i = self.index_map()[key_of(d)];
                self.batch_map().contains_key(i) && self.batch_map()[i].nodes@.contains(d)
            } by {
                let i = om[key_of(d)];
                assert(ob.contains_key(i) && ob[i].nodes@.contains(d));
                if i == exp {
                    let jj = choose|jj: int| 0 <= jj < ob[i].nodes@.len() && ob[i].nodes@[jj] == d;
                    assert(key_of(d) == key_of(gone[jj]));
                }
            }
            assert forall|i: u32, j: int|
                self.batch_map().contains_key(i) && 0 <= j < self.batch_map()[i].nodes@.len()
                    implies self.index_map().contains_key(
                key_of(#[trigger] self.batch_map()[i].nodes@[j]),
            ) && self.index_map()[key_of(self.batch_map()[i].nodes@[j])] == i by {
                let n = ob[i].nodes@[j];
                assert(om.contains_key(key_of(n)) && om[key_of(n)] == i);
                if exists|jj: int| 0 <= jj < gone.len() && key_of(n) == key_of(#[trigger] gone[jj]) {
                    let jj = choose|jj: int|
                        0 <= jj < gone.len() && key_of(n) == key_of(#[trigger] gone[jj]);
                    lemma_hex_text_injective(n@, gone[jj]@);
                    assert(n == gone[jj]);
                    assert(om[key_of(gone[jj])] == exp);
                }
            }
        }
    }

    /// Places a digest in the open batch, unless it is already indexed.
    /// When the open batch thereby reaches a multiple of the batch size it
    /// closes: expired batches are pruned, the next batch opens, and the
    /// closed batch's root is returned to be signed.
    pub fn insert_digest(&mut self, digest: [u8; 32]) -> (r: Option<SignTask>)
        requires
            old(self).wf(),
            old(self).open_index() < u32::MAX,
        ensures
            final(self).wf(),
            final(self).settings() == old(self).settings(),
            final(self).key_bytes() == old(self).key_bytes(),
            old(self).batch_of(digest) is Some ==> r is None && final(self).index_map() == old(
                self,
            ).index_map() && final(self).batch_map() == old(self).batch_map(),
            old(self).batch_of(digest) is None ==> {
                let cur = old(self).open_index();
                let live = old(self).settings().confirmation_live_time;
                let nodes = old(self).nodes_of(cur as u32).push(digest);
                let closes = nodes.len() % (old(self).settings().confirmation_batch_size as nat)
                    == 0;
                let pruned = closes && cur > live;
                &&& !(pruned && live == 0) ==> final(self).batch_of(digest) == Some(cur as u32)
                &&& closes ==> r == Some((SignTask { batch_index: cur as u32, root: merkle_root_of(nodes) }))
                &&& closes ==> final(self).open_index() == cur + 1
                &&& !closes ==> r is None && final(self).open_index() == cur
                &&& !(pruned && live == 0) ==> final(self).nodes_of(cur as u32) == nodes
                &&& pruned ==> !final(self).batch_map().contains_key((cur - live) as u32)
            },
            final(self).open_index() == old(self).open_index() || final(self).open_index() == old(
                self,
            ).open_index() + 1,
            final(self).open_index() == old(self).open_index() + 1 <==> r is Some,
            forall|d: [u8; 32]|
                d != digest && (#[trigger] final(self).batch_of(d)) is Some ==> final(self).batch_of(d)
                    == old(self).batch_of(d),
    {
        let key = hex_encode(digest.as_slice());
        proof {
            lemma_digest_key_not_current(digest);
        }
        if index_store_get(&self.index, &key).is_some() {
            return None;
        }
        let ck = current_key_string();
        let cur: u32 = match index_store_get(&self.index, &ck) {
            Some(c) => c,
            None => 0,
        };
        let ghost nodes = old(self).nodes_of(cur).push(digest);
        proof {
            // The digest is in no batch, since every batch digest is indexed.
            assert forall|i: u32, j: int|
                old(self).batch_map().contains_key(i) && 0 <= j < old(self).batch_map()[i].nodes@.len()
                    implies old(self).batch_map()[i].nodes@[j] != digest by {
                assert(old(self).index_map().contains_key(key_of(old(self).batch_map()[i].nodes@[j])));
            }
        }
        index_store_insert(&mut self.index, key, cur);
        let mut batch = match self.batches.remove(&cur) {
            Some(b) => b,
            None => BatchConfirmation::new(),
        };
        batch.nodes.push(digest);
        proof {
            assert(batch.nodes@ == nodes);
            assert(batch.signature is None);
        }
        let closes = batch.nodes.len() % (self.config.confirmation_batch_size as usize) == 0;
        let root = if closes {
            merkle_root(&batch.nodes)
        } else {
            None
        };
        self.batches.insert(cur, batch);
        proof {
            let om = old(self).index_map();
            let ob = old(self).batch_map();
            assert(self.index_map() == om.insert(key_of(digest), cur));
            assert forall|d: [u8; 32]| #[trigger]
                self.index_map().contains_key(key_of(d)) implies {
                let i = self.index_map()[key_of(d)];
                self.batch_map().contains_key(i) && self.batch_map()[i].nodes@.contains(d)
            } by {
                if d == digest {
                    assert(self.batch_map()[cur].nodes@[nodes.len() - 1] == digest);
                } else {
                    if key_of(d) == key_of(digest) {
                        lemma_hex_text_injective(d@, digest@);
                        assert(d =~= digest);
                    }
                    assert(key_of(d) != key_of(digest));
                    assert(om.contains_key(key_of(d)));
                    let i = om[key_of(d)];
                    assert(self.index_map()[key_of(d)] == i);
                    assert(ob.contains_key(i) && ob[i].nodes@.contains(d));
                    let jj = choose|jj: int| 0 <= jj < ob[i].nodes@.len() && ob[i].nodes@[jj] == d;
                    if i == cur {
                        assert(self.batch_map()[i].nodes@ == ob[i].nodes@.push(digest));
                        assert(self.batch_map()[i].nodes@[jj] == d);
                    } else {
                        assert(self.batch_map()[i] == ob[i]);
                    }
                }
            }
            assert forall|i: u32, j: int|
                self.batch_map().contains_key(i) && 0 <= j < self.batch_map()[i].nodes@.len()
                    implies self.index_map().contains_key(
                key_of(#[trigger] self.batch_map()[i].nodes@[j]),
            ) && self.index_map()[key_of(self.batch_map()[i].nodes@[j])] == i by {
                if i == cur && j == nodes.len() - 1 {
                } else {
                    let n = self.batch_map()[i].nodes@[j];
                    assert(ob.contains_key(i) && ob[i].nodes@[j] == n);
                    assert(om.contains_key(key_of(n)) && om[key_of(n)] == i);
                    if key_of(n) == key_of(digest) {
                        lemma_hex_text_injective(n@, digest@);
                        assert(n =~= digest);
                    }
                }
            }
            assert forall|i: u32| #[trigger]
                self.batch_map().contains_key(i) implies self.batch_map()[i].nodes@.no_duplicates() by {
                if i == cur {
                    let ns = self.batch_map()[i].nodes@;
                    assert forall|a: int, b: int| 0 <= a < ns.len() && 0 <= b < ns.len() && a != b
                        implies ns[a] != ns[b] by {
                        if a < ns.len() - 1 && b < ns.len() - 1 {
                            assert(ob[i].nodes@[a] == ns[a] && ob[i].nodes@[b] == ns[b]);
                        } else if a < ns.len() - 1 {
                            assert(ob[i].nodes@[a] == ns[a]);
                        } else if b < ns.len() - 1 {
                            assert(ob[i].nodes@[b] == ns[b]);
                        }
                    }
                }
            }
        }
        if closes {
            self.prune_expired_confirmation(cur);
            let ck2 = current_key_string();
            index_store_insert(&mut self.index, ck2, cur + 1);
            proof {
                let mid = self.index_map().remove(current_key());
                assert forall|d: [u8; 32]| #[trigger]
                    self.index_map().contains_key(key_of(d)) implies {
                    let i = self.index_map()[key_of(d)];
                    self.batch_map().contains_key(i) && self.batch_map()[i].nodes@.contains(d)
                } by {
                    lemma_digest_key_not_current(d);
                }
                assert forall|i: u32, j: int|
                    self.batch_map().contains_key(i) && 0 <= j < self.batch_map()[i].nodes@.len()
                        implies self.index_map().contains_key(
                    key_of(#[trigger] self.batch_map()[i].nodes@[j]),
                ) && self.index_map()[key_of(self.batch_map()[i].nodes@[j])] == i by {
                    lemma_digest_key_not_current(self.batch_map()[i].nodes@[j]);
                }
            }
            proof {
                assert forall|d: [u8; 32]|
                    d != digest && (#[trigger] self.batch_of(d)) is Some implies self.batch_of(d)
                        == old(self).batch_of(d) by {
                    lemma_digest_key_not_current(d);
                    if key_of(d) == key_of(digest) {
                        lemma_hex_text_injective(d@, digest@);
                        assert(d =~= digest);
                    }
                }
            }
            match root {
                Some(h) => Some(SignTask { batch_index: cur, root: h }),
                None => None,
            }
        } else {
            proof {
                assert forall|d: [u8; 32]|
                    d != digest && (#[trigger] self.batch_of(d)) is Some implies self.batch_of(d)
                        == old(self).batch_of(d) by {
                    if key_of(d) == key_of(digest) {
                        lemma_hex_text_injective(d@, digest@);
                        assert(d =~= digest);
                    }
                }
            }
            None
        }
    }

    /// The position of a digest among a batch's digests, if it is there.
    pub fn position_of(nodes: &Vec<[u8; 32]>, digest: &[u8; 32]) -> (r: Option<usize>)
        ensures
            match r {
                Some(j) => j < nodes@.len() && nodes@[j as int] == *digest && forall|k: int|
                    0 <= k < j ==> nodes@[k] != *digest,
                None => !nodes@.contains(*digest),
            },
    {
        let mut j: usize = 0;
        while j < nodes.len()
            invariant
                j <= nodes@.len(),
                forall|k: int| 0 <= k < j ==> nodes@[k] != *digest,
            decreases nodes@.len() - j,
        {
            if same_digest(&nodes[j], digest) {
                return Some(j);
            }
            j += 1;
        }
        None
    }

    /// The confirmation of a digest: `Invalid` when it is not indexed,
    /// `Pending` while its batch is unsigned, and otherwise the batch's root
    /// and signature with the inclusion proof of the digest at its position.
    pub fn get_confirmation(&self, digest: &[u8; 32]) -> (r: ConfirmationStatus)
        requires
            self.wf(),
        ensures
            match self.batch_of(*digest) {
                None => r is Invalid,
                Some(i) => {
                    let b = self.batch_map()[i];
                    match b.signature {
                        None => r is Pending,
                        Some(sig) => match r {
                            ConfirmationStatus::Confirmed(c) => {
                                &&& c.root == b.root
                                &&& c.root == merkle_root_of(b.nodes@)
                                &&& c.signature@ == sig@
                                &&& c.proof.leaf_digest == *digest
                                &&& c.proof.leaf_index < b.nodes@.len()
                                &&& b.nodes@[c.proof.leaf_index as int] == *digest
                                &&& c.proof.proof_bytes@ == merkle_proof_of(
                                    b.nodes@,
                                    c.proof.leaf_index as int,
                                )
                            },
                            _ => false,
                        },
                    }
                },
            },
    {
        let key = hex_encode(digest.as_slice());
        let i = match index_store_get(&self.index, &key) {
            None => {
                return ConfirmationStatus::Invalid;
            },
            Some(i) => i,
        };
        let b = match self.batches.get(&i) {
            None => {
                return ConfirmationStatus::Invalid;
            },
            Some(b) => b,
        };
        let sig = match &b.signature {
            None => {
                return ConfirmationStatus::Pending;
            },
            Some(sig) => sig,
        };
        let leaf_index = match Self::position_of(&b.nodes, digest) {
            None => {
                return ConfirmationStatus::Invalid;
            },
            Some(j) => j,
        };
        let proof_bytes = merkle_proof_bytes(&b.nodes, leaf_index);
        let proof = Proof { proof_bytes, leaf_index, leaf_digest: *digest };
        ConfirmationStatus::Confirmed(Confirmation { root: b.root, proof, signature: sig.clone() })
    }

    /// Records the signature of a closed batch that is not signed yet, with
    /// the Merkle root of its digests. Returns whether it was recorded.
    pub fn update_signature(&mut self, batch_index: u32, signature: String) -> (r: bool)
        requires
            old(self).wf(),
        ensures
            final(self).wf(),
            final(self).settings() == old(self).settings(),
            final(self).key_bytes() == old(self).key_bytes(),
            final(self).index_map() == old(self).index_map(),
            r == (old(self).batch_map().contains_key(batch_index) && batch_index < old(
                self,
            ).open_index() && old(self).batch_map()[batch_index].signature is None),
            !r ==> final(self).batch_map() == old(self).batch_map(),
            r ==> {
                let b = final(self).batch_map()[batch_index];
                let was = old(self).batch_map()[batch_index];
                &&& final(self).batch_map().dom() == old(self).batch_map().dom()
                &&& forall|i: u32| #[trigger]
                    final(self).batch_map().contains_key(i) && i != batch_index
                        ==> final(self).batch_map()[i] == old(self).batch_map()[i]
                &&& b.nodes@ == was.nodes@
                &&& b.root == merkle_root_of(was.nodes@)
                &&& b.signature matches Some(s) && s@ == signature@
            },
    {
        let ck = current_key_string();
        let open: u32 = match index_store_get(&self.index, &ck) {
            Some(c) => c,
            None => 0,
        };
        if batch_index >= open {
            return false;
        }
        match self.batches.remove(&batch_index) {
            None => false,
            Some(mut b) => {
                if b.signature.is_some() {
                    self.batches.insert(batch_index, b);
                    proof {
                        assert(self.batches@ =~= old(self).batches@);
                    }
                    return false;
                }
                match merkle_root(&b.nodes) {
                    None => {
                        self.batches.insert(batch_index, b);
                        proof {
                            assert(self.batches@ =~= old(self).batches@);
                        }
                        false
                    },
                    Some(root) => {
                        b.root = root;
                        b.signature = Some(signature);
                        self.batches.insert(batch_index, b);
                        proof {
                            assert(self.batch_map().dom() =~= old(self).batch_map().dom());
                        }
                        true
                    },
                }
            },
        }
    }

    /// The signing task of a closed batch that is still unsigned, so that a
    /// signing that failed can be tried again.
    pub fn speed_up_confirmation(&self, batch_index: u32) -> (r: Option<SignTask>)
        requires
            self.wf(),
        ensures
            r is Some <==> (self.batch_map().contains_key(batch_index) && batch_index
                < self.open_index() && self.batch_map()[batch_index].signature is None),
            r matches Some(t) ==> t.batch_index == batch_index && t.root == merkle_root_of(
                self.batch_map()[batch_index].nodes@,
            ),
    {
        if batch_index >= self.current_index() {
            return None;
        }
        match self.batches.get(&batch_index) {
            None => None,
            Some(b) => {
                if b.signature.is_some() {
                    return None;
                }
                match merkle_root(&b.nodes) {
                    None => None,
                    Some(root) => Some(SignTask { batch_index, root }),
                }
            },
        }
    }

    /// Caches the authority's public key.
    pub fn set_public_key(&mut self, key: Vec<u8>)
        requires
            old(self).wf(),
        ensures
            final(self).wf(),
            final(self).key_bytes() == key@,
            final(self).index_map() == old(self).index_map(),
            final(self).batch_map() == old(self).batch_map(),
            final(self).settings() == old(self).settings(),
    {
        self.public_key = key;
    }

    /// The cached public key; empty until one is set.
    pub fn public_key(&self) -> (r: &Vec<u8>)
        ensures
            r@ == self.key_bytes(),
    {
        &self.public_key
    }

    /// The number of the open batch.
    pub fn current_index(&self) -> (r: u32)
        ensures
            r == self.open_index(),
    {
        let ck = current_key_string();
        match index_store_get(&self.index, &ck) {
            Some(c) => c,
            None => 0,
        }
    }

    pub fn config(&self) -> (r: SignatureConfig)
        ensures
            r == self.settings(),
    {
        self.config
    }

    /// Replaces the settings. Batches that the new live time leaves
    /// expired are pruned together with their digests.
    pub fn update_config(&mut self, config: SignatureConfig)
        requires
            old(self).wf(),
            config.valid(),
        ensures
            final(self).wf(),
            final(self).settings() == config,
            final(self).open_index() == old(self).open_index(),
            final(self).key_bytes() == old(self).key_bytes(),
            forall|i: u32| #[trigger]
                final(self).batch_map().contains_key(i) ==> old(self).batch_map().contains_key(i)
                    && final(self).batch_map()[i] == old(self).batch_map()[i],
            forall|i: u32| #[trigger]
                old(self).batch_map().contains_key(i) && (i == 0 || i
                    + config.confirmation_live_time >= old(self).open_index())
                    ==> final(self).batch_map().contains_key(i),
    {
        self.config = config;
        let open = self.current_index();
        let live = config.confirmation_live_time;
        if open > live {
            let mut cur: u32 = live + 1;
            while cur < open
                invariant
                    self.linked(),
                    self.settings() == config,
                    config.valid(),
                    self.open_index() == open,
                    live == config.confirmation_live_time,
                    live < cur,
                    self.key_bytes() == old(self).key_bytes(),
                    forall|i: u32| #[trigger]
                        self.batch_map().contains_key(i) ==> old(self).batch_map().contains_key(i)
                            && self.batch_map()[i] == old(self).batch_map()[i],
                    forall|i: u32| #[trigger]
                        self.batch_map().contains_key(i) ==> i == 0 || i + live >= cur,
                    forall|i: u32| #[trigger]
                        old(self).batch_map().contains_key(i) && (i == 0 || i + live >= open)
                            ==> self.batch_map().contains_key(i),
                decreases open - cur,
            {
                self.prune_expired_confirmation(cur);
                cur = cur + 1;
            }
        }
    }

    /// However often a digest is inserted, it occurs at most once among the
    /// digests of all batches.
    pub proof fn lemma_digest_placed_once(self, d: [u8; 32], i1: u32, j1: int, i2: u32, j2: int)
        requires
            self.wf(),
            0 <= j1 < self.nodes_of(i1).len(),
            0 <= j2 < self.nodes_of(i2).len(),
            self.nodes_of(i1)[j1] == d,
            self.nodes_of(i2)[j2] == d,
        ensures
            i1 == i2,
            j1 == j2,
    {
        assert(self.batch_map().contains_key(i1) && self.batch_map().contains_key(i2));
        assert(self.index_map()[key_of(self.batch_map()[i1].nodes@[j1])] == i1);
        assert(self.index_map()[key_of(self.batch_map()[i2].nodes@[j2])] == i2);
        assert(self.batch_map()[i1].nodes@.no_duplicates());
    }

    /// A digest placed in the open batch, which is not full yet, is pending:
    /// its batch exists and is unsigned.
    pub proof fn lemma_fresh_digest_pending(self, d: [u8; 32])
        requires
            self.wf(),
            self.batch_of(d) == Some(self.open_index() as u32),
        ensures
            self.batch_map().contains_key(self.open_index() as u32),
            self.batch_map()[self.open_index() as u32].signature is None,
    {
        assert(self.index_map().contains_key(key_of(d)));
    }

    /// No indexed digest lies in a batch that expired: every indexed digest
    /// is in batch zero or in one of the last `confirmation_live_time + 1`
    /// batches.
    pub proof fn lemma_expired_digest_unindexed(self, d: [u8; 32], i: u32)
        requires
            self.wf(),
            0 < i,
            i + self.settings().confirmation_live_time < self.open_index(),
        ensures
            self.batch_of(d) != Some(i),
    {
        if self.batch_of(d) == Some(i) {
            assert(self.index_map().contains_key(key_of(d)));
            assert(self.batch_map().contains_key(i));
        }
    }

    /// An authority with no digests and no batches.
    pub fn new(config: SignatureConfig) -> (r: Signer)
        requires
            config.valid(),
        ensures
            r.wf(),
            r.settings() == config,
            r.open_index() == 0,
            r.index_map() == Map::<Seq<char>, u32>::empty(),
            r.batch_map() == Map::<u32, BatchConfirmation>::empty(),
            r.key_bytes().len() == 0,
    {
        Signer {
            index: index_store_new(),
            batches: BTreeMap::new(),
            config,
            public_key: Vec::new(),
        }
    }
}

} // verus!
