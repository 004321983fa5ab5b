//! Stable-memory collections that hold a replica's blobs and retention
//! entries and the signer's digest index. Each is opaque here and seen
//! through the plain value that it holds.
use vstd::prelude::*;
use vstd::multiset::Multiset;
use ic_stable_structures::{DefaultMemoryImpl, StableBTreeMap, StableMinHeap};

verus! {

/// A retention entry: the time a blob was written and its digest.
pub type RetentionEntry = (u128, [u8; 32]);

/// A min-heap of retention entries in stable memory.
#[verifier::external_body]
pub struct RetentionHeap {
    heap: StableMinHeap<RetentionEntry, DefaultMemoryImpl>,
}

/// The entries that a retention heap holds.
pub uninterp spec fn heap_entries(h: RetentionHeap) -> Multiset<RetentionEntry>;

/// Relies on `StableMinHeap::new` over a fresh vector memory: an empty heap,
/// or nothing when the memory cannot grow.
#[verifier::external_body]
pub(crate) fn heap_new() -> (r: Option<RetentionHeap>)
    ensures
        r matches Some(h) ==> heap_entries(h).len() == 0,
{
    StableMinHeap::new(DefaultMemoryImpl::default()).ok().map(|heap| RetentionHeap { heap })
}

/// Relies on `StableMinHeap::len`: the number of entries held.
#[verifier::external_body]
pub(crate) fn heap_len(h: &RetentionHeap) -> (r: u64)
    ensures
        r == heap_entries(*h).len(),
{
    h.heap.len()
}

/// Relies on `StableMinHeap::push`: the entry is added, unless the memory
/// cannot grow, in which case the heap is left as it was.
#[verifier::external_body]
pub(crate) fn heap_push(h: &mut RetentionHeap, e: RetentionEntry) -> (r: bool)
    ensures
        r ==> heap_entries(*final(h)) == heap_entries(*old(h)).insert(e),
        !r ==> heap_entries(*final(h)) == heap_entries(*old(h)),
{
    h.heap.push(&e).is_ok()
}

/// Relies on `StableMinHeap::pop`: removes an entry that no other entry
/// precedes (in particular one with the least time), or nothing when empty.
#[verifier::external_body]
pub(crate) fn heap_pop(h: &mut RetentionHeap) -> (r: Option<RetentionEntry>)
    ensures
        heap_entries(*old(h)).len() == 0 <==> r is None,
        r is None ==> heap_entries(*final(h)) == heap_entries(*old(h)),
        r matches Some(e) ==> {
            &&& heap_entries(*old(h)).count(e) > 0
            &&& heap_entries(*final(h)) == heap_entries(*old(h)).remove(e)
            &&& forall|x: RetentionEntry| heap_entries(*old(h)).count(x) > 0 ==> e.0 <= x.0
        },
{
    h.heap.pop()
}

/// A map in stable memory from hexadecimal digest keys to blob bytes.
#[verifier::external_body]
pub struct BlobStore {
    map: StableBTreeMap<String, Vec<u8>, DefaultMemoryImpl>,
}

/// The key-value pairs that a blob store holds.
pub uninterp spec fn blob_entries(s: BlobStore) -> Map<Seq<char>, Seq<u8>>;

/// Relies on `StableBTreeMap::new` over a fresh vector memory: an empty map.
#[verifier::external_body]
pub(crate) fn blob_store_new() -> (r: BlobStore)
    ensures
        blob_entries(r) =~= Map::empty(),
{
    BlobStore { map: StableBTreeMap::new(DefaultMemoryImpl::default()) }
}

/// Relies on `StableBTreeMap::get`: the value under the key, if any.
#[verifier::external_body]
pub(crate) fn blob_store_get(s: &BlobStore, k: &String) -> (r: Option<Vec<u8>>)
    ensures
        blob_entries(*s).contains_key(k@) <==> r is Some,
        r matches Some(v) ==> v@ == blob_entries(*s)[k@],
{
    s.map.get(k)
}

/// Relies on `StableBTreeMap::contains_key`.
#[verifier::external_body]
pub(crate) fn blob_store_contains(s: &BlobStore, k: &String) -> (r: bool)
    ensures
        r == blob_entries(*s).contains_key(k@),
{
    s.map.contains_key(k)
}

/// Relies on `StableBTreeMap::insert`: the key now maps to the value.
#[verifier::external_body]
pub(crate) fn blob_store_insert(s: &mut BlobStore, k: String, v: Vec<u8>)
    ensures
        blob_entries(*final(s)) == blob_entries(*old(s)).insert(k@, v@),
{
    s.map.insert(k, v);
}

/// Relies on `StableBTreeMap::remove`: the key no longer maps to anything.
#[verifier::external_body]
pub(crate) fn blob_store_remove(s: &mut BlobStore, k: &String) -> (r: bool)
    ensures
        r == blob_entries(*old(s)).contains_key(k@),
        blob_entries(*final(s)) == blob_entries(*old(s)).remove(k@),
{
    s.map.remove(k).is_some()
}

/// A map in stable memory from hexadecimal digest keys to batch numbers.
#[verifier::external_body]
pub struct IndexStore {
    map: StableBTreeMap<String, u32, DefaultMemoryImpl>,
}

/// The key-value pairs that an index store holds.
pub uninterp spec fn index_entries(s: IndexStore) -> Map<Seq<char>, u32>;

/// Relies on `StableBTreeMap::new` over a fresh vector memory: an empty map.
#[verifier::external_body]
pub(crate) fn index_store_new() -> (r: IndexStore)
    ensures
        index_entries(r) =~= Map::empty(),
{
    IndexStore { map: StableBTreeMap::new(DefaultMemoryImpl::default()) }
}

/// Relies on `StableBTreeMap::get`: the value under the key, if any.
#[verifier::external_body]
pub(crate) fn index_store_get(s: &IndexStore, k: &String) -> (r: Option<u32>)
    ensures
        index_entries(*s).contains_key(k@) <==> r is Some,
        r matches Some(v) ==> v == index_entries(*s)[k@],
{
    s.map.get(k)
}

/// Relies on `StableBTreeMap::insert`: the key now maps to the value.
#[verifier::external_body]
pub(crate) fn index_store_insert(s: &mut IndexStore, k: String, v: u32)
    ensures
        index_entries(*final(s)) == index_entries(*old(s)).insert(k@, v),
{
    s.map.insert(k, v);
}

/// Relies on `StableBTreeMap::remove`: the key no longer maps to anything.
#[verifier::external_body]
pub(crate) fn index_store_remove(s: &mut IndexStore, k: &String)
    ensures
        index_entries(*final(s)) == index_entries(*old(s)).remove(k@),
{
    s.map.remove(k);
}

} // verus!
