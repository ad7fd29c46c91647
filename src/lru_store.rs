//! The `lru` crate's cache, declared to the verifier and given a model: the
//! entries in recency order, least recently used first.

use lru::LruCache;
use std::collections::hash_map::RandomState;
use vstd::prelude::*;

verus! {

#[verifier::external_type_specification]
#[verifier::external_body]
#[verifier::reject_recursive_types(K)]
#[verifier::reject_recursive_types(V)]
#[verifier::reject_recursive_types(S)]
pub struct ExLruCache<K, V, S>(LruCache<K, V, S>);

/// A stored response: the payload text and the instant (in clock ticks) from
/// which it is stale.
#[derive(Clone)]
pub struct CacheEntry {
    pub payload: String,
    pub expires_at: u64,
}

/// The model of one slot: key, payload, expiry.
pub type Slot = (Seq<char>, Seq<char>, u64);

/// The store that backs the response cache.
pub type Store = LruCache<String, CacheEntry, RandomState>;

/// What the store holds, least recently used first.
pub uninterp spec fn lru_entries(c: Store) -> Seq<Slot>;

/// The capacity the store was made with.
pub uninterp spec fn lru_capacity(c: Store) -> nat;

pub open spec fn has_key(es: Seq<Slot>, k: Seq<char>) -> bool {
    exists|i: int| 0 <= i < es.len() && #[trigger] es[i].0 == k
}

pub open spec fn index_of(es: Seq<Slot>, k: Seq<char>) -> int {
    choose|i: int| 0 <= i < es.len() && #[trigger] es[i].0 == k
}

pub open spec fn keys_distinct(es: Seq<Slot>) -> bool {
    forall|i: int, j: int| 0 <= i < es.len() && 0 <= j < es.len() && i != j ==> es[i].0 != es[j].0
}

/// The entries after a lookup of `k`: a present key moves to the most recent end.
pub open spec fn touched(es: Seq<Slot>, k: Seq<char>) -> Seq<Slot> {
    if has_key(es, k) {
        let i = index_of(es, k);
        es.remove(i).push(es[i])
    } else {
        es
    }
}

/// The entries after storing `item`: an existing key is replaced and moved to
/// the most recent end; a new key, in a full store, first evicts the least
/// recently used entry.
pub open spec fn inserted(es: Seq<Slot>, cap: nat, item: Slot) -> Seq<Slot> {
    if has_key(es, item.0) {
        es.remove(index_of(es, item.0)).push(item)
    } else if es.len() == cap {
        es.drop_first().push(item)
    } else {
        es.push(item)
    }
}

pub open spec fn store_valid(c: Store) -> bool {
    &&& lru_capacity(c) > 0
    &&& lru_entries(c).len() <= lru_capacity(c)
    &&& keys_distinct(lru_entries(c))
}

/// Relies on LruCache::with_hasher: an empty cache holding at most `cap` entries.
#[verifier::external_body]
pub(crate) fn store_new(cap: usize) -> (r: Store)
    requires
        cap > 0,
    ensures
        lru_entries(r) == Seq::<Slot>::empty(),
        lru_capacity(r) == cap,
        store_valid(r),
{
    LruCache::with_hasher(std::num::NonZeroUsize::new(cap).unwrap(), RandomState::new())
}

/// Relies on LruCache::get: returns the value of a present key and moves that
/// key to the most recently used position; an absent key changes nothing.
#[verifier::external_body]
pub(crate) fn store_get(c: &mut Store, k: &String) -> (r: Option<CacheEntry>)
    ensures
        lru_capacity(*final(c)) == lru_capacity(*old(c)),
        store_valid(*old(c)) ==> store_valid(*final(c)),
        keys_distinct(lru_entries(*old(c))) ==> lru_entries(*final(c)) == touched(lru_entries(*old(c)), k@),
        r is None <==> !has_key(lru_entries(*old(c)), k@),
        r matches Some(e) ==> keys_distinct(lru_entries(*old(c))) ==> {
            let es = lru_entries(*old(c));
            &&& e.payload@ == es[index_of(es, k@)].1
            &&& e.expires_at == es[index_of(es, k@)].2
        },
{
    c.get(k).cloned()
}

/// Relies on LruCache::put: stores the pair as most recently used, replacing
/// the value of an existing key, or else evicting the least recently used
/// entry when the cache is full.
#[verifier::external_body]
pub(crate) fn store_put(c: &mut Store, k: String, v: CacheEntry)
    ensures
        lru_capacity(*final(c)) == lru_capacity(*old(c)),
        store_valid(*old(c)) ==> store_valid(*final(c)),
        keys_distinct(lru_entries(*old(c))) ==> lru_entries(*final(c)) == inserted(
            lru_entries(*old(c)),
            lru_capacity(*old(c)),
            (k@, v.payload@, v.expires_at),
        ),
{
    c.put(k, v);
}

} // verus!
