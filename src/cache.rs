//! The bounded response cache: least-recently-used eviction, and expiry
//! checked lazily when an entry is read.

use crate::lru_store::{
    has_key, index_of, inserted, keys_distinct, lru_capacity, lru_entries, store_get, store_new,
    store_put, store_valid, touched, CacheEntry, Slot, Store,
};
use vstd::prelude::*;

verus! {

/// Entries kept by the proxy's cache.
pub const CACHE_SIZE: usize = 1000;

/// How long a stored response stays fresh, in milliseconds (thirty days).
pub const CACHE_TTL_MS: u64 = 2_592_000_000;

/// The instant from which an entry stored at `now` is stale.
pub open spec fn expiry(now: u64, ttl: u64) -> u64 {
    if now + ttl > u64::MAX {
        u64::MAX
    } else {
        (now + ttl) as u64
    }
}

/// What a lookup of `k` at `now` returns: the payload of a present entry that
/// is not yet stale.
pub open spec fn fresh_payload(es: Seq<Slot>, k: Seq<char>, now: u64) -> Option<Seq<char>> {
    if has_key(es, k) && es[index_of(es, k)].2 > now {
        Some(es[index_of(es, k)].1)
    } else {
        None
    }
}

/// Successive stores of `items` into a cache holding `es`, oldest first.
pub open spec fn inserted_all(es: Seq<Slot>, cap: nat, items: Seq<Slot>) -> Seq<Slot>
    decreases items.len(),
{
    if items.len() == 0 {
        es
    } else {
        inserted(inserted_all(es, cap, items.drop_last()), cap, items.last())
    }
}

/// What a store always yields: distinct keys, the bound kept, and the new
/// item as the most recently used entry.
pub proof fn lemma_inserted_shape(es: Seq<Slot>, cap: nat, item: Slot)
    requires
        cap > 0,
        es.len() <= cap,
        keys_distinct(es),
    ensures
        keys_distinct(inserted(es, cap, item)),
        inserted(es, cap, item).len() <= cap,
        inserted(es, cap, item).last() == item,
        has_key(inserted(es, cap, item), item.0),
        index_of(inserted(es, cap, item), item.0) == inserted(es, cap, item).len() - 1,
{
    let r = inserted(es, cap, item);
    if has_key(es, item.0) {
        let i = index_of(es, item.0);
        assert(es[i].0 == item.0);
        assert forall|a: int, b: int|
            0 <= a < r.len() && 0 <= b < r.len() && a != b implies r[a].0 != r[b].0 by {
            if a < r.len() - 1 && b < r.len() - 1 {
                let a2 = if a < i { a } else { a + 1 };
                let b2 = if b < i { b } else { b + 1 };
                assert(r[a] == es[a2] && r[b] == es[b2]);
            } else if a < r.len() - 1 {
                let a2 = if a < i { a } else { a + 1 };
                assert(r[a] == es[a2]);
                assert(a2 != i);
            } else if b < r.len() - 1 {
                let b2 = if b < i { b } else { b + 1 };
                assert(r[b] == es[b2]);
                assert(b2 != i);
            }
        }
    } else {
        let base = if es.len() == cap { es.drop_first() } else { es };
        assert(r == base.push(item));
        assert forall|a: int, b: int|
            0 <= a < r.len() && 0 <= b < r.len() && a != b implies r[a].0 != r[b].0 by {
            if a < r.len() - 1 && b < r.len() - 1 {
                if es.len() == cap {
                    assert(r[a] == es[a + 1] && r[b] == es[b + 1]);
                }
            } else if a < r.len() - 1 {
                if es.len() == cap {
                    assert(r[a] == es[a + 1]);
                } else {
                    assert(r[a] == es[a]);
                }
            } else if b < r.len() - 1 {
                if es.len() == cap {
                    assert(r[b] == es[b + 1]);
                } else {
                    assert(r[b] == es[b]);
                }
            }
        }
    }
    assert(r[r.len() - 1].0 == item.0);
    let j = index_of(r, item.0);
    assert(r[j].0 == item.0);
}

/// Storing a new key into a full cache evicts exactly the least recently
/// used entry: its key is gone, every other key stays, the new key is in,
/// and the size stays at capacity.
pub proof fn lemma_full_cache_evicts_least_recent(es: Seq<Slot>, cap: nat, item: Slot, now: u64)
    requires
        cap > 0,
        es.len() == cap,
        keys_distinct(es),
        !has_key(es, item.0),
    ensures
        inserted(es, cap, item) == es.drop_first().push(item),
        inserted(es, cap, item).len() == cap,
        !has_key(inserted(es, cap, item), es[0].0),
        fresh_payload(inserted(es, cap, item), es[0].0, now) is None,
        forall|j: int| 1 <= j < es.len() ==> has_key(inserted(es, cap, item), #[trigger] es[j].0),
        has_key(inserted(es, cap, item), item.0),
{
    let r = inserted(es, cap, item);
    lemma_inserted_shape(es, cap, item);
    if has_key(r, es[0].0) {
        let a = choose|a: int| 0 <= a < r.len() && #[trigger] r[a].0 == es[0].0;
        if a < r.len() - 1 {
            assert(r[a] == es[a + 1]);
        } else {
            assert(r[a] == item);
            assert(has_key(es, item.0));
        }
    }
    assert forall|j: int| 1 <= j < es.len() implies has_key(r, #[trigger] es[j].0) by {
        assert(r[j - 1] == es[j]);
    }
}

/// Storing under a key already present replaces its payload and expiry and
/// makes it the most recently used entry; no other entry leaves.
pub proof fn lemma_store_refreshes_present_key(es: Seq<Slot>, cap: nat, item: Slot, now: u64)
    requires
        cap > 0,
        es.len() <= cap,
        keys_distinct(es),
        has_key(es, item.0),
    ensures
        inserted(es, cap, item).len() == es.len(),
        inserted(es, cap, item).last() == item,
        forall|k: Seq<char>| has_key(es, k) ==> has_key(inserted(es, cap, item), k),
        item.2 > now ==> fresh_payload(inserted(es, cap, item), item.0, now) == Some(item.1),
        item.2 <= now ==> fresh_payload(inserted(es, cap, item), item.0, now) is None,
{
    let r = inserted(es, cap, item);
    let i = index_of(es, item.0);
    lemma_inserted_shape(es, cap, item);
    assert forall|k: Seq<char>| has_key(es, k) implies has_key(r, k) by {
        let a = choose|a: int| 0 <= a < es.len() && #[trigger] es[a].0 == k;
        if a == i {
            assert(r[r.len() - 1].0 == k);
        } else if a < i {
            assert(r[a] == es[a]);
        } else {
            assert(r[a - 1] == es[a]);
        }
    }
}

/// A present entry whose expiry has passed reads as absent, whatever room
/// the cache has left.
pub proof fn lemma_stale_entry_reads_absent(es: Seq<Slot>, k: Seq<char>, now: u64)
    requires
        has_key(es, k),
        es[index_of(es, k)].2 <= now,
    ensures
        fresh_payload(es, k, now) is None,
{
}

/// Up to capacity, storing items with distinct keys into an empty cache
/// keeps them all, in the order stored.
pub proof fn lemma_fill_keeps_all(cap: nat, items: Seq<Slot>)
    requires
        cap > 0,
        items.len() <= cap,
        keys_distinct(items),
    ensures
        inserted_all(Seq::empty(), cap, items) == items,
    decreases items.len(),
{
    if items.len() > 0 {
        let prev = items.drop_last();
        assert(keys_distinct(prev));
        lemma_fill_keeps_all(cap, prev);
        if has_key(prev, items.last().0) {
            let a = choose|a: int| 0 <= a < prev.len() && #[trigger] prev[a].0 == items.last().0;
            assert(items[a].0 == items[items.len() - 1].0);
        }
        assert(prev.push(items.last()) =~= items);
    }
}

/// Storing capacity + 1 items with distinct keys into an empty cache evicts
/// exactly the first, least recently used one: the others remain, in order,
/// and a lookup of the first key finds nothing.
pub proof fn lemma_overflow_evicts_first(cap: nat, items: Seq<Slot>, now: u64)
    requires
        cap > 0,
        items.len() == cap + 1,
        keys_distinct(items),
    ensures
        inserted_all(Seq::empty(), cap, items) == items.drop_first(),
        fresh_payload(inserted_all(Seq::empty(), cap, items), items[0].0, now) is None,
{
    let prev = items.drop_last();
    assert(keys_distinct(prev));
    lemma_fill_keeps_all(cap, prev);
    if has_key(prev, items.last().0) {
        let a = choose|a: int| 0 <= a < prev.len() && #[trigger] prev[a].0 == items.last().0;
        assert(items[a].0 == items[items.len() - 1].0);
    }
    lemma_full_cache_evicts_least_recent(prev, cap, items.last(), now);
    assert(prev.drop_first().push(items.last()) =~= items.drop_first());
}

pub struct ResponseCache {
    store: Store,
    capacity: usize,
    ttl: u64,
}

impl ResponseCache {
    /// The entries, least recently used first.
    pub closed spec fn view(&self) -> Seq<Slot> {
        lru_entries(self.store)
    }

    pub closed spec fn spec_capacity(&self) -> nat {
        self.capacity as nat
    }

    pub closed spec fn spec_ttl(&self) -> u64 {
        self.ttl
    }

    pub closed spec fn wf(&self) -> bool {
        &&& store_valid(self.store)
        &&& lru_capacity(self.store) == self.capacity
    }

    /// Facts that every well-formed cache has.
    pub proof fn lemma_wf(&self)
        requires
            self.wf(),
        ensures
            self.spec_capacity() > 0,
            self@.len() <= self.spec_capacity(),
            keys_distinct(self@),
    {
    }

    /// An empty cache holding at most `capacity` entries, each fresh for `ttl` ticks.
    pub fn new(capacity: usize, ttl: u64) -> (r: Self)
        requires
            capacity > 0,
        ensures
            r.wf(),
            r@ == Seq::<Slot>::empty(),
            r.spec_capacity() == capacity,
            r.spec_ttl() == ttl,
    {
        ResponseCache { store: store_new(capacity), capacity, ttl }
    }

    /// The proxy's cache: a thousand entries, fresh for thirty days.
    pub fn with_defaults() -> (r: Self)
        ensures
            r.wf(),
            r@ == Seq::<Slot>::empty(),
            r.spec_capacity() == CACHE_SIZE,
            r.spec_ttl() == CACHE_TTL_MS,
    {
        Self::new(CACHE_SIZE, CACHE_TTL_MS)
    }

    pub fn capacity(&self) -> (r: usize)
        ensures
            r == self.spec_capacity(),
    {
        self.capacity
    }

    pub fn ttl(&self) -> (r: u64)
        ensures
            r == self.spec_ttl(),
    {
        self.ttl
    }

    /// Looks `key` up at time `now`. A present key becomes the most recently
    /// used, stale or not; only a fresh entry's payload is returned.
    pub fn get(&mut self, key: &String, now: u64) -> (r: Option<String>)
        requires
            old(self).wf(),
        ensures
            final(self).wf(),
            final(self).spec_capacity() == old(self).spec_capacity(),
            final(self).spec_ttl() == old(self).spec_ttl(),
            final(self)@ == touched(old(self)@, key@),
            match r {
                Some(p) => fresh_payload(old(self)@, key@, now) == Some(p@),
                None => fresh_payload(old(self)@, key@, now) is None,
            },
    {
        match store_get(&mut self.store, key) {
            Some(entry) => {
                if entry.expires_at > now {
                    Some(entry.payload)
                } else {
                    None
                }
            },
            None => None,
        }
    }

    /// Stores `payload` under `key` at time `now`, fresh until `now + ttl`,
    /// as the most recently used entry; a new key in a full cache first
    /// evicts the least recently used entry.
    pub fn put(&mut self, key: String, payload: String, now: u64)
        requires
            old(self).wf(),
        ensures
            final(self).wf(),
            final(self).spec_capacity() == old(self).spec_capacity(),
            final(self).spec_ttl() == old(self).spec_ttl(),
            final(self)@ == inserted(
                old(self)@,
                old(self).spec_capacity(),
                (key@, payload@, expiry(now, old(self).spec_ttl())),
            ),
    {
        let expires_at = now.saturating_add(self.ttl);
        store_put(&mut self.store, key, CacheEntry { payload, expires_at });
    }
}

} // verus!
