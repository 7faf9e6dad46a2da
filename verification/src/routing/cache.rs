//! Cache of routing answers.
//!
//! A bounded cache in least-recently-used order, kept by the `lru` crate.
//! The key is what the indices look at: host, path, method and source
//! address. The cached answer may be `None`: that no route matches is an
//! answer too.

use vstd::prelude::*;
use std::num::NonZeroUsize;
use crate::text::{utf8_lossy, utf8_lossy_string};

verus! {

#[verifier::external_type_specification]
#[verifier::external_body]
#[verifier::reject_recursive_types(K)]
#[verifier::reject_recursive_types(V)]
#[verifier::reject_recursive_types(S)]
pub struct ExLruCache<K, V, S>(lru::LruCache<K, V, S>);

#[verifier::external_type_specification]
#[verifier::external_body]
pub struct ExLruHasher(lru::DefaultHasher);

/// Key of a cached routing answer.
#[derive(Debug, Clone, PartialEq, Eq, Hash)]
pub struct RouteCacheKey {
    /// Value of the host header.
    pub host: String,
    /// Request path.
    pub path: String,
    /// HTTP method.
    pub method: String,
    /// Source address, as text.
    pub source_ip: String,
}

/// Mathematical value of a cache key: the four texts.
pub type KeyModel = (Seq<char>, Seq<char>, Seq<char>, Seq<char>);

impl View for RouteCacheKey {
    type V = KeyModel;

    open spec fn view(&self) -> KeyModel {
        (self.host@, self.path@, self.method@, self.source_ip@)
    }
}

impl RouteCacheKey {
    /// The key of a request. Bytes that are not valid UTF-8 are replaced as
    /// `String::from_utf8_lossy` replaces them.
    pub fn new(host: &[u8], path: &[u8], method: &[u8], source_ip: &str) -> (r: Self)
        ensures
            r@ == (utf8_lossy(host@), utf8_lossy(path@), utf8_lossy(method@), source_ip@),
    {
        Self {
            host: utf8_lossy_string(host),
            path: utf8_lossy_string(path),
            method: utf8_lossy_string(method),
            source_ip: source_ip.to_owned(),
        }
    }
}

/// The cache of the `lru` crate, keyed by the four texts.
pub type LruStore = lru::LruCache<(String, String, String, String), Option<usize>>;

/// A cached answer with its key.
pub type Entry = (KeyModel, Option<usize>);

/// What the store holds: its entries, most recently used first.
pub uninterp spec fn lru_entries(store: LruStore) -> Seq<Entry>;

/// The number of entries that the store was made to hold.
pub uninterp spec fn lru_capacity(store: LruStore) -> nat;

/// Where the entry with the key `key` stands; the number of entries where
/// there is none.
pub open spec fn entry_index(entries: Seq<Entry>, key: KeyModel) -> int
    decreases entries.len(),
{
    if entries.len() == 0 {
        0
    } else if entries[0].0 == key {
        0
    } else {
        1 + entry_index(entries.drop_first(), key)
    }
}

/// The answer cached for a key, if any.
pub open spec fn cached(entries: Seq<Entry>, key: KeyModel) -> Option<Option<usize>> {
    let i = entry_index(entries, key);
    if 0 <= i < entries.len() {
        Some(entries[i].1)
    } else {
        None
    }
}

/// The entries after a lookup: the entry found moves to the front.
pub open spec fn after_get(entries: Seq<Entry>, key: KeyModel) -> Seq<Entry> {
    let i = entry_index(entries, key);
    if 0 <= i < entries.len() {
        seq![entries[i]] + entries.remove(i)
    } else {
        entries
    }
}

/// The entries after an answer is stored in a cache of `capacity` entries:
/// the new entry stands at the front; an older entry with the same key is
/// gone; with no such entry and a full cache, the least recently used
/// entry is gone.
pub open spec fn after_put(entries: Seq<Entry>, capacity: nat, key: KeyModel, value: Option<usize>) -> Seq<
    Entry,
> {
    let i = entry_index(entries, key);
    if 0 <= i < entries.len() {
        seq![(key, value)] + entries.remove(i)
    } else if entries.len() >= capacity && entries.len() > 0 {
        seq![(key, value)] + entries.drop_last()
    } else {
        seq![(key, value)] + entries
    }
}

/// An answer that was stored is found again by the next lookup of its key.
pub proof fn lemma_put_then_get(entries: Seq<Entry>, capacity: nat, key: KeyModel, value: Option<usize>)
    ensures
        cached(after_put(entries, capacity, key, value), key) == Some(value),
{
    let after = after_put(entries, capacity, key, value);
    assert(after[0] == (key, value));
}

/// A lookup does not change which answer is cached for any key.
pub proof fn lemma_get_keeps_answers(entries: Seq<Entry>, key: KeyModel, other: KeyModel)
    ensures
        cached(after_get(entries, key), other) == cached(entries, other),
{
    let i = entry_index(entries, key);
    lemma_entry_index(entries, key);
    lemma_entry_index(entries, other);
    if 0 <= i < entries.len() {
        let after = after_get(entries, key);
        let j = entry_index(entries, other);
        if other == key {
            assert(after[0] == entries[i]);
        } else if j < entries.len() {
            assert(after[0].0 != other);
            let rest = entries.remove(i);
            assert(after.drop_first() =~= rest);
            let k = if j < i { j } else { j - 1 };
            assert(rest[k] == entries[j]);
            assert forall|m: int| 0 <= m < k implies (#[trigger] rest[m]).0 != other by {
                if m < i {
                    assert(rest[m] == entries[m]);
                } else {
                    assert(rest[m] == entries[m + 1]);
                }
            }
            lemma_entry_index_is(rest, other, k);
        } else {
            assert(after[0].0 != other);
            let rest = entries.remove(i);
            assert(after.drop_first() =~= rest);
            assert forall|m: int| 0 <= m < rest.len() implies (#[trigger] rest[m]).0 != other by {
                if m < i {
                    assert(rest[m] == entries[m]);
                } else {
                    assert(rest[m] == entries[m + 1]);
                }
            }
            lemma_entry_index_is(rest, other, rest.len() as int);
        }
    }
}

proof fn lemma_entry_index(entries: Seq<Entry>, key: KeyModel)
    ensures
        0 <= entry_index(entries, key) <= entries.len(),
        entry_index(entries, key) < entries.len() ==> entries[entry_index(entries, key)].0 == key,
        forall|j: int| 0 <= j < entry_index(entries, key) ==> (#[trigger] entries[j]).0 != key,
    decreases entries.len(),
{
    if entries.len() > 0 && entries[0].0 != key {
        let rest = entries.drop_first();
        lemma_entry_index(rest, key);
        assert forall|j: int| 0 <= j < entry_index(entries, key) implies (#[trigger] entries[j]).0
            != key by {
            if j > 0 {
                assert(entries[j] == rest[j - 1]);
            }
        }
    }
}

proof fn lemma_entry_index_is(entries: Seq<Entry>, key: KeyModel, k: int)
    requires
        0 <= k <= entries.len(),
        k < entries.len() ==> entries[k].0 == key,
        forall|j: int| 0 <= j < k ==> (#[trigger] entries[j]).0 != key,
    ensures
        entry_index(entries, key) == k,
{
    lemma_entry_index(entries, key);
    let g = entry_index(entries, key);
    if g < k {
        assert(entries[g].0 != key);
    }
    if k < g {
        assert(entries[k].0 != key);
    }
}

/// Wraps `lru::LruCache::new`: an empty store made for `capacity` entries.
/// A capacity of zero is left out: it cannot be made into the non-zero
/// number that the store takes.
#[verifier::external_body]
fn lru_new(capacity: usize) -> (store: LruStore)
    requires
        capacity > 0,
    ensures
        lru_entries(store) == no_entries(),
        lru_capacity(store) == capacity,
{
    lru::LruCache::new(NonZeroUsize::new(capacity).unwrap())
}

/// The entries of a new store: none.
pub open spec fn no_entries() -> Seq<Entry> {
    Seq::empty()
}

/// Wraps `lru::LruCache::get`: the answer stored for the key, which moves
/// to the front of the store.
#[verifier::external_body]
fn lru_get(store: &mut LruStore, key: &RouteCacheKey) -> (r: Option<Option<usize>>)
    ensures
        r == cached(lru_entries(*old(store)), key@),
        lru_entries(*final(store)) == after_get(lru_entries(*old(store)), key@),
        lru_capacity(*final(store)) == lru_capacity(*old(store)),
{
    let k = (key.host.clone(), key.path.clone(), key.method.clone(), key.source_ip.clone());
    store.get(&k).copied()
}

/// Wraps `lru::LruCache::put`: the answer is stored at the front; an entry
/// with the same key is replaced, and a full store drops its least
/// recently used entry.
#[verifier::external_body]
fn lru_put(store: &mut LruStore, key: RouteCacheKey, value: Option<usize>)
    ensures
        lru_entries(*final(store)) == after_put(
            lru_entries(*old(store)),
            lru_capacity(*old(store)),
            key@,
            value,
        ),
        lru_capacity(*final(store)) == lru_capacity(*old(store)),
{
    store.put((key.host, key.path, key.method, key.source_ip), value);
}

/// Wraps `lru::LruCache::clear`: the store is emptied.
#[verifier::external_body]
fn lru_clear(store: &mut LruStore)
    ensures
        lru_entries(*final(store)) == no_entries(),
        lru_capacity(*final(store)) == lru_capacity(*old(store)),
{
    store.clear();
}

/// Cache of routing answers with hit and miss counters.
#[derive(Debug)]
pub struct RouteCache {
    cache: LruStore,
    hits: u64,
    misses: u64,
}

/// Mathematical value of a route cache.
pub struct CacheModel {
    /// The entries, most recently used first.
    pub entries: Seq<Entry>,
    /// The number of entries that the cache holds at most.
    pub capacity: nat,
    /// Lookups that found an answer, counted modulo 2^64.
    pub hits: u64,
    /// Lookups that found none, counted modulo 2^64.
    pub misses: u64,
}

impl View for RouteCache {
    type V = CacheModel;

    closed spec fn view(&self) -> CacheModel {
        CacheModel {
            entries: lru_entries(self.cache),
            capacity: lru_capacity(self.cache),
            hits: self.hits,
            misses: self.misses,
        }
    }
}

/// Capacity used where a capacity of zero is asked for.
pub const DEFAULT_CACHE_CAPACITY: usize = 1000;

impl RouteCache {
    /// An empty cache for `capacity` answers; for 1000 where `capacity` is
    /// zero.
    pub fn new(capacity: usize) -> (r: Self)
        ensures
            r@ == (CacheModel {
                entries: Seq::empty(),
                capacity: if capacity == 0 {
                    1000
                } else {
                    capacity as nat
                },
                hits: 0,
                misses: 0,
            }),
    {
        let cap = if capacity == 0 {
            DEFAULT_CACHE_CAPACITY
        } else {
            capacity
        };
        Self { cache: lru_new(cap), hits: 0, misses: 0 }
    }

    /// Looks an answer up. A hit makes its entry the most recently used
    /// one; hits and misses are counted.
    pub fn get(&mut self, key: &RouteCacheKey) -> (r: Option<Option<usize>>)
        ensures
            r == cached(old(self)@.entries, key@),
            final(self)@ == (CacheModel {
                entries: after_get(old(self)@.entries, key@),
                hits: if r is Some {
                    old(self)@.hits.wrapping_add(1)
                } else {
                    old(self)@.hits
                },
                misses: if r is Some {
                    old(self)@.misses
                } else {
                    old(self)@.misses.wrapping_add(1)
                },
                ..old(self)@
            }),
    {
        match lru_get(&mut self.cache, key) {
            Some(result) => {
                self.hits = self.hits.wrapping_add(1);
                Some(result)
            },
            None => {
                self.misses = self.misses.wrapping_add(1);
                None
            },
        }
    }

    /// Stores an answer.
    pub fn put(&mut self, key: RouteCacheKey, route_idx: Option<usize>)
        ensures
            final(self)@ == (CacheModel {
                entries: after_put(old(self)@.entries, old(self)@.capacity, key@, route_idx),
                ..old(self)@
            }),
    {
        lru_put(&mut self.cache, key, route_idx);
    }

    /// The numbers of hits and of misses so far.
    pub fn stats(&self) -> (r: (u64, u64))
        ensures
            r == (self@.hits, self@.misses),
    {
        (self.hits, self.misses)
    }

    /// Drops every cached answer. The counters stay.
    pub fn clear(&mut self)
        ensures
            final(self)@ == (CacheModel { entries: Seq::empty(), ..old(self)@ }),
    {
        lru_clear(&mut self.cache);
    }
}

} // verus!
