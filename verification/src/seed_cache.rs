//! The cache from host to `seed_id`: a bounded map that gives up the entry
//! that was used least recently when it is full.

use crate::scan::{first_index, lemma_first_index, lemma_first_index_is};
use lru::LruCache;
use std::num::NonZeroUsize;
use vstd::prelude::*;

verus! {

/// How many hosts the cache of the proxy holds.
pub const CACHE_CAPACITY: usize = 100_000;

/// `lru::LruCache`: known by its entries and by its limit.
#[verifier::external_type_specification]
#[verifier::external_body]
#[verifier::reject_recursive_types(K)]
#[verifier::reject_recursive_types(V)]
#[verifier::reject_recursive_types(S)]
pub struct ExLruCache<K, V, S>(LruCache<K, V, S>);

/// `lru::DefaultHasher`: the hasher of the cache, never looked into.
#[verifier::external_type_specification]
#[verifier::external_body]
pub struct ExDefaultHasher(lru::DefaultHasher);

/// What a cache holds: its entries as pairs of key and value, the one that
/// was used last first.
pub uninterp spec fn cache_entries(cache: LruCache<String, String>) -> Seq<(Seq<char>, Seq<char>)>;

/// The number of entries that a cache holds at most.
pub uninterp spec fn cache_limit(cache: LruCache<String, String>) -> nat;

/// The entries that are held under `key`.
pub open spec fn has_key(key: Seq<char>) -> spec_fn((Seq<char>, Seq<char>)) -> bool {
    |entry: (Seq<char>, Seq<char>)| entry.0 == key
}

/// Where `key` stands among `entries`.
pub open spec fn index_of(entries: Seq<(Seq<char>, Seq<char>)>, key: Seq<char>) -> Option<int> {
    first_index(entries, 0, has_key(key))
}

/// The value that `entries` hold for `key`.
pub open spec fn lookup(entries: Seq<(Seq<char>, Seq<char>)>, key: Seq<char>) -> Option<
    Seq<char>,
> {
    match index_of(entries, key) {
        Some(i) => Some(entries[i].1),
        None => None,
    }
}

/// The entries after `key` was looked up: where it is held, its entry has
/// moved to the front.
pub open spec fn after_get(entries: Seq<(Seq<char>, Seq<char>)>, key: Seq<char>) -> Seq<
    (Seq<char>, Seq<char>),
> {
    match index_of(entries, key) {
        Some(i) => seq![entries[i]] + entries.remove(i),
        None => entries,
    }
}

/// The entries after `value` was put under `key`. The new entry stands at
/// the front. An entry that `key` had is gone; where it had none and the
/// cache was full, the last entry is gone.
pub open spec fn after_put(
    entries: Seq<(Seq<char>, Seq<char>)>,
    limit: nat,
    key: Seq<char>,
    value: Seq<char>,
) -> Seq<(Seq<char>, Seq<char>)> {
    match index_of(entries, key) {
        Some(i) => seq![(key, value)] + entries.remove(i),
        None => if entries.len() >= limit {
            seq![(key, value)] + entries.drop_last()
        } else {
            seq![(key, value)] + entries
        },
    }
}

/// `LruCache::with_hasher` with the default hasher of the crate: an empty
/// cache for at most `limit` entries. It is made for limits from one to a
/// million, for which the table can be laid out.
#[verifier::external_body]
fn new_cache(limit: usize) -> (cache: LruCache<String, String>)
    requires
        0 < limit <= 1_000_000,
    ensures
        cache_entries(cache).len() == 0,
        cache_limit(cache) == limit,
{
    LruCache::with_hasher(NonZeroUsize::new(limit).unwrap(), lru::DefaultHasher::default())
}

/// `LruCache::get`: the value under `key`, where there is one, and its entry
/// moves to the front.
#[verifier::external_body]
fn cache_get(cache: &mut LruCache<String, String>, key: &str) -> (r: Option<String>)
    ensures
        match r {
            Some(value) => lookup(cache_entries(*old(cache)), key@) == Some(value@),
            None => lookup(cache_entries(*old(cache)), key@) is None,
        },
        cache_entries(*final(cache)) == after_get(cache_entries(*old(cache)), key@),
        cache_limit(*final(cache)) == cache_limit(*old(cache)),
{
    cache.get(key).cloned()
}

/// `LruCache::put`: `value` is held under `key` from now on, at the front.
/// A full cache gives up its last entry for a new key.
#[verifier::external_body]
fn cache_put(cache: &mut LruCache<String, String>, key: String, value: String)
    ensures
        cache_entries(*final(cache)) == after_put(
            cache_entries(*old(cache)),
            cache_limit(*old(cache)),
            key@,
            value@,
        ),
        cache_limit(*final(cache)) == cache_limit(*old(cache)),
{
    cache.put(key, value);
}

/// `LruCache::len`: the number of entries.
#[verifier::external_body]
fn cache_len(cache: &LruCache<String, String>) -> (len: usize)
    ensures
        len == cache_entries(*cache).len(),
{
    cache.len()
}

/// What a cache stands for: its entries, the one used last first, and the
/// number of entries it holds at most.
pub struct CacheView {
    pub entries: Seq<(Seq<char>, Seq<char>)>,
    pub limit: nat,
}

impl CacheView {
    /// The value held for `host`.
    pub open spec fn get(self, host: Seq<char>) -> Option<Seq<char>> {
        lookup(self.entries, host)
    }

    /// The cache after `host` was looked up.
    pub open spec fn touched(self, host: Seq<char>) -> CacheView {
        CacheView { entries: after_get(self.entries, host), ..self }
    }

    /// The cache after `seed_id` was put under `host`.
    pub open spec fn with(self, host: Seq<char>, seed_id: Seq<char>) -> CacheView {
        CacheView { entries: after_put(self.entries, self.limit, host, seed_id), ..self }
    }
}

/// After a put the cache holds the value under its key.
pub proof fn lemma_put_is_held(cache: CacheView, host: Seq<char>, seed_id: Seq<char>)
    ensures
        cache.with(host, seed_id).get(host) == Some(seed_id),
{
    let after = cache.with(host, seed_id).entries;
    assert(after[0] == (host, seed_id));
    lemma_first_index_is(after, 0, has_key(host), 0);
}

/// Looking a host up does not change what the cache holds for any host.
pub proof fn lemma_get_keeps_values(cache: CacheView, host: Seq<char>, other: Seq<char>)
    ensures
        cache.touched(host).get(other) == cache.get(other),
{
    let entries = cache.entries;
    let has_host = has_key(host);
    let has_other = has_key(other);
    lemma_first_index(entries, 0, has_host);
    lemma_first_index(entries, 0, has_other);
    if let Some(i) = index_of(entries, host) {
        let after = cache.touched(host).entries;
        assert(after == seq![entries[i]] + entries.remove(i));
        assert(after[0] == entries[i]);
        assert forall|j: int| 0 < j < after.len() implies after[j] == entries[if j <= i {
            j - 1
        } else {
            j
        }] by {}
        if other == host {
            lemma_first_index_is(after, 0, has_other, 0);
        } else {
            match index_of(entries, other) {
                Some(k) => {
                    let moved = if k < i {
                        k + 1
                    } else {
                        k
                    };
                    assert(after[moved] == entries[k]);
                    assert forall|j: int| 0 <= j < moved implies !has_other(
                        #[trigger] after[j],
                    ) by {
                        if j > 0 {
                            let back = if j <= i {
                                j - 1
                            } else {
                                j
                            };
                            assert(after[j] == entries[back]);
                            assert(!has_other(entries[back]));
                        }
                    }
                    lemma_first_index_is(after, 0, has_other, moved);
                },
                None => {
                    assert forall|j: int| 0 <= j < after.len() implies !has_other(
                        #[trigger] after[j],
                    ) by {
                        if j > 0 {
                            let back = if j <= i {
                                j - 1
                            } else {
                                j
                            };
                            assert(after[j] == entries[back]);
                            assert(!has_other(entries[back]));
                        }
                    }
                    crate::scan::lemma_first_index_none(after, 0, has_other);
                },
            }
        }
    }
}

/// The cache of the resolver.
pub struct ResolverCache {
    cache: LruCache<String, String>,
}

impl View for ResolverCache {
    type V = CacheView;

    closed spec fn view(&self) -> CacheView {
        CacheView { entries: cache_entries(self.cache), limit: cache_limit(self.cache) }
    }
}

impl ResolverCache {
    /// An empty cache for `CACHE_CAPACITY` hosts.
    pub fn new() -> (cache: Self)
        ensures
            cache@.entries.len() == 0,
            cache@.limit == CACHE_CAPACITY,
    {
        Self { cache: new_cache(CACHE_CAPACITY) }
    }

    /// The `seed_id` held for `host`. A host that is held counts as used.
    pub fn get(&mut self, host: &str) -> (r: Option<String>)
        ensures
            match r {
                Some(seed_id) => old(self)@.get(host@) == Some(seed_id@),
                None => old(self)@.get(host@) is None,
            },
            final(self)@ == old(self)@.touched(host@),
    {
        cache_get(&mut self.cache, host)
    }

    /// Holds `seed_id` for `host` from now on.
    pub fn put(&mut self, host: String, seed_id: String)
        ensures
            final(self)@ == old(self)@.with(host@, seed_id@),
            final(self)@.get(host@) == Some(seed_id@),
    {
        proof {
            lemma_put_is_held(self@, host@, seed_id@);
        }
        cache_put(&mut self.cache, host, seed_id)
    }

    /// The number of hosts held.
    pub fn len(&self) -> (len: usize)
        ensures
            len == self@.entries.len(),
    {
        cache_len(&self.cache)
    }
}

} // verus!
