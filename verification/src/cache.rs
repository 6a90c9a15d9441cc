//! The TTL-bounded key store behind the connection table: an
//! `lru_time_cache::LruCache` from cache keys to slot indices, held behind
//! trusted wrappers. The cache may silently drop entries whose idle time
//! exceeded the TTL; every contract below allows exactly that and no more.

use vstd::prelude::*;

use crate::net::CacheKey;

verus! {

#[verifier::external_type_specification]
#[verifier::external_body]
#[verifier::reject_recursive_types(Key)]
#[verifier::reject_recursive_types(Value)]
pub struct ExLruCache<Key, Value>(lru_time_cache::LruCache<Key, Value>);

/// The connection-table key store.
pub type ConnCache = lru_time_cache::LruCache<CacheKey, usize>;

/// What the cache currently holds, as a map from key to stored index.
pub uninterp spec fn cache_map(c: ConnCache) -> Map<CacheKey, usize>;

/// Relies on `lru_time_cache::LruCache::with_expiry_duration`: a new, empty
/// cache whose entries expire after the given idle time, with no size cap.
#[verifier::external_body]
pub fn cache_new(ttl_secs: u64) -> (r: ConnCache)
    ensures
        forall|k: CacheKey| !cache_map(r).dom().contains(k),
{
    lru_time_cache::LruCache::with_expiry_duration(std::time::Duration::from_secs(ttl_secs))
}

/// Relies on `lru_time_cache::LruCache::insert`: expired entries are evicted,
/// then the pair is stored, and the value previously stored under the key is
/// returned if it had not expired. No other key gains or changes a value.
#[verifier::external_body]
pub fn cache_insert(c: &mut ConnCache, k: CacheKey, v: usize) -> (r: Option<usize>)
    ensures
        cache_map(*final(c)).contains_pair(k, v),
        forall|k2: CacheKey|
            #[trigger] cache_map(*final(c)).dom().contains(k2) && k2 != k ==> cache_map(
                *old(c),
            ).contains_pair(k2, cache_map(*final(c))[k2]),
        r matches Some(i) ==> cache_map(*old(c)).contains_pair(k, i),
        !cache_map(*old(c)).dom().contains(k) ==> r is None,
{
    c.insert(k, v)
}

/// Relies on `lru_time_cache::LruCache::get`: expired entries are evicted,
/// then the key is looked up and refreshed. `None` means the key is absent
/// (never stored, or dropped by the TTL); no entry changes its value.
#[verifier::external_body]
pub fn cache_get(c: &mut ConnCache, k: &CacheKey) -> (r: Option<usize>)
    ensures
        forall|k2: CacheKey|
            #[trigger] cache_map(*final(c)).dom().contains(k2) ==> cache_map(
                *old(c),
            ).contains_pair(k2, cache_map(*final(c))[k2]),
        r matches Some(i) ==> cache_map(*final(c)).contains_pair(*k, i),
        r is None ==> !cache_map(*final(c)).dom().contains(*k),
        !cache_map(*old(c)).dom().contains(*k) ==> r is None,
{
    c.get(k).copied()
}

} // verus!
