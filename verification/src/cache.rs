//! The idempotence cache.
//!
//! Replies already sent are kept, keyed by the frame id they answered,
//! in a bounded cache with idle-time eviction; a retransmitted frame
//! is then answered with the byte-identical reply instead of being
//! executed again. The cache itself is the `mini-moka` crate's
//! unsynchronized cache; the contracts below state only what its
//! source shows of every outcome, since eviction depends on the clock.

use vstd::prelude::*;

use std::collections::hash_map::RandomState;

verus! {

/// The cache type the node uses: frame ids to reply bytes.
pub type ReplyCacheInner = mini_moka::unsync::Cache<Vec<u8>, Vec<u8>, RandomState>;

/// The entries a cache value holds, as a map from frame ids to reply
/// bytes.
pub uninterp spec fn cache_map(c: ReplyCacheInner) -> Map<Seq<u8>, Seq<u8>>;

/// The summed weight of the entries a cache value holds.
pub uninterp spec fn cache_weight(c: ReplyCacheInner) -> u64;

/// The weight bound a cache value was built with.
pub uninterp spec fn cache_capacity(c: ReplyCacheInner) -> u64;

#[verifier::external_type_specification]
#[verifier::external_body]
#[verifier::reject_recursive_types(K)]
#[verifier::reject_recursive_types(V)]
#[verifier::reject_recursive_types(S)]
pub struct ExCache<K, V, S>(mini_moka::unsync::Cache<K, V, S>);

/// The weight of one cache entry: key length plus value length,
/// saturating at the weigher's 32-bit range.
fn entry_weight_u32(k: &Vec<u8>, v: &Vec<u8>) -> (r: u32)
    ensures
        k@.len() + v@.len() <= u32::MAX ==> r == k@.len() + v@.len(),
{
    let w: u128 = k.len() as u128 + v.len() as u128;
    if w > u32::MAX as u128 {
        u32::MAX
    } else {
        w as u32
    }
}

/// Relies on mini-moka's cache builder: a cache built with
/// `max_capacity`, `time_to_idle` and a weigher starts empty. The
/// builder refuses an idle time past 1000 years (of 365 days), so the
/// idle time must stay within that bound, in milliseconds.
#[verifier::external_body]
pub fn new_bounded_cache(capacity: u64, ttl_millis: u64) -> (r: ReplyCacheInner)
    requires
        ttl_millis <= 31536000000000,
    ensures
        forall|k: Seq<u8>| !cache_map(r).contains_key(k),
        cache_weight(r) == 0,
        cache_capacity(r) == capacity,
{
    mini_moka::unsync::Cache::builder()
        .max_capacity(capacity)
        .time_to_idle(std::time::Duration::from_millis(ttl_millis))
        .weigher(|k: &Vec<u8>, v: &Vec<u8>| entry_weight_u32(k, v))
        .build()
}

/// Relies on mini-moka's `get`: a hit returns the bytes stored under
/// that key; the call may evict entries but never adds or changes one,
/// and never increases the total weight.
#[verifier::external_body]
pub fn cache_get(c: &mut ReplyCacheInner, key: &Vec<u8>) -> (r: Option<Vec<u8>>)
    ensures
        r matches Some(v) ==> cache_map(*old(c)).contains_key(key@) && v@ == cache_map(*old(c))[key@],
        forall|k: Seq<u8>| #[trigger]
            cache_map(*final(c)).contains_key(k) ==> cache_map(*old(c)).contains_key(k)
                && cache_map(*final(c))[k] == cache_map(*old(c))[k],
        cache_weight(*final(c)) <= cache_weight(*old(c)),
{
    c.get(key).cloned()
}

/// Relies on mini-moka's `insert`: afterwards every entry either is
/// the inserted pair or was already present unchanged; whether the new
/// pair is admitted depends on capacity and the clock.
#[verifier::external_body]
pub fn cache_insert(c: &mut ReplyCacheInner, key: Vec<u8>, value: Vec<u8>)
    ensures
        forall|k: Seq<u8>| #[trigger]
            cache_map(*final(c)).contains_key(k) ==> (k == key@ && cache_map(*final(c))[k]
                == value@) || (cache_map(*old(c)).contains_key(k) && cache_map(*final(c))[k]
                == cache_map(*old(c))[k]),
{
    c.insert(key, value);
}

/// Relies on mini-moka's `weighted_size`: it reads the total weight of
/// the held entries.
#[verifier::external_body]
pub fn cache_weighted_size(c: &ReplyCacheInner) -> (r: u64)
    ensures
        r == cache_weight(*c),
{
    c.weighted_size()
}

} // verus!
