//! The contract under which this crate uses `lru_cache::LruCache<u32, u32>`.
//!
//! Nothing in this file is proved. Each item states what the source of the
//! `lru-cache` crate (and of `linked-hash-map`, on which it is built) shows.

use lru_cache::LruCache;
use std::collections::hash_map::RandomState;
use std::hash::BuildHasher;
use std::hash::Hash;
use vstd::prelude::*;

verus! {

/// `lru_cache::LruCache`, carried as an opaque value.
#[verifier::external_type_specification]
#[verifier::external_body]
#[verifier::reject_recursive_types(K)]
#[verifier::reject_recursive_types(V)]
#[verifier::reject_recursive_types(S)]
pub struct ExLruCache<K: Eq + Hash, V, S: BuildHasher>(LruCache<K, V, S>);

/// The key-value pairs that a cache holds, as `LruCache::iter` walks them:
/// from the least recently used pair to the most recently used one.
pub uninterp spec fn lru_entries(cache: LruCache<u32, u32, RandomState>) -> Seq<(u32, u32)>;

/// The number of pairs that a cache was made to hold (`LruCache::capacity`).
pub uninterp spec fn lru_capacity(cache: LruCache<u32, u32, RandomState>) -> nat;

/// No key occurs twice.
pub open spec fn distinct_keys(entries: Seq<(u32, u32)>) -> bool {
    forall|i: int, j: int| 0 <= i < j < entries.len() ==> entries[i].0 != entries[j].0
}

/// Some pair has the key `key`.
pub open spec fn has_key(entries: Seq<(u32, u32)>, key: u32) -> bool {
    exists|i: int| 0 <= i < entries.len() && entries[i].0 == key
}

/// The position of a pair with the key `key`.
pub open spec fn key_index(entries: Seq<(u32, u32)>, key: u32) -> int {
    choose|i: int| 0 <= i < entries.len() && entries[i].0 == key
}

/// The value stored under `key`, if any.
pub open spec fn value_of(entries: Seq<(u32, u32)>, key: u32) -> Option<u32> {
    if has_key(entries, key) {
        Some(entries[key_index(entries, key)].1)
    } else {
        None
    }
}

/// The pair under `key`, if any, becomes the most recently used one.
pub open spec fn touch(entries: Seq<(u32, u32)>, key: u32) -> Seq<(u32, u32)> {
    if has_key(entries, key) {
        let i = key_index(entries, key);
        entries.remove(i).push(entries[i])
    } else {
        entries
    }
}

/// The pair under `key`, if any, leaves.
pub open spec fn without_key(entries: Seq<(u32, u32)>, key: u32) -> Seq<(u32, u32)> {
    if has_key(entries, key) {
        entries.remove(key_index(entries, key))
    } else {
        entries
    }
}

/// `key` is bound to `value` and becomes the most recently used key.
pub open spec fn put(entries: Seq<(u32, u32)>, key: u32, value: u32) -> Seq<(u32, u32)> {
    without_key(entries, key).push((key, value))
}

/// What is left when a cache of the given capacity lets go of its least
/// recently used pair because it holds too many.
pub open spec fn trimmed(entries: Seq<(u32, u32)>, capacity: nat) -> Seq<(u32, u32)> {
    if entries.len() > capacity {
        entries.drop_first()
    } else {
        entries
    }
}

/// `LruCache::new`: an empty cache with the capacity asked for.
#[verifier::external_body]
pub(crate) fn lru_new(capacity: usize) -> (cache: LruCache<u32, u32, RandomState>)
    ensures
        lru_entries(cache) == Seq::<(u32, u32)>::empty(),
        lru_capacity(cache) == capacity,
{
    LruCache::new(capacity)
}

/// `LruCache::get_mut`: the value under `key`; a key that is present becomes
/// the most recently used one, and nothing else changes.
#[verifier::external_body]
pub(crate) fn lru_get(cache: &mut LruCache<u32, u32, RandomState>, key: u32) -> (value: Option<u32>)
    requires
        distinct_keys(lru_entries(*old(cache))),
    ensures
        value == value_of(lru_entries(*old(cache)), key),
        lru_entries(*final(cache)) == touch(lru_entries(*old(cache)), key),
        lru_capacity(*final(cache)) == lru_capacity(*old(cache)),
{
    cache.get_mut(&key).copied()
}

/// `LruCache::insert`: `key` is bound to `value` as the most recently used
/// pair and the value it had before is returned; if the cache then holds more
/// pairs than its capacity, the least recently used pair is dropped.
#[verifier::external_body]
pub(crate) fn lru_insert(cache: &mut LruCache<u32, u32, RandomState>, key: u32, value: u32) -> (previous: Option<u32>)
    requires
        distinct_keys(lru_entries(*old(cache))),
    ensures
        previous == value_of(lru_entries(*old(cache)), key),
        lru_entries(*final(cache)) == trimmed(
            put(lru_entries(*old(cache)), key, value),
            lru_capacity(*old(cache)),
        ),
        lru_capacity(*final(cache)) == lru_capacity(*old(cache)),
{
    cache.insert(key, value)
}

/// `LruCache::remove`: the pair under `key` leaves and its value is
/// returned; the order of the other pairs stays.
#[verifier::external_body]
pub(crate) fn lru_remove(cache: &mut LruCache<u32, u32, RandomState>, key: u32) -> (value: Option<u32>)
    requires
        distinct_keys(lru_entries(*old(cache))),
    ensures
        value == value_of(lru_entries(*old(cache)), key),
        lru_entries(*final(cache)) == without_key(lru_entries(*old(cache)), key),
        lru_capacity(*final(cache)) == lru_capacity(*old(cache)),
{
    cache.remove(&key)
}

/// `LruCache::iter`, collected: the pairs from the least recently used to the
/// most recently used. The cache's order is not touched.
#[verifier::external_body]
pub(crate) fn lru_pairs(cache: &LruCache<u32, u32, RandomState>) -> (pairs: Vec<(u32, u32)>)
    ensures
        pairs@ == lru_entries(*cache),
{
    cache.iter().map(|(key, value)| (*key, *value)).collect()
}

} // verus!
