//! The FAT entries that were used last, kept in memory.

use core::num::NonZeroUsize;
use vstd::prelude::*;

verus! {

/// A cache of FAT entries that forgets the entry that was used least recently.
#[verifier::external_body]
pub struct FatCache {
    cache: lru::LruCache<u32, u32>,
}

/// The entries of a cache, from the one used last to the one used least recently.
pub uninterp spec fn fat_cache_entries(cache: &FatCache) -> Seq<(u32, u32)>;

/// The number of entries that a cache was made for.
pub uninterp spec fn fat_cache_limit(cache: &FatCache) -> nat;

/// The value that is kept for `key`.
pub open spec fn cache_value(entries: Seq<(u32, u32)>, key: u32) -> Option<u32>
    decreases entries.len(),
{
    if entries.len() == 0 {
        None
    } else if entries[0].0 == key {
        Some(entries[0].1)
    } else {
        cache_value(entries.drop_first(), key)
    }
}

/// The test whether an entry belongs to another key.
pub open spec fn of_other_key(key: u32) -> spec_fn((u32, u32)) -> bool {
    |entry: (u32, u32)| entry.0 != key
}

/// The entries of keys other than `key`, in the same order.
pub open spec fn cache_without(entries: Seq<(u32, u32)>, key: u32) -> Seq<(u32, u32)> {
    entries.filter(of_other_key(key))
}

/// The entries after a lookup of `key`: an entry that is found comes to the front.
pub open spec fn cache_touched(entries: Seq<(u32, u32)>, key: u32) -> Seq<(u32, u32)> {
    match cache_value(entries, key) {
        Some(value) => seq![(key, value)] + cache_without(entries, key),
        None => entries,
    }
}

/// The entries after `value` is put under `key`: it stands at the front, and where
/// a new entry finds the cache full, the last entry goes.
pub open spec fn cache_put(entries: Seq<(u32, u32)>, limit: nat, key: u32, value: u32) -> Seq<
    (u32, u32),
> {
    let rest = if cache_value(entries, key) is Some {
        cache_without(entries, key)
    } else if entries.len() == limit {
        entries.drop_last()
    } else {
        entries
    };
    seq![(key, value)] + rest
}

impl FatCache {
    /// Makes an empty cache with `lru::LruCache::new`, which holds at most `limit`
    /// entries.
    #[verifier::external_body]
    pub(crate) fn new(limit: usize) -> (cache: FatCache)
        requires
            0 < limit,
        ensures
            fat_cache_entries(&cache) == Seq::<(u32, u32)>::empty(),
            fat_cache_limit(&cache) == limit,
    {
        FatCache { cache: lru::LruCache::new(NonZeroUsize::new(limit).unwrap()) }
    }

    /// Looks a key up with `lru::LruCache::get`, which returns the value kept under
    /// it and moves its entry to the front.
    #[verifier::external_body]
    pub(crate) fn get(&mut self, key: u32) -> (value: Option<u32>)
        ensures
            value == cache_value(fat_cache_entries(old(self)), key),
            fat_cache_entries(final(self)) == cache_touched(fat_cache_entries(old(self)), key),
            fat_cache_limit(final(self)) == fat_cache_limit(old(self)),
    {
        self.cache.get(&key).copied()
    }

    /// Keeps a value with `lru::LruCache::put`, which replaces the value of a key
    /// that is there and otherwise drops the last entry of a full cache; the entry
    /// stands at the front afterwards.
    #[verifier::external_body]
    pub(crate) fn put(&mut self, key: u32, value: u32)
        ensures
            fat_cache_entries(final(self)) == cache_put(
                fat_cache_entries(old(self)),
                fat_cache_limit(old(self)),
                key,
                value,
            ),
            fat_cache_limit(final(self)) == fat_cache_limit(old(self)),
    {
        self.cache.put(key, value);
    }
}

/// A value that was just put is found.
pub proof fn lemma_cache_put_found(entries: Seq<(u32, u32)>, limit: nat, key: u32, value: u32)
    ensures
        cache_value(cache_put(entries, limit, key, value), key) == Some(value),
{
}

/// Every entry after a `put` is the new one or an entry of another key from before.
pub proof fn lemma_cache_put_entries(
    entries: Seq<(u32, u32)>,
    limit: nat,
    key: u32,
    value: u32,
    i: int,
)
    requires
        0 < limit,
        0 <= i < cache_put(entries, limit, key, value).len(),
    ensures
        i == 0 ==> cache_put(entries, limit, key, value)[i] == (key, value),
        i > 0 ==> entries.contains(cache_put(entries, limit, key, value)[i]) && cache_put(
            entries,
            limit,
            key,
            value,
        )[i].0 != key,
{
    let after = cache_put(entries, limit, key, value);
    if i > 0 {
        if cache_value(entries, key) is Some {
            let rest = cache_without(entries, key);
            let pred = of_other_key(key);
            assert(after[i] == rest[i - 1]);
            entries.lemma_filter_pred(pred, i - 1);
            assert(rest.contains(rest[i - 1]));
            entries.lemma_filter_contains_rev(pred, rest[i - 1]);
        } else {
            if entries.len() == limit {
                assert(after[i] == entries.drop_last()[i - 1]);
            } else {
                assert(after[i] == entries[i - 1]);
            }
            lemma_cache_value_none(entries, key, i - 1);
        }
    }
}

/// Every entry after a lookup was there before.
pub proof fn lemma_cache_touched_entries(entries: Seq<(u32, u32)>, key: u32, i: int)
    requires
        0 <= i < cache_touched(entries, key).len(),
    ensures
        entries.contains(cache_touched(entries, key)[i]),
{
    match cache_value(entries, key) {
        Some(value) => {
            if i == 0 {
                lemma_cache_value_some(entries, key);
            } else {
                let rest = cache_without(entries, key);
                let pred = of_other_key(key);
                assert(rest.contains(rest[i - 1]));
                entries.lemma_filter_contains_rev(pred, rest[i - 1]);
            }
        },
        None => {
            assert(entries.contains(entries[i]));
        },
    }
}

/// A key that is found belongs to an entry.
pub proof fn lemma_cache_value_some(entries: Seq<(u32, u32)>, key: u32)
    requires
        cache_value(entries, key) is Some,
    ensures
        entries.contains((key, cache_value(entries, key)->0)),
    decreases entries.len(),
{
    if entries[0].0 == key {
        assert(entries[0] == (key, cache_value(entries, key)->0));
    } else {
        lemma_cache_value_some(entries.drop_first(), key);
        let k = choose|k: int|
            0 <= k < entries.drop_first().len() && entries.drop_first()[k] == (
                key,
                cache_value(entries, key)->0,
            );
        assert(entries[k + 1] == entries.drop_first()[k]);
    }
}

/// A key that is not found belongs to no entry.
pub proof fn lemma_cache_value_none(entries: Seq<(u32, u32)>, key: u32, i: int)
    requires
        cache_value(entries, key) is None,
        0 <= i < entries.len(),
    ensures
        entries[i].0 != key,
    decreases entries.len(),
{
    if i > 0 {
        lemma_cache_value_none(entries.drop_first(), key, i - 1);
    }
}

/// Leaving out the entries of a key that has one leaves fewer.
proof fn lemma_fewer_without(entries: Seq<(u32, u32)>, key: u32, i: int)
    requires
        0 <= i < entries.len(),
        entries[i].0 == key,
    ensures
        cache_without(entries, key).len() < entries.len(),
    decreases entries.len(),
{
    reveal(Seq::filter);
    let rest = entries.drop_last();
    if i == rest.len() {
        lemma_no_more_without(rest, key);
    } else {
        lemma_fewer_without(rest, key, i);
    }
}

/// Leaving out the entries of a key leaves no more.
proof fn lemma_no_more_without(entries: Seq<(u32, u32)>, key: u32)
    ensures
        cache_without(entries, key).len() <= entries.len(),
    decreases entries.len(),
{
    reveal(Seq::filter);
    if entries.len() > 0 {
        lemma_no_more_without(entries.drop_last(), key);
    }
}

/// What is put comes first, nothing grows past the limit, and where all places are taken and
/// the key is new it is the last entry that leaves.
pub proof fn law_cache_bounded(entries: Seq<(u32, u32)>, limit: nat, key: u32, value: u32)
    requires
        0 < limit,
        entries.len() <= limit,
    ensures
        ({
            let after = cache_put(entries, limit, key, value);
            &&& after.len() <= limit
            &&& after[0] == (key, value)
            &&& cache_value(entries, key) is None && entries.len() < limit ==> after.skip(1)
                == entries
            &&& cache_value(entries, key) is None && entries.len() == limit ==> after.skip(1)
                == entries.take(limit - 1)
        }),
        cache_touched(entries, key).len() <= limit,
{
    let after = cache_put(entries, limit, key, value);
    if cache_value(entries, key) is Some {
        lemma_cache_value_some(entries, key);
        let i = choose|i: int|
            0 <= i < entries.len() && entries[i] == (key, cache_value(entries, key)->0);
        lemma_fewer_without(entries, key, i);
    } else if entries.len() < limit {
        assert(after.skip(1) =~= entries);
    } else {
        assert(after.skip(1) =~= entries.take(limit - 1));
    }
}

} // verus!
