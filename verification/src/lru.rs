//! The bounded, expiring store of live instances, and what is taken on trust
//! about it.
//!
//! The store is `lru_time_cache::LruCache`. Its contents are modelled as a
//! sequence of `(handle, instance)` pairs ordered by recency of use: the least
//! recently used entry comes first. Entries whose idle time has run out are
//! dropped lazily, so the sequence may still hold them; because recency and
//! age agree, they always form a prefix of it.

use lru_time_cache::LruCache;
use std::time::Duration;
use vstd::prelude::*;

verus! {

/// `lru_time_cache::LruCache`, taken as an opaque value: what it holds is
/// spoken of through `cache_entries` and `cache_capacity` only.
#[verifier::external_type_specification]
#[verifier::external_body]
#[verifier::reject_recursive_types(Key)]
#[verifier::reject_recursive_types(Value)]
pub struct ExLruCache<Key, Value>(LruCache<Key, Value>);

/// The entries that the store holds, least recently used first.
pub uninterp spec fn cache_entries(cache: LruCache<u64, u64>) -> Seq<(u64, u64)>;

/// The capacity that the store was made with.
pub uninterp spec fn cache_capacity(cache: LruCache<u64, u64>) -> nat;

/// No handle occurs twice.
pub open spec fn distinct_keys(s: Seq<(u64, u64)>) -> bool {
    forall|i: int, j: int| 0 <= i < j < s.len() ==> (#[trigger] s[i]).0 != (#[trigger] s[j]).0
}

/// Some entry of `s` belongs to `key`.
pub open spec fn has_key(s: Seq<(u64, u64)>, key: u64) -> bool {
    exists|i: int| 0 <= i < s.len() && (#[trigger] s[i]).0 == key
}

/// Where the entry of `key` stands in `s`, if it has one.
pub open spec fn position(s: Seq<(u64, u64)>, key: u64) -> int {
    choose|i: int| 0 <= i < s.len() && (#[trigger] s[i]).0 == key
}

/// The instance stored for `key`.
pub open spec fn value_of(s: Seq<(u64, u64)>, key: u64) -> Option<u64> {
    if has_key(s, key) {
        Some(s[position(s, key)].1)
    } else {
        None
    }
}

/// `s` without the entry of `key`.
pub open spec fn without(s: Seq<(u64, u64)>, key: u64) -> Seq<(u64, u64)> {
    if has_key(s, key) {
        s.remove(position(s, key))
    } else {
        s
    }
}

/// `s` with the entry of `key`, if any, moved to the most recently used end.
pub open spec fn promoted(s: Seq<(u64, u64)>, key: u64) -> Seq<(u64, u64)> {
    if has_key(s, key) {
        without(s, key).push(s[position(s, key)])
    } else {
        s
    }
}

/// `s` after room was made for one new entry under `capacity`: the least
/// recently used entries leave until fewer than `capacity` are left.
pub open spec fn trimmed(s: Seq<(u64, u64)>, capacity: nat) -> Seq<(u64, u64)> {
    if s.len() >= capacity {
        s.skip(s.len() - capacity + 1)
    } else {
        s
    }
}

/// `s` after `(key, value)` was stored under `capacity`: an entry of `key` is
/// replaced and promoted; a new key evicts by recency first.
pub open spec fn inserted(s: Seq<(u64, u64)>, capacity: nat, key: u64, value: u64) -> Seq<
    (u64, u64),
> {
    if has_key(s, key) {
        without(s, key).push((key, value))
    } else {
        trimmed(s, capacity).push((key, value))
    }
}

/// The `n` most recently used entries of `s`, most recent first.
pub open spec fn recent(s: Seq<(u64, u64)>, n: int) -> Seq<(u64, u64)> {
    s.skip(s.len() - n).reverse()
}

/// `after` is `before` without some of its least recently used entries.
pub open spec fn expired_from(before: Seq<(u64, u64)>, after: Seq<(u64, u64)>) -> bool {
    exists|n: int| 0 <= n <= before.len() && after == #[trigger] before.skip(n)
}

/// `LruCache::with_expiry_duration_and_capacity`: an empty store with the
/// given capacity. The bound keeps the initial allocation within what a
/// collection may ask for.
#[verifier::external_body]
pub(crate) fn cache_new(time_to_live_ms: u64, capacity: usize) -> (cache: LruCache<u64, u64>)
    requires
        capacity * 8 <= isize::MAX,
    ensures
        cache_entries(cache) == Seq::<(u64, u64)>::empty(),
        cache_capacity(cache) == capacity,
{
    LruCache::with_expiry_duration_and_capacity(Duration::from_millis(time_to_live_ms), capacity)
}

/// `LruCache::notify_insert`: first the expired entries leave, a prefix of the
/// contents, and are returned in their order; then the pair is stored among
/// the rest as `inserted` says. The first component is the instance that the
/// key had among the rest. With capacity zero the call would panic.
#[verifier::external_body]
pub(crate) fn cache_insert(cache: &mut LruCache<u64, u64>, key: u64, value: u64) -> (r: (
    Option<u64>,
    Vec<(u64, u64)>,
))
    requires
        cache_capacity(*old(cache)) >= 1,
        distinct_keys(cache_entries(*old(cache))),
    ensures
        r.1@.len() <= cache_entries(*old(cache)).len(),
        r.1@ == cache_entries(*old(cache)).take(r.1@.len() as int),
        r.0 == value_of(cache_entries(*old(cache)).skip(r.1@.len() as int), key),
        cache_entries(*final(cache)) == inserted(
            cache_entries(*old(cache)).skip(r.1@.len() as int),
            cache_capacity(*old(cache)),
            key,
            value,
        ),
        cache_capacity(*final(cache)) == cache_capacity(*old(cache)),
{
    cache.notify_insert(key, value)
}

/// `LruCache::notify_get`: first the expired entries leave, a prefix of the
/// contents, and are returned in their order; then the entry of `key`, if it
/// is among the rest, is promoted and its instance returned.
#[verifier::external_body]
pub(crate) fn cache_get(cache: &mut LruCache<u64, u64>, key: u64) -> (r: (
    Option<u64>,
    Vec<(u64, u64)>,
))
    requires
        distinct_keys(cache_entries(*old(cache))),
    ensures
        r.1@.len() <= cache_entries(*old(cache)).len(),
        r.1@ == cache_entries(*old(cache)).take(r.1@.len() as int),
        r.0 == value_of(cache_entries(*old(cache)).skip(r.1@.len() as int), key),
        cache_entries(*final(cache)) == promoted(
            cache_entries(*old(cache)).skip(r.1@.len() as int),
            key,
        ),
        cache_capacity(*final(cache)) == cache_capacity(*old(cache)),
{
    let (found, expired) = cache.notify_get(&key);
    (found.copied(), expired)
}

/// `LruCache::remove`: the entry of `key` leaves, expired or not, and its
/// instance is returned; nothing else changes.
#[verifier::external_body]
pub(crate) fn cache_remove(cache: &mut LruCache<u64, u64>, key: u64) -> (removed: Option<u64>)
    requires
        distinct_keys(cache_entries(*old(cache))),
    ensures
        removed == value_of(cache_entries(*old(cache)), key),
        cache_entries(*final(cache)) == without(cache_entries(*old(cache)), key),
        cache_capacity(*final(cache)) == cache_capacity(*old(cache)),
{
    cache.remove(&key)
}

/// `LruCache::peek`: the instance of `key` if its entry is there and has not
/// expired; the clock decides the latter. Nothing is promoted.
#[verifier::external_body]
pub(crate) fn cache_peek(cache: &LruCache<u64, u64>, key: u64) -> (found: Option<u64>)
    requires
        distinct_keys(cache_entries(*cache)),
    ensures
        found.is_some() ==> found == value_of(cache_entries(*cache), key),
{
    cache.peek(&key).copied()
}

/// `LruCache::peek_iter`: the entries that have not expired, most recently
/// used first. How many there are is for the clock to decide.
#[verifier::external_body]
pub(crate) fn cache_live(cache: &LruCache<u64, u64>) -> (live: Vec<(u64, u64)>)
    ensures
        live@.len() <= cache_entries(*cache).len(),
        live@ == recent(cache_entries(*cache), live@.len() as int),
{
    cache.peek_iter().map(|entry| (*entry.0, *entry.1)).collect()
}

/// `LruCache::iter`, dropped at once: the expired entries leave, a prefix of
/// the contents; nothing else changes.
#[verifier::external_body]
pub(crate) fn cache_purge(cache: &mut LruCache<u64, u64>)
    ensures
        expired_from(cache_entries(*old(cache)), cache_entries(*final(cache))),
        cache_capacity(*final(cache)) == cache_capacity(*old(cache)),
{
    drop(cache.iter());
}

/// Dropping a prefix keeps the handles distinct and adds none.
pub proof fn lemma_skip_keeps(s: Seq<(u64, u64)>, n: int, key: u64)
    requires
        0 <= n <= s.len(),
    ensures
        distinct_keys(s) ==> distinct_keys(s.skip(n)),
        has_key(s.skip(n), key) ==> has_key(s, key),
        distinct_keys(s) && has_key(s.skip(n), key) ==> value_of(s.skip(n), key) == value_of(
            s,
            key,
        ),
{
    let t = s.skip(n);
    if distinct_keys(s) {
        assert forall|i: int, j: int| 0 <= i < j < t.len() implies (#[trigger] t[i]).0 != (
        #[trigger] t[j]).0 by {
            assert(t[i] == s[i + n]);
            assert(t[j] == s[j + n]);
        }
    }
    if has_key(t, key) {
        let p = position(t, key);
        assert(t[p] == s[p + n]);
        assert(has_key(s, key));
        if distinct_keys(s) {
            let q = position(s, key);
            assert(s[q].0 == s[p + n].0);
            assert(q == p + n);
        }
    }
}

/// Removing the entry of `key` keeps the other entries, in order, and leaves
/// none for `key`.
pub proof fn lemma_without(s: Seq<(u64, u64)>, key: u64)
    requires
        distinct_keys(s),
    ensures
        distinct_keys(without(s, key)),
        !has_key(without(s, key), key),
        without(s, key).len() == s.len() - (if has_key(s, key) {
            1int
        } else {
            0int
        }),
        forall|other: u64|
            other != key ==> (has_key(without(s, key), other) <==> has_key(s, other)),
        forall|other: u64| other != key ==> value_of(without(s, key), other) == value_of(s, other),
{
    let t = without(s, key);
    if has_key(s, key) {
        let p = position(s, key);
        assert forall|i: int| 0 <= i < t.len() implies #[trigger] t[i] == s[if i < p {
            i
        } else {
            i + 1
        }] by {}
        assert forall|i: int, j: int| 0 <= i < j < t.len() implies (#[trigger] t[i]).0 != (
        #[trigger] t[j]).0 by {
            let a = if i < p { i } else { i + 1 };
            let b = if j < p { j } else { j + 1 };
            assert(t[i] == s[a]);
            assert(t[j] == s[b]);
        }
        if has_key(t, key) {
            let q = position(t, key);
            let a = if q < p { q } else { q + 1 };
            assert(t[q] == s[a]);
            assert(s[a].0 == s[p].0);
        }
        assert forall|other: u64| other != key implies (has_key(t, other) <==> has_key(s, other))
            && value_of(t, other) == value_of(s, other) by {
            if has_key(t, other) {
                let q = position(t, other);
                let a = if q < p { q } else { q + 1 };
                assert(t[q] == s[a]);
                assert(has_key(s, other));
            }
            if has_key(s, other) {
                let q = position(s, other);
                assert(q != p);
                let a = if q < p { q } else { q - 1 };
                assert(t[a] == s[q]);
                assert(has_key(t, other));
                let r = position(t, other);
                let b = if r < p { r } else { r + 1 };
                assert(t[r] == s[b]);
                assert(b == q);
            }
        }
    }
}

/// Appending an entry for a handle that has none keeps the handles distinct.
pub proof fn lemma_push_fresh(s: Seq<(u64, u64)>, key: u64, value: u64)
    requires
        distinct_keys(s),
        !has_key(s, key),
    ensures
        distinct_keys(s.push((key, value))),
        has_key(s.push((key, value)), key),
        value_of(s.push((key, value)), key) == Some(value),
        forall|other: u64|
            other != key ==> (has_key(s.push((key, value)), other) <==> has_key(s, other)),
{
    let t = s.push((key, value));
    assert forall|i: int, j: int| 0 <= i < j < t.len() implies (#[trigger] t[i]).0 != (
    #[trigger] t[j]).0 by {
        if j == s.len() {
            assert(t[i] == s[i]);
        } else {
            assert(t[i] == s[i]);
            assert(t[j] == s[j]);
        }
    }
    assert(t[s.len() as int].0 == key);
    let p = position(t, key);
    if p < s.len() {
        assert(t[p] == s[p]);
    }
    assert forall|other: u64| other != key implies (has_key(t, other) <==> has_key(s, other)) by {
        if has_key(t, other) {
            let q = position(t, other);
            assert(t[q] == s[q]);
        }
        if has_key(s, other) {
            let q = position(s, other);
            assert(t[q] == s[q]);
        }
    }
}

/// Removing a handle a second time finds nothing and changes nothing.
pub proof fn lemma_remove_twice(s: Seq<(u64, u64)>, key: u64)
    requires
        distinct_keys(s),
    ensures
        value_of(without(s, key), key).is_none(),
        without(without(s, key), key) == without(s, key),
{
    lemma_without(s, key);
}

/// A new handle stored in a full store, of which nothing has expired, takes
/// the place of the least recently used entry and of no other.
pub proof fn lemma_full_store_evicts_oldest(
    s: Seq<(u64, u64)>,
    capacity: nat,
    key: u64,
    value: u64,
)
    requires
        capacity >= 1,
        s.len() == capacity,
        !has_key(s, key),
    ensures
        inserted(s, capacity, key, value) == s.skip(1).push((key, value)),
        inserted(s, capacity, key, value).len() == capacity,
{
}

/// Promotion moves one entry to the most recently used end and keeps the
/// others in their order.
pub proof fn lemma_promoted(s: Seq<(u64, u64)>, key: u64)
    requires
        distinct_keys(s),
        has_key(s, key),
    ensures
        distinct_keys(promoted(s, key)),
        promoted(s, key).len() == s.len(),
        promoted(s, key).last() == s[position(s, key)],
        promoted(s, key).drop_last() == without(s, key),
        forall|other: u64| has_key(promoted(s, key), other) <==> has_key(s, other),
{
    let entry = s[position(s, key)];
    let rest = without(s, key);
    lemma_without(s, key);
    lemma_push_fresh(rest, key, entry.1);
    assert(rest.push(entry).drop_last() =~= rest);
}

/// A handle that was just promoted outlives the storing of another handle,
/// as long as nothing expires and the store has room for two.
pub proof fn lemma_promoted_survives_insert(
    s: Seq<(u64, u64)>,
    capacity: nat,
    key: u64,
    other: u64,
    value: u64,
)
    requires
        distinct_keys(s),
        has_key(s, key),
        s.len() <= capacity,
        capacity >= 2,
        other != key,
    ensures
        has_key(inserted(promoted(s, key), capacity, other, value), key),
        value_of(inserted(promoted(s, key), capacity, other, value), key) == value_of(s, key),
{
    let p = promoted(s, key);
    let entry = s[position(s, key)];
    lemma_promoted(s, key);
    let after = inserted(p, capacity, other, value);
    assert(p.last() == entry);
    assert(p[p.len() - 1].0 == key);
    assert(has_key(p, key));
    assert(position(p, key) == p.len() - 1);
    if has_key(p, other) {
        lemma_without(p, other);
        let rest = without(p, other);
        assert(has_key(rest, key));
        let q = position(rest, key);
        assert(after[q] == rest[q]);
        lemma_push_fresh(rest, other, value);
        let r = position(after, key);
        assert(r < rest.len());
        assert(after[r] == rest[r]);
        assert(r == q);
    } else {
        let kept = trimmed(p, capacity);
        assert(kept.len() >= 1);
        assert(kept.last() == entry);
        assert(kept[kept.len() - 1].0 == key);
        assert(after[kept.len() - 1] == kept[kept.len() - 1]);
        lemma_skip_keeps(p, p.len() - kept.len(), other);
        lemma_skip_keeps(p, p.len() - kept.len(), key);
        lemma_push_fresh(kept, other, value);
        let r = position(after, key);
        assert(r < kept.len());
        assert(after[r] == kept[r]);
        assert(r == kept.len() - 1);
    }
}

} // verus!
