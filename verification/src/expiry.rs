//! The expiry rule, and what the cache's operations do to its entries.

use crate::cache_map::Entry;
use vstd::prelude::*;

verus! {

/// An entry last accessed at `stamp` is live at `now` while less than `idle` has passed since.
pub open spec fn is_live(stamp: u128, idle: u128, now: u128) -> bool {
    now < stamp + idle
}

/// Decides `is_live` without overflow.
pub fn still_live(stamp: u128, idle: u128, now: u128) -> (live: bool)
    ensures
        live == is_live(stamp, idle, now),
{
    match stamp.checked_add(idle) {
        Some(limit) => now < limit,
        None => true,
    }
}

/// The entries that are live at `now`, each as it was.
pub open spec fn live_entries<K, V>(entries: Map<K, Entry<V>>, idle: u128, now: u128) -> Map<
    K,
    Entry<V>,
> {
    Map::new(
        |k: K| entries.contains_key(k) && is_live(entries[k].stamp, idle, now),
        |k: K| entries[k],
    )
}

/// The entries after `value` was stored under `key` at `now`.
pub open spec fn stored<K, V>(entries: Map<K, Entry<V>>, key: K, value: V, now: u128) -> Map<
    K,
    Entry<V>,
> {
    entries.insert(key, Entry { stamp: now, value })
}

/// The value that a lookup of `key` at `now` finds: that of a live entry, or nothing.
pub open spec fn lookup<K, V>(entries: Map<K, Entry<V>>, idle: u128, key: K, now: u128) -> Option<
    V,
> {
    if live_entries(entries, idle, now).contains_key(key) {
        Some(entries[key].value)
    } else {
        None
    }
}

/// The entries after a lookup of `key` at `now`: the expired ones are gone, and the entry
/// of `key`, if it was live, carries `now` as its stamp.
pub open spec fn refreshed<K, V>(entries: Map<K, Entry<V>>, idle: u128, key: K, now: u128) -> Map<
    K,
    Entry<V>,
> {
    let live = live_entries(entries, idle, now);
    if live.contains_key(key) {
        live.insert(key, Entry { stamp: now, value: entries[key].value })
    } else {
        live
    }
}

/// The entries after lookups of `key` at each of `times` in turn.
pub open spec fn after_lookups<K, V>(
    entries: Map<K, Entry<V>>,
    idle: u128,
    key: K,
    times: Seq<u128>,
) -> Map<K, Entry<V>>
    decreases times.len(),
{
    if times.len() == 0 {
        entries
    } else {
        refreshed(after_lookups(entries, idle, key, times.drop_last()), idle, key, times.last())
    }
}

/// Each of `times` comes less than `idle` after the one before it, and the first less than
/// `idle` after `start`.
pub open spec fn closely_spaced(start: u128, times: Seq<u128>, idle: u128) -> bool {
    forall|i: int|
        0 <= i < times.len() ==> (#[trigger] times[i]) - (if i == 0 {
            start
        } else {
            times[i - 1]
        }) < idle
}

/// A value stored at `stamp` is found by every lookup made before the idle duration has
/// passed since, and by none made once it has.
pub proof fn lemma_ttl_after_store<K, V>(
    entries: Map<K, Entry<V>>,
    idle: u128,
    key: K,
    value: V,
    stamp: u128,
    now: u128,
)
    ensures
        now - stamp < idle ==> lookup(stored(entries, key, value, stamp), idle, key, now) == Some(
            value,
        ),
        now - stamp >= idle ==> lookup(stored(entries, key, value, stamp), idle, key, now) is None,
{
}

/// A value found by a lookup at `stamp` is found again by every lookup made before the
/// idle duration has passed since, and by none made once it has.
pub proof fn lemma_ttl_after_lookup<K, V>(
    entries: Map<K, Entry<V>>,
    idle: u128,
    key: K,
    stamp: u128,
    now: u128,
)
    requires
        lookup(entries, idle, key, stamp) is Some,
    ensures
        now - stamp < idle ==> lookup(refreshed(entries, idle, key, stamp), idle, key, now)
            == lookup(entries, idle, key, stamp),
        now - stamp >= idle ==> lookup(refreshed(entries, idle, key, stamp), idle, key, now) is None,
{
}

/// Lookups of a key that follow one another at intervals shorter than the idle duration all
/// find its value, however long they go on, and leave the entry stamped with the last of
/// them.
pub proof fn lemma_sliding_refresh<K, V>(
    entries: Map<K, Entry<V>>,
    idle: u128,
    key: K,
    times: Seq<u128>,
)
    requires
        entries.contains_key(key),
        closely_spaced(entries[key].stamp, times, idle),
    ensures
        forall|i: int|
            0 <= i < times.len() ==> lookup(
                after_lookups(entries, idle, key, times.take(i)),
                idle,
                key,
                #[trigger] times[i],
            ) == Some(entries[key].value),
        after_lookups(entries, idle, key, times).contains_key(key),
        after_lookups(entries, idle, key, times)[key] == (Entry {
            stamp: if times.len() == 0 {
                entries[key].stamp
            } else {
                times.last()
            },
            value: entries[key].value,
        }),
    decreases times.len(),
{
    if times.len() > 0 {
        let earlier = times.drop_last();
        let last = times.len() - 1;
        assert forall|i: int| 0 <= i < earlier.len() implies (#[trigger] earlier[i]) - (if i == 0 {
            entries[key].stamp
        } else {
            earlier[i - 1]
        }) < idle by {
            assert(earlier[i] == times[i]);
        }
        lemma_sliding_refresh(entries, idle, key, earlier);
        assert(times[last] - (if last == 0 {
            entries[key].stamp
        } else {
            times[last - 1]
        }) < idle);
        assert forall|i: int| 0 <= i < times.len() implies lookup(
            after_lookups(entries, idle, key, times.take(i)),
            idle,
            key,
            #[trigger] times[i],
        ) == Some(entries[key].value) by {
            if i < last {
                assert(times.take(i) =~= earlier.take(i));
                assert(earlier[i] == times[i]);
            } else {
                assert(times.take(i) =~= earlier);
            }
        }
    }
}

/// An entry that is left alone for the idle duration or longer is gone: no lookup finds it,
/// and a cleanup or a lookup removes it.
pub proof fn lemma_expires_when_left_alone<K, V>(
    entries: Map<K, Entry<V>>,
    idle: u128,
    key: K,
    now: u128,
)
    requires
        entries.contains_key(key),
        now - entries[key].stamp >= idle,
    ensures
        lookup(entries, idle, key, now) is None,
        !live_entries(entries, idle, now).contains_key(key),
        !refreshed(entries, idle, key, now).contains_key(key),
{
}

/// A lookup of any key, present or not, removes exactly the entries that have expired. The
/// others keep their values, all but the one looked up keep their stamps too, and each of
/// them is still found by a lookup at that time.
pub proof fn lemma_lookup_purges_expired<K, V>(
    entries: Map<K, Entry<V>>,
    idle: u128,
    key: K,
    now: u128,
    other: K,
)
    ensures
        refreshed(entries, idle, key, now).contains_key(other) <==> entries.contains_key(other)
            && is_live(entries[other].stamp, idle, now),
        refreshed(entries, idle, key, now).contains_key(other) ==> refreshed(
            entries,
            idle,
            key,
            now,
        )[other].value == entries[other].value,
        refreshed(entries, idle, key, now).contains_key(other) && other != key ==> refreshed(
            entries,
            idle,
            key,
            now,
        )[other] == entries[other],
        refreshed(entries, idle, key, now).contains_key(other) && (other != key || idle > 0)
            ==> lookup(refreshed(entries, idle, key, now), idle, other, now) == Some(
            entries[other].value,
        ),
{
}

/// Lookups of one key leave every other entry as it was, unless they evict it.
pub proof fn lemma_lookups_leave_others<K, V>(
    entries: Map<K, Entry<V>>,
    idle: u128,
    key: K,
    times: Seq<u128>,
    other: K,
)
    requires
        other != key,
    ensures
        after_lookups(entries, idle, key, times).contains_key(other) ==> entries.contains_key(
            other,
        ) && after_lookups(entries, idle, key, times)[other] == entries[other],
    decreases times.len(),
{
    if times.len() > 0 {
        lemma_lookups_leave_others(entries, idle, key, times.drop_last(), other);
    }
}

/// A key that is stored again outlives a neighbour that is not: when a key is stored, then
/// another, then the first again, and at `now` the second has expired while the first's
/// latest stamp has not, a cleanup evicts the second and keeps the first with its latest
/// value.
pub proof fn lemma_store_again_protects<K, V>(
    entries: Map<K, Entry<V>>,
    idle: u128,
    kept: K,
    lost: K,
    first: (u128, V),
    second: (u128, V),
    latest: (u128, V),
    now: u128,
)
    requires
        kept != lost,
        !is_live(second.0, idle, now),
        is_live(latest.0, idle, now),
    ensures
        ({
            let history = stored(
                stored(stored(entries, kept, first.1, first.0), lost, second.1, second.0),
                kept,
                latest.1,
                latest.0,
            );
            let left = live_entries(history, idle, now);
            &&& left.contains_key(kept)
            &&& left[kept] == Entry { stamp: latest.0, value: latest.1 }
            &&& !left.contains_key(lost)
        }),
{
}

/// A key that is looked up again and again outlives a neighbour that is not: when the
/// lookups of the first follow one another closely, and at `now` the second has expired
/// while the last lookup of the first has not, a cleanup evicts the second and keeps the
/// first.
pub proof fn lemma_lookups_protect<K, V>(
    entries: Map<K, Entry<V>>,
    idle: u128,
    kept: K,
    lost: K,
    times: Seq<u128>,
    now: u128,
)
    requires
        kept != lost,
        entries.contains_key(kept),
        entries.contains_key(lost),
        times.len() > 0,
        closely_spaced(entries[kept].stamp, times, idle),
        !is_live(entries[lost].stamp, idle, now),
        is_live(times.last(), idle, now),
    ensures
        ({
            let left = live_entries(after_lookups(entries, idle, kept, times), idle, now);
            &&& left.contains_key(kept)
            &&& left[kept] == Entry { stamp: times.last(), value: entries[kept].value }
            &&& !left.contains_key(lost)
        }),
{
    lemma_sliding_refresh(entries, idle, kept, times);
    lemma_lookups_leave_others(entries, idle, kept, times, lost);
}

/// A second cleanup at the same time changes nothing.
pub proof fn lemma_cleanup_idempotent<K, V>(entries: Map<K, Entry<V>>, idle: u128, now: u128)
    ensures
        live_entries(live_entries(entries, idle, now), idle, now) == live_entries(
            entries,
            idle,
            now,
        ),
{
    assert(live_entries(live_entries(entries, idle, now), idle, now) =~= live_entries(
        entries,
        idle,
        now,
    ));
}

/// A lookup does not change which keys a lookup at the same time finds, provided that the
/// idle duration is positive or the key looked up is not live.
pub proof fn lemma_lookup_keeps_retrievable<K, V>(
    entries: Map<K, Entry<V>>,
    idle: u128,
    key: K,
    now: u128,
)
    requires
        idle > 0 || !live_entries(entries, idle, now).contains_key(key),
    ensures
        live_entries(refreshed(entries, idle, key, now), idle, now).dom() == live_entries(
            entries,
            idle,
            now,
        ).dom(),
{
    assert(live_entries(refreshed(entries, idle, key, now), idle, now).dom() =~= live_entries(
        entries,
        idle,
        now,
    ).dom());
}

} // verus!
