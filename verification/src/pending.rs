//! How the candidate records in the expiration queue relate to the entries of the cache,
//! and what resolving the expired ones does to the queue.

use crate::cache_map::Entry;
use crate::expiry::is_live;
use crate::expiry::lookup;
use crate::expiry::stored;
use crate::expiry_queue::Candidate;
use vstd::multiset::Multiset;
use vstd::prelude::*;

verus! {

/// Every entry has a candidate record for its key that is no later than the entry's stamp.
pub open spec fn covered<K, V>(entries: Map<K, Entry<V>>, pending: Multiset<Candidate<K>>) -> bool {
    forall|k: K| #[trigger]
        entries.contains_key(k) ==> exists|c: Candidate<K>| #[trigger]
            pending.count(c) > 0 && c.key == k && c.stamp <= entries[k].stamp
}

/// No record in `pending` has expired at `now`.
pub open spec fn settled<K>(pending: Multiset<Candidate<K>>, idle: u128, now: u128) -> bool {
    forall|c: Candidate<K>| #[trigger] pending.count(c) > 0 ==> is_live(c.stamp, idle, now)
}

/// Tells whether a record has expired at `now`.
pub open spec fn is_expired<K>(idle: u128, now: u128) -> spec_fn(Candidate<K>) -> bool {
    |c: Candidate<K>| !is_live(c.stamp, idle, now)
}

/// Tells whether a record is one for `key` that has expired at `now`.
pub open spec fn is_stale_for<K>(idle: u128, now: u128, key: K) -> spec_fn(Candidate<K>) -> bool {
    |c: Candidate<K>| c.key == key && !is_live(c.stamp, idle, now)
}

/// The number of records in `pending` that have expired at `now`.
pub open spec fn expired_count<K>(pending: Multiset<Candidate<K>>, idle: u128, now: u128) -> nat {
    pending.filter(is_expired(idle, now)).len()
}

/// How often the record `c` is owed a place in the queue once the records that have expired
/// at `now` are resolved: as often as it waits there, and once more for each expired record
/// of its key if `c` carries the stamp of its key's entry.
pub open spec fn owed<K, V>(
    entries: Map<K, Entry<V>>,
    pending: Multiset<Candidate<K>>,
    idle: u128,
    now: u128,
    c: Candidate<K>,
) -> nat {
    if entries.contains_key(c.key) && entries[c.key].stamp == c.stamp {
        pending.count(c) + pending.filter(is_stale_for(idle, now, c.key)).len()
    } else {
        pending.count(c)
    }
}

/// The live records are owed as many places in `after` as in `before`.
pub open spec fn same_dues<K, V>(
    entries: Map<K, Entry<V>>,
    before: Multiset<Candidate<K>>,
    after: Multiset<Candidate<K>>,
    idle: u128,
    now: u128,
) -> bool {
    forall|c: Candidate<K>|
        is_live(c.stamp, idle, now) ==> #[trigger] owed(entries, after, idle, now, c) == owed(
            entries,
            before,
            idle,
            now,
            c,
        )
}

/// `after` is the queue that a cleanup at `now` makes of `pending`: the expired records are
/// gone, the live ones wait as before, and for each expired record whose key has a live
/// entry there is one more record with that entry's stamp.
pub open spec fn is_purged_queue<K, V>(
    entries: Map<K, Entry<V>>,
    pending: Multiset<Candidate<K>>,
    idle: u128,
    now: u128,
    after: Multiset<Candidate<K>>,
) -> bool {
    forall|c: Candidate<K>| #[trigger]
        after.count(c) == if is_live(c.stamp, idle, now) {
            owed(entries, pending, idle, now, c)
        } else {
            0
        }
}

/// `after` is the queue that a lookup of `key` at `now` makes of `pending`: the queue that a
/// cleanup makes of it, with one more record for `key` at `now` if the lookup finds the key.
pub open spec fn is_refreshed_queue<K, V>(
    entries: Map<K, Entry<V>>,
    pending: Multiset<Candidate<K>>,
    idle: u128,
    key: K,
    now: u128,
    after: Multiset<Candidate<K>>,
) -> bool {
    if lookup(entries, idle, key, now) is Some {
        &&& after.count(Candidate { stamp: now, key }) > 0
        &&& is_purged_queue(entries, pending, idle, now, after.remove(Candidate { stamp: now, key }))
    } else {
        is_purged_queue(entries, pending, idle, now, after)
    }
}

/// Taking one record out of a multiset takes it out of the part that `f` selects, if `f`
/// selects it.
proof fn lemma_filter_after_remove<T>(records: Multiset<T>, f: spec_fn(T) -> bool, x: T)
    requires
        records.count(x) > 0,
    ensures
        records.remove(x).filter(f).len() + (if f(x) {
            1nat
        } else {
            0nat
        }) == records.filter(f).len(),
{
    broadcast use vstd::multiset::group_multiset_axioms;

    if f(x) {
        assert(records.filter(f).count(x) > 0);
        assert(records.remove(x).filter(f) =~= records.filter(f).remove(x));
    } else {
        assert(records.remove(x).filter(f) =~= records.filter(f));
    }
}

/// Adding one record to a multiset adds it to the part that `f` selects, if `f` selects it.
proof fn lemma_filter_after_insert<T>(records: Multiset<T>, f: spec_fn(T) -> bool, x: T)
    ensures
        records.insert(x).filter(f).len() == records.filter(f).len() + (if f(x) {
            1nat
        } else {
            0nat
        }),
{
    broadcast use vstd::multiset::group_multiset_axioms;

    if f(x) {
        assert(records.insert(x).filter(f) =~= records.filter(f).insert(x));
    } else {
        assert(records.insert(x).filter(f) =~= records.filter(f));
    }
}

/// Storing a value under a key and queueing a record with the same stamp keeps every entry
/// covered.
pub(crate) proof fn lemma_store_keeps_covered<K, V>(
    entries: Map<K, Entry<V>>,
    pending: Multiset<Candidate<K>>,
    key: K,
    value: V,
    now: u128,
)
    requires
        covered(entries, pending),
    ensures
        covered(stored(entries, key, value, now), pending.insert(Candidate { stamp: now, key })),
{
    broadcast use vstd::multiset::group_multiset_axioms;

    let record = Candidate { stamp: now, key };
    let after = stored(entries, key, value, now);
    let grown = pending.insert(record);
    assert forall|k: K| #[trigger] after.contains_key(k) implies exists|c: Candidate<K>| #[trigger]
        grown.count(c) > 0 && c.key == k && c.stamp <= after[k].stamp by {
        if k == key {
            assert(grown.count(record) > 0);
        } else {
            assert(entries.contains_key(k));
            let c = choose|c: Candidate<K>| #[trigger]
                pending.count(c) > 0 && c.key == k && c.stamp <= entries[k].stamp;
            assert(grown.count(c) > 0);
        }
    }
}

/// Replacing an expired record by one that carries the stamp of its key's live entry keeps
/// every entry covered and every live record's dues, and leaves one expired record fewer.
pub(crate) proof fn lemma_requeue<K, V>(
    entries: Map<K, Entry<V>>,
    held: Map<K, Entry<V>>,
    pending: Multiset<Candidate<K>>,
    idle: u128,
    now: u128,
    record: Candidate<K>,
    fresh: Candidate<K>,
)
    requires
        covered(held, pending),
        pending.count(record) > 0,
        !is_live(record.stamp, idle, now),
        fresh.key == record.key,
        is_live(fresh.stamp, idle, now),
        held.contains_key(fresh.key),
        held[fresh.key].stamp == fresh.stamp,
        entries.contains_key(fresh.key),
        entries[fresh.key].stamp == fresh.stamp,
    ensures
        covered(held, pending.remove(record).insert(fresh)),
        same_dues(entries, pending, pending.remove(record).insert(fresh), idle, now),
        expired_count(pending.remove(record).insert(fresh), idle, now) + 1 == expired_count(
            pending,
            idle,
            now,
        ),
{
    broadcast use vstd::multiset::group_multiset_axioms;

    let popped = pending.remove(record);
    let after = popped.insert(fresh);
    assert forall|k: K| #[trigger] held.contains_key(k) implies exists|c: Candidate<K>| #[trigger]
        after.count(c) > 0 && c.key == k && c.stamp <= held[k].stamp by {
        if k == fresh.key {
            assert(after.count(fresh) > 0);
        } else {
            let c = choose|c: Candidate<K>| #[trigger]
                pending.count(c) > 0 && c.key == k && c.stamp <= held[k].stamp;
            assert(after.count(c) > 0);
        }
    }
    assert forall|c: Candidate<K>| is_live(c.stamp, idle, now) implies #[trigger] owed(
        entries,
        after,
        idle,
        now,
        c,
    ) == owed(entries, pending, idle, now, c) by {
        lemma_filter_after_remove(pending, is_stale_for(idle, now, c.key), record);
        lemma_filter_after_insert(popped, is_stale_for(idle, now, c.key), fresh);
    }
    lemma_filter_after_remove(pending, is_expired(idle, now), record);
    lemma_filter_after_insert(popped, is_expired(idle, now), fresh);
}

/// Dropping an expired record whose key has no live entry, and with it the key's entry if
/// there is one, keeps every other entry covered and every live record's dues, and leaves
/// one expired record fewer.
pub(crate) proof fn lemma_drop<K, V>(
    entries: Map<K, Entry<V>>,
    held: Map<K, Entry<V>>,
    pending: Multiset<Candidate<K>>,
    idle: u128,
    now: u128,
    record: Candidate<K>,
)
    requires
        covered(held, pending),
        pending.count(record) > 0,
        !is_live(record.stamp, idle, now),
        !(entries.contains_key(record.key) && is_live(entries[record.key].stamp, idle, now)),
    ensures
        covered(held.remove(record.key), pending.remove(record)),
        same_dues(entries, pending, pending.remove(record), idle, now),
        expired_count(pending.remove(record), idle, now) + 1 == expired_count(pending, idle, now),
{
    broadcast use vstd::multiset::group_multiset_axioms;

    let after = pending.remove(record);
    let kept = held.remove(record.key);
    assert forall|k: K| #[trigger] kept.contains_key(k) implies exists|c: Candidate<K>| #[trigger]
        after.count(c) > 0 && c.key == k && c.stamp <= kept[k].stamp by {
        assert(held.contains_key(k));
        let c = choose|c: Candidate<K>| #[trigger]
            pending.count(c) > 0 && c.key == k && c.stamp <= held[k].stamp;
        assert(after.count(c) > 0);
    }
    assert forall|c: Candidate<K>| is_live(c.stamp, idle, now) implies #[trigger] owed(
        entries,
        after,
        idle,
        now,
        c,
    ) == owed(entries, pending, idle, now, c) by {
        lemma_filter_after_remove(pending, is_stale_for(idle, now, c.key), record);
    }
    lemma_filter_after_remove(pending, is_expired(idle, now), record);
}

/// Once no record in the queue has expired, the entries that are left are the live ones,
/// and the queue is the purged one.
pub(crate) proof fn lemma_resolved<K, V>(
    entries: Map<K, Entry<V>>,
    waiting: Multiset<Candidate<K>>,
    held: Map<K, Entry<V>>,
    pending: Multiset<Candidate<K>>,
    idle: u128,
    now: u128,
)
    requires
        covered(held, pending),
        settled(pending, idle, now),
        same_dues(entries, waiting, pending, idle, now),
    ensures
        forall|k: K| #[trigger] held.contains_key(k) ==> is_live(held[k].stamp, idle, now),
        is_purged_queue(entries, waiting, idle, now, pending),
{
    broadcast use vstd::multiset::group_multiset_axioms;

    assert forall|k: K| #[trigger] held.contains_key(k) implies is_live(
        held[k].stamp,
        idle,
        now,
    ) by {
        let c = choose|c: Candidate<K>| #[trigger]
            pending.count(c) > 0 && c.key == k && c.stamp <= held[k].stamp;
        assert(is_live(c.stamp, idle, now));
    }
    assert forall|c: Candidate<K>| #[trigger]
        pending.count(c) == if is_live(c.stamp, idle, now) {
            owed(entries, waiting, idle, now, c)
        } else {
            0
        } by {
        if is_live(c.stamp, idle, now) {
            assert(pending.filter(is_stale_for(idle, now, c.key)) =~= Multiset::<
                Candidate<K>,
            >::empty());
            assert(owed(entries, pending, idle, now, c) == owed(entries, waiting, idle, now, c));
        }
    }
}

/// A cleanup leaves no expired record in the queue.
pub proof fn lemma_purged_queue_is_settled<K, V>(
    entries: Map<K, Entry<V>>,
    pending: Multiset<Candidate<K>>,
    idle: u128,
    now: u128,
    after: Multiset<Candidate<K>>,
)
    requires
        is_purged_queue(entries, pending, idle, now, after),
    ensures
        settled(after, idle, now),
{
}

/// What a cleanup makes of a queue is one queue and no other.
pub proof fn lemma_purged_queue_is_unique<K, V>(
    entries: Map<K, Entry<V>>,
    pending: Multiset<Candidate<K>>,
    idle: u128,
    now: u128,
    one: Multiset<Candidate<K>>,
    other: Multiset<Candidate<K>>,
)
    requires
        is_purged_queue(entries, pending, idle, now, one),
        is_purged_queue(entries, pending, idle, now, other),
    ensures
        one == other,
{
    broadcast use vstd::multiset::group_multiset_axioms;

    assert forall|c: Candidate<K>| one.count(c) == other.count(c) by {
        assert(one.count(c) == if is_live(c.stamp, idle, now) {
            owed(entries, pending, idle, now, c)
        } else {
            0
        });
    }
    assert(one =~= other);
}

/// A cleanup of a queue in which no record has expired leaves the queue as it is, whatever
/// the entries are.
pub proof fn lemma_settled_queue_stays<K, V>(
    entries: Map<K, Entry<V>>,
    pending: Multiset<Candidate<K>>,
    idle: u128,
    now: u128,
)
    requires
        settled(pending, idle, now),
    ensures
        is_purged_queue(entries, pending, idle, now, pending),
{
    broadcast use vstd::multiset::group_multiset_axioms;

    assert forall|c: Candidate<K>| #[trigger]
        pending.count(c) == if is_live(c.stamp, idle, now) {
            owed(entries, pending, idle, now, c)
        } else {
            0
        } by {
        if is_live(c.stamp, idle, now) {
            assert(pending.filter(is_stale_for(idle, now, c.key)) =~= Multiset::<
                Candidate<K>,
            >::empty());
        }
    }
}

} // verus!
