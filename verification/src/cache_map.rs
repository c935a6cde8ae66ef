//! The expiring cache: a hash map whose entries are evicted once they have been idle for
//! a fixed duration, found lazily through a queue of candidate records.

use crate::clock::duration_nanos;
use crate::clock::elapsed_nanos;
use crate::expiry::is_live;
use crate::expiry::live_entries;
use crate::expiry::lookup;
use crate::expiry::refreshed;
use crate::expiry::still_live;
use crate::expiry::stored;
use crate::expiry_queue::Candidate;
use crate::expiry_queue::ExpiryQueue;
use crate::pending::covered;
use crate::pending::expired_count;
use crate::pending::is_purged_queue;
use crate::pending::is_refreshed_queue;
use crate::pending::lemma_drop;
use crate::pending::lemma_requeue;
use crate::pending::lemma_resolved;
use crate::pending::lemma_store_keeps_covered;
use crate::pending::same_dues;
use crate::pending::settled;
use std::collections::HashMap;
use std::hash::Hash;
use std::time::Duration;
use std::time::Instant;
use vstd::multiset::Multiset;
use vstd::prelude::*;
use vstd::std_specs::hash::obeys_key_model;

verus! {

/// What the cache keeps for a key: the value and the time of the last access.
pub struct Entry<V> {
    pub stamp: u128,
    pub value: V,
}

/// What the cache asks of its keys: hashing and equality that agree with `==` on the keys,
/// and a `clone` that returns the key it was given.
pub open spec fn obeys_cache_key_model<K: Clone>() -> bool {
    &&& obeys_key_model::<K>()
    &&& forall|k: K, c: K| #[trigger] call_ensures(K::clone, (&k,), c) ==> c == k
}

/// A map from keys to values in which an entry expires once it has not been accessed for
/// the idle duration. Times are nanoseconds on a monotonic clock.
pub struct ExpiringHashMap<K, V> {
    hash_map: HashMap<K, Entry<V>>,
    heap: ExpiryQueue<K>,
    duration: u128,
    origin: Instant,
}

impl<K: Eq + Hash + Clone, V> ExpiringHashMap<K, V> {
    /// The entries of the cache: each key with its value and the time of its last access.
    pub closed spec fn view(&self) -> Map<K, Entry<V>> {
        self.hash_map@
    }

    /// The idle duration, in nanoseconds.
    pub closed spec fn idle(&self) -> u128 {
        self.duration
    }

    /// The candidate records in the expiration queue.
    pub closed spec fn pending(&self) -> Multiset<Candidate<K>> {
        self.heap@
    }

    /// The expiration queue is in heap order.
    pub closed spec fn queue_ordered(&self) -> bool {
        self.heap.wf()
    }

    /// The keys behave, the queue is in order, and every entry has a candidate record.
    pub open spec fn wf(&self) -> bool {
        &&& obeys_cache_key_model::<K>()
        &&& self.queue_ordered()
        &&& covered(self@, self.pending())
    }

    /// An empty cache whose entries expire after `idle` nanoseconds without access.
    pub fn with_idle_nanos(idle: u128) -> (cache: Self)
        requires
            obeys_cache_key_model::<K>(),
        ensures
            cache.wf(),
            cache.idle() == idle,
            cache@ == Map::<K, Entry<V>>::empty(),
            cache.pending() == Multiset::<Candidate<K>>::empty(),
    {
        ExpiringHashMap {
            hash_map: HashMap::new(),
            heap: ExpiryQueue::new(),
            duration: idle,
            origin: Instant::now(),
        }
    }

    /// An empty cache whose entries expire after `duration` without access.
    pub fn new(duration: Duration) -> (cache: Self)
        requires
            obeys_cache_key_model::<K>(),
        ensures
            cache.wf(),
            cache.idle() == duration_nanos(duration),
            cache@ == Map::<K, Entry<V>>::empty(),
            cache.pending() == Multiset::<Candidate<K>>::empty(),
    {
        Self::with_idle_nanos(duration.as_nanos())
    }

    /// The number of entries that the cache holds, expired ones that no cleanup has met yet
    /// among them.
    pub fn len(&self) -> (n: usize)
        requires
            self.wf(),
        ensures
            n == self@.len(),
    {
        broadcast use vstd::std_specs::hash::group_hash_axioms;

        self.hash_map.len()
    }

    /// The number of candidate records in the expiration queue.
    pub fn queued(&self) -> (n: usize)
        ensures
            n == self.pending().len(),
    {
        self.heap.len()
    }

    /// Stores `v` under `key` with `now` as the time of access, and returns the value that
    /// was stored under `key` before, if there was one.
    pub fn insert_at(&mut self, key: K, v: V, now: u128) -> (previous: Option<V>)
        requires
            old(self).wf(),
        ensures
            final(self).wf(),
            final(self).idle() == old(self).idle(),
            final(self)@ == stored(old(self)@, key, v, now),
            final(self).pending() == old(self).pending().insert(Candidate { stamp: now, key }),
            previous == (if old(self)@.contains_key(key) {
                Some(old(self)@[key].value)
            } else {
                None
            }),
    {
        broadcast use vstd::std_specs::hash::group_hash_axioms;
        broadcast use vstd::multiset::group_multiset_axioms;

        let replaced = self.hash_map.insert(key.clone(), Entry { stamp: now, value: v });
        self.heap.push(now, key);
        proof {
            lemma_store_keeps_covered(old(self)@, old(self).pending(), key, v, now);
        }
        match replaced {
            Some(entry) => Some(entry.value),
            None => None,
        }
    }

    /// Evicts every entry that has expired at `now`, and resolves every candidate record
    /// that has: it is dropped, and replaced by a record with the entry's stamp where its
    /// key has a live entry.
    pub fn cleanup_at(&mut self, now: u128)
        requires
            old(self).wf(),
        ensures
            final(self).wf(),
            final(self).idle() == old(self).idle(),
            final(self)@ == live_entries(old(self)@, old(self).idle(), now),
            is_purged_queue(
                old(self)@,
                old(self).pending(),
                old(self).idle(),
                now,
                final(self).pending(),
            ),
            settled(final(self).pending(), old(self).idle(), now),
            final(self).pending().len() <= old(self).pending().len(),
    {
        let ghost entries = self@;
        let ghost idle = self.duration;
        let ghost waiting = self.pending();
        loop
            invariant
                self.wf(),
                self.duration == idle,
                self.pending().len() <= waiting.len(),
                forall|k: K| #[trigger]
                    self@.contains_key(k) ==> entries.contains_key(k) && self@[k] == entries[k],
                forall|k: K|
                    entries.contains_key(k) && is_live(entries[k].stamp, idle, now)
                        ==> #[trigger] self@.contains_key(k),
                same_dues(entries, waiting, self.pending(), idle, now),
            ensures
                self.wf(),
                self.duration == idle,
                self.pending().len() <= waiting.len(),
                self@ == live_entries(entries, idle, now),
                is_purged_queue(entries, waiting, idle, now, self.pending()),
                settled(self.pending(), idle, now),
            decreases expired_count(self.pending(), idle, now),
        {
            broadcast use vstd::std_specs::hash::group_hash_axioms;
            broadcast use vstd::multiset::group_multiset_axioms;

            let due = match self.heap.earliest() {
                Some(stamp) => !still_live(stamp, self.duration, now),
                None => false,
            };
            if !due {
                proof {
                    lemma_resolved(entries, waiting, self@, self.pending(), idle, now);
                    assert(self@ =~= live_entries(entries, idle, now));
                }
                break ;
            }
            let ghost held = self@;
            let ghost queued = self.pending();
            match self.heap.pop() {
                Some(record) => {
                    let known = match self.hash_map.get(&record.key) {
                        Some(entry) => Some(entry.stamp),
                        None => None,
                    };
                    match known {
                        Some(stamp) => {
                            if still_live(stamp, self.duration, now) {
                                proof {
                                    let fresh = Candidate { stamp, key: record.key };
                                    lemma_requeue(entries, held, queued, idle, now, record, fresh);
                                }
                                self.heap.push(stamp, record.key);
                            } else {
                                proof {
                                    lemma_drop(entries, held, queued, idle, now, record);
                                }
                                self.hash_map.remove(&record.key);
                            }
                        },
                        None => {
                            proof {
                                lemma_drop(entries, held, queued, idle, now, record);
                                assert(held.remove(record.key) =~= held);
                            }
                        },
                    }
                },
                None => {},
            }
        }
    }

    /// Evicts what has expired at `now`, then looks `key` up. A live entry has its stamp
    /// moved to `now` and gets a new candidate record, and its value is returned.
    pub fn get_at(&mut self, k: &K, now: u128) -> (found: Option<&V>)
        requires
            old(self).wf(),
        ensures
            final(self).wf(),
            final(self).idle() == old(self).idle(),
            final(self)@ == refreshed(old(self)@, old(self).idle(), *k, now),
            is_refreshed_queue(
                old(self)@,
                old(self).pending(),
                old(self).idle(),
                *k,
                now,
                final(self).pending(),
            ),
            final(self).pending().len() <= old(self).pending().len() + 1,
            (match found {
                Some(v) => lookup(old(self)@, old(self).idle(), *k, now) == Some(*v),
                None => lookup(old(self)@, old(self).idle(), *k, now) is None,
            }),
    {
        broadcast use vstd::std_specs::hash::group_hash_axioms;
        broadcast use vstd::multiset::group_multiset_axioms;

        self.cleanup_at(now);
        let ghost live = self@;
        let ghost queued = self.pending();
        proof {
            if live.contains_key(*k) {
                let record = Candidate { stamp: now, key: *k };
                lemma_store_keeps_covered(live, queued, *k, live[*k].value, now);
                assert(queued.insert(record).remove(record) =~= queued);
            } else {
                assert(live.remove(*k) =~= live);
            }
        }
        match self.hash_map.entry(k.clone()) {
            std::collections::hash_map::Entry::Occupied(slot) => {
                let entry = slot.into_mut();
                entry.stamp = now;
                self.heap.push(now, k.clone());
                Some(&entry.value)
            },
            std::collections::hash_map::Entry::Vacant(_) => None,
        }
    }

    /// Stores `v` under `key` with the present time as the time of access, and returns the
    /// value that was stored under `key` before, if there was one.
    pub fn insert(&mut self, key: K, v: V) -> (previous: Option<V>)
        requires
            old(self).wf(),
        ensures
            final(self).wf(),
            final(self).idle() == old(self).idle(),
            (exists|now: u128|
                {
                    &&& final(self)@ == #[trigger] stored(old(self)@, key, v, now)
                    &&& final(self).pending() == old(self).pending().insert(
                        Candidate { stamp: now, key },
                    )
                }),
            previous == (if old(self)@.contains_key(key) {
                Some(old(self)@[key].value)
            } else {
                None
            }),
    {
        let now = elapsed_nanos(&self.origin);
        self.insert_at(key, v, now)
    }

    /// Evicts every entry that has expired at the present time.
    pub fn cleanup(&mut self)
        requires
            old(self).wf(),
        ensures
            final(self).wf(),
            final(self).idle() == old(self).idle(),
            final(self).pending().len() <= old(self).pending().len(),
            (exists|now: u128|
                {
                    &&& final(self)@ == #[trigger] live_entries(old(self)@, old(self).idle(), now)
                    &&& is_purged_queue(
                        old(self)@,
                        old(self).pending(),
                        old(self).idle(),
                        now,
                        final(self).pending(),
                    )
                }),
    {
        let now = elapsed_nanos(&self.origin);
        self.cleanup_at(now)
    }

    /// Evicts what has expired at the present time, then looks `key` up. A live entry has
    /// its stamp moved to the present time, and its value is returned.
    pub fn get(&mut self, k: &K) -> (found: Option<&V>)
        requires
            old(self).wf(),
        ensures
            final(self).wf(),
            final(self).idle() == old(self).idle(),
            final(self).pending().len() <= old(self).pending().len() + 1,
            (exists|now: u128|
                {
                    &&& final(self)@ == #[trigger] refreshed(old(self)@, old(self).idle(), *k, now)
                    &&& is_refreshed_queue(
                        old(self)@,
                        old(self).pending(),
                        old(self).idle(),
                        *k,
                        now,
                        final(self).pending(),
                    )
                    &&& match found {
                        Some(v) => lookup(old(self)@, old(self).idle(), *k, now) == Some(*v),
                        None => lookup(old(self)@, old(self).idle(), *k, now) is None,
                    }
                }),
    {
        let now = elapsed_nanos(&self.origin);
        self.get_at(k, now)
    }
}

} // verus!
