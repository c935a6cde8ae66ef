//! The expiration queue: a binary min-heap of candidate records ordered by timestamp.

use vstd::multiset::Multiset;
use vstd::prelude::*;

verus! {

/// A candidate expiration record: `key` was last seen at time `stamp`.
pub struct Candidate<K> {
    pub stamp: u128,
    pub key: K,
}

/// The slot above slot `i` in the implicit binary tree.
spec fn parent(i: int) -> int {
    (i - 1) / 2
}

/// Every slot but the root holds a stamp no earlier than its parent's.
spec fn heap_ordered<K>(slots: Seq<Candidate<K>>) -> bool {
    forall|i: int| 0 < i < slots.len() ==> slots[parent(i)].stamp <= (#[trigger] slots[i]).stamp
}

/// The heap order holds everywhere but between `hole` and its parent, and the slots below
/// `hole` are no earlier than the slot above it.
spec fn ordered_above<K>(slots: Seq<Candidate<K>>, hole: int) -> bool {
    &&& forall|i: int|
        0 < i < slots.len() && i != hole ==> slots[parent(i)].stamp <= (#[trigger] slots[i]).stamp
    &&& forall|i: int|
        0 < i < slots.len() && parent(i) == hole && hole > 0 ==> slots[parent(hole)].stamp <= (
        #[trigger] slots[i]).stamp
}

/// The heap order holds everywhere but between `hole` and the slots below it, and those
/// slots are no earlier than the slot above `hole`.
spec fn ordered_below<K>(slots: Seq<Candidate<K>>, hole: int) -> bool {
    &&& forall|i: int|
        0 < i < slots.len() && parent(i) != hole ==> slots[parent(i)].stamp <= (
        #[trigger] slots[i]).stamp
    &&& forall|i: int|
        0 < i < slots.len() && parent(i) == hole && hole > 0 ==> slots[parent(hole)].stamp <= (
        #[trigger] slots[i]).stamp
}

/// `stamp` belongs to some record of `records` and no record is earlier.
pub open spec fn is_earliest<K>(records: Multiset<Candidate<K>>, stamp: u128) -> bool {
    &&& exists|c: Candidate<K>| #[trigger] records.count(c) > 0 && c.stamp == stamp
    &&& forall|c: Candidate<K>| #[trigger] records.count(c) > 0 ==> stamp <= c.stamp
}

/// In a heap-ordered sequence the root is no later than any other slot.
proof fn lemma_root_is_earliest<K>(slots: Seq<Candidate<K>>, i: int)
    requires
        heap_ordered(slots),
        0 <= i < slots.len(),
    ensures
        slots[0].stamp <= slots[i].stamp,
    decreases i,
{
    if i > 0 {
        assert(slots[parent(i)].stamp <= slots[i].stamp);
        lemma_root_is_earliest(slots, parent(i));
    }
}

/// Exchanging two slots changes the order of the records, not the records.
proof fn lemma_exchange_keeps_records<T>(slots: Seq<T>, i: int, j: int)
    requires
        0 <= i < slots.len(),
        0 <= j < slots.len(),
        i != j,
    ensures
        slots.update(i, slots[j]).update(j, slots[i]).to_multiset() == slots.to_multiset(),
{
    broadcast use vstd::multiset::group_multiset_axioms;

    let once = slots.update(i, slots[j]);
    vstd::seq_lib::to_multiset_update(slots, i, slots[j]);
    vstd::seq_lib::to_multiset_update(once, j, slots[i]);
    vstd::seq_lib::to_multiset_contains(slots, slots[i]);
    vstd::seq_lib::to_multiset_contains(slots, slots[j]);
    assert(slots.contains(slots[i]));
    assert(slots.contains(slots[j]));
    assert(once[j] == slots[j]);
    assert(once.update(j, slots[i]).to_multiset() =~= slots.to_multiset());
}

/// Exchanges the contents of slots `i` and `j` by moving them: a record need not be `Copy`.
fn exchange<T>(slots: &mut Vec<T>, i: usize, j: usize)
    requires
        i < j < old(slots).len(),
    ensures
        final(slots)@ == old(slots)@.update(i as int, old(slots)@[j as int]).update(
            j as int,
            old(slots)@[i as int],
        ),
{
    let mut moving = slots.swap_remove(j);
    slots.set_and_swap(i, &mut moving);
    if j < slots.len() {
        slots.set_and_swap(j, &mut moving);
    }
    slots.push(moving);
}

/// A priority queue of candidate records that hands them out earliest stamp first.
pub struct ExpiryQueue<K> {
    slots: Vec<Candidate<K>>,
}

impl<K> ExpiryQueue<K> {
    /// The records waiting in the queue.
    pub closed spec fn view(&self) -> Multiset<Candidate<K>> {
        self.slots@.to_multiset()
    }

    /// The slots are in heap order.
    pub closed spec fn wf(&self) -> bool {
        heap_ordered(self.slots@)
    }

    /// An empty queue.
    pub fn new() -> (queue: Self)
        ensures
            queue.wf(),
            queue@ == Multiset::<Candidate<K>>::empty(),
    {
        let queue = ExpiryQueue { slots: Vec::new() };
        assert(queue.slots@.to_multiset() =~= Multiset::<Candidate<K>>::empty()) by {
            broadcast use vstd::multiset::group_multiset_axioms;

            vstd::seq_lib::to_multiset_len(queue.slots@);
        }
        queue
    }

    /// The number of records waiting.
    pub fn len(&self) -> (n: usize)
        ensures
            n == self@.len(),
    {
        proof {
            vstd::seq_lib::to_multiset_len(self.slots@);
        }
        self.slots.len()
    }

    /// The earliest stamp among the waiting records, if there is any record.
    pub fn earliest(&self) -> (stamp: Option<u128>)
        requires
            self.wf(),
        ensures
            (match stamp {
                Some(t) => is_earliest(self@, t),
                None => self@.len() == 0,
            }),
    {
        proof {
            vstd::seq_lib::to_multiset_len(self.slots@);
        }
        if self.slots.len() == 0 {
            None
        } else {
            let t = self.slots[0].stamp;
            proof {
                let slots = self.slots@;
                vstd::seq_lib::to_multiset_contains(slots, slots[0]);
                assert(slots.contains(slots[0]));
                assert forall|c: Candidate<K>| #[trigger] self@.count(c) > 0 implies t
                    <= c.stamp by {
                    vstd::seq_lib::to_multiset_contains(slots, c);
                    let i = choose|i: int| 0 <= i < slots.len() && slots[i] == c;
                    lemma_root_is_earliest(slots, i);
                }
            }
            Some(t)
        }
    }

    /// Adds a record for `key` with the given stamp.
    pub fn push(&mut self, stamp: u128, key: K)
        requires
            old(self).wf(),
        ensures
            final(self).wf(),
            final(self)@ == old(self)@.insert(Candidate { stamp, key }),
    {
        let ghost record = Candidate { stamp, key };
        let ghost grown = old(self).slots@.push(record);
        self.slots.push(Candidate { stamp, key });
        proof {
            vstd::seq_lib::to_multiset_build(old(self).slots@, record);
        }
        let mut pos: usize = self.slots.len() - 1;
        while pos > 0 && self.slots[(pos - 1) / 2].stamp > self.slots[pos].stamp
            invariant
                0 <= pos < self.slots@.len(),
                self.slots@.to_multiset() == grown.to_multiset(),
                ordered_above(self.slots@, pos as int),
            decreases pos,
        {
            let up: usize = (pos - 1) / 2;
            proof {
                lemma_exchange_keeps_records(self.slots@, up as int, pos as int);
            }
            exchange(&mut self.slots, up, pos);
            pos = up;
        }
    }

    /// Removes and returns a record with the earliest stamp, if there is any record.
    pub fn pop(&mut self) -> (record: Option<Candidate<K>>)
        requires
            old(self).wf(),
        ensures
            final(self).wf(),
            (match record {
                Some(c) => {
                    &&& old(self)@.count(c) > 0
                    &&& is_earliest(old(self)@, c.stamp)
                    &&& final(self)@ == old(self)@.remove(c)
                },
                None => old(self)@.len() == 0 && final(self)@ == old(self)@,
            }),
    {
        proof {
            vstd::seq_lib::to_multiset_len(self.slots@);
        }
        if self.slots.len() == 0 {
            return None;
        }
        let ghost before = self.slots@;
        let first = self.slots.swap_remove(0);
        let ghost rest = self.slots@;
        proof {
            broadcast use vstd::multiset::group_multiset_axioms;

            let moved = before.update(0, before.last());
            vstd::seq_lib::to_multiset_update(before, 0, before.last());
            vstd::seq_lib::to_multiset_remove(moved, moved.len() - 1);
            vstd::seq_lib::to_multiset_contains(before, before[0]);
            vstd::seq_lib::to_multiset_contains(before, before.last());
            assert(before.contains(before[0]));
            assert(before.contains(before.last()));
            assert(moved.remove(moved.len() - 1) =~= rest);
            assert(rest.to_multiset() =~= before.to_multiset().remove(first));
            assert forall|c: Candidate<K>| #[trigger]
                before.to_multiset().count(c) > 0 implies first.stamp <= c.stamp by {
                vstd::seq_lib::to_multiset_contains(before, c);
                let i = choose|i: int| 0 <= i < before.len() && before[i] == c;
                lemma_root_is_earliest(before, i);
            }
            assert forall|i: int| 0 < i < rest.len() && parent(i) != 0 implies rest[parent(
                i,
            )].stamp <= (#[trigger] rest[i]).stamp by {
                assert(before[parent(i)].stamp <= before[i].stamp);
            }
        }
        let len: usize = self.slots.len();
        let mut pos: usize = 0;
        while pos < len / 2
            invariant
                len == self.slots@.len(),
                0 <= pos,
                self.slots@.to_multiset() == rest.to_multiset(),
                ordered_below(self.slots@, pos as int),
            ensures
                self.slots@.to_multiset() == rest.to_multiset(),
                heap_ordered(self.slots@),
            decreases len - pos,
        {
            let left: usize = 2 * pos + 1;
            let right: usize = left + 1;
            let mut child: usize = left;
            if right < len && self.slots[right].stamp < self.slots[left].stamp {
                child = right;
            }
            if self.slots[pos].stamp <= self.slots[child].stamp {
                proof {
                    let slots = self.slots@;
                    assert forall|i: int| 0 < i < slots.len() implies slots[parent(i)].stamp <= (
                    #[trigger] slots[i]).stamp by {
                        if parent(i) == pos {
                            assert(i == left || i == right);
                        }
                    }
                }
                break ;
            }
            proof {
                lemma_exchange_keeps_records(self.slots@, pos as int, child as int);
            }
            exchange(&mut self.slots, pos, child);
            pos = child;
        }
        Some(first)
    }
}

} // verus!
