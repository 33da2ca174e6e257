//! A registry of waiters keyed by transaction position.
//!
//! A waiter registers interest in a position and receives an id. A later
//! notification for that position hands back, and forgets, the ids of every
//! waiter registered for it at that moment; waiters registered afterwards are
//! not affected. The caller owns the actual wake handles and uses the ids to
//! find them.

use vstd::prelude::*;
use crate::position::{same_position, TransactionPosition};

verus! {

#[derive(Clone, Copy, Debug)]
pub struct Waiter {
    pub id: u64,
    pub key: TransactionPosition,
}

pub struct NotifyRegistry {
    waiters: Vec<Waiter>,
    next_id: u64,
    registered: Ghost<Map<u64, TransactionPosition>>,
}

impl View for NotifyRegistry {
    /// Each live waiter id and the position it waits on.
    type V = Map<u64, TransactionPosition>;

    closed spec fn view(&self) -> Map<u64, TransactionPosition> {
        self.registered@
    }
}

/// The ids of `waiters` that wait on `key`.
pub open spec fn waiting_on(waiters: Map<u64, TransactionPosition>, key: TransactionPosition) -> Set<u64> {
    waiters.dom().filter(|id: u64| waiters[id] == key)
}

/// `waiters` without those that wait on `key`.
pub open spec fn without_key(waiters: Map<u64, TransactionPosition>, key: TransactionPosition) -> Map<u64, TransactionPosition> {
    waiters.restrict(waiters.dom().filter(|id: u64| waiters[id] != key))
}

impl NotifyRegistry {
    pub closed spec fn wf(&self) -> bool {
        &&& forall|i: int| #![trigger self.waiters@[i]] 0 <= i < self.waiters@.len() ==> {
            &&& self.registered@.contains_key(self.waiters@[i].id)
            &&& self.registered@[self.waiters@[i].id] == self.waiters@[i].key
            &&& self.waiters@[i].id < self.next_id
        }
        &&& forall|id: u64| #[trigger] self.registered@.contains_key(id) ==>
            exists|i: int| 0 <= i < self.waiters@.len() && self.waiters@[i].id == id
        &&& forall|i: int, j: int| 0 <= i < j < self.waiters@.len() ==>
            #[trigger] self.waiters@[i].id != #[trigger] self.waiters@[j].id
    }

    /// A fresh id is still available.
    pub closed spec fn can_register(&self) -> bool {
        self.next_id < u64::MAX
    }

    pub fn new() -> (r: NotifyRegistry)
        ensures
            r.wf(),
            r.can_register(),
            r@ == Map::<u64, TransactionPosition>::empty(),
    {
        NotifyRegistry { waiters: Vec::new(), next_id: 0, registered: Ghost(Map::empty()) }
    }

    pub fn has_capacity(&self) -> (r: bool)
        ensures
            r == self.can_register(),
    {
        self.next_id < u64::MAX
    }

    /// Registers a waiter on `key` and returns its id.
    pub fn register(&mut self, key: TransactionPosition) -> (id: u64)
        requires
            old(self).wf(),
            old(self).can_register(),
        ensures
            final(self).wf(),
            !old(self)@.contains_key(id),
            final(self)@ == old(self)@.insert(id, key),
    {
        let id = self.next_id;
        self.waiters.push(Waiter { id, key });
        self.next_id = self.next_id + 1;
        self.registered = Ghost(self.registered@.insert(id, key));
        proof {
            let n = self.waiters@.len() - 1;
            assert(self.waiters@[n].id == id);
            assert forall|k: u64| #[trigger] self.registered@.contains_key(k) implies
                exists|i: int| 0 <= i < self.waiters@.len() && self.waiters@[i].id == k by {
                if k != id {
                    let i = choose|i: int| 0 <= i < old(self).waiters@.len() && old(self).waiters@[i].id == k;
                    assert(self.waiters@[i].id == k);
                }
            }
        }
        id
    }

    /// Forgets the waiter `id`, if it is registered.
    pub fn deregister(&mut self, id: u64)
        requires
            old(self).wf(),
        ensures
            final(self).wf(),
            final(self)@ == old(self)@.remove(id),
            final(self).can_register() == old(self).can_register(),
    {
        let mut i: usize = 0;
        while i < self.waiters.len()
            invariant
                self.wf(),
                *self == *old(self),
                forall|j: int| 0 <= j < i ==> #[trigger] self.waiters@[j].id != id,
            decreases self.waiters.len() - i,
        {
            if self.waiters[i].id == id {
                let ghost before = self.waiters@;
                self.waiters.remove(i);
                self.registered = Ghost(self.registered@.remove(id));
                proof {
                    assert forall|k: u64| #[trigger] self.registered@.contains_key(k) implies
                        exists|j: int| 0 <= j < self.waiters@.len() && self.waiters@[j].id == k by {
                        let j = choose|j: int| 0 <= j < before.len() && before[j].id == k;
                        if j < i {
                            assert(self.waiters@[j].id == k);
                        } else {
                            assert(j != i);
                            assert(self.waiters@[j - 1].id == k);
                        }
                    }
                    assert forall|a: int, b: int| 0 <= a < b < self.waiters@.len() implies
                        #[trigger] self.waiters@[a].id != #[trigger] self.waiters@[b].id by {
                        let a0 = if a < i { a } else { a + 1 };
                        let b0 = if b < i { b } else { b + 1 };
                        assert(self.waiters@[a] == before[a0]);
                        assert(self.waiters@[b] == before[b0]);
                    }
                    assert forall|j: int| #![trigger self.waiters@[j]] 0 <= j < self.waiters@.len() implies {
                        &&& self.registered@.contains_key(self.waiters@[j].id)
                        &&& self.registered@[self.waiters@[j].id] == self.waiters@[j].key
                        &&& self.waiters@[j].id < self.next_id
                    } by {
                        let j0 = if j < i { j } else { j + 1 };
                        assert(self.waiters@[j] == before[j0]);
                        assert(j0 != i);
                    }
                }
                return;
            }
            i = i + 1;
        }
        proof {
            assert(!self.registered@.contains_key(id));
            assert(self.registered@.remove(id) =~= self.registered@);
        }
    }

    /// Wakes every waiter registered on `key`: returns their ids and forgets them.
    pub fn notify(&mut self, key: &TransactionPosition) -> (woken: Vec<u64>)
        requires
            old(self).wf(),
        ensures
            final(self).wf(),
            final(self)@ == without_key(old(self)@, *key),
            woken@.to_set() == waiting_on(old(self)@, *key),
            final(self).can_register() == old(self).can_register(),
    {
        let mut kept: Vec<Waiter> = Vec::new();
        let mut woken: Vec<u64> = Vec::new();
        let ghost all = self.registered@;
        let ghost mut kept_map = Map::<u64, TransactionPosition>::empty();
        let mut i: usize = 0;
        while i < self.waiters.len()
            invariant
                self.wf(),
                *self == *old(self),
                all == self.registered@,
                i <= self.waiters@.len(),
                forall|m: int| #![trigger kept@[m]] 0 <= m < kept@.len() ==> {
                    &&& kept_map.contains_key(kept@[m].id)
                    &&& kept_map[kept@[m].id] == kept@[m].key
                    &&& kept@[m].id < self.next_id
                },
                forall|m: int| #![trigger kept@[m]] 0 <= m < kept@.len() ==>
                    exists|j: int| 0 <= j < i && self.waiters@[j] == kept@[m],
                forall|a: int, b: int| 0 <= a < b < kept@.len() ==>
                    #[trigger] kept@[a].id != #[trigger] kept@[b].id,
                forall|id: u64| #[trigger] kept_map.contains_key(id) ==>
                    exists|m: int| 0 <= m < kept@.len() && kept@[m].id == id,
                forall|id: u64| #[trigger] kept_map.contains_key(id) <==>
                    (all.contains_key(id) && all[id] != *key
                        && exists|j: int| 0 <= j < i && self.waiters@[j].id == id),
                forall|id: u64| kept_map.contains_key(id) ==> #[trigger] kept_map[id] == all[id],
                forall|id: u64| #[trigger] woken@.contains(id) <==>
                    (all.contains_key(id) && all[id] == *key
                        && exists|j: int| 0 <= j < i && self.waiters@[j].id == id),
            decreases self.waiters.len() - i,
        {
            let w = self.waiters[i];
            let ghost woken_before = woken@;
            let ghost kept_before = kept@;
            let ghost map_before = kept_map;
            assert(all.contains_key(w.id) && all[w.id] == w.key);
            if same_position(&w.key, key) {
                woken.push(w.id);
            } else {
                proof {
                    assert forall|m: int| 0 <= m < kept@.len() implies kept@[m].id != w.id by {
                        assert(kept@[m] == kept@[m]);
                        let j = choose|j: int| 0 <= j < i && self.waiters@[j] == kept@[m];
                        assert(self.waiters@[j].id != self.waiters@[i as int].id);
                    }
                }
                kept.push(w);
                proof {
                    kept_map = kept_map.insert(w.id, w.key);
                    assert(kept@[kept@.len() - 1] == w);
                    assert forall|id: u64| #[trigger] kept_map.contains_key(id) implies
                        exists|m: int| 0 <= m < kept@.len() && kept@[m].id == id by {
                        if id == w.id {
                            assert(kept@[kept@.len() - 1].id == id);
                        } else {
                            assert(map_before.contains_key(id));
                            let m = choose|m: int| 0 <= m < kept_before.len() && kept_before[m].id == id;
                            assert(kept@[m] == kept_before[m]);
                        }
                    }
                }
            }
            proof {
                assert(self.waiters@[i as int] == w);
                assert(forall|k: int| 0 <= k < woken_before.len() ==> woken@[k] == woken_before[k]);
                assert forall|id: u64| #[trigger] woken@.contains(id) <==>
                    (all.contains_key(id) && all[id] == *key
                        && exists|j: int| 0 <= j < i + 1 && self.waiters@[j].id == id) by {
                    if all.contains_key(id) && all[id] == *key
                        && exists|j: int| 0 <= j < i + 1 && self.waiters@[j].id == id {
                        let j = choose|j: int| 0 <= j < i + 1 && self.waiters@[j].id == id;
                        if j == i {
                            assert(woken@[woken@.len() - 1] == id);
                        } else {
                            assert(woken_before.contains(id));
                            let k = choose|k: int| 0 <= k < woken_before.len() && woken_before[k] == id;
                            assert(woken@[k] == id);
                        }
                    }
                    if woken@.contains(id) {
                        if woken_before.contains(id) {
                        } else {
                            let k = choose|k: int| 0 <= k < woken@.len() && woken@[k] == id;
                            assert(k == woken_before.len());
                            assert(id == w.id);
                        }
                    }
                }
            }
            i = i + 1;
        }
        let ghost kept_seq = kept@;
        assert(forall|id: u64| #[trigger] kept_map.contains_key(id) ==>
            exists|m: int| 0 <= m < kept_seq.len() && kept_seq[m].id == id);
        self.waiters = kept;
        self.registered = Ghost(kept_map);
        proof {
            assert(kept_map =~= without_key(all, *key));
            assert(self.waiters@ == kept_seq);
            assert(self.registered@ == kept_map);
            assert(woken@.to_set() =~= waiting_on(all, *key));
        }
        woken
    }
}

} // verus!
