//! Snapshots of the configuration and their replacement under traffic.
//!
//! Every request takes a handle to the current snapshot when it starts and
//! works with that snapshot until it ends, whatever is published in the
//! meantime. A reload publishes a whole new snapshot or nothing. A
//! snapshot that is no longer current is dropped when the last request
//! that holds it has ended.

use vstd::prelude::*;

verus! {

/// A handle to the snapshot that was current when a request started: the
/// generation of that snapshot.
#[derive(Debug, Clone, Copy, PartialEq, Eq, Structural)]
pub struct SnapshotHandle {
    /// The generation.
    pub generation: u64,
}

/// One snapshot with the number of requests that hold it.
pub struct Held<T> {
    /// Generation of the snapshot.
    pub generation: u64,
    /// The snapshot.
    pub snapshot: T,
    /// Number of requests that hold the snapshot.
    pub holders: usize,
}

/// The current snapshot and the older ones that requests still hold.
pub struct SnapshotStore<T> {
    /// The snapshots that are held or current, oldest first; the last one
    /// is the current one.
    held: Vec<Held<T>>,
}

impl<T> SnapshotStore<T> {
    /// Whether the store is well formed: there is a current snapshot, and
    /// the generations ascend.
    pub closed spec fn wf(&self) -> bool {
        &&& self.held@.len() > 0
        &&& forall|i: int, j: int|
            0 <= i < j < self.held@.len() ==> (#[trigger] self.held@[i]).generation < (
            #[trigger] self.held@[j]).generation
    }

    /// The generation of the current snapshot.
    pub closed spec fn current_generation(&self) -> u64 {
        self.held@.last().generation
    }

    /// The current snapshot.
    pub closed spec fn current(&self) -> T {
        self.held@.last().snapshot
    }

    /// Whether the snapshot of a generation is in the store.
    pub closed spec fn has(&self, generation: u64) -> bool {
        exists|i: int| 0 <= i < self.held@.len() && (#[trigger] self.held@[i]).generation == generation
    }

    /// Where the snapshot of a generation stands.
    pub closed spec fn index_of(&self, generation: u64) -> int {
        choose|i: int| 0 <= i < self.held@.len() && (#[trigger] self.held@[i]).generation == generation
    }

    /// The snapshot of a generation.
    pub closed spec fn snapshot_of(&self, generation: u64) -> T {
        self.held@[self.index_of(generation)].snapshot
    }

    /// The number of requests that hold the snapshot of a generation; 0
    /// where the snapshot is not in the store.
    pub closed spec fn holders_of(&self, generation: u64) -> nat {
        if self.has(generation) {
            self.held@[self.index_of(generation)].holders as nat
        } else {
            0
        }
    }

    /// The number of snapshots in the store: the current one and the
    /// older ones that requests still hold.
    pub closed spec fn count(&self) -> nat {
        self.held@.len()
    }

    proof fn lemma_index(&self, generation: u64, i: int)
        requires
            self.wf(),
            0 <= i < self.held@.len(),
            self.held@[i].generation == generation,
        ensures
            self.has(generation),
            self.index_of(generation) == i,
    {
        let c = self.index_of(generation);
        if c < i {
            assert(self.held@[c].generation < self.held@[i].generation);
        }
        if i < c {
            assert(self.held@[i].generation < self.held@[c].generation);
        }
    }

    /// The generations of the snapshots in the store.
    pub closed spec fn generations(&self) -> Set<u64> {
        Set::new(|g: u64| self.has(g))
    }

    /// The count of a store is the number of generations whose snapshot
    /// it holds.
    pub proof fn lemma_count(&self)
        requires
            self.wf(),
        ensures
            self.generations().finite(),
            self.generations().len() == self.count(),
            forall|g: u64| self.generations().contains(g) <==> self.has(g),
    {
        let held = self.held@;
        let listed = Seq::new(held.len(), |i: int| held[i].generation);
        assert(listed.no_duplicates()) by {
            assert forall|i: int, j: int| 0 <= i < listed.len() && 0 <= j < listed.len() && i != j implies listed[i]
                != listed[j] by {
                if i < j {
                    assert(held[i].generation < held[j].generation);
                } else {
                    assert(held[j].generation < held[i].generation);
                }
            }
        }
        listed.unique_seq_to_set();
        assert(self.generations() =~= listed.to_set()) by {
            assert forall|g: u64| self.generations().contains(g) <==> listed.to_set().contains(g) by {
                if self.has(g) {
                    let i = self.index_of(g);
                    assert(listed[i] == g);
                }
                if listed.to_set().contains(g) {
                    let i = choose|i: int| 0 <= i < listed.len() && listed[i] == g;
                    assert(held[i].generation == g);
                }
            }
        }
    }

    /// A store with a first snapshot.
    pub fn new(snapshot: T) -> (r: Self)
        ensures
            r.wf(),
            r.current_generation() == 0,
            r.current() == snapshot,
            r.has(0),
            r.snapshot_of(0) == snapshot,
            r.holders_of(0) == 0,
            forall|g: u64| g != 0 ==> !r.has(g),
            r.count() == 1,
    {
        let mut held: Vec<Held<T>> = Vec::new();
        held.push(Held { generation: 0, snapshot, holders: 0 });
        let r = SnapshotStore { held };
        proof {
            r.lemma_index(0, 0);
        }
        r
    }

    fn find(&self, generation: u64) -> (r: Option<usize>)
        requires
            self.wf(),
        ensures
            match r {
                Some(i) => i < self.held@.len() && self.held@[i as int].generation == generation && self.has(
                    generation,
                ) && self.index_of(generation) == i,
                None => !self.has(generation),
            },
    {
        let mut i: usize = 0;
        while i < self.held.len()
            invariant
                i <= self.held.len(),
                self.wf(),
                forall|j: int| 0 <= j < i ==> (#[trigger] self.held@[j]).generation != generation,
            decreases self.held.len() - i,
        {
            if self.held[i].generation == generation {
                proof {
                    self.lemma_index(generation, i as int);
                }
                return Some(i);
            }
            i += 1;
        }
        None
    }

    /// Starts a request: the request holds the current snapshot from now
    /// on.
    pub fn begin_request(&mut self) -> (handle: SnapshotHandle)
        requires
            old(self).wf(),
            old(self).holders_of(old(self).current_generation()) < usize::MAX,
        ensures
            final(self).wf(),
            handle.generation == old(self).current_generation(),
            final(self).current_generation() == old(self).current_generation(),
            final(self).current() == old(self).current(),
            final(self).has(handle.generation),
            final(self).snapshot_of(handle.generation) == old(self).current(),
            final(self).holders_of(handle.generation) == old(self).holders_of(handle.generation) + 1,
            forall|g: u64| final(self).has(g) == old(self).has(g),
            forall|g: u64| old(self).has(g) ==> final(self).snapshot_of(g) == old(self).snapshot_of(g),
            forall|g: u64|
                g != handle.generation ==> final(self).holders_of(g) == old(self).holders_of(g),
            final(self).count() == old(self).count(),
    {
        let last = self.held.len() - 1;
        let ghost before = self.held@;
        proof {
            self.lemma_index(self.held@[last as int].generation, last as int);
        }
        let mut entry = self.held.remove(last);
        let generation = entry.generation;
        entry.holders += 1;
        self.held.push(entry);
        proof {
            assert(self.held@.len() == before.len());
            assert forall|i: int| 0 <= i < self.held@.len() implies (#[trigger] self.held@[i]).generation
                == before[i].generation && self.held@[i].snapshot == before[i].snapshot by {}
            assert(self.wf());
            assert forall|g: u64| self.has(g) == old(self).has(g) by {
                if old(self).has(g) {
                    let i = old(self).index_of(g);
                    assert(self.held@[i].generation == g);
                }
                if self.has(g) {
                    let i = self.index_of(g);
                    assert(before[i].generation == g);
                }
            }
            assert forall|g: u64| old(self).has(g) implies self.snapshot_of(g) == old(self).snapshot_of(
                g,
            ) && (g != generation ==> self.holders_of(g) == old(self).holders_of(g)) by {
                let i = old(self).index_of(g);
                self.lemma_index(g, i);
            }
            self.lemma_index(generation, last as int);
        }
        SnapshotHandle { generation }
    }

    /// The snapshot that a request holds.
    pub fn get(&self, handle: SnapshotHandle) -> (r: Option<&T>)
        requires
            self.wf(),
        ensures
            match r {
                Some(s) => self.has(handle.generation) && *s == self.snapshot_of(handle.generation),
                None => !self.has(handle.generation),
            },
    {
        match self.find(handle.generation) {
            Some(i) => Some(&self.held[i].snapshot),
            None => None,
        }
    }

    /// The current snapshot, as a request that starts now would see it.
    pub fn latest(&self) -> (r: &T)
        requires
            self.wf(),
        ensures
            *r == self.current(),
    {
        &self.held[self.held.len() - 1].snapshot
    }

    /// Publishes a new snapshot. Requests that started before keep the
    /// snapshot they hold; requests that start from now on see the new
    /// one. The snapshot that was current is dropped at once where no
    /// request holds it. With the generations used up nothing is
    /// published, and the new snapshot is handed back.
    pub fn publish(&mut self, snapshot: T) -> (r: Option<T>)
        requires
            old(self).wf(),
        ensures
            final(self).wf(),
            match r {
                None => {
                    &&& old(self).current_generation() < u64::MAX
                    &&& final(self).current_generation() == old(self).current_generation() + 1
                    &&& final(self).current() == snapshot
                    &&& final(self).holders_of(final(self).current_generation()) == 0
                    &&& forall|g: u64|
                        old(self).has(g) && old(self).holders_of(g) > 0 ==> final(self).has(g) && final(self).snapshot_of(g) == old(self).snapshot_of(g) && final(self).holders_of(g) == old(self).holders_of(g)
                    &&& final(self).count() == if old(self).holders_of(old(self).current_generation()) > 0 {
                        old(self).count() + 1
                    } else {
                        old(self).count()
                    }
                },
                Some(s) => {
                    &&& s == snapshot
                    &&& old(self).current_generation() == u64::MAX
                    &&& final(self).same_as(old(self))
                },
            },
    {
        let last = self.held.len() - 1;
        let current = self.held[last].generation;
        if current == u64::MAX {
            return Some(snapshot);
        }
        let ghost before = self.held@;
        proof {
            self.lemma_index(current, last as int);
        }
        if self.held[last].holders == 0 {
            let _ = self.held.remove(last);
        }
        let ghost kept = self.held@;
        self.held.push(Held { generation: current + 1, snapshot, holders: 0 });
        proof {
            assert forall|i: int, j: int| 0 <= i < j < self.held@.len() implies (
            #[trigger] self.held@[i]).generation < (#[trigger] self.held@[j]).generation by {
                if j < kept.len() {
                    assert(self.held@[i] == before[i] && self.held@[j] == before[j]);
                } else {
                    assert(self.held@[i] == before[i]);
                    if i < last {
                        assert(before[i].generation < before[last as int].generation);
                    }
                }
            }
            assert(self.wf());
            self.lemma_index((current + 1) as u64, self.held@.len() - 1);
            assert forall|g: u64| old(self).has(g) && old(self).holders_of(g) > 0 implies self.has(g)
                && self.snapshot_of(g) == old(self).snapshot_of(g) && self.holders_of(g) == old(self).holders_of(g) by {
                let i = old(self).index_of(g);
                assert(before[i].holders > 0);
                assert(i < kept.len());
                assert(self.held@[i] == before[i]);
                self.lemma_index(g, i);
            }
        }
        None
    }

    /// Whether the store holds what `other` holds: the same current
    /// snapshot, and the same snapshots with the same holders.
    pub open spec fn same_as(&self, other: &Self) -> bool {
        &&& self.current_generation() == other.current_generation()
        &&& self.current() == other.current()
        &&& self.count() == other.count()
        &&& forall|g: u64| self.has(g) == other.has(g)
        &&& forall|g: u64| self.has(g) ==> self.snapshot_of(g) == other.snapshot_of(g)
        &&& forall|g: u64| self.holders_of(g) == other.holders_of(g)
    }

    /// Ends a request: it lets go of its snapshot. A snapshot that is not
    /// current is dropped when its last holder lets go. A handle that
    /// names no snapshot of the store, or one that no request holds,
    /// changes nothing.
    pub fn end_request(&mut self, handle: SnapshotHandle)
        requires
            old(self).wf(),
        ensures
            final(self).wf(),
            final(self).current_generation() == old(self).current_generation(),
            final(self).current() == old(self).current(),
            final(self).holders_of(handle.generation) == if old(self).holders_of(handle.generation) > 0 {
                (old(self).holders_of(handle.generation) - 1) as nat
            } else {
                0
            },
            forall|g: u64|
                g != handle.generation && old(self).has(g) ==> final(self).has(g) && final(self).snapshot_of(
                    g,
                ) == old(self).snapshot_of(g) && final(self).holders_of(g) == old(self).holders_of(g),
            old(self).has(handle.generation) && (old(self).holders_of(handle.generation) > 1
                || handle.generation == old(self).current_generation()) ==> final(self).has(
                handle.generation,
            ) && final(self).snapshot_of(handle.generation) == old(self).snapshot_of(handle.generation),
            final(self).count() == if old(self).holders_of(handle.generation) == 1 && handle.generation != old(
                self,
            ).current_generation() {
                (old(self).count() - 1) as nat
            } else {
                old(self).count()
            },
    {
        let found = self.find(handle.generation);
        let ghost before = self.held@;
        let last = self.held.len() - 1;
        proof {
            self.lemma_index(self.held@[last as int].generation, last as int);
        }
        match found {
            None => {},
            Some(i) => {
                if self.held[i].holders == 0 {
                    return ;
                }
                let mut entry = self.held.remove(i);
                entry.holders -= 1;
                if entry.holders > 0 || i == last {
                    self.held.insert(i, entry);
                    proof {
                        assert(self.held@.len() == before.len());
                        assert forall|k: int| 0 <= k < self.held@.len() implies (
                        #[trigger] self.held@[k]).generation == before[k].generation
                            && self.held@[k].snapshot == before[k].snapshot by {}
                        assert(self.wf());
                        self.lemma_index(handle.generation, i as int);
                        assert forall|g: u64| g != handle.generation && old(self).has(g) implies self.has(
                            g,
                        ) && self.snapshot_of(g) == old(self).snapshot_of(g) && self.holders_of(g) == old(self).holders_of(g) by {
                            let k = old(self).index_of(g);
                            assert(self.held@[k] == before[k]);
                            self.lemma_index(g, k);
                        }
                    }
                } else {
                    proof {
                        assert(self.held@ =~= before.remove(i as int));
                        assert forall|a: int, b: int| 0 <= a < b < self.held@.len() implies (
                        #[trigger] self.held@[a]).generation < (#[trigger] self.held@[b]).generation by {
                            let a0 = if a < i { a } else { a + 1 };
                            let b0 = if b < i { b } else { b + 1 };
                            assert(self.held@[a] == before[a0]);
                            assert(self.held@[b] == before[b0]);
                        }
                        assert(self.wf());
                        assert(self.held@.last() == before.last());
                        assert(!self.has(handle.generation)) by {
                            if self.has(handle.generation) {
                                let k = self.index_of(handle.generation);
                                let k0 = if k < i { k } else { k + 1 };
                                assert(self.held@[k] == before[k0]);
                                if k0 < i {
                                    assert(before[k0].generation < before[i as int].generation);
                                } else {
                                    assert(before[i as int].generation < before[k0].generation);
                                }
                            }
                        }
                        assert forall|g: u64| g != handle.generation && old(self).has(g) implies self.has(
                            g,
                        ) && self.snapshot_of(g) == old(self).snapshot_of(g) && self.holders_of(g) == old(self).holders_of(g) by {
                            let k = old(self).index_of(g);
                            let k1 = if k < i { k } else { k - 1 };
                            assert(self.held@[k1] == before[k]);
                            self.lemma_index(g, k1);
                        }
                    }
                }
            },
        }
    }

    /// Takes the outcome of a reload: a snapshot that was built is
    /// published; a failure leaves everything as it was and is handed
    /// back.
    pub fn reload<E>(&mut self, outcome: Result<T, E>) -> (r: Result<(), E>)
        requires
            old(self).wf(),
            old(self).current_generation() < u64::MAX,
        ensures
            final(self).wf(),
            match outcome {
                Ok(snapshot) => {
                    &&& r is Ok
                    &&& final(self).current() == snapshot
                    &&& final(self).current_generation() == old(self).current_generation() + 1
                    &&& forall|g: u64|
                        old(self).has(g) && old(self).holders_of(g) > 0 ==> final(self).has(g) && final(self).snapshot_of(g) == old(self).snapshot_of(g)
                    &&& final(self).count() == if old(self).holders_of(old(self).current_generation()) > 0 {
                        old(self).count() + 1
                    } else {
                        old(self).count()
                    }
                },
                Err(e) => r == Err::<(), E>(e) && final(self).same_as(old(self)),
            },
    {
        match outcome {
            Ok(snapshot) => {
                let _ = self.publish(snapshot);
                Ok(())
            },
            Err(e) => Err(e),
        }
    }

    /// Number of snapshots in the store: the current one and the older
    /// ones that requests still hold.
    pub fn snapshot_count(&self) -> (r: usize)
        requires
            self.wf(),
        ensures
            r == self.count(),
            r >= 1,
    {
        self.held.len()
    }
}

} // verus!
