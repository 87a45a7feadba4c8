//! The entity pool: the id allocator and the set of soft-removed entities,
//! through which each component backend is read and written.
use std::collections::HashSet;
use vstd::prelude::*;
use vstd::std_specs::hash::spec_hash_keys_iter;
use vstd::std_specs::iter::IteratorSpec;

use crate::EntityId;
use crate::storage::{Storage, ascending_ids, capacity_after_set, lists_exactly};

verus! {

broadcast use vstd::std_specs::hash::group_hash_axioms;

/// The component stored for `id` in `m`, if any.
pub open spec fn entry_of<T>(m: Map<EntityId, T>, id: EntityId) -> Option<T> {
    if m.contains_key(id) {
        Some(m[id])
    } else {
        None
    }
}

/// The component that an ordinary lookup of `id` sees: none for an entity
/// marked removed.
pub open spec fn lookup<T>(removed: Set<EntityId>, m: Map<EntityId, T>, id: EntityId) -> Option<T> {
    if removed.contains(id) {
        None
    } else {
        entry_of(m, id)
    }
}

/// The components that ordinary lookups see.
pub open spec fn visible<T>(removed: Set<EntityId>, m: Map<EntityId, T>) -> Map<EntityId, T> {
    m.remove_keys(removed)
}

/// The contents of a backend after a write of `comp` for `id` through the
/// pool: writes to an entity marked removed are dropped.
pub open spec fn stored_after_set<T>(
    removed: Set<EntityId>,
    m: Map<EntityId, T>,
    id: EntityId,
    comp: T,
) -> Map<EntityId, T> {
    if removed.contains(id) {
        m
    } else {
        m.insert(id, comp)
    }
}

/// The contents of a backend after a removal of `id` through the pool.
pub open spec fn stored_after_remove<T>(
    removed: Set<EntityId>,
    m: Map<EntityId, T>,
    id: EntityId,
) -> Map<EntityId, T> {
    if removed.contains(id) {
        m
    } else {
        m.remove(id)
    }
}

/// The value behind an optional reference.
pub open spec fn as_value<T>(r: Option<&T>) -> Option<T> {
    match r {
        Some(c) => Some(*c),
        None => None,
    }
}

/// `after` is `before` once `spawn_entity` has returned `id`.
pub open spec fn spawned(before: SpawningPool, after: SpawningPool, id: EntityId) -> bool {
    &&& id == before.next_id()
    &&& after.next_id() == before.next_id() + 1
    &&& after.removed_ids() == before.removed_ids()
}

/// Hands out entity ids and tracks the entities marked removed whose
/// components have not been purged yet.
pub struct SpawningPool {
    next_id: u64,
    removed: HashSet<EntityId>,
}

impl SpawningPool {
    /// The id that the next `spawn_entity` returns.
    pub closed spec fn next_id(&self) -> u64 {
        self.next_id
    }

    /// The entities marked removed and not yet cleaned up.
    pub closed spec fn removed_ids(&self) -> Set<EntityId> {
        self.removed@
    }

    pub fn new() -> (p: Self)
        ensures
            p.next_id() == 1,
            p.removed_ids() == Set::<EntityId>::empty(),
    {
        SpawningPool { next_id: 1, removed: HashSet::new() }
    }

    /// A pool whose next id is `next_id` and whose entities marked removed
    /// are those of `removed`.
    pub fn from_parts(next_id: u64, removed: &Vec<EntityId>) -> (p: Self)
        ensures
            p.next_id() == next_id,
            p.removed_ids() == removed@.to_set(),
    {
        let mut set: HashSet<EntityId> = HashSet::new();
        let mut i: usize = 0;
        while i < removed.len()
            invariant
                i <= removed.len(),
                set@ == removed@.take(i as int).to_set(),
            decreases removed.len() - i,
        {
            proof {
                assert(removed@.take(i + 1) =~= removed@.take(i as int).push(removed@[i as int]));
                removed@.take(i as int).lemma_push_to_set_commute(removed@[i as int]);
            }
            set.insert(removed[i]);
            i += 1;
        }
        assert(removed@.take(removed.len() as int) =~= removed@);
        SpawningPool { next_id, removed: set }
    }

    /// The id that the next `spawn_entity` returns.
    pub fn upcoming_id(&self) -> (r: u64)
        ensures
            r == self.next_id(),
    {
        self.next_id
    }

    /// The entities marked removed, each once, in no set order.
    pub fn removed_entities(&self) -> (r: Vec<EntityId>)
        ensures
            r@.to_set() == self.removed_ids(),
            r@.no_duplicates(),
    {
        let ghost s = spec_hash_keys_iter(&self.removed).remaining();
        let mut r: Vec<EntityId> = Vec::new();
        for id in it: self.removed.iter()
            invariant
                it.seq() == s,
                s.unref().to_set() == self.removed_ids(),
                s.no_duplicates(),
                r@ == s.take(it.index()).unref(),
        {
            proof {
                let n = it.index();
                assert(s.take(n + 1).unref() =~= s.take(n).unref().push(*s[n]));
            }
            r.push(*id);
        }
        proof {
            assert(s.take(s.len() as int) =~= s);
            assert forall|i: int, j: int| 0 <= i < j < r.len() implies r@[i] != r@[j] by {
                assert(r@[i] == *s[i] && r@[j] == *s[j]);
            }
        }
        r
    }

    /// Returns a fresh id: the counter's value, which then moves up by one.
    pub fn spawn_entity(&mut self) -> (id: EntityId)
        requires
            old(self).next_id() < u64::MAX,
        ensures
            spawned(*old(self), *final(self), id),
    {
        let id = self.next_id;
        self.next_id = self.next_id + 1;
        id
    }

    /// Marks `id` removed: ordinary lookups stop seeing its components.
    pub fn remove_entity(&mut self, id: EntityId)
        ensures
            final(self).next_id() == old(self).next_id(),
            final(self).removed_ids() == old(self).removed_ids().insert(id),
    {
        self.removed.insert(id);
    }

    /// Whether `id` is marked removed.
    pub fn is_removed(&self, id: EntityId) -> (r: bool)
        ensures
            r == self.removed_ids().contains(id),
    {
        self.removed.contains(&id)
    }

    /// The component of `id` in `store`, unless `id` is marked removed.
    pub fn get<'a, T: Clone, S: Storage<T>>(&self, store: &'a S, id: EntityId) -> (r: Option<&'a T>)
        requires
            store.well_formed(),
        ensures
            as_value(r) == lookup(self.removed_ids(), store.contents(), id),
    {
        if self.is_removed(id) {
            None
        } else {
            store.get(id)
        }
    }

    /// The component of `id` in `store`, whether or not `id` is marked removed.
    pub fn force_get<'a, T: Clone, S: Storage<T>>(&self, store: &'a S, id: EntityId) -> (r: Option<&'a T>)
        requires
            store.well_formed(),
        ensures
            as_value(r) == entry_of(store.contents(), id),
    {
        store.get(id)
    }

    /// A mutable reference to the component of `id` in `store`, unless `id`
    /// is marked removed.
    pub fn get_mut<'a, T: Clone, S: Storage<T>>(&self, store: &'a mut S, id: EntityId) -> (r: Option<&'a mut T>)
        requires
            old(store).well_formed(),
        ensures
            final(store).well_formed(),
            final(store).capacity() == old(store).capacity(),
            match r {
                Some(c) => {
                    &&& lookup(self.removed_ids(), old(store).contents(), id) == Some(*c)
                    &&& final(store).contents() == old(store).contents().insert(id, *final(c))
                },
                None => {
                    &&& lookup(self.removed_ids(), old(store).contents(), id) is None
                    &&& final(store).contents() == old(store).contents()
                },
            },
    {
        if self.is_removed(id) {
            None
        } else {
            store.get_mut(id)
        }
    }

    /// Stores `comp` for `id`, unless `id` is marked removed.
    pub fn set<T: Clone, S: Storage<T>>(&self, store: &mut S, id: EntityId, comp: T)
        requires
            old(store).well_formed(),
            S::admits(id),
        ensures
            final(store).well_formed(),
            final(store).contents() == stored_after_set(self.removed_ids(), old(store).contents(), id, comp),
            final(store).capacity() == if self.removed_ids().contains(id) {
                old(store).capacity()
            } else {
                capacity_after_set(old(store).capacity(), id)
            },
    {
        if !self.is_removed(id) {
            store.set(id, comp);
        }
    }

    /// Drops the component of `id` from `store`, unless `id` is marked removed.
    pub fn remove<T: Clone, S: Storage<T>>(&self, store: &mut S, id: EntityId)
        requires
            old(store).well_formed(),
        ensures
            final(store).well_formed(),
            final(store).contents() == stored_after_remove(self.removed_ids(), old(store).contents(), id),
            final(store).capacity() == old(store).capacity(),
    {
        if !self.is_removed(id) {
            store.remove(id);
        }
    }

    /// Every component of `store` whose entity is not marked removed, in the
    /// order of the backend's own listing.
    pub fn get_all<'a, T: Clone, S: Storage<T>>(&self, store: &'a S) -> (r: Vec<(EntityId, &'a T)>)
        requires
            store.well_formed(),
        ensures
            lists_exactly(r@, visible(self.removed_ids(), store.contents())),
            S::lists_in_order() ==> ascending_ids(r@),
    {
        let all = store.get_all();
        let ghost m = store.contents();
        let ghost removed = self.removed_ids();
        let mut kept: Vec<(EntityId, &'a T)> = Vec::new();
        let ghost mut idx: Seq<int> = Seq::empty();
        let mut i: usize = 0;
        while i < all.len()
            invariant
                i <= all.len(),
                removed == self.removed_ids(),
                lists_exactly(all@, m),
                S::lists_in_order() ==> ascending_ids(all@),
                idx.len() == kept.len(),
                forall|j: int| #![trigger idx[j]] 0 <= j < kept.len() ==> 0 <= idx[j] < i && kept@[j] == all@[idx[j]]
                    && !removed.contains(all@[idx[j]].0),
                forall|j1: int, j2: int| 0 <= j1 < j2 < kept.len() ==> idx[j1] < idx[j2],
                forall|k: int| 0 <= k < i && !removed.contains(#[trigger] all@[k].0) ==>
                    exists|j: int| 0 <= j < kept.len() && idx[j] == k,
            decreases all.len() - i,
        {
            let entry = all[i];
            let ghost prev = idx;
            if !self.is_removed(entry.0) {
                kept.push(entry);
                proof {
                    idx = idx.push(i as int);
                }
            }
            proof {
                assert forall|k: int| 0 <= k < i + 1 && !removed.contains(#[trigger] all@[k].0) implies
                    exists|j: int| 0 <= j < kept.len() && idx[j] == k by {
                    if k < i {
                        let j = choose|j: int| 0 <= j < prev.len() && prev[j] == k;
                        assert(idx[j] == k);
                    } else {
                        assert(idx[prev.len() as int] == k);
                    }
                }
            }
            i += 1;
        }
        proof {
            let v = visible(removed, m);
            assert forall|j1: int, j2: int| 0 <= j1 < j2 < kept.len() implies kept@[j1].0 != kept@[j2].0 by {
                assert(idx[j1] < idx[j2]);
            }
            assert forall|j: int| 0 <= j < kept.len() implies v.contains_key(#[trigger] kept@[j].0)
                && *kept@[j].1 == v[kept@[j].0] by {
                assert(kept@[j] == all@[idx[j]]);
                assert(m.contains_key(all@[idx[j]].0));
            }
            assert forall|k: EntityId| #[trigger] v.contains_key(k) implies exists|j: int|
                0 <= j < kept.len() && kept@[j].0 == k by {
                let a = choose|a: int| 0 <= a < all.len() && all@[a].0 == k;
                let j = choose|j: int| 0 <= j < kept.len() && idx[j] == a;
                assert(kept@[j].0 == k);
            }
            if S::lists_in_order() {
                assert forall|j1: int, j2: int| 0 <= j1 < j2 < kept.len() implies kept@[j1].0 < kept@[j2].0 by {
                    assert(idx[j1] < idx[j2]);
                    assert(all@[idx[j1]].0 < all@[idx[j2]].0);
                }
            }
        }
        kept
    }

    /// Drops from `store` the components of every entity marked removed,
    /// whether or not `store` held one. A pool is cleaned up by purging each
    /// of its backends, then calling `cleanup_removed`.
    pub fn purge<T: Clone, S: Storage<T>>(&self, store: &mut S)
        requires
            old(store).well_formed(),
        ensures
            final(store).well_formed(),
            final(store).contents() == old(store).contents().remove_keys(self.removed_ids()),
            final(store).capacity() == old(store).capacity(),
    {
        let ghost s = spec_hash_keys_iter(&self.removed).remaining();
        for id in it: self.removed.iter()
            invariant
                it.seq() == s,
                s.unref().to_set() == self.removed_ids(),
                store.well_formed(),
                store.capacity() == old(store).capacity(),
                store.contents() == old(store).contents().remove_keys(s.take(it.index()).unref().to_set()),
        {
            proof {
                let n = it.index();
                let before = s.take(n).unref().to_set();
                assert(s.take(n + 1).unref() =~= s.take(n).unref().push(*s[n]));
                s.take(n).unref().lemma_push_to_set_commute(*s[n]);
                assert(s.take(n + 1).unref().to_set() =~= before.insert(*s[n]));
                assert(old(store).contents().remove_keys(before).remove(*s[n])
                    =~= old(store).contents().remove_keys(before.insert(*s[n])));
            }
            store.remove(*id);
        }
        assert(s.take(s.len() as int) =~= s);
    }

    /// Forgets the entities marked removed, once their components have been
    /// purged from every backend. Their ids are never handed out again.
    pub fn cleanup_removed(&mut self)
        ensures
            final(self).next_id() == old(self).next_id(),
            final(self).removed_ids() == Set::<EntityId>::empty(),
    {
        self.removed.clear();
    }
}

} // verus!