//! Storage backends: one instance holds every component of one type.
use std::collections::HashMap;
use std::collections::hash_map::Entry;
use vstd::prelude::*;
use vstd::std_specs::hash::spec_hash_map_iter;
use vstd::std_specs::iter::IteratorSpec;

use crate::EntityId;

verus! {

broadcast use vstd::std_specs::hash::group_hash_axioms;

/// `s` lists each entry of `m` once, as an id with a reference to its
/// component, and nothing else.
pub open spec fn lists_exactly<T>(s: Seq<(EntityId, &T)>, m: Map<EntityId, T>) -> bool {
    &&& forall|i: int, j: int| 0 <= i < j < s.len() ==> s[i].0 != s[j].0
    &&& forall|i: int|
        0 <= i < s.len() ==> m.contains_key(#[trigger] s[i].0) && *s[i].1 == m[s[i].0]
    &&& forall|k: EntityId| #[trigger] m.contains_key(k) ==> exists|i: int| 0 <= i < s.len() && s[i].0 == k
}

/// The ids listed in `s` ascend strictly.
pub open spec fn ascending_ids<T>(s: Seq<(EntityId, &T)>) -> bool {
    forall|i: int, j: int| 0 <= i < j < s.len() ==> s[i].0 < s[j].0
}

/// The capacity after `set(id, ..)`: an id at or past the bound moves it to
/// twice that id.
pub open spec fn capacity_after_set(c: Option<nat>, id: EntityId) -> Option<nat> {
    match c {
        Some(n) => if id >= n {
            Some((id * 2) as nat)
        } else {
            Some(n)
        },
        None => None,
    }
}

/// Storage of the components of type `T`, keyed by entity id.
pub trait Storage<T: Clone>: Sized {
    /// The components held, by entity id.
    spec fn contents(&self) -> Map<EntityId, T>;

    /// The internal invariant of the backend.
    spec fn well_formed(&self) -> bool;

    /// Whether `set` can take `id` on this backend.
    spec fn admits(id: EntityId) -> bool;

    /// The bound below which ids are stored in place, for a backend that has one.
    spec fn capacity(&self) -> Option<nat>;

    /// The capacity of a new, empty backend.
    spec fn initial_capacity() -> Option<nat>;

    /// Whether `get_all` lists the entries by ascending id.
    spec fn lists_in_order() -> bool;

    fn new() -> (s: Self)
        ensures
            s.well_formed(),
            s.contents() == Map::<EntityId, T>::empty(),
            s.capacity() == Self::initial_capacity(),
    ;

    fn get(&self, id: EntityId) -> (r: Option<&T>)
        requires
            self.well_formed(),
        ensures
            match r {
                Some(c) => self.contents().contains_key(id) && *c == self.contents()[id],
                None => !self.contents().contains_key(id),
            },
    ;

    fn get_all(&self) -> (r: Vec<(EntityId, &T)>)
        requires
            self.well_formed(),
        ensures
            lists_exactly(r@, self.contents()),
            Self::lists_in_order() ==> ascending_ids(r@),
    ;

    fn get_mut(&mut self, id: EntityId) -> (r: Option<&mut T>)
        requires
            old(self).well_formed(),
        ensures
            final(self).well_formed(),
            final(self).capacity() == old(self).capacity(),
            match r {
                Some(c) => {
                    &&& old(self).contents().contains_key(id)
                    &&& *c == old(self).contents()[id]
                    &&& final(self).contents() == old(self).contents().insert(id, *final(c))
                },
                None => {
                    &&& !old(self).contents().contains_key(id)
                    &&& final(self).contents() == old(self).contents()
                },
            },
    ;

    fn set(&mut self, id: EntityId, comp: T)
        requires
            old(self).well_formed(),
            Self::admits(id),
        ensures
            final(self).well_formed(),
            final(self).contents() == old(self).contents().insert(id, comp),
            final(self).capacity() == capacity_after_set(old(self).capacity(), id),
    ;

    fn remove(&mut self, id: EntityId)
        requires
            old(self).well_formed(),
        ensures
            final(self).well_formed(),
            final(self).contents() == old(self).contents().remove(id),
            final(self).capacity() == old(self).capacity(),
    ;
}

/// Sparse backend: a hash map from entity id to component.
pub struct HashMapStorage<T: Clone> {
    storage: HashMap<EntityId, T>,
}

impl<T: Clone> Storage<T> for HashMapStorage<T> {
    closed spec fn contents(&self) -> Map<EntityId, T> {
        self.storage@
    }

    closed spec fn well_formed(&self) -> bool {
        true
    }

    open spec fn admits(id: EntityId) -> bool {
        true
    }

    open spec fn capacity(&self) -> Option<nat> {
        None
    }

    open spec fn initial_capacity() -> Option<nat> {
        None
    }

    open spec fn lists_in_order() -> bool {
        false
    }

    fn new() -> (s: Self) {
        HashMapStorage { storage: HashMap::new() }
    }

    fn get(&self, id: EntityId) -> (r: Option<&T>) {
        self.storage.get(&id)
    }

    fn get_all(&self) -> (r: Vec<(EntityId, &T)>) {
        let ghost s = spec_hash_map_iter(&self.storage).remaining();
        let mut all: Vec<(EntityId, &T)> = Vec::new();
        for entry in it: self.storage.iter()
            invariant
                it.seq() == s,
                s.no_duplicates(),
                all.len() == it.index(),
                forall|i: int|
                    0 <= i < all.len() ==> all@[i].0 == *it.seq()[i].0 && all@[i].1 == it.seq()[i].1,
        {
            let (k, v) = entry;
            all.push((*k, v));
        }
        proof {
            let m = self.storage@;
            assert forall|i: int, j: int| 0 <= i < j < all.len() implies all@[i].0 != all@[j].0 by {
                if all@[i].0 == all@[j].0 {
                    assert(m.contains_key(*s[i].0) && m[*s[i].0] == *s[i].1);
                    assert(m.contains_key(*s[j].0) && m[*s[j].0] == *s[j].1);
                    assert(s[i] == s[j]);
                }
            }
            assert forall|k: EntityId| #[trigger] m.contains_key(k) implies exists|i: int|
                0 <= i < all.len() && all@[i].0 == k by {
                assert(s.contains((&k, &m[k])));
                let i = choose|i: int| 0 <= i < s.len() && s[i] == (&k, &m[k]);
                assert(all@[i].0 == k);
            }
            assert forall|i: int| 0 <= i < all.len() implies m.contains_key(#[trigger] all@[i].0)
                && *all@[i].1 == m[all@[i].0] by {
                assert(m.contains_key(*s[i].0) && m[*s[i].0] == *s[i].1);
            }
        }
        all
    }

    fn get_mut(&mut self, id: EntityId) -> (r: Option<&mut T>) {
        match self.storage.entry(id) {
            Entry::Occupied(e) => Some(e.into_mut()),
            Entry::Vacant(_) => None,
        }
    }

    fn set(&mut self, id: EntityId, comp: T) {
        self.storage.insert(id, comp);
    }

    fn remove(&mut self, id: EntityId) {
        self.storage.remove(&id);
    }
}

/// The components held in a sequence of slots, the slot's index being the id.
pub open spec fn slots_map<T>(s: Seq<Option<T>>) -> Map<EntityId, T> {
    Map::new(
        |k: EntityId| (k as int) < s.len() && s[k as int] is Some,
        |k: EntityId| s[k as int]->0,
    )
}

proof fn lemma_slots_update<T>(s: Seq<Option<T>>, i: int, v: Option<T>)
    requires
        0 <= i < s.len() <= u64::MAX,
    ensures
        slots_map(s.update(i, v)) == match v {
            Some(c) => slots_map(s).insert(i as EntityId, c),
            None => slots_map(s).remove(i as EntityId),
        },
{
    match v {
        Some(c) => assert(slots_map(s.update(i, v)) =~= slots_map(s).insert(i as EntityId, c)),
        None => assert(slots_map(s.update(i, v)) =~= slots_map(s).remove(i as EntityId)),
    }
}

proof fn lemma_slots_push<T>(s: Seq<Option<T>>, v: Option<T>)
    requires
        s.len() <= u64::MAX,
    ensures
        slots_map(s.push(v)) == match v {
            Some(c) => slots_map(s).insert(s.len() as EntityId, c),
            None => slots_map(s),
        },
{
    match v {
        Some(c) => assert(slots_map(s.push(v)) =~= slots_map(s).insert(s.len() as EntityId, c)),
        None => assert(slots_map(s.push(v)) =~= slots_map(s)),
    }
}

/// Number of slots of a new dense backend.
pub const INITIAL_CAPACITY: u64 = 100;

/// Dense backend: a slot per id below the capacity, indexed by the id itself.
pub struct VectorStorage<T: Clone> {
    size: u64,
    storage: Vec<Option<T>>,
}

impl<T: Clone> VectorStorage<T> {
    /// The number of slots.
    pub fn size(&self) -> (r: u64)
        requires
            self.well_formed(),
        ensures
            self.capacity() == Some(r as nat),
    {
        self.size
    }

    /// A dense backend whose slots are `slots`, its capacity their number;
    /// none where there are no slots.
    pub fn from_slots(slots: Vec<Option<T>>) -> (r: Option<Self>)
        ensures
            r is Some <==> slots.len() > 0,
            r matches Some(s) ==> s.well_formed() && s.contents() == slots_map(slots@)
                && s.capacity() == Some(slots.len() as nat),
    {
        if slots.len() == 0 {
            None
        } else {
            Some(VectorStorage { size: slots.len() as u64, storage: slots })
        }
    }
}

impl<T: Clone> Storage<T> for VectorStorage<T> {
    closed spec fn contents(&self) -> Map<EntityId, T> {
        slots_map(self.storage@)
    }

    closed spec fn well_formed(&self) -> bool {
        &&& self.storage@.len() == self.size
        &&& self.size > 0
    }

    /// The slots are a `Vec`: twice the id must be a length it can have.
    open spec fn admits(id: EntityId) -> bool {
        id * 2 <= usize::MAX
    }

    closed spec fn capacity(&self) -> Option<nat> {
        Some(self.size as nat)
    }

    open spec fn initial_capacity() -> Option<nat> {
        Some(INITIAL_CAPACITY as nat)
    }

    open spec fn lists_in_order() -> bool {
        true
    }

    fn new() -> (s: Self) {
        let mut storage: Vec<Option<T>> = Vec::new();
        while storage.len() < INITIAL_CAPACITY as usize
            invariant
                storage.len() <= INITIAL_CAPACITY,
                forall|i: int| 0 <= i < storage.len() ==> storage@[i] is None,
            decreases INITIAL_CAPACITY - storage.len(),
        {
            storage.push(None);
        }
        let s = VectorStorage { size: INITIAL_CAPACITY, storage };
        assert(slots_map(s.storage@) =~= Map::<EntityId, T>::empty());
        s
    }

    fn get(&self, id: EntityId) -> (r: Option<&T>) {
        if id >= self.size {
            return None;
        }
        assert(id < self.storage.len()) by {
            assert(self.well_formed());
        }
        let slot = &self.storage[id as usize];
        assert(*slot == self.storage@[id as int]);
        slot.as_ref()
    }

    fn get_mut(&mut self, id: EntityId) -> (r: Option<&mut T>) {
        if id >= self.size {
            return None;
        }
        assert(id < self.storage.len()) by {
            assert(self.well_formed());
        }
        proof {
            assert forall|v: T| #[trigger] slots_map(self.storage@.update(id as int, Some(v)))
                == slots_map(self.storage@).insert(id, v) by {
                lemma_slots_update(self.storage@, id as int, Some(v));
            }
        }
        let slot = &mut self.storage[id as usize];
        slot.as_mut()
    }

    fn get_all(&self) -> (r: Vec<(EntityId, &T)>) {
        let mut all: Vec<(EntityId, &T)> = Vec::new();
        let mut id: usize = 0;
        while id < self.storage.len()
            invariant
                id <= self.storage.len(),
                self.well_formed(),
                lists_exactly(all@, slots_map(self.storage@.take(id as int))),
                forall|i: int| 0 <= i < all.len() ==> all@[i].0 < id,
                ascending_ids(all@),
            decreases self.storage.len() - id,
        {
            let ghost prev = all@;
            proof {
                let s = self.storage@;
                assert(s.take(id + 1) =~= s.take(id as int).push(s[id as int]));
                lemma_slots_push(s.take(id as int), s[id as int]);
            }
            if let Some(c) = &self.storage[id] {
                all.push((id as EntityId, c));
                proof {
                    let m = slots_map(self.storage@.take(id + 1));
                    assert forall|k: EntityId| #[trigger] m.contains_key(k) implies exists|i: int|
                        0 <= i < all.len() && all@[i].0 == k by {
                        if k != id as EntityId {
                            let i = choose|i: int| 0 <= i < prev.len() && prev[i].0 == k;
                            assert(all@[i] == prev[i]);
                        } else {
                            assert(all@[prev.len() as int].0 == k);
                        }
                    }
                }
            }
            id += 1;
        }
        assert(self.storage@.take(id as int) =~= self.storage@);
        all
    }

    fn set(&mut self, id: EntityId, comp: T) {
        assert(self.well_formed());
        if id >= self.size {
            let new_size: u64 = id * 2;
            while self.storage.len() < new_size as usize
                invariant
                    old(self).storage.len() <= self.storage.len() <= new_size,
                    new_size <= usize::MAX,
                    slots_map(self.storage@) == slots_map(old(self).storage@),
                decreases new_size - self.storage.len(),
            {
                proof {
                    lemma_slots_push(self.storage@, None);
                }
                self.storage.push(None);
            }
            self.size = new_size;
        }
        proof {
            lemma_slots_update(self.storage@, id as int, Some(comp));
        }
        self.storage[id as usize] = Some(comp);
    }

    fn remove(&mut self, id: EntityId) {
        assert(self.well_formed());
        if id < self.size {
            assert(id < self.storage.len());
            proof {
                lemma_slots_update(self.storage@, id as int, None);
            }
            self.storage[id as usize] = None;
        } else {
            assert(slots_map(self.storage@).remove(id) =~= slots_map(self.storage@));
        }
    }
}

} // verus!
