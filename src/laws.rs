//! Laws that relate the operations of the backends and of the pool.
use vstd::prelude::*;

use crate::EntityId;
use crate::pool::{SpawningPool, entry_of, lookup, spawned, stored_after_remove, stored_after_set, visible};
use crate::storage::{Storage, lists_exactly};

verus! {

/// From a new pool, successive spawns return 1, 2, 3, ...: each id one more
/// than the one before, so no id comes twice.
pub proof fn law_spawn_ids_count_up(states: Seq<SpawningPool>, ids: Seq<EntityId>)
    requires
        states.len() == ids.len() + 1,
        states[0].next_id() == 1,
        forall|k: int| 0 <= k < ids.len() ==> spawned(#[trigger] states[k], states[k + 1], ids[k]),
    ensures
        forall|k: int| 0 <= k < ids.len() ==> #[trigger] ids[k] == k + 1,
        forall|j: int, k: int| 0 <= j < k < ids.len() ==> ids[j] < ids[k],
{
    assert forall|k: int| 0 <= k < ids.len() implies #[trigger] ids[k] == k + 1 by {
        lemma_counter_after(states, ids, k);
        assert(spawned(states[k], states[k + 1], ids[k]));
    }
}

proof fn lemma_counter_after(states: Seq<SpawningPool>, ids: Seq<EntityId>, k: int)
    requires
        states.len() == ids.len() + 1,
        states[0].next_id() == 1,
        forall|k: int| 0 <= k < ids.len() ==> spawned(#[trigger] states[k], states[k + 1], ids[k]),
        0 <= k <= ids.len(),
    ensures
        states[k].next_id() == k + 1,
    decreases k,
{
    if k > 0 {
        let j = k - 1;
        lemma_counter_after(states, ids, j);
        assert(spawned(states[j], states[j + 1], ids[j]));
    }
}

/// A `set` of `v` for `id` is what a `get` of `id` then returns, on either
/// backend and for any id it admits.
pub proof fn law_set_then_get<T: Clone, S: Storage<T>>(before: S, after: S, id: EntityId, v: T)
    requires
        after.contents() == before.contents().insert(id, v),
    ensures
        entry_of(after.contents(), id) == Some(v),
{
}

/// On a new backend followed by `set` calls for other ids only, `id` stays
/// absent.
pub proof fn law_unset_id_absent<T: Clone, S: Storage<T>>(
    states: Seq<S>,
    ids: Seq<EntityId>,
    vals: Seq<T>,
    id: EntityId,
)
    requires
        states.len() == ids.len() + 1,
        vals.len() == ids.len(),
        states[0].contents() == Map::<EntityId, T>::empty(),
        forall|k: int| 0 <= k < ids.len() ==> (#[trigger] states[k + 1]).contents() == states[k].contents().insert(ids[k], vals[k]),
        forall|k: int| 0 <= k < ids.len() ==> #[trigger] ids[k] != id,
    ensures
        entry_of(states[ids.len() as int].contents(), id) is None,
{
    lemma_absent_after(states, ids, vals, id, ids.len() as int);
}

proof fn lemma_absent_after<T: Clone, S: Storage<T>>(
    states: Seq<S>,
    ids: Seq<EntityId>,
    vals: Seq<T>,
    id: EntityId,
    n: int,
)
    requires
        states.len() == ids.len() + 1,
        vals.len() == ids.len(),
        states[0].contents() == Map::<EntityId, T>::empty(),
        forall|k: int| 0 <= k < ids.len() ==> (#[trigger] states[k + 1]).contents() == states[k].contents().insert(ids[k], vals[k]),
        forall|k: int| 0 <= k < ids.len() ==> #[trigger] ids[k] != id,
        0 <= n <= ids.len(),
    ensures
        !states[n].contents().contains_key(id),
    decreases n,
{
    if n > 0 {
        lemma_absent_after(states, ids, vals, id, n - 1);
        let k = n - 1;
        assert(states[k + 1].contents() == states[k].contents().insert(ids[k], vals[k]));
        assert(ids[k] != id);
    }
}

/// After a `remove` of `id`, a `get` of `id` finds nothing, on either backend.
pub proof fn law_remove_then_get<T: Clone, S: Storage<T>>(before: S, after: S, id: EntityId)
    requires
        after.contents() == before.contents().remove(id),
    ensures
        entry_of(after.contents(), id) is None,
{
}

/// Once `remove_entity(id)` has run, the pool's `get`, `get_mut` and
/// `get_all` no longer see `id` in any backend and its `set` and `remove`
/// leave the backend as it was, while `force_get` still finds what the
/// backend holds for `id`.
pub proof fn law_removed_entity_hidden<T>(
    before: SpawningPool,
    after: SpawningPool,
    m: Map<EntityId, T>,
    id: EntityId,
    v: T,
)
    requires
        after.removed_ids() == before.removed_ids().insert(id),
    ensures
        lookup(after.removed_ids(), m, id) is None,
        stored_after_set(after.removed_ids(), m, id, v) == m,
        stored_after_remove(after.removed_ids(), m, id) == m,
        !visible(after.removed_ids(), m).contains_key(id),
        m.contains_key(id) ==> entry_of(m, id) == Some(m[id]),
{
}

/// Purging a backend and then calling `cleanup_removed` leaves nothing in
/// that backend for any entity that was marked removed, and no entity marked.
pub proof fn law_cleanup_purges<T>(
    pool: SpawningPool,
    cleaned: SpawningPool,
    before: Map<EntityId, T>,
    after: Map<EntityId, T>,
)
    requires
        after == before.remove_keys(pool.removed_ids()),
        cleaned.removed_ids() == Set::<EntityId>::empty(),
    ensures
        forall|id: EntityId| #[trigger] pool.removed_ids().contains(id) ==> entry_of(after, id) is None,
        cleaned.removed_ids().is_empty(),
{
}

/// `get_all` through the pool lists no entity marked removed.
pub proof fn law_get_all_hides_removed<T>(
    r: Seq<(EntityId, &T)>,
    removed: Set<EntityId>,
    m: Map<EntityId, T>,
)
    requires
        lists_exactly(r, visible(removed, m)),
    ensures
        forall|i: int| 0 <= i < r.len() ==> !removed.contains(#[trigger] r[i].0),
{
}

} // verus!
