use spawning_pool::pool::SpawningPool;
use spawning_pool::storage::{HashMapStorage, Storage, VectorStorage};

#[derive(Clone, Debug, PartialEq)]
struct Tag {
    pub n: u32,
}

#[derive(Clone, Debug, PartialEq)]
struct Health {
    pub hp: i64,
}

#[test]
fn spawn_counts_up_from_one() {
    let mut pool = SpawningPool::new();
    for expected in 1u64..=20 {
        assert_eq!(pool.spawn_entity(), expected);
    }
}

#[test]
fn dense_growth_past_initial_capacity() {
    let mut store: VectorStorage<Tag> = VectorStorage::new();
    assert_eq!(store.size(), 100);
    store.set(250, Tag { n: 7 });
    assert_eq!(store.size(), 500);
    assert!(store.size() >= 251);
    assert_eq!(store.get(250), Some(&Tag { n: 7 }));
    assert!(store.get(50).is_none());
}

#[test]
fn dense_set_below_capacity_keeps_size() {
    let mut store: VectorStorage<Tag> = VectorStorage::new();
    store.set(99, Tag { n: 1 });
    assert_eq!(store.size(), 100);
    store.set(100, Tag { n: 2 });
    assert_eq!(store.size(), 200);
    assert_eq!(store.get(99), Some(&Tag { n: 1 }));
    assert_eq!(store.get(100), Some(&Tag { n: 2 }));
}

#[test]
fn dense_out_of_range_is_absent() {
    let mut store: VectorStorage<Tag> = VectorStorage::new();
    assert!(store.get(100).is_none());
    assert!(store.get(u64::MAX).is_none());
    assert!(store.get_mut(1000).is_none());
    store.remove(5000);
    assert_eq!(store.size(), 100);
    assert!(store.get_all().is_empty());
}

#[test]
fn set_then_get_both_backends() {
    let mut dense: VectorStorage<Tag> = VectorStorage::new();
    let mut sparse: HashMapStorage<Tag> = HashMapStorage::new();
    for id in [0u64, 1, 99, 100, 1234] {
        dense.set(id, Tag { n: id as u32 });
        sparse.set(id, Tag { n: id as u32 });
        assert_eq!(dense.get(id), Some(&Tag { n: id as u32 }));
        assert_eq!(sparse.get(id), Some(&Tag { n: id as u32 }));
    }
    sparse.set(u64::MAX, Tag { n: 3 });
    assert_eq!(sparse.get(u64::MAX), Some(&Tag { n: 3 }));
}

#[test]
fn set_overwrites() {
    let mut dense: VectorStorage<Tag> = VectorStorage::new();
    let mut sparse: HashMapStorage<Tag> = HashMapStorage::new();
    dense.set(3, Tag { n: 1 });
    dense.set(3, Tag { n: 2 });
    sparse.set(3, Tag { n: 1 });
    sparse.set(3, Tag { n: 2 });
    assert_eq!(dense.get(3), Some(&Tag { n: 2 }));
    assert_eq!(sparse.get(3), Some(&Tag { n: 2 }));
    assert_eq!(dense.get_all().len(), 1);
    assert_eq!(sparse.get_all().len(), 1);
}

#[test]
fn never_set_is_absent() {
    let mut dense: VectorStorage<Tag> = VectorStorage::new();
    let mut sparse: HashMapStorage<Tag> = HashMapStorage::new();
    dense.set(4, Tag { n: 4 });
    sparse.set(4, Tag { n: 4 });
    assert!(dense.get(5).is_none());
    assert!(sparse.get(5).is_none());
    assert!(sparse.get_mut(5).is_none());
}

#[test]
fn remove_then_get_both_backends() {
    let mut dense: VectorStorage<Tag> = VectorStorage::new();
    let mut sparse: HashMapStorage<Tag> = HashMapStorage::new();
    dense.set(300, Tag { n: 1 });
    sparse.set(300, Tag { n: 1 });
    dense.remove(300);
    sparse.remove(300);
    assert!(dense.get(300).is_none());
    assert!(sparse.get(300).is_none());
    sparse.remove(300);
    assert!(sparse.get_all().is_empty());
}

#[test]
fn dense_get_all_ascending() {
    let mut dense: VectorStorage<Tag> = VectorStorage::new();
    dense.set(40, Tag { n: 40 });
    dense.set(2, Tag { n: 2 });
    dense.set(17, Tag { n: 17 });
    let all = dense.get_all();
    let ids: Vec<u64> = all.iter().map(|(id, _)| *id).collect();
    assert_eq!(ids, vec![2, 17, 40]);
    assert_eq!(*all[1].1, Tag { n: 17 });
}

#[test]
fn sparse_get_all_lists_every_entry() {
    let mut sparse: HashMapStorage<Tag> = HashMapStorage::new();
    sparse.set(9, Tag { n: 9 });
    sparse.set(1, Tag { n: 1 });
    sparse.set(500, Tag { n: 500 });
    let mut ids: Vec<u64> = sparse.get_all().iter().map(|(id, c)| {
        assert_eq!(c.n as u64, *id);
        *id
    }).collect();
    ids.sort();
    assert_eq!(ids, vec![1, 9, 500]);
}

#[test]
fn removed_entity_hidden_everywhere() {
    let mut pool = SpawningPool::new();
    let mut tags: VectorStorage<Tag> = VectorStorage::new();
    let mut health: HashMapStorage<Health> = HashMapStorage::new();
    let a = pool.spawn_entity();
    let b = pool.spawn_entity();
    pool.set(&mut tags, a, Tag { n: 1 });
    pool.set(&mut tags, b, Tag { n: 2 });
    pool.set(&mut health, a, Health { hp: 10 });
    pool.remove_entity(a);
    assert!(pool.is_removed(a));
    assert!(!pool.is_removed(b));
    assert!(pool.get(&tags, a).is_none());
    assert!(pool.get(&health, a).is_none());
    assert!(pool.get_mut(&mut health, a).is_none());
    pool.set(&mut health, a, Health { hp: 99 });
    assert_eq!(pool.force_get(&health, a), Some(&Health { hp: 10 }));
    pool.remove(&mut tags, a);
    assert_eq!(pool.force_get(&tags, a), Some(&Tag { n: 1 }));
    let all = pool.get_all(&tags);
    assert_eq!(all.len(), 1);
    assert_eq!(all[0].0, b);
    assert!(pool.get_all(&health).is_empty());
}

#[test]
fn remove_entity_is_idempotent() {
    let mut pool = SpawningPool::new();
    let a = pool.spawn_entity();
    pool.remove_entity(a);
    pool.remove_entity(a);
    pool.remove_entity(77);
    assert!(pool.is_removed(a));
    assert!(pool.is_removed(77));
    assert_eq!(pool.spawn_entity(), 2);
}

#[test]
fn cleanup_purges_every_backend() {
    let mut pool = SpawningPool::new();
    let mut tags: VectorStorage<Tag> = VectorStorage::new();
    let mut health: HashMapStorage<Health> = HashMapStorage::new();
    let a = pool.spawn_entity();
    let b = pool.spawn_entity();
    pool.set(&mut tags, a, Tag { n: 1 });
    pool.set(&mut tags, b, Tag { n: 2 });
    pool.set(&mut health, b, Health { hp: 5 });
    pool.remove_entity(a);
    pool.remove_entity(b);
    pool.purge(&mut tags);
    pool.purge(&mut health);
    pool.cleanup_removed();
    assert!(!pool.is_removed(a));
    assert!(!pool.is_removed(b));
    assert!(pool.force_get(&tags, a).is_none());
    assert!(pool.force_get(&tags, b).is_none());
    assert!(pool.force_get(&health, b).is_none());
    assert!(pool.get_all(&tags).is_empty());
    assert_eq!(pool.spawn_entity(), 3);
}

#[test]
fn multi_type_entity() {
    let mut pool = SpawningPool::new();
    let mut tags: HashMapStorage<Tag> = HashMapStorage::new();
    let health: VectorStorage<Health> = VectorStorage::new();
    let e = pool.spawn_entity();
    pool.set(&mut tags, e, Tag { n: 8 });
    assert_eq!(pool.get(&tags, e), Some(&Tag { n: 8 }));
    assert!(pool.get(&health, e).is_none());
    pool.remove_entity(e);
    assert!(pool.get(&tags, e).is_none());
    assert!(pool.get(&health, e).is_none());
}

#[test]
fn dense_from_slots() {
    assert!(VectorStorage::<Tag>::from_slots(vec![]).is_none());
    let store = VectorStorage::from_slots(vec![None, Some(Tag { n: 1 }), None]).unwrap();
    assert_eq!(store.size(), 3);
    assert!(store.get(0).is_none());
    assert_eq!(store.get(1), Some(&Tag { n: 1 }));
    assert!(store.get(3).is_none());
}

#[test]
fn pool_from_parts_round_trip() {
    let pool = SpawningPool::from_parts(42, &vec![3, 7, 3]);
    assert_eq!(pool.upcoming_id(), 42);
    assert!(pool.is_removed(3));
    assert!(pool.is_removed(7));
    assert!(!pool.is_removed(4));
    let mut removed = pool.removed_entities();
    removed.sort();
    assert_eq!(removed, vec![3, 7]);
}
