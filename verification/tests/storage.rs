use std::any::TypeId;

use evernight::component_storage::ComponentStorage;
use evernight::types::EntityId;

struct Position;
struct Health;

fn pos() -> TypeId {
    TypeId::of::<Position>()
}

fn hp() -> TypeId {
    TypeId::of::<Health>()
}

#[test]
fn storage_insert_get_replace() {
    let mut s: ComponentStorage<i64> = ComponentStorage::new();
    assert!(s.get(EntityId(1), pos()).is_none());
    s.insert(EntityId(1), pos(), 10);
    s.insert(EntityId(1), hp(), 100);
    assert_eq!(s.get(EntityId(1), pos()), Some(&10));
    assert_eq!(s.get(EntityId(1), hp()), Some(&100));
    s.insert(EntityId(1), pos(), 11);
    assert_eq!(s.get(EntityId(1), pos()), Some(&11));
    assert!(s.get(EntityId(2), pos()).is_none());
}

#[test]
fn storage_get_mut_writes_through() {
    let mut s: ComponentStorage<i64> = ComponentStorage::default();
    s.insert(EntityId(4), pos(), 1);
    if let Some(v) = s.get_mut(EntityId(4), pos()) {
        *v = 42;
    }
    assert_eq!(s.get(EntityId(4), pos()), Some(&42));
    assert!(s.get_mut(EntityId(4), hp()).is_none());
}

#[test]
fn storage_remove_returns_component() {
    let mut s: ComponentStorage<i64> = ComponentStorage::new();
    s.insert(EntityId(2), pos(), 5);
    assert_eq!(s.remove(EntityId(2), pos()), Some(5));
    assert_eq!(s.remove(EntityId(2), pos()), None);
    assert!(s.get(EntityId(2), pos()).is_none());
}

#[test]
fn storage_remove_all_drops_every_type() {
    let mut s: ComponentStorage<i64> = ComponentStorage::new();
    s.insert(EntityId(1), pos(), 1);
    s.insert(EntityId(1), hp(), 2);
    s.insert(EntityId(2), pos(), 3);
    s.remove_all(EntityId(1));
    assert!(s.get(EntityId(1), pos()).is_none());
    assert!(s.get(EntityId(1), hp()).is_none());
    assert_eq!(s.get(EntityId(2), pos()), Some(&3));
}

#[test]
fn storage_iterates_in_ascending_entity_order() {
    let mut s: ComponentStorage<i64> = ComponentStorage::new();
    for id in [5u32, 1, 9, 3] {
        s.insert(EntityId(id), pos(), (id * 10) as i64);
    }
    s.insert(EntityId(7), hp(), 0);
    let ids: Vec<u32> = s.iter_ids(pos()).iter().map(|e| e.0).collect();
    assert_eq!(ids, vec![1, 3, 5, 9]);
    let pairs: Vec<(u32, i64)> = s.iter(pos()).iter().map(|(e, c)| (e.0, **c)).collect();
    assert_eq!(pairs, vec![(1, 10), (3, 30), (5, 50), (9, 90)]);
    assert!(s.iter_ids(TypeId::of::<u8>()).is_empty());
}
