use gen_id::{Allocator, Dynamic, Entity, IdMap, ValidId};

#[derive(Debug)]
pub struct Dyn;

impl Entity for Dyn {
    type IdType = Dynamic;
}

#[test]
fn validate_when_in_sync() {
    let mut a = Allocator::<Dyn>::default();
    let mut map = IdMap::<Dyn, ()>::default();

    let id = a.create();
    map.insert(id, ());

    map.kill(id);
    let id = id.value;
    a.kill(id);

    map.validate(&a);
}

#[test]
fn validate_mut_when_in_sync() {
    let mut a = Allocator::<Dyn>::default();
    let mut map = IdMap::<Dyn, ()>::default();

    let id = a.create();
    map.insert(id, ());

    map.kill(id);
    let id = id.value;
    a.kill(id);

    map.validate_mut(&a);
}

#[test]
fn id_map_is_synchronized_only_after_kill() {
    let mut a = Allocator::<Dyn>::default();
    let mut map = IdMap::<Dyn, u32>::default();

    let id = a.create().id();
    map.insert(a.validate(id).unwrap(), 4);
    assert!(map.is_synchronized(&a));

    a.kill(id);
    assert!(!map.is_synchronized(&a));

    assert_eq!(map.kill(a.create()), None);
    assert!(!map.is_synchronized(&a));
}

#[test]
fn id_map_insert_get_remove() {
    let mut a = Allocator::<Dyn>::default();
    let mut map = IdMap::<Dyn, u32>::default();
    let id0 = a.create().id();
    let id1 = a.create().id();
    let id0 = a.validate(id0).unwrap();
    let id1 = a.validate(id1).unwrap();

    assert_eq!(map.insert(id0, 10), None);
    assert_eq!(map.insert(id1, 11), None);
    assert_eq!(map.insert(id0, 12), Some(10));
    assert_eq!(map.len(), 2);
    assert_eq!(map.get(id0), Some(&12));
    assert_eq!(map.remove(id0), Some(12));
    assert_eq!(map.get(id0), None);
    assert_eq!(map.len(), 1);
    assert!(!map.is_empty());
}

#[test]
fn id_map_kill_many_replays_batch() {
    let mut a = Allocator::<Dyn>::default();
    let mut map = IdMap::<Dyn, u32>::default();
    let id0 = a.create().id();
    let id1 = a.create().id();
    let id2 = a.create().id();
    map.insert(a.validate(id0).unwrap(), 0);
    map.insert(a.validate(id1).unwrap(), 1);
    map.insert(a.validate(id2).unwrap(), 2);

    let mut doomed = vec![id2, id0, id2];
    let killed = a.kill_many(&mut doomed);
    map.kill_many(&killed);

    assert!(map.is_synchronized(&a));
    assert_eq!(map.len(), 1);
    assert_eq!(map.get(a.validate(id1).unwrap()), Some(&1));
}

#[test]
fn id_map_keys_distinguish_generations() {
    let mut a = Allocator::<Dyn>::default();
    let mut map = IdMap::<Dyn, u32>::default();
    let old = a.create().id();
    map.insert(a.validate(old).unwrap(), 1);
    map.kill(a.validate(old).unwrap());
    a.kill(old);
    let new = a.create();

    assert_eq!(new.value.index(), old.index());
    assert_eq!(map.get(new), None);
    map.insert(new, 2);
    assert_eq!(map.get(new), Some(&2));
    assert!(map.is_synchronized(&a));
}

#[test]
fn id_map_get_mut_changes_value() {
    let mut a = Allocator::<Dyn>::default();
    let mut map = IdMap::<Dyn, u32>::default();
    let id0 = a.create().id();
    let id1 = a.create().id();
    let v0 = a.validate(id0).unwrap();
    let v1 = a.validate(id1).unwrap();
    map.insert(v0, 3);

    *map.get_mut(v0).unwrap() += 4;
    assert_eq!(map.get(v0), Some(&7));
    assert_eq!(map.get_mut(v1), None);
    assert_eq!(map.len(), 1);
}

#[test]
fn id_map_ids_lists_each_handle_once() {
    let mut a = Allocator::<Dyn>::default();
    let mut map = IdMap::<Dyn, u32>::default();
    let id0 = a.create().id();
    let id1 = a.create().id();
    let id2 = a.create().id();
    map.insert(a.validate(id0).unwrap(), 0);
    map.insert(a.validate(id2).unwrap(), 2);
    map.insert(a.validate(id2).unwrap(), 3);

    let mut ids = map.ids();
    ids.sort_by(|x, y| x.cmp(y));
    assert_eq!(ids, vec![id0, id2]);
    assert!(!ids.contains(&id1));
}
