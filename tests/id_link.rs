use gen_id::{Allocator, Dynamic, Entity, Id, IdLink, NoGen, Static, ValidId};

#[derive(Debug)]
pub struct Row;

impl Entity for Row {
    type IdType = Static;
}

#[derive(Debug)]
pub struct Target;

impl Entity for Target {
    type IdType = Dynamic;
}

fn row(i: u32) -> Id<Row> {
    Id::new(i, NoGen)
}

#[test]
fn id_link_insert_get_remove() {
    let mut targets = Allocator::<Target>::default();
    let mut link = IdLink::<Row, Target>::default();
    let t = targets.create().id();

    link.insert(row(0), Some(targets.validate(t).unwrap()));
    link.insert(row(1), None::<gen_id::Valid<Id<Target>>>);
    assert_eq!(link.get(row(0)), Some(t));
    assert_eq!(link.get(row(1)), None);
    assert_eq!(link.get(row(2)), None);

    link.remove(row(0));
    assert_eq!(link.get(row(0)), None);
}

#[test]
fn id_link_kill_clears_links() {
    let mut targets = Allocator::<Target>::default();
    let mut link = IdLink::<Row, Target>::default();
    let t0 = targets.create().id();
    let t1 = targets.create().id();
    link.insert(row(0), Some(targets.validate(t0).unwrap()));
    link.insert(row(1), Some(targets.validate(t1).unwrap()));
    link.insert(row(2), Some(targets.validate(t0).unwrap()));

    link.kill(t0);
    targets.kill(t0);

    assert!(link.is_synchronized(&targets));
    assert_eq!(link.get(row(0)), None);
    assert_eq!(link.get(row(1)), Some(t1));
    assert_eq!(link.get(row(2)), None);
}

#[test]
fn id_link_validate_drops_dead_links() {
    let mut targets = Allocator::<Target>::default();
    let mut link = IdLink::<Row, Target>::default();
    let t0 = targets.create().id();
    let t1 = targets.create().id();
    link.insert(row(0), Some(targets.validate(t0).unwrap()));
    link.insert(row(1), Some(targets.validate(t1).unwrap()));

    // the link store is not told of this kill
    targets.kill(t1);
    assert!(!link.is_synchronized(&targets));

    let valid = link.validate(&targets);
    assert_eq!(valid.value.get(row(0)), Some(t0));
    assert_eq!(valid.value.get(row(1)), None);
    assert!(link.is_synchronized(&targets));
}

#[test]
fn id_link_validate_mut_drops_dead_links() {
    let mut targets = Allocator::<Target>::default();
    let mut link = IdLink::<Row, Target>::default();
    let t0 = targets.create().id();
    link.insert(row(0), Some(targets.validate(t0).unwrap()));
    targets.kill(t0);

    let valid = link.validate_mut(&targets);
    valid.value.insert(row(1), None::<gen_id::Valid<Id<Target>>>);
    assert_eq!(link.get(row(0)), None);
    assert!(link.is_synchronized(&targets));
}
