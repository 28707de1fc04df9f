use gen_id::{Entity, Id, IdRange, NoGen, RangeRelation, RangeRelations, Static};

#[derive(Debug)]
pub struct Stat;

impl Entity for Stat {
    type IdType = Static;
}

#[test]
fn range_relation_parent_of() {
    let range = IdRange::<Stat>::new(0, 1);
    let relation = RangeRelation::ParentOf(range);
    assert!(relation.is_parent());
    assert!(!relation.is_child());
    assert_eq!(Some(range), relation.parent_of());
    assert!(relation.child_of().is_none());
}

#[test]
fn range_relation_child_of() {
    let id = Id::<Stat>::new(0, NoGen);
    let relation = RangeRelation::ChildOf(id);
    assert!(!relation.is_parent());
    assert!(relation.is_child());
    assert!(relation.parent_of().is_none());
    assert_eq!(Some(id), relation.child_of());
}

#[test]
fn get_children_for_new_parent_returns_empty_vec() {
    let mut graph = RangeRelations::<Stat>::default();
    let parent = Id::<Stat>::new(0, NoGen);

    graph.link(parent, IdRange::default());

    assert_eq!(graph.get(parent), Some(&RangeRelation::ParentOf(IdRange::default())));
}

#[test]
fn link_child_to_parent() {
    let mut graph = RangeRelations::<Stat>::default();

    let id0 = Id::new(0, NoGen);
    let id1 = Id::new(1, NoGen);

    graph.link(id0, IdRange::from(id1));

    assert_eq!(graph.get(id0), Some(&RangeRelation::ParentOf(IdRange::from(id1))));
    assert_eq!(graph.get(id1), Some(&RangeRelation::ChildOf(id0)));
}

#[test]
fn range_children_follow_in_order() {
    let mut graph = RangeRelations::<Stat>::default();
    let first_parent = Id::<Stat>::new(0, NoGen);
    graph.link(first_parent, IdRange::new(1, 4));
    let second_parent = Id::<Stat>::new(4, NoGen);
    graph.link(second_parent, IdRange::new(5, 6));

    let children = graph.get(first_parent).unwrap().parent_of().unwrap();
    let mut iter = children.into_iter();
    assert_eq!(iter.next(), Some(Id::new(1, NoGen)));
    assert_eq!(iter.next(), Some(Id::new(2, NoGen)));
    assert_eq!(iter.next(), Some(Id::new(3, NoGen)));
    assert_eq!(iter.next(), None);

    for i in 1..4 {
        assert_eq!(graph.get(Id::<Stat>::new(i, NoGen)), Some(&RangeRelation::ChildOf(first_parent)));
    }
    assert_eq!(graph.get(Id::<Stat>::new(5, NoGen)), Some(&RangeRelation::ChildOf(second_parent)));

    let all: Vec<Id<Stat>> = (0..7).map(|i| Id::new(i, NoGen)).collect();
    assert_eq!(graph.parents(&all), vec![first_parent, second_parent]);
}

#[test]
fn append_extends_run_in_order() {
    let mut graph = RangeRelations::<Stat>::default();
    let p = Id::<Stat>::new(0, NoGen);
    let c1 = Id::<Stat>::new(1, NoGen);
    let c2 = Id::<Stat>::new(2, NoGen);

    graph.link(p, IdRange::from(c1));
    graph.append(p, c2);

    assert_eq!(graph.get(p), Some(&RangeRelation::ParentOf(IdRange::new(1, 3))));
    assert_eq!(graph.get(c2), Some(&RangeRelation::ChildOf(p)));
    let mut iter = graph.get(p).unwrap().parent_of().unwrap().into_iter();
    assert_eq!(iter.next(), Some(c1));
    assert_eq!(iter.next(), Some(c2));
    assert_eq!(iter.next(), None);
}

#[test]
fn id_range_append() {
    let mut range = IdRange::<Stat>::new(2, 4);
    range.append(Id::new(4, NoGen));
    assert_eq!(range, IdRange::new(2, 5));
    assert_eq!(range.len(), 3);
}
