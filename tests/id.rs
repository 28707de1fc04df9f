use std::cmp::Ordering;

use gen_id::{Dynamic, Entity, Gen, Id, IdRange, NoGen, RangeIter, Static, Valid};

#[derive(Debug)]
pub struct Dyn;

impl Entity for Dyn {
    type IdType = Dynamic;
}

#[derive(Debug)]
pub struct Stat;

impl Entity for Stat {
    type IdType = Static;
}

fn next(id: Id<Dyn>) -> Id<Dyn> {
    Id::new(id.index_u32(), id.gen().next())
}

fn id_0_0() -> Id<Dyn> {
    Id::new(0, Gen::min())
}

fn id_0_1() -> Id<Dyn> {
    next(id_0_0())
}

fn id_1_0() -> Id<Dyn> {
    Id::new(1, Gen::min())
}

fn id_1_1() -> Id<Dyn> {
    next(id_1_0())
}

#[test]
fn cmp() {
    let id0_0 = Id::<Dyn>::new(0, Gen::min());
    let id1_0 = Id::<Dyn>::new(1, Gen::min());
    let id0_1 = Id::<Dyn>::new(0, Gen::min().next());

    assert!(id0_0 < id1_0);
    assert!(id0_0 < id0_1);
}

#[test]
fn id_eq() {
    assert_eq!(id_0_0(), id_0_0());
    assert_ne!(id_0_0(), id_0_1());
    assert_ne!(id_0_0(), id_1_0());
}

#[test]
fn id_clone() {
    assert_eq!(id_0_0(), id_0_0().clone());
    assert_ne!(id_0_0(), id_0_1().clone());
    assert_ne!(id_0_0(), id_1_0().clone());
}

#[test]
fn id_partial_ord() {
    assert_eq!(Some(Ordering::Equal), id_0_0().partial_cmp(&id_0_0()));
    assert_eq!(Some(Ordering::Less), id_0_0().partial_cmp(&id_0_1()));
    assert_eq!(Some(Ordering::Less), id_0_0().partial_cmp(&id_1_0()));
    assert_eq!(Some(Ordering::Greater), id_1_1().partial_cmp(&id_0_0()));
    assert_eq!(Some(Ordering::Greater), id_1_1().partial_cmp(&id_1_0()));
}

#[test]
fn id_ord() {
    assert_eq!(Ordering::Equal, id_0_0().cmp(&id_0_0()));
    assert_eq!(Ordering::Less, id_0_0().cmp(&id_0_1()));
    assert_eq!(Ordering::Less, id_0_0().cmp(&id_1_0()));
    assert_eq!(Ordering::Greater, id_1_1().cmp(&id_0_0()));
    assert_eq!(Ordering::Greater, id_1_1().cmp(&id_1_0()));
}

#[test]
fn id_index() {
    assert_eq!(0, id_0_0().index());
    assert_eq!(0, id_0_1().index());
    assert_eq!(1, id_1_0().index());
    assert_eq!(1, id_1_1().index());
}

#[test]
fn id_partial_eq_valid_id() {
    let id0 = Id::<Dyn>::new(0, Gen::min());
    let valid0 = Valid::new(id0);

    let id1 = Id::<Dyn>::new(1, Gen::min());
    let valid1 = Valid::new(id1);

    assert_eq!(id0, valid0);
    assert_eq!(valid0, id0);
    assert_ne!(id0, valid1);
    assert_ne!(valid0, id1);
}

#[test]
fn id_range_eq() {
    let range = IdRange::<Stat>::new(1, 2);
    let lower = IdRange::<Stat>::new(0, 2);
    let higher = IdRange::<Stat>::new(1, 3);

    assert_eq!(range, range);
    assert_ne!(range, lower);
    assert_ne!(range, higher);
}

#[test]
fn id_range_clone() {
    let range = IdRange::<Stat>::new(1, 2);
    let lower = IdRange::<Stat>::new(0, 2);
    let higher = IdRange::<Stat>::new(1, 3);

    assert_eq!(range, range.clone());
    assert_ne!(range, lower.clone());
    assert_ne!(range, higher.clone());
}

#[test]
fn id_range_is_empty() {
    assert!(IdRange::<Stat>::new(0, 0).is_empty());
    assert!(!IdRange::<Stat>::new(0, 1).is_empty());
}

#[test]
fn id_range_len() {
    assert_eq!(0, IdRange::<Stat>::new(0, 0).len());
    assert_eq!(1, IdRange::<Stat>::new(0, 1).len());
    assert_eq!(0, IdRange::<Stat>::new(3, 1).len());
}

#[test]
fn id_range_contains() {
    let id0 = Id::<Stat>::new(0, NoGen);
    assert!(!IdRange::<Stat>::new(0, 0).contains(id0));
    assert!(IdRange::<Stat>::new(0, 1).contains(id0));
}

#[test]
fn id_range_from() {
    let id = Id::<Stat>::new(2, NoGen);
    let range = IdRange::<Stat>::new(2, 3);

    assert_eq!(IdRange::from(id), range);
}

#[test]
fn range_iter() {
    let mut iter = RangeIter::<Stat>::new(0..1);

    assert_eq!(Some(Id::new(0, NoGen)), iter.next());
    assert_eq!(None, iter.next());
}

#[test]
fn range_iter_back() {
    let mut iter = RangeIter::<Stat>::new(0..2);

    assert_eq!(Some(Id::new(1, NoGen)), iter.next_back());
    assert_eq!(Some(Id::new(0, NoGen)), iter.next_back());
    assert_eq!(None, iter.next());
}

#[test]
fn range_size_hint() {
    let iter = RangeIter::<Stat>::new(0..1);
    assert_eq!(iter.size_hint(), (0..1).size_hint());
}

#[test]
fn range_from_range_inclusive_ids() {
    let id1 = Id::<Stat>::new(1, NoGen);
    let id2 = Id::<Stat>::new(2, NoGen);
    let range = IdRange::from_inclusive(id1, id2);
    assert_eq!(range.len(), 2);
    assert!(range.contains(id1));
    assert!(range.contains(id2));
}

#[test]
fn id_range_bounds_as_usize() {
    let range = IdRange::<Stat>::new(1, 3);
    assert_eq!(range.range_usize(), 1..3);
    assert_eq!(range.start(), 1);
    assert_eq!(range.end(), 3);
}

#[test]
fn range_iter_clone_walks_independently() {
    let mut iter = RangeIter::<Stat>::new(0..2);
    let mut copy = iter.clone();
    assert_eq!(Some(Id::new(0, NoGen)), iter.next());
    assert_eq!(Some(Id::new(0, NoGen)), copy.next());
    assert_eq!(Some(Id::new(1, NoGen)), copy.next());
    assert_eq!(Some(Id::new(1, NoGen)), iter.next());
}
