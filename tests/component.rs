use gen_id::{Component, Entity, Id, IdRange, NoGen, RawComponent, Static};
use rayon::prelude::{IntoParallelRefIterator, ParallelIterator};

#[derive(Debug)]
pub struct Stat;

impl Entity for Stat {
    type IdType = Static;
}

fn sid(i: u32) -> Id<Stat> {
    Id::new(i, NoGen)
}

#[test]
fn raw_component_clone() {
    let comp = RawComponent::<Stat, u32>::from_vec(vec![1, 2, 3]);
    let clone = comp.clone();
    assert_eq!(comp, clone);
}

#[test]
fn raw_component_partial_eq() {
    let comp = RawComponent::<Stat, u32>::from_vec(vec![1, 2, 3]);
    let other = RawComponent::<Stat, u32>::from_vec(vec![1, 1, 1]);
    assert_eq!(comp, comp);
    assert_ne!(comp, other);
}

#[test]
fn raw_component_insert_next() {
    let mut comp = RawComponent::<Stat, u32>::default();
    comp.insert(sid(0), 1);
    assert_eq!(RawComponent::from_vec(vec![1]), comp);
}

#[test]
fn raw_component_insert_with_skipped() {
    let mut comp = RawComponent::<Stat, u32>::default();
    comp.insert_with(sid(1), 1, || 0);
    assert_eq!(RawComponent::from_vec(vec![0, 1]), comp);
}

#[test]
fn raw_component_insert_overwrites() {
    let mut comp = RawComponent::<Stat, u32>::from_vec(vec![1, 2, 3]);
    comp.insert(sid(1), 9);
    comp.insert_with(sid(2), 8, || 0);
    assert_eq!(RawComponent::from_vec(vec![1, 9, 8]), comp);
}

#[test]
fn raw_component_len() {
    let mut comp = RawComponent::<Stat, u32>::default();
    assert_eq!(0, comp.len());
    comp.insert(sid(0), 1);
    assert_eq!(1, comp.len());
}

#[test]
fn raw_component_is_empty() {
    let mut comp = RawComponent::<Stat, u32>::default();
    assert!(comp.is_empty());
    comp.insert(sid(0), 1);
    assert!(!comp.is_empty());
}

#[test]
fn raw_component_get_none() {
    let comp = RawComponent::<Stat, u32>::default();
    let id0 = sid(0);
    assert_eq!(None, comp.get(id0));
}

#[test]
fn raw_component_get() {
    let comp = RawComponent::<Stat, u32>::from_vec(vec![1]);
    let id0 = sid(0);
    assert_eq!(Some(&1), comp.get(id0));
}

#[test]
fn raw_component_get_mut_none() {
    let mut comp = RawComponent::<Stat, u32>::default();
    let id0 = sid(0);
    assert_eq!(None, comp.get_mut(id0));
}

#[test]
fn raw_component_get_mut() {
    let mut comp = RawComponent::<Stat, u32>::from_vec(vec![1]);
    let id0 = sid(0);
    assert_eq!(Some(&mut 1), comp.get_mut(id0));
}

#[test]
fn raw_component_fill_with() {
    let mut comp = RawComponent::<Stat, u32>::from_vec(vec![1, 2, 3]);
    comp.fill_with(|| 0);
    assert_eq!(RawComponent::from_vec(vec![0, 0, 0]), comp);
}

#[test]
fn raw_component_index() {
    let comp = RawComponent::<Stat, u32>::from_vec(vec![1, 2, 3]);
    let id1 = sid(1);
    assert_eq!(2, *comp.get(id1).unwrap());
}

#[test]
fn raw_component_index_mut() {
    let mut comp = RawComponent::<Stat, u32>::from_vec(vec![1, 2, 3]);
    let id1 = sid(1);
    *comp.get_mut(id1).unwrap() = 7;
    assert_eq!(7, *comp.get(id1).unwrap());
}

#[test]
fn raw_component_index_id_range() {
    let comp = RawComponent::<Stat, u32>::from_vec(vec![1, 2, 3]);
    let range = IdRange::<Stat>::new(1, 3);
    assert_eq!(&[2, 3], &comp.as_slice()[range.range_usize()]);
}

#[test]
fn component_clone() {
    let comp = Component::<Stat, u32>::from_vec(vec![1, 2, 3]);
    let clone = comp.clone();
    assert_eq!(comp, clone);
}

#[test]
fn component_partial_eq() {
    let comp = Component::<Stat, u32>::from_vec(vec![1, 2, 3]);
    let other = Component::<Stat, u32>::from_vec(vec![1, 1, 1]);
    assert_eq!(comp, comp);
    assert_ne!(comp, other);
}

#[test]
fn component_insert_next() {
    let mut comp = Component::<Stat, u32>::default();
    comp.insert(sid(0), 1);
    assert_eq!(Component::from_vec(vec![1]), comp);
}

#[test]
fn component_insert_with_skipped() {
    let mut comp = Component::<Stat, u32>::default();
    comp.insert_with(sid(1), 1, || 0);
    assert_eq!(Component::from_vec(vec![0, 1]), comp);
}

#[test]
fn component_len() {
    let mut comp = Component::<Stat, u32>::default();
    assert_eq!(0, comp.len());
    comp.insert(sid(0), 1);
    assert_eq!(1, comp.len());
}

#[test]
fn component_is_empty() {
    let mut comp = Component::<Stat, u32>::default();
    assert!(comp.is_empty());
    comp.insert(sid(0), 1);
    assert!(!comp.is_empty());
}

#[test]
fn component_get_none() {
    let comp = Component::<Stat, u32>::default();
    let id0 = sid(0);
    assert_eq!(None, comp.get(id0));
}

#[test]
fn component_get() {
    let comp = Component::<Stat, u32>::from_vec(vec![1]);
    let id0 = sid(0);
    assert_eq!(Some(&1), comp.get(id0));
}

#[test]
fn component_get_mut_none() {
    let mut comp = Component::<Stat, u32>::default();
    let id0 = sid(0);
    assert_eq!(None, comp.get_mut(id0));
}

#[test]
fn component_get_mut() {
    let mut comp = Component::<Stat, u32>::from_vec(vec![1]);
    let id0 = sid(0);
    assert_eq!(Some(&mut 1), comp.get_mut(id0));
}

#[test]
fn component_fill_with() {
    let mut comp = Component::<Stat, u32>::from_vec(vec![1, 2, 3]);
    comp.fill_with(|| 0);
    assert_eq!(Component::from_vec(vec![0, 0, 0]), comp);
}

#[test]
fn component_index() {
    let comp = Component::<Stat, u32>::from_vec(vec![1, 2, 3]);
    let id1 = sid(1);
    assert_eq!(2, *comp.get(id1).unwrap());
}

#[test]
fn component_index_mut() {
    let mut comp = Component::<Stat, u32>::from_vec(vec![1, 2, 3]);
    let id1 = sid(1);
    *comp.get_mut(id1).unwrap() = 7;
    assert_eq!(7, *comp.get(id1).unwrap());
}

#[test]
fn component_index_id_range() {
    let comp = Component::<Stat, u32>::from_vec(vec![1, 2, 3]);
    let range = IdRange::<Stat>::new(1, 3);
    assert_eq!(&[2, 3], &comp.as_slice()[range.range_usize()]);
}

#[test]
fn component_insert_at_next_index_grows_by_one() {
    let mut comp = Component::<Stat, u32>::from_vec(vec![5, 6]);
    comp.insert(sid(2), 7);
    assert_eq!(3, comp.len());
    assert_eq!(Some(&7), comp.get(sid(2)));
    assert_eq!(Some(&5), comp.get(sid(0)));
}

#[test]
fn raw_component_assign() {
    let mut comp = RawComponent::<Stat, u32>::from_vec(vec![0; 3]);
    let m = RawComponent::<Stat, u32>::from_vec(vec![1, 2, 3]);

    comp.assign(m.clone());

    assert_eq!(comp, m);
}

#[test]
fn component_assign() {
    let mut comp = Component::<Stat, u32>::from_vec(vec![0; 3]);
    let m = Component::<Stat, u32>::from_vec(vec![1, 2, 3]);

    comp.assign(m.clone());

    assert_eq!(comp, m);
}

#[test]
fn raw_component_assign_ref() {
    let mut comp = RawComponent::<Stat, u32>::from_vec(vec![0; 3]);
    let m = RawComponent::<Stat, u32>::from_vec(vec![1, 2, 3]);

    comp.assign_ref(&m);

    assert_eq!(comp, m);
}

#[test]
fn component_assign_ref() {
    let mut comp = Component::<Stat, u32>::from_vec(vec![0; 3]);
    let m = Component::<Stat, u32>::from_vec(vec![1, 2, 3]);

    comp.assign_ref(&m);

    assert_eq!(comp, m);
}

#[test]
fn raw_component_try_assign() {
    let mut comp = RawComponent::<Stat, u32>::from_vec(vec![0; 3]);
    let m = RawComponent::<Stat, Option<u32>>::from_vec(vec![None, Some(2), None]);

    comp.try_assign(m);

    assert_eq!(comp, RawComponent::from_vec(vec![0, 2, 0]));
}

#[test]
fn component_try_assign() {
    let mut comp = Component::<Stat, u32>::from_vec(vec![0; 3]);
    let m = Component::<Stat, Option<u32>>::from_vec(vec![None, Some(2), None]);

    comp.try_assign(m);

    assert_eq!(comp, Component::from_vec(vec![0, 2, 0]));
}

#[test]
fn raw_component_try_assign_ref_opt() {
    let mut comp = RawComponent::<Stat, u32>::from_vec(vec![0; 3]);
    let m = RawComponent::<Stat, Option<u32>>::from_vec(vec![None, Some(2), None]);

    comp.try_assign_ref(&m);

    assert_eq!(comp, RawComponent::from_vec(vec![0, 2, 0]));
}

#[test]
fn component_try_assign_ref_opt() {
    let mut comp = Component::<Stat, u32>::from_vec(vec![0; 3]);
    let m = Component::<Stat, Option<u32>>::from_vec(vec![None, Some(2), None]);

    comp.try_assign_ref(&m);

    assert_eq!(comp, Component::from_vec(vec![0, 2, 0]));
}

#[test]
fn raw_component_try_assign_opt_ref() {
    let mut comp = RawComponent::<Stat, u32>::from_vec(vec![0; 3]);
    let m = RawComponent::<Stat, u32>::from_vec(vec![1, 2, 3]);
    let evens: Vec<Option<u32>> = m.as_slice().iter().map(|v| (v % 2 == 0).then_some(*v)).collect();

    comp.try_assign(RawComponent::from_vec(evens));

    assert_eq!(comp, RawComponent::from_vec(vec![0, 2, 0]));
}

#[test]
fn component_try_assign_opt_ref() {
    let mut comp = Component::<Stat, u32>::from_vec(vec![0; 3]);
    let m = Component::<Stat, u32>::from_vec(vec![1, 2, 3]);
    let evens: Vec<Option<u32>> = m.as_slice().iter().map(|v| (*v % 2 == 0).then_some(*v)).collect();

    comp.try_assign(Component::from_vec(evens));

    assert_eq!(comp, Component::from_vec(vec![0, 2, 0]));
}

#[test]
fn component_use_assign() {
    let mut comp = Component::<Stat, i32>::from_vec(vec![1, 2, 3]);
    let m = Component::<Stat, i32>::from_vec(vec![2, 3, 5]);

    comp.use_assign(&m, |v, m| {
        let d = *m - v;
        d * d
    });

    assert_eq!(vec![1, 1, 4], comp.as_slice().to_vec());
}

#[test]
fn assign_stops_at_shorter_store() {
    let mut comp = RawComponent::<Stat, u32>::from_vec(vec![0; 3]);
    comp.assign(RawComponent::from_vec(vec![7]));
    assert_eq!(comp, RawComponent::from_vec(vec![7, 0, 0]));

    let mut short = RawComponent::<Stat, u32>::from_vec(vec![0]);
    short.assign_ref(&RawComponent::from_vec(vec![4, 5, 6]));
    assert_eq!(short, RawComponent::from_vec(vec![4]));
}

#[test]
fn raw_component_par_iter() {
    let comp = RawComponent::<Stat, u32>::from_vec(vec![1, 2, 3]);
    assert_eq!(3, comp.as_slice().par_iter().count());
}

#[test]
fn component_par_iter() {
    let comp = Component::<Stat, u32>::from_vec(vec![1, 2, 3]);
    assert_eq!(3, comp.as_slice().par_iter().count());
}
