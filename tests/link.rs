use gen_id::link::{Links, Optional, RawLinks, Required};
use gen_id::{Allocator, Dynamic, Entity, Id, NoGen, Static, ValidId};

#[derive(Debug)]
pub struct Src;

impl Entity for Src {
    type IdType = Dynamic;
}

#[derive(Debug)]
pub struct Dst;

impl Entity for Dst {
    type IdType = Dynamic;
}

#[derive(Debug)]
pub struct Fixed;

impl Entity for Fixed {
    type IdType = Static;
}

#[test]
fn optional_link_fills_gap_with_none() {
    let mut sources = Allocator::<Src>::default();
    let mut targets = Allocator::<Dst>::default();
    let mut links = RawLinks::<Src, Dst, Optional>::default();
    let _s0 = sources.create().id();
    let s1 = sources.create().id();
    let t = targets.create().id();

    links.link(s1, t);

    assert_eq!(links.get(s1), Some(t));
    assert_eq!(links.get(_s0), None);
    links.unlink(s1);
    assert_eq!(links.get(s1), None);
}

#[test]
fn kill_target_and_source() {
    let mut sources = Allocator::<Src>::default();
    let mut targets = Allocator::<Dst>::default();
    let mut links = RawLinks::<Src, Dst, Optional>::default();
    let s0 = sources.create().id();
    let s1 = sources.create().id();
    let t0 = targets.create().id();
    let t1 = targets.create().id();
    links.link(s0, t0);
    links.link(s1, t1);

    links.kill_target(t0);
    assert_eq!(links.get(s0), None);
    assert_eq!(links.get(s1), Some(t1));

    links.kill_source(s1);
    assert_eq!(links.get(s1), None);
}

#[test]
fn kill_batches_clear_links() {
    let mut sources = Allocator::<Src>::default();
    let mut targets = Allocator::<Dst>::default();
    let mut links = RawLinks::<Src, Dst, Optional>::default();
    let s0 = sources.create().id();
    let s1 = sources.create().id();
    let s2 = sources.create().id();
    let t0 = targets.create().id();
    let t1 = targets.create().id();
    links.link(s0, t0);
    links.link(s1, t1);
    links.link(s2, t0);

    let mut dead = vec![t0];
    let killed = targets.kill_many(&mut dead);
    links.kill_targets(&killed);
    assert_eq!(links.get(s0), None);
    assert_eq!(links.get(s1), Some(t1));
    assert_eq!(links.get(s2), None);

    let mut dead = vec![s1];
    let killed = sources.kill_many(&mut dead);
    links.kill_sources(&killed);
    assert_eq!(links.get(s1), None);
}

#[test]
fn required_links_take_valid_ids() {
    let mut targets = Allocator::<Dst>::default();
    let mut links = Links::<Fixed, Dst, Required>::default();
    let t = targets.create().id();
    let f0 = Id::<Fixed>::new(0, NoGen);

    links.link(f0, targets.validate(t).unwrap());
    assert_eq!(links.get(f0), Some(t));
}

#[test]
fn optional_links_wrapper() {
    let mut targets = Allocator::<Dst>::default();
    let mut links = Links::<Fixed, Dst, Optional>::default();
    let t = targets.create().id();

    links.link(Id::<Fixed>::new(2, NoGen), targets.validate(t).unwrap());
    assert_eq!(links.get(Id::<Fixed>::new(2, NoGen)), Some(t));
    assert_eq!(links.get(Id::<Fixed>::new(0, NoGen)), None);
}
