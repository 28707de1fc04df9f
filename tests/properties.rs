use gen_id::{Allocator, Dynamic, Entity, Gen, Id, ValidId};

#[derive(Debug)]
pub struct Unit;

impl Entity for Unit {
    type IdType = Dynamic;
}

#[test]
fn creates_on_fresh_allocator_are_distinct() {
    let mut alloc = Allocator::<Unit>::default();
    let ids: Vec<Id<Unit>> = (0..100).map(|_| alloc.create().id()).collect();
    for a in 0..ids.len() {
        for b in (a + 1)..ids.len() {
            assert_ne!(ids[a], ids[b]);
        }
    }
}

#[test]
fn kill_then_create_reuses_index_with_next_generation() {
    let mut alloc = Allocator::<Unit>::default();
    let _ = alloc.create();
    let h = alloc.create().id();
    assert!(alloc.kill(h));
    let r = alloc.create().id();

    assert_eq!(r.index(), h.index());
    assert_eq!(r.gen(), h.gen().next());
    assert!(!alloc.is_alive(h));
    assert!(alloc.is_alive(r));
}

#[test]
fn kill_succeeds_once() {
    let mut alloc = Allocator::<Unit>::default();
    let h = alloc.create().id();
    assert!(alloc.kill(h));
    assert!(!alloc.kill(h));
    assert!(!alloc.is_alive(h));
}

#[test]
fn same_kills_same_order_give_equal_checksums() {
    let mut a = Allocator::<Unit>::default();
    let mut b = Allocator::<Unit>::default();
    let mut c = Allocator::<Unit>::default();
    let mut d = Allocator::<Unit>::default();
    let mut ids = Vec::new();
    for _ in 0..3 {
        ids.push(a.create().id());
        b.create();
        c.create();
        d.create();
    }

    a.kill(ids[0]);
    a.kill(ids[2]);
    b.kill(ids[0]);
    b.kill(ids[2]);
    // the same set in the other order
    c.kill(ids[2]);
    c.kill(ids[0]);
    // one kill skipped
    d.kill(ids[2]);

    assert_eq!(a.alloc_gen(), b.alloc_gen());
    assert_ne!(a.alloc_gen(), c.alloc_gen());
    assert_ne!(a.alloc_gen(), d.alloc_gen());
}

#[test]
fn end_to_end_scenario() {
    let mut alloc = Allocator::<Unit>::default();
    let h0 = alloc.create().id();
    let h1 = alloc.create().id();
    let h2 = alloc.create().id();
    let h3 = alloc.create().id();
    for (i, h) in [h0, h1, h2, h3].iter().enumerate() {
        assert_eq!(h.index(), i);
        assert_eq!(h.gen(), Gen::min());
    }

    assert!(alloc.kill(h1));
    let n = alloc.create().id();
    assert_eq!(n, Id::new(1, Gen::min().next()));
    assert!(alloc.is_alive(n));

    let ids = alloc.ids();
    assert_eq!(ids, vec![h0, n, h2, h3]);
    assert!(!alloc.is_alive(h1));
}
