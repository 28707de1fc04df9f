use gen_id::{Allocator, Dynamic, Entity, Links, ValidId};

#[derive(Debug)]
pub struct Node;

impl Entity for Node {
    type IdType = Dynamic;
}

#[derive(Debug)]
pub struct Leaf;

impl Entity for Leaf {
    type IdType = Dynamic;
}

#[test]
fn link_sets_both_directions() {
    let mut nodes = Allocator::<Node>::default();
    let mut leaves = Allocator::<Leaf>::default();
    let mut links = Links::<Node, Leaf>::default();
    let p = nodes.create().id();
    let c = leaves.create().id();

    links.link(p, c);

    assert_eq!(links.get_parent(c), Some(&p));
    assert!(links.get_children(p).unwrap().contains(&c));
}

#[test]
fn unlink_clears_both_directions() {
    let mut nodes = Allocator::<Node>::default();
    let mut leaves = Allocator::<Leaf>::default();
    let mut links = Links::<Node, Leaf>::default();
    let p = nodes.create().id();
    let c = leaves.create().id();

    links.link(p, c);
    links.unlink(c);

    assert_eq!(links.get_parent(c), None);
    assert!(!links.get_children(p).unwrap().contains(&c));
}

#[test]
fn relink_moves_child() {
    let mut nodes = Allocator::<Node>::default();
    let mut leaves = Allocator::<Leaf>::default();
    let mut links = Links::<Node, Leaf>::default();
    let first_parent = nodes.create().id();
    let second_parent = nodes.create().id();
    let c = leaves.create().id();

    links.link(first_parent, c);
    links.link(second_parent, c);

    assert_eq!(links.get_parent(c), Some(&second_parent));
    assert!(links.get_children(first_parent).unwrap().is_empty());
    assert_eq!(links.get_children(second_parent).unwrap(), &vec![c]);
}

#[test]
fn kill_parent_unlinks_children() {
    let mut nodes = Allocator::<Node>::default();
    let mut leaves = Allocator::<Leaf>::default();
    let mut links = Links::<Node, Leaf>::default();
    let p = nodes.create().id();
    let other = nodes.create().id();
    let c0 = leaves.create().id();
    let c1 = leaves.create().id();
    let c2 = leaves.create().id();
    links.link(p, c0);
    links.link(p, c1);
    links.link(other, c2);

    links.kill_parent(nodes.validate(p).unwrap());
    nodes.kill(p);

    assert_eq!(links.get_parent(c0), None);
    assert_eq!(links.get_parent(c1), None);
    assert_eq!(links.get_parent(c2), Some(&other));
    assert!(links.get_children(p).map_or(true, |s| s.is_empty()));
    assert!(links.is_parent_synchronized(&nodes));
    links.validate_parent(&nodes);
}

#[test]
fn kill_child_leaves_parent() {
    let mut nodes = Allocator::<Node>::default();
    let mut leaves = Allocator::<Leaf>::default();
    let mut links = Links::<Node, Leaf>::default();
    let p = nodes.create().id();
    let c0 = leaves.create().id();
    let c1 = leaves.create().id();
    links.link(p, c0);
    links.link(p, c1);

    links.kill_child(leaves.validate(c0).unwrap());
    leaves.kill(c0);

    assert_eq!(links.get_parent(c0), None);
    assert_eq!(links.get_children(p).unwrap(), &vec![c1]);
    assert!(links.is_child_synchronized(&leaves));
    links.validate(&nodes, &leaves);
}

#[test]
fn kill_batches_keep_relation_in_step() {
    let mut nodes = Allocator::<Node>::default();
    let mut leaves = Allocator::<Leaf>::default();
    let mut links = Links::<Node, Leaf>::default();
    let first_parent = nodes.create().id();
    let second_parent = nodes.create().id();
    let c0 = leaves.create().id();
    let c1 = leaves.create().id();
    let c2 = leaves.create().id();
    links.link(first_parent, c0);
    links.link(second_parent, c1);
    links.link(second_parent, c2);

    let mut dead_leaves = vec![c1, c1];
    let killed = leaves.kill_many(&mut dead_leaves);
    links.kill_children(&killed);
    assert!(links.is_child_synchronized(&leaves));
    assert_eq!(links.get_parent(c1), None);
    assert_eq!(links.get_children(second_parent).unwrap(), &vec![c2]);

    let mut dead_nodes = vec![first_parent];
    let killed = nodes.kill_many(&mut dead_nodes);
    links.kill_parents(&killed);
    assert!(links.is_parent_synchronized(&nodes));
    assert_eq!(links.get_parent(c0), None);
    assert_eq!(links.get_parent(c2), Some(&second_parent));
}

#[test]
fn unsynchronized_relation_is_detected() {
    let mut nodes = Allocator::<Node>::default();
    let links = Links::<Node, Leaf>::default();
    let p = nodes.create().id();
    nodes.kill(p);
    assert!(!links.is_parent_synchronized(&nodes));
}

#[test]
fn link_new_claims_free_child() {
    let mut nodes = Allocator::<Node>::default();
    let mut leaves = Allocator::<Leaf>::default();
    let mut links = Links::<Node, Leaf>::default();
    let p = nodes.create().id();
    let c = leaves.create().id();

    links.link_new(p, c);

    assert_eq!(links.get_parent(c), Some(&p));
    assert_eq!(links.get_children(p).unwrap(), &vec![c]);
}
