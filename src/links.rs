//! One-to-many parent/child relations whose two directions stay inverse.

use vstd::prelude::*;

use crate::allocator::{pair, Allocator, KilledIds};
use crate::entity::{Dynamic, Entity};
use crate::gen::{checksum_of, fold_kill, fold_kills, AllocGen, Gen};
use crate::id::Id;
use crate::valid::{Valid, ValidId};

verus! {

/// The slot indices of a list of handles.
pub open spec fn slots_of<C: Entity>(s: Seq<Id<C>>) -> Seq<u32> {
    s.map_values(|c: Id<C>| c.slot())
}

/// No two handles of the list share a slot.
pub open spec fn distinct_slots<C: Entity>(s: Seq<Id<C>>) -> bool {
    forall|a: int, b: int| 0 <= a < s.len() && 0 <= b < s.len() && a != b ==> s[a].slot() != s[b].slot()
}

/// The handles of `list` whose slot is not `i`, in order.
fn without_slot<C: Entity>(list: &Vec<Id<C>>, i: u32) -> (r: Vec<Id<C>>)
    requires
        distinct_slots(list@),
    ensures
        distinct_slots(r@),
        forall|x: Id<C>|
            #![trigger r@.contains(x)]
            #![trigger list@.contains(x)]
            r@.contains(x) <==> (list@.contains(x) && x.slot() != i),
{
    let mut out: Vec<Id<C>> = Vec::new();
    let mut k: usize = 0;
    while k < list.len()
        invariant
            0 <= k <= list@.len(),
            distinct_slots(list@),
            distinct_slots(out@),
            forall|a: int|
                0 <= a < out@.len() ==> exists|m: int| 0 <= m < k && #[trigger] out@[a] == list@[m],
            forall|x: Id<C>|
                out@.contains(x) <==> (exists|m: int| 0 <= m < k && list@[m] == x && x.slot() != i),
        decreases list@.len() - k,
    {
        let c = list[k];
        if c.index_u32() != i {
            let ghost before = out@;
            out.push(c);
            proof {
                assert forall|a: int, b: int|
                    0 <= a < out@.len() && 0 <= b < out@.len() && a != b implies out@[a].slot()
                    != out@[b].slot() by {
                    if a < before.len() && b < before.len() {
                    } else if a < before.len() {
                        let m = choose|m: int| 0 <= m < k && before[a] == list@[m];
                        assert(out@[a] == before[a]);
                    } else {
                        let m = choose|m: int| 0 <= m < k && before[b] == list@[m];
                        assert(out@[b] == before[b]);
                    }
                }
                assert forall|a: int| 0 <= a < out@.len() implies exists|m: int|
                    0 <= m < k + 1 && #[trigger] out@[a] == list@[m] by {
                    if a < before.len() {
                        assert(out@[a] == before[a]);
                    } else {
                        assert(out@[a] == list@[k as int]);
                    }
                }
                assert forall|x: Id<C>| out@.contains(x) <==> (exists|m: int|
                    0 <= m < k + 1 && list@[m] == x && x.slot() != i) by {
                    if out@.contains(x) {
                        let a = choose|a: int| 0 <= a < out@.len() && out@[a] == x;
                        if a < before.len() {
                            assert(before[a] == x);
                            assert(before.contains(x));
                        } else {
                            assert(list@[k as int] == x);
                        }
                    }
                    if exists|m: int| 0 <= m < k + 1 && list@[m] == x && x.slot() != i {
                        let m = choose|m: int| 0 <= m < k + 1 && list@[m] == x && x.slot() != i;
                        if m < k {
                            assert(before.contains(x));
                            let a = choose|a: int| 0 <= a < before.len() && before[a] == x;
                            assert(out@[a] == x);
                        } else {
                            assert(out@[before.len() as int] == x);
                        }
                    }
                }
            }
        } else {
            proof {
                assert forall|a: int| 0 <= a < out@.len() implies exists|m: int|
                    0 <= m < k + 1 && #[trigger] out@[a] == list@[m] by {
                    let m = choose|m: int| 0 <= m < k && out@[a] == list@[m];
                }
                assert forall|x: Id<C>| out@.contains(x) <==> (exists|m: int|
                    0 <= m < k + 1 && list@[m] == x && x.slot() != i) by {
                    if exists|m: int| 0 <= m < k + 1 && list@[m] == x && x.slot() != i {
                        let m = choose|m: int| 0 <= m < k + 1 && list@[m] == x && x.slot() != i;
                        assert(m != k);
                    }
                }
            }
        }
        k += 1;
    }
    out
}


/// Whether some handle of `s` is in slot `i`.
pub open spec fn hits<C: Entity>(s: Seq<Id<C>>, i: int) -> bool {
    exists|m: int| 0 <= m < s.len() && #[trigger] s[m].slot() == i
}

proof fn lemma_hits_push<C: Entity>(s: Seq<Id<C>>, k: int)
    requires
        0 <= k < s.len(),
    ensures
        forall|i: int| #[trigger] hits(s.take(k + 1), i) == (hits(s.take(k), i) || i == s[k].slot()),
{
    assert forall|i: int| #[trigger] hits(s.take(k + 1), i) == (hits(s.take(k), i) || i == s[k].slot()) by {
        let t1 = s.take(k + 1);
        let t0 = s.take(k);
        if hits(t1, i) {
            let m = choose|m: int| 0 <= m < t1.len() && #[trigger] t1[m].slot() == i;
            if m < k {
                assert(t0[m].slot() == i);
            }
        }
        if hits(t0, i) {
            let m = choose|m: int| 0 <= m < t0.len() && #[trigger] t0[m].slot() == i;
            assert(t1[m].slot() == i);
        }
        if i == s[k].slot() {
            assert(s.take(k + 1)[k].slot() == i);
        }
    }
}

/// A one-to-many relation: each child has at most one parent, each parent a
/// set of children. Children are looked up by slot index, parents' child
/// sets by the parent's slot index. The two directions are kept inverse.
#[derive(Debug)]
pub struct Links<P: Entity, C: Entity> {
    parents: Vec<Option<Id<P>>>,
    children: Vec<Vec<Id<C>>>,
    parent_gen: AllocGen<P>,
    child_gen: AllocGen<C>,
}

impl<P: Entity, C: Entity> Links<P, C> {
    /// The parent of the child in slot `i`.
    pub closed spec fn parent_of(&self, i: int) -> Option<Id<P>> {
        if 0 <= i < self.parents@.len() {
            self.parents@[i]
        } else {
            None
        }
    }

    /// The children of the parent in slot `j`.
    pub closed spec fn children_of(&self, j: int) -> Seq<Id<C>> {
        if 0 <= j < self.children@.len() {
            self.children@[j]@
        } else {
            Seq::empty()
        }
    }

    /// The checksum of the parent kills this relation has been told of.
    pub closed spec fn parent_checksum(&self) -> u32 {
        self.parent_gen.value()
    }

    /// The checksum of the child kills this relation has been told of.
    pub closed spec fn child_checksum(&self) -> u32 {
        self.child_gen.value()
    }

    /// The two directions are inverse: a child listed under a parent has
    /// that parent, a child with a parent is listed under it, and a child
    /// is listed at most once.
    pub closed spec fn wf(&self) -> bool {
        &&& self.parents@.len() <= u32::MAX
        &&& forall|j: int, k: int|
            #![trigger self.children@[j]@[k]]
            0 <= j < self.children@.len() && 0 <= k < self.children@[j]@.len() ==> {
                let c = self.children@[j]@[k];
                &&& c.slot() < self.parents@.len()
                &&& self.parents@[c.slot() as int].is_some()
                &&& self.parents@[c.slot() as int].unwrap().slot() == j
            }
        &&& forall|i: int|
            #![trigger self.parents@[i]]
            0 <= i < self.parents@.len() && self.parents@[i].is_some() ==> {
                let j = self.parents@[i].unwrap().slot() as int;
                &&& j < self.children@.len()
                &&& slots_of(self.children@[j]@).contains(i as u32)
            }
        &&& forall|j: int| 0 <= j < self.children@.len() ==> distinct_slots(#[trigger] self.children@[j]@)
    }

    /// Every child listed under some parent has that parent: with
    /// `lemma_listed`, the two directions of the relation are inverse.
    pub proof fn lemma_inverse(&self, j: int, c: Id<C>)
        requires
            self.wf(),
            self.children_of(j).contains(c),
        ensures
            self.parent_of(c.slot() as int).is_some(),
            self.parent_of(c.slot() as int).unwrap().slot() == j,
    {
        let k = choose|k: int| 0 <= k < self.children_of(j).len() && self.children_of(j)[k] == c;
        assert(self.children@[j]@[k] == c);
    }

    /// Every child slot with a parent is listed under that parent.
    pub proof fn lemma_listed(&self, i: int)
        requires
            self.wf(),
            self.parent_of(i).is_some(),
        ensures
            exists|c: Id<C>|
                c.slot() == i && #[trigger] self.children_of(self.parent_of(i).unwrap().slot() as int).contains(c),
    {
        let j = self.parents@[i].unwrap().slot() as int;
        let s = slots_of(self.children@[j]@);
        assert(s.contains(i as u32));
        let k = choose|k: int| 0 <= k < s.len() && s[k] == i as u32;
        let c = self.children@[j]@[k];
        assert(s[k] == c.slot());
        assert(self.children_of(j)[k] == c);
        assert(self.children_of(j).contains(c));
    }

    /// The parent of `child`, if it has one.
    pub fn get_parent(&self, child: Id<C>) -> (r: Option<&Id<P>>)
        ensures
            r == match self.parent_of(child.slot() as int) {
                Some(p) => Some(&p),
                None => None::<&Id<P>>,
            },
    {
        let i = child.index();
        if i < self.parents.len() {
            match &self.parents[i] {
                Some(p) => Some(p),
                None => None,
            }
        } else {
            None
        }
    }

    /// The children of `parent`, if its slot has ever had children.
    pub fn get_children(&self, parent: Id<P>) -> (r: Option<&Vec<Id<C>>>)
        ensures
            r.is_some() ==> r.unwrap()@ == self.children_of(parent.slot() as int),
            r.is_none() ==> self.children_of(parent.slot() as int).len() == 0,
    {
        let j = parent.index();
        if j < self.children.len() {
            Some(&self.children[j])
        } else {
            None
        }
    }
}

impl<P: Entity, C: Entity> Links<P, C> {
    /// Detaches the child in the slot of `child` from its parent, if it has
    /// one: the child then has no parent and is listed under no parent.
    pub fn unlink(&mut self, child: Id<C>)
        requires
            old(self).wf(),
        ensures
            final(self).wf(),
            final(self).parent_of(child.slot() as int).is_none(),
            forall|i: int| i != child.slot() ==> final(self).parent_of(i) == old(self).parent_of(i),
            forall|j: int, x: Id<C>|
                #[trigger] final(self).children_of(j).contains(x) <==> (old(self).children_of(j).contains(x)
                    && x.slot() != child.slot()),
            final(self).parent_checksum() == old(self).parent_checksum(),
            final(self).child_checksum() == old(self).child_checksum(),
    {
        let i = child.index();
        if i < self.parents.len() {
            match self.parents[i] {
                Some(p) => {
                    let j = p.index();
                    let ci = child.index_u32();
                    let newlist = without_slot(&self.children[j], ci);
                    let ghost nl = newlist@;
                    self.parents.set(i, None);
                    self.children.set(j, newlist);
                    proof {
                        assert(self.children@[j as int]@ == nl);
                        assert forall|x: Id<C>| self.children@[j as int]@.contains(x) <==> (old(
                            self,
                        ).children@[j as int]@.contains(x) && x.slot() != child.slot()) by {
                            assert(nl.contains(x) <==> (old(self).children@[j as int]@.contains(x)
                                && x.slot() != child.slot()));
                        }
                        self.lemma_unlinked(*old(self), child, j as int);
                    }
                },
                None => {
                    proof {
                        old(self).lemma_no_listing(child.slot());
                    }
                },
            }
        } else {
            proof {
                old(self).lemma_no_listing(child.slot());
            }
        }
    }

    /// Makes `parent` the parent of `child`. The child is first detached from
    /// any parent it had, so the two directions stay inverse.
    pub fn link(&mut self, parent: Id<P>, child: Id<C>)
        requires
            old(self).wf(),
        ensures
            final(self).wf(),
            final(self).parent_of(child.slot() as int) == Some(parent),
            forall|i: int| i != child.slot() ==> final(self).parent_of(i) == old(self).parent_of(i),
            forall|j: int, x: Id<C>|
                #[trigger] final(self).children_of(j).contains(x) <==> ((old(self).children_of(j).contains(x)
                    && x.slot() != child.slot()) || (j == parent.slot() && x == child)),
            final(self).parent_checksum() == old(self).parent_checksum(),
            final(self).child_checksum() == old(self).child_checksum(),
    {
        self.unlink(child);
        let ghost mid = *self;
        proof {
            mid.lemma_no_listing(child.slot());
        }
        let i = child.index();
        let _ = child.index_u32();
        while self.parents.len() <= i
            invariant
                mid.wf(),
                i == child.slot(),
                i < u32::MAX,
                mid.parents@.len() <= self.parents@.len(),
                self.parents@.len() == mid.parents@.len() || self.parents@.len() <= i + 1,
                forall|i2: int| 0 <= i2 < self.parents@.len() ==> #[trigger] self.parents@[i2] == mid.parent_of(i2),
                self.children == mid.children,
                self.parent_gen == mid.parent_gen,
                self.child_gen == mid.child_gen,
            decreases i + 1 - self.parents@.len(),
        {
            self.parents.push(None);
        }
        self.parents.set(i, Some(parent));
        assert(self.parents@.len() <= u32::MAX);
        let ghost ps = self.parents@;
        let j = parent.index();
        while self.children.len() <= j
            invariant
                self.parents@ == ps,
                self.parent_gen == mid.parent_gen,
                self.child_gen == mid.child_gen,
                j == parent.slot(),
                mid.children@.len() <= self.children@.len(),
                forall|j2: int| 0 <= j2 < self.children@.len() ==> #[trigger] self.children@[j2]@ == mid.children_of(j2),
            decreases j + 1 - self.children@.len(),
        {
            self.children.push(Vec::new());
        }
        let mut list: Vec<Id<C>> = Vec::new();
        self.children.set_and_swap(j, &mut list);
        list.push(child);
        self.children.set(j, list);
        proof {
            self.lemma_linked(mid, parent, child);
        }
    }

    /// Makes `parent` the parent of `child`, which must have no parent yet:
    /// a child is never claimed by a second parent.
    pub fn link_new(&mut self, parent: Id<P>, child: Id<C>)
        requires
            old(self).wf(),
            old(self).parent_of(child.slot() as int).is_none(),
        ensures
            final(self).wf(),
            final(self).parent_of(child.slot() as int) == Some(parent),
            forall|i: int| i != child.slot() ==> final(self).parent_of(i) == old(self).parent_of(i),
            forall|j: int, x: Id<C>|
                #[trigger] final(self).children_of(j).contains(x) <==> (old(self).children_of(j).contains(x)
                    || (j == parent.slot() && x == child)),
            final(self).parent_checksum() == old(self).parent_checksum(),
            final(self).child_checksum() == old(self).child_checksum(),
    {
        proof {
            old(self).lemma_no_listing(child.slot());
        }
        self.link(parent, child);
    }

    proof fn lemma_linked(&self, mid: Self, parent: Id<P>, child: Id<C>)
        requires
            mid.wf(),
            mid.parent_of(child.slot() as int).is_none(),
            forall|j: int, x: Id<C>| #[trigger] mid.children_of(j).contains(x) ==> x.slot() != child.slot(),
            child.slot() < self.parents@.len() <= u32::MAX,
            self.parents@[child.slot() as int] == Some(parent),
            forall|i2: int|
                0 <= i2 < self.parents@.len() && i2 != child.slot() ==> #[trigger] self.parents@[i2]
                    == mid.parent_of(i2),
            mid.parents@.len() <= self.parents@.len(),
            parent.slot() < self.children@.len(),
            mid.children@.len() <= self.children@.len(),
            self.children@[parent.slot() as int]@ == mid.children_of(parent.slot() as int).push(child),
            forall|j2: int|
                0 <= j2 < self.children@.len() && j2 != parent.slot() ==> #[trigger] self.children@[j2]@
                    == mid.children_of(j2),
        ensures
            self.wf(),
            forall|j: int, x: Id<C>|
                #[trigger] self.children_of(j).contains(x) <==> (mid.children_of(j).contains(x) || (j
                    == parent.slot() && x == child)),
            forall|i: int| i != child.slot() ==> self.parent_of(i) == mid.parent_of(i),
    {
        let ci = child.slot() as int;
        let pj = parent.slot() as int;
        assert forall|j: int, k: int|
            0 <= j < self.children@.len() && 0 <= k < self.children@[j]@.len() implies {
                let c = #[trigger] self.children@[j]@[k];
                &&& c.slot() < self.parents@.len()
                &&& self.parents@[c.slot() as int].is_some()
                &&& self.parents@[c.slot() as int].unwrap().slot() == j
            } by {
            let c = self.children@[j]@[k];
            if j == pj && k == mid.children_of(pj).len() {
                assert(c == child);
            } else {
                assert(c == mid.children_of(j)[k]);
                assert(mid.children_of(j).contains(c));
                mid.lemma_inverse(j, c);
                assert(c.slot() != ci);
            }
        }
        assert forall|i: int|
            0 <= i < self.parents@.len() && self.parents@[i].is_some() implies {
                let j = self.parents@[i].unwrap().slot() as int;
                &&& j < self.children@.len()
                &&& slots_of(self.children@[j]@).contains(i as u32)
            } by {
            if i == ci {
                let n = mid.children_of(pj).len() as int;
                assert(slots_of(self.children@[pj]@)[n] == child.slot());
            } else {
                let q = self.parents@[i].unwrap();
                assert(mid.parents@[i] == Some(q));
                let j = q.slot() as int;
                let s = slots_of(mid.children@[j]@);
                let k = choose|k: int| 0 <= k < s.len() && s[k] == i as u32;
                if j == pj {
                    assert(slots_of(self.children@[j]@)[k] == i as u32);
                } else {
                    assert(slots_of(self.children@[j]@)[k] == i as u32);
                }
            }
        }
        assert forall|j: int| 0 <= j < self.children@.len() implies distinct_slots(#[trigger] self.children@[j]@) by {
            if j == pj {
                let l = self.children@[j]@;
                let n = mid.children_of(pj).len() as int;
                assert forall|a: int, b: int| 0 <= a < l.len() && 0 <= b < l.len() && a != b implies l[a].slot() != l[b].slot() by {
                    if a == n {
                        assert(mid.children_of(pj).contains(l[b]));
                    } else if b == n {
                        assert(mid.children_of(pj).contains(l[a]));
                    } else {
                        assert(distinct_slots(mid.children@[j]@));
                    }
                }
            } else if j < mid.children@.len() {
                assert(distinct_slots(mid.children@[j]@));
            }
        }
        assert forall|j: int, x: Id<C>|
            #[trigger] self.children_of(j).contains(x) <==> (mid.children_of(j).contains(x) || (j
                == pj && x == child)) by {
            if j == pj {
                let l = self.children@[j]@;
                if l.contains(x) {
                    let k = choose|k: int| 0 <= k < l.len() && l[k] == x;
                    if k < l.len() - 1 {
                        assert(mid.children_of(j)[k] == x);
                    }
                }
                if mid.children_of(j).contains(x) {
                    let k = choose|k: int| 0 <= k < mid.children_of(j).len() && mid.children_of(j)[k] == x;
                    assert(l[k] == x);
                }
                if x == child {
                    assert(l[l.len() - 1] == x);
                }
            }
        }
    }

    /// Detaches every child of the slot of `parent`: each of them then has no
    /// parent, and the parent lists no children.
    pub fn unlink_parent(&mut self, parent: Id<P>)
        requires
            old(self).wf(),
        ensures
            final(self).wf(),
            final(self).children_of(parent.slot() as int).len() == 0,
            forall|j: int| j != parent.slot() ==> final(self).children_of(j) == old(self).children_of(j),
            forall|i: int|
                #[trigger] final(self).parent_of(i) == match old(self).parent_of(i) {
                    Some(q) => if q.slot() == parent.slot() {
                        None
                    } else {
                        Some(q)
                    },
                    None => None,
                },
            final(self).parent_checksum() == old(self).parent_checksum(),
            final(self).child_checksum() == old(self).child_checksum(),
    {
        let j = parent.index();
        if j < self.children.len() {
            let mut list: Vec<Id<C>> = Vec::new();
            self.children.set_and_swap(j, &mut list);
            let ghost mid = *self;
            let mut k: usize = 0;
            while k < list.len()
                invariant
                    old(self).wf(),
                    j == parent.slot(),
                    j < old(self).children@.len(),
                    list@ == old(self).children@[j as int]@,
                    0 <= k <= list@.len(),
                    self.children == mid.children,
                    self.parent_gen == mid.parent_gen,
                    self.child_gen == mid.child_gen,
                    self.parents@.len() == old(self).parents@.len(),
                    forall|i: int|
                        0 <= i < self.parents@.len() ==> #[trigger] self.parents@[i] == if slots_of(
                            list@.take(k as int),
                        ).contains(i as u32) {
                            None
                        } else {
                            old(self).parents@[i]
                        },
                decreases list@.len() - k,
            {
                let c = list[k];
                proof {
                    assert(old(self).children@[j as int]@[k as int] == c);
                }
                let ghost before = self.parents@;
                self.parents.set(c.index(), None);
                proof {
                    let t = list@.take(k + 1);
                    let s0 = slots_of(list@.take(k as int));
                    assert(slots_of(t) =~= s0.push(c.slot()));
                    assert forall|i: int| 0 <= i < self.parents@.len() implies #[trigger] self.parents@[i]
                        == if slots_of(t).contains(i as u32) {
                        None
                    } else {
                        old(self).parents@[i]
                    } by {
                        assert(slots_of(t).contains(i as u32) <==> (s0.contains(i as u32) || i as u32
                            == c.slot())) by {
                            if slots_of(t).contains(i as u32) {
                                let m = choose|m: int| 0 <= m < slots_of(t).len() && slots_of(t)[m] == i as u32;
                                if m < s0.len() {
                                    assert(s0[m] == i as u32);
                                }
                            }
                            if s0.contains(i as u32) {
                                let m = choose|m: int| 0 <= m < s0.len() && s0[m] == i as u32;
                                assert(slots_of(t)[m] == i as u32);
                            }
                            if i as u32 == c.slot() {
                                assert(slots_of(t)[k as int] == i as u32);
                            }
                        }
                        if i == c.slot() {
                        } else {
                            assert(self.parents@[i] == before[i]);
                        }
                    }
                }
                k += 1;
            }
            proof {
                assert(list@.take(k as int) =~= list@);
                self.lemma_parent_cleared(*old(self), parent);
            }
        } else {
            proof {
                assert forall|i: int| #[trigger] self.parent_of(i) == match old(self).parent_of(i) {
                    Some(q) => if q.slot() == parent.slot() {
                        None
                    } else {
                        Some(q)
                    },
                    None => None,
                } by {
                    if self.parent_of(i).is_some() {
                        assert(self.parents@[i].is_some());
                    }
                }
            }
        }
    }

    proof fn lemma_parent_cleared(&self, old_links: Self, parent: Id<P>)
        requires
            old_links.wf(),
            0 <= parent.slot() < old_links.children@.len(),
            self.children@.len() == old_links.children@.len(),
            self.children@[parent.slot() as int]@.len() == 0,
            forall|j: int|
                0 <= j < self.children@.len() && j != parent.slot() ==> #[trigger] self.children@[j]
                    == old_links.children@[j],
            self.parents@.len() == old_links.parents@.len(),
            forall|i: int|
                0 <= i < self.parents@.len() ==> #[trigger] self.parents@[i] == if slots_of(
                    old_links.children@[parent.slot() as int]@,
                ).contains(i as u32) {
                    None
                } else {
                    old_links.parents@[i]
                },
        ensures
            self.wf(),
            forall|i: int|
                #[trigger] self.parent_of(i) == match old_links.parent_of(i) {
                    Some(q) => if q.slot() == parent.slot() {
                        None
                    } else {
                        Some(q)
                    },
                    None => None,
                },
    {
        let pj = parent.slot() as int;
        let s = slots_of(old_links.children@[pj]@);
        assert forall|i: int| 0 <= i < self.parents@.len() implies (s.contains(i as u32) <==> (
        old_links.parents@[i].is_some() && old_links.parents@[i].unwrap().slot() == pj)) by {
            if s.contains(i as u32) {
                let k = choose|k: int| 0 <= k < s.len() && s[k] == i as u32;
                assert(old_links.children@[pj]@[k].slot() == i as u32);
            }
            if old_links.parents@[i].is_some() && old_links.parents@[i].unwrap().slot() == pj {
                assert(old_links.parents@[i].is_some());
            }
        }
        assert forall|j: int, k: int|
            0 <= j < self.children@.len() && 0 <= k < self.children@[j]@.len() implies {
                let c = #[trigger] self.children@[j]@[k];
                &&& c.slot() < self.parents@.len()
                &&& self.parents@[c.slot() as int].is_some()
                &&& self.parents@[c.slot() as int].unwrap().slot() == j
            } by {
            let c = self.children@[j]@[k];
            assert(j != pj);
            assert(old_links.children@[j]@[k] == c);
            assert(old_links.parents@[c.slot() as int].is_some());
        }
        assert forall|i: int|
            0 <= i < self.parents@.len() && self.parents@[i].is_some() implies {
                let j = self.parents@[i].unwrap().slot() as int;
                &&& j < self.children@.len()
                &&& slots_of(self.children@[j]@).contains(i as u32)
            } by {
            assert(old_links.parents@[i].is_some());
        }
        assert forall|j: int| 0 <= j < self.children@.len() implies distinct_slots(#[trigger] self.children@[j]@) by {
            if j != pj {
                assert(distinct_slots(old_links.children@[j]@));
            }
        }
    }

    /// A child slot without a parent is listed under no parent.
    proof fn lemma_no_listing(&self, i: u32)
        requires
            self.wf(),
            self.parent_of(i as int).is_none(),
        ensures
            forall|j: int, x: Id<C>|
                #[trigger] self.children_of(j).contains(x) ==> x.slot() != i,
    {
        assert forall|j: int, x: Id<C>| #[trigger] self.children_of(j).contains(x) implies x.slot() != i by {
            self.lemma_inverse(j, x);
        }
    }

    proof fn lemma_unlinked(&self, old_links: Self, child: Id<C>, j: int)
        requires
            old_links.wf(),
            old_links.parent_of(child.slot() as int).is_some(),
            j == old_links.parent_of(child.slot() as int).unwrap().slot(),
            self.parents@ == old_links.parents@.update(child.slot() as int, None),
            0 <= child.slot() < old_links.parents@.len(),
            0 <= j < old_links.children@.len(),
            self.children@.len() == old_links.children@.len(),
            forall|j2: int| 0 <= j2 < self.children@.len() && j2 != j ==> self.children@[j2] == old_links.children@[j2],
            distinct_slots(self.children@[j]@),
            forall|x: Id<C>|
                #![trigger self.children@[j]@.contains(x)]
                #![trigger old_links.children@[j]@.contains(x)]
                self.children@[j]@.contains(x) <==> (old_links.children@[j]@.contains(x) && x.slot()
                    != child.slot()),
        ensures
            self.wf(),
            forall|j2: int, x: Id<C>|
                #[trigger] self.children_of(j2).contains(x) <==> (old_links.children_of(j2).contains(x)
                    && x.slot() != child.slot()),
    {
        let i = child.slot() as int;
        assert forall|j2: int, k: int|
            0 <= j2 < self.children@.len() && 0 <= k < self.children@[j2]@.len() implies {
                let c = #[trigger] self.children@[j2]@[k];
                &&& c.slot() < self.parents@.len()
                &&& self.parents@[c.slot() as int].is_some()
                &&& self.parents@[c.slot() as int].unwrap().slot() == j2
            } by {
            let c = self.children@[j2]@[k];
            if j2 == j {
                assert(self.children@[j]@.contains(c));
                let k0 = choose|k0: int| 0 <= k0 < old_links.children@[j]@.len() && old_links.children@[j]@[k0] == c;
                assert(old_links.children@[j]@[k0] == c);
            } else {
                assert(old_links.children@[j2]@[k] == c);
                if c.slot() == i {
                    assert(old_links.parents@[i].unwrap().slot() == j);
                }
            }
        }
        assert forall|i2: int|
            0 <= i2 < self.parents@.len() && self.parents@[i2].is_some() implies {
                let j2 = self.parents@[i2].unwrap().slot() as int;
                &&& j2 < self.children@.len()
                &&& slots_of(self.children@[j2]@).contains(i2 as u32)
            } by {
            assert(i2 != i);
            assert(old_links.parents@[i2] == self.parents@[i2]);
            let j2 = self.parents@[i2].unwrap().slot() as int;
            if j2 == j {
                let s = slots_of(old_links.children@[j]@);
                assert(s.contains(i2 as u32));
                let k = choose|k: int| 0 <= k < s.len() && s[k] == i2 as u32;
                let c = old_links.children@[j]@[k];
                assert(s[k] == c.slot());
                assert(old_links.children@[j]@.contains(c));
                assert(self.children@[j]@.contains(c));
                let k2 = choose|k2: int| 0 <= k2 < self.children@[j]@.len() && self.children@[j]@[k2] == c;
                assert(slots_of(self.children@[j]@)[k2] == i2 as u32);
            }
        }
        assert forall|j2: int, x: Id<C>|
            #[trigger] self.children_of(j2).contains(x) <==> (old_links.children_of(j2).contains(x)
                && x.slot() != child.slot()) by {
            if 0 <= j2 < self.children@.len() && j2 != j {
                if old_links.children_of(j2).contains(x) && x.slot() == child.slot() {
                    old_links.lemma_inverse(j2, x);
                }
            }
        }
    }
}

impl<P: Entity<IdType = Dynamic>, C: Entity> Links<P, C> {
    /// Cascades the death of `parent`: all its children lose their parent,
    /// and the kill is folded into the parent checksum.
    pub fn kill_parent<V: ValidId<Entity = P>>(&mut self, parent: V)
        requires
            old(self).wf(),
        ensures
            final(self).wf(),
            final(self).children_of(parent.spec_id().slot() as int).len() == 0,
            forall|j: int| j != parent.spec_id().slot() ==> final(self).children_of(j) == old(self).children_of(j),
            forall|i: int|
                #[trigger] final(self).parent_of(i) == match old(self).parent_of(i) {
                    Some(q) => if q.slot() == parent.spec_id().slot() {
                        None
                    } else {
                        Some(q)
                    },
                    None => None,
                },
            final(self).parent_checksum() == fold_kill(
                old(self).parent_checksum(),
                parent.spec_id().slot(),
                Gen::next_value(parent.spec_id().tag_raw()),
            ),
            final(self).child_checksum() == old(self).child_checksum(),
    {
        let parent = parent.id();
        self.parent_gen.increment(parent);
        self.unlink_parent(parent);
    }

    /// Replays the kills of one `kill_many` of the parents' allocator. The
    /// relation must have seen every parent kill before them; it then has
    /// seen every kill after.
    pub fn kill_parents(&mut self, killed: &KilledIds<P>)
        requires
            old(self).wf(),
            killed.wf(),
            old(self).parent_checksum() == killed.before_value(),
        ensures
            final(self).wf(),
            final(self).parent_checksum() == killed.after_value(),
            final(self).child_checksum() == old(self).child_checksum(),
            forall|i: int|
                #[trigger] final(self).parent_of(i) == match old(self).parent_of(i) {
                    Some(q) => if hits(killed.killed(), q.slot() as int) {
                        None
                    } else {
                        Some(q)
                    },
                    None => None,
                },
            forall|j: int|
                #[trigger] final(self).children_of(j) == if hits(killed.killed(), j) {
                    Seq::empty()
                } else {
                    old(self).children_of(j)
                },
    {
        let ids = killed.ids().get();
        let ghost hs = ids@.map_values(|h: Id<P>| pair(h));
        let mut k: usize = 0;
        while k < ids.len()
            invariant
                self.wf(),
                0 <= k <= ids@.len(),
                ids@ == killed.killed(),
                hs == ids@.map_values(|h: Id<P>| pair(h)),
                self.parent_checksum() == fold_kills(killed.before_value(), hs.take(k as int)),
                self.child_checksum() == old(self).child_checksum(),
                forall|i: int|
                    #[trigger] self.parent_of(i) == match old(self).parent_of(i) {
                        Some(q) => if hits(ids@.take(k as int), q.slot() as int) {
                            None
                        } else {
                            Some(q)
                        },
                        None => None,
                    },
                forall|j: int|
                    #[trigger] self.children_of(j) == if hits(ids@.take(k as int), j) {
                        Seq::empty()
                    } else {
                        old(self).children_of(j)
                    },
            decreases ids@.len() - k,
        {
            let p = ids[k];
            let ghost before = *self;
            self.kill_parent(Valid::new(p));
            proof {
                lemma_hits_push(ids@, k as int);
                let t = hs.take(k + 1);
                assert(t.drop_last() =~= hs.take(k as int));
                assert(t.last() == pair(p));
                assert forall|j: int| #[trigger] self.children_of(j) == if hits(ids@.take(k + 1), j) {
                    Seq::empty()
                } else {
                    old(self).children_of(j)
                } by {
                    if j == p.slot() {
                        assert(self.children_of(j) =~= Seq::<Id<C>>::empty());
                    } else {
                        assert(self.children_of(j) == before.children_of(j));
                    }
                }
                assert forall|i: int| #[trigger] self.parent_of(i) == match old(self).parent_of(i) {
                    Some(q) => if hits(ids@.take(k + 1), q.slot() as int) {
                        None
                    } else {
                        Some(q)
                    },
                    None => None,
                } by {
                    assert(self.parent_of(i) == match before.parent_of(i) {
                        Some(q) => if q.slot() == p.slot() {
                            None
                        } else {
                            Some(q)
                        },
                        None => None,
                    });
                }
            }
            k += 1;
        }
        proof {
            assert(ids@.take(k as int) =~= ids@);
            assert(hs.take(k as int) =~= hs);
        }
    }

    /// Whether the relation has seen exactly the kills of the parents'
    /// allocator.
    pub fn is_parent_synchronized(&self, parents: &Allocator<P>) -> (r: bool)
        requires
            parents.wf(),
        ensures
            r == (self.parent_checksum() == checksum_of(parents@.kills)),
    {
        self.parent_gen.get() == parents.alloc_gen().get()
    }

    /// The relation, marked as in step with the parents' allocator.
    pub fn validate_parent<'v>(&'v self, parents: &'v Allocator<P>) -> (r: Valid<'v, &'v Self>)
        requires
            parents.wf(),
            self.parent_checksum() == checksum_of(parents@.kills),
        ensures
            *r.inner() == *self,
    {
        Valid::new(self)
    }
}

impl<P: Entity, C: Entity<IdType = Dynamic>> Links<P, C> {
    /// Cascades the death of `child`: it leaves its parent's children, and
    /// the kill is folded into the child checksum.
    pub fn kill_child<V: ValidId<Entity = C>>(&mut self, child: V)
        requires
            old(self).wf(),
        ensures
            final(self).wf(),
            final(self).parent_of(child.spec_id().slot() as int).is_none(),
            forall|i: int| i != child.spec_id().slot() ==> final(self).parent_of(i) == old(self).parent_of(i),
            forall|j: int, x: Id<C>|
                #[trigger] final(self).children_of(j).contains(x) <==> (old(self).children_of(j).contains(x)
                    && x.slot() != child.spec_id().slot()),
            final(self).parent_checksum() == old(self).parent_checksum(),
            final(self).child_checksum() == fold_kill(
                old(self).child_checksum(),
                child.spec_id().slot(),
                Gen::next_value(child.spec_id().tag_raw()),
            ),
    {
        let child = child.id();
        self.child_gen.increment(child);
        self.unlink(child);
    }

    /// Replays the kills of one `kill_many` of the children's allocator. The
    /// relation must have seen every child kill before them; it then has
    /// seen every kill after.
    pub fn kill_children(&mut self, killed: &KilledIds<C>)
        requires
            old(self).wf(),
            killed.wf(),
            old(self).child_checksum() == killed.before_value(),
        ensures
            final(self).wf(),
            final(self).child_checksum() == killed.after_value(),
            final(self).parent_checksum() == old(self).parent_checksum(),
            forall|i: int|
                #[trigger] final(self).parent_of(i) == if hits(killed.killed(), i) {
                    None
                } else {
                    old(self).parent_of(i)
                },
            forall|j: int, x: Id<C>|
                #[trigger] final(self).children_of(j).contains(x) <==> (old(self).children_of(j).contains(x)
                    && !hits(killed.killed(), x.slot() as int)),
    {
        let ids = killed.ids().get();
        let ghost hs = ids@.map_values(|h: Id<C>| pair(h));
        let mut k: usize = 0;
        while k < ids.len()
            invariant
                self.wf(),
                0 <= k <= ids@.len(),
                ids@ == killed.killed(),
                hs == ids@.map_values(|h: Id<C>| pair(h)),
                self.child_checksum() == fold_kills(killed.before_value(), hs.take(k as int)),
                self.parent_checksum() == old(self).parent_checksum(),
                forall|i: int|
                    #[trigger] self.parent_of(i) == if hits(ids@.take(k as int), i) {
                        None
                    } else {
                        old(self).parent_of(i)
                    },
                forall|j: int, x: Id<C>|
                    #[trigger] self.children_of(j).contains(x) <==> (old(self).children_of(j).contains(x)
                        && !hits(ids@.take(k as int), x.slot() as int)),
            decreases ids@.len() - k,
        {
            let c = ids[k];
            self.kill_child(Valid::new(c));
            proof {
                lemma_hits_push(ids@, k as int);
                let t = hs.take(k + 1);
                assert(t.drop_last() =~= hs.take(k as int));
                assert(t.last() == pair(c));
            }
            k += 1;
        }
        proof {
            assert(ids@.take(k as int) =~= ids@);
            assert(hs.take(k as int) =~= hs);
        }
    }

    /// Whether the relation has seen exactly the kills of the children's
    /// allocator.
    pub fn is_child_synchronized(&self, children: &Allocator<C>) -> (r: bool)
        requires
            children.wf(),
        ensures
            r == (self.child_checksum() == checksum_of(children@.kills)),
    {
        self.child_gen.get() == children.alloc_gen().get()
    }

    /// The relation, marked as in step with the children's allocator.
    pub fn validate_child<'v>(&'v self, children: &'v Allocator<C>) -> (r: Valid<'v, &'v Self>)
        requires
            children.wf(),
            self.child_checksum() == checksum_of(children@.kills),
        ensures
            *r.inner() == *self,
    {
        Valid::new(self)
    }
}

impl<P: Entity<IdType = Dynamic>, C: Entity<IdType = Dynamic>> Links<P, C> {
    /// The relation, marked as in step with both allocators.
    pub fn validate<'v>(&'v self, parents: &'v Allocator<P>, children: &'v Allocator<C>) -> (r: Valid<
        'v,
        &'v Self,
    >)
        requires
            parents.wf(),
            children.wf(),
            self.parent_checksum() == checksum_of(parents@.kills),
            self.child_checksum() == checksum_of(children@.kills),
        ensures
            *r.inner() == *self,
    {
        Valid::new(self)
    }
}

impl<P: Entity, C: Entity> Clone for Links<P, C> {
    fn clone(&self) -> (r: Self) {
        Links {
            parents: self.parents.clone(),
            children: self.children.clone(),
            parent_gen: self.parent_gen.clone(),
            child_gen: self.child_gen.clone(),
        }
    }
}

impl<P: Entity, C: Entity> Default for Links<P, C> {
    fn default() -> (r: Self)
        ensures
            r.wf(),
            forall|i: int| r.parent_of(i).is_none(),
            forall|j: int| r.children_of(j).len() == 0,
            r.parent_checksum() == 0,
            r.child_checksum() == 0,
    {
        Links {
            parents: Vec::new(),
            children: Vec::new(),
            parent_gen: AllocGen::default(),
            child_gen: AllocGen::default(),
        }
    }
}

} // verus!
