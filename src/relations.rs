//! Parent/child relations over static entities where each parent's children
//! form a contiguous run of indices.

use vstd::prelude::*;

use crate::component::RawComponent;
use crate::entity::{Entity, NoGen, Static};
use crate::id::{Id, IdRange};
use crate::valid::ValidId;

verus! {

/// The relation of one static entity: the child of a parent, or the parent
/// of a contiguous run of children.
#[derive(Debug)]
pub enum RangeRelation<E: Entity> {
    ChildOf(Id<E>),
    ParentOf(IdRange<E>),
}

impl<E: Entity> RangeRelation<E> {
    /// The children, for a parent.
    pub fn parent_of(self) -> (r: Option<IdRange<E>>)
        ensures
            r == match self {
                RangeRelation::ParentOf(c) => Some(c),
                RangeRelation::ChildOf(_) => None::<IdRange<E>>,
            },
    {
        match self {
            RangeRelation::ParentOf(c) => Some(c),
            RangeRelation::ChildOf(_) => None,
        }
    }

    /// The parent, for a child.
    pub fn child_of(self) -> (r: Option<Id<E>>)
        ensures
            r == match self {
                RangeRelation::ChildOf(p) => Some(p),
                RangeRelation::ParentOf(_) => None::<Id<E>>,
            },
    {
        match self {
            RangeRelation::ChildOf(p) => Some(p),
            RangeRelation::ParentOf(_) => None,
        }
    }

    pub fn is_parent(&self) -> (r: bool)
        ensures
            r == self is ParentOf,
    {
        match self {
            RangeRelation::ParentOf(_) => true,
            RangeRelation::ChildOf(_) => false,
        }
    }

    pub fn is_child(&self) -> (r: bool)
        ensures
            r == self is ChildOf,
    {
        match self {
            RangeRelation::ChildOf(_) => true,
            RangeRelation::ParentOf(_) => false,
        }
    }
}

impl<E: Entity> Clone for RangeRelation<E> {
    fn clone(&self) -> (r: Self)
        ensures
            r == *self,
    {
        *self
    }
}

impl<E: Entity> Copy for RangeRelation<E> {
}

impl<E: Entity> PartialEq for RangeRelation<E> {
    fn eq(&self, other: &Self) -> (r: bool) {
        match (self, other) {
            (RangeRelation::ChildOf(a), RangeRelation::ChildOf(b)) => a == b,
            (RangeRelation::ParentOf(a), RangeRelation::ParentOf(b)) => a == b,
            _ => false,
        }
    }
}

impl<E: Entity> vstd::std_specs::cmp::PartialEqSpecImpl for RangeRelation<E> {
    open spec fn obeys_eq_spec() -> bool {
        true
    }

    open spec fn eq_spec(&self, other: &Self) -> bool {
        match (*self, *other) {
            (RangeRelation::ChildOf(a), RangeRelation::ChildOf(b)) => a.slot() == b.slot() && a.tag_raw()
                == b.tag_raw(),
            (RangeRelation::ParentOf(a), RangeRelation::ParentOf(b)) => a.first() == b.first()
                && a.bound() == b.bound(),
            _ => false,
        }
    }
}

impl<E: Entity> Eq for RangeRelation<E> {
}

/// The relations of `link(parent, children)`: the parent's run of children,
/// then each child's parent.
pub open spec fn link_entries<E: Entity>(parent: Id<E>, children: IdRange<E>) -> Seq<RangeRelation<E>> {
    seq![RangeRelation::ParentOf(children)] + Seq::new(
        children.count(),
        |k: int| RangeRelation::ChildOf(parent),
    )
}

/// A parent/child relation over one static entity kind, where each parent's
/// children form a contiguous run that follows the parent. Entities are
/// linked in index order and never unlinked.
#[derive(Debug)]
pub struct RangeRelations<E: Entity> {
    values: RawComponent<E, RangeRelation<E>>,
}

impl<E: Entity> View for RangeRelations<E> {
    type V = Seq<RangeRelation<E>>;

    closed spec fn view(&self) -> Seq<RangeRelation<E>> {
        self.values@
    }
}

impl<E: Entity<IdType = Static>> RangeRelations<E> {
    /// Links `parent` to the run `children`. The parent must be the next
    /// entity without a relation, and the run must start right after it.
    pub fn link(&mut self, parent: Id<E>, children: IdRange<E>)
        requires
            parent.slot() == old(self)@.len(),
            children.count() == 0 || children.first() == parent.slot() + 1,
            children.bound() <= u32::MAX,
        ensures
            final(self)@ == old(self)@ + link_entries(parent, children),
    {
        self.values.insert(parent, RangeRelation::ParentOf(children));
        let ghost base = old(self)@.push(RangeRelation::ParentOf(children));
        if children.start() < children.end() {
            let end = children.end();
            let mut k: u32 = children.start();
            while k < end
                invariant
                    children.first() <= k <= end,
                    end == children.bound(),
                    end <= u32::MAX,
                    children.first() == parent.slot() + 1,
                    self@.len() == k,
                    self@ == base + Seq::new(
                        (k - children.first()) as nat,
                        |m: int| RangeRelation::ChildOf(parent),
                    ),
                decreases end - k,
            {
                let child = Id::new(k, NoGen);
                self.values.insert(child, RangeRelation::ChildOf(parent));
                assert(self@ =~= base + Seq::new(
                    (k + 1 - children.first()) as nat,
                    |m: int| RangeRelation::ChildOf(parent),
                ));
                k = k + 1;
            }
            assert(self@ =~= old(self)@ + link_entries(parent, children));
        } else {
            assert(self@ =~= old(self)@ + link_entries(parent, children));
        }
    }

    /// Adds `child` to the run of `parent`. The child must be the next
    /// entity without a relation and come right after the end of the run.
    pub fn append(&mut self, parent: Id<E>, child: Id<E>)
        requires
            parent.slot() < old(self)@.len(),
            old(self)@[parent.slot() as int] is ParentOf,
            old(self)@[parent.slot() as int]->ParentOf_0.bound() == child.slot(),
            child.slot() == old(self)@.len(),
        ensures
            final(self)@.len() == old(self)@.len() + 1,
            final(self)@[child.slot() as int] == RangeRelation::ChildOf(parent),
            final(self)@[parent.slot() as int] is ParentOf,
            final(self)@[parent.slot() as int]->ParentOf_0.first() == old(self)@[parent.slot() as int]->ParentOf_0.first(),
            final(self)@[parent.slot() as int]->ParentOf_0.bound() == child.slot() + 1,
            forall|i: int|
                0 <= i < old(self)@.len() && i != parent.slot() ==> #[trigger] final(self)@[i] == old(self)@[i],
    {
        let mut run = match self.values.get(parent) {
            Some(RangeRelation::ParentOf(r)) => *r,
            // excluded by the precondition
            _ => IdRange::new(0, 0),
        };
        run.append(child);
        self.values.insert(parent, RangeRelation::ParentOf(run));
        self.values.insert(child, RangeRelation::ChildOf(parent));
    }

    /// The relation of `id`, if it has one.
    pub fn get<V: ValidId<Entity = E>>(&self, id: V) -> (r: Option<&RangeRelation<E>>)
        ensures
            r == if id.spec_id().slot() < self@.len() {
                Some(&self@[id.spec_id().slot() as int])
            } else {
                None
            },
    {
        self.values.get(id.id())
    }

    /// The handles of `ids` that are parents, in order.
    pub fn parents(&self, ids: &Vec<Id<E>>) -> (r: Vec<Id<E>>)
        ensures
            r@ == ids@.filter(
                |id: Id<E>| id.slot() < self@.len() && self@[id.slot() as int] is ParentOf,
            ),
    {
        let ghost f = |id: Id<E>| id.slot() < self@.len() && self@[id.slot() as int] is ParentOf;
        let mut out: Vec<Id<E>> = Vec::new();
        let mut i: usize = 0;
        while i < ids.len()
            invariant
                0 <= i <= ids@.len(),
                f == (|id: Id<E>| id.slot() < self@.len() && self@[id.slot() as int] is ParentOf),
                out@ == ids@.take(i as int).filter(f),
            decreases ids@.len() - i,
        {
            let id = ids[i];
            proof {
                assert(ids@.take(i + 1) =~= ids@.take(i as int).push(id));
                ids@.take(i as int).lemma_filter_push(id, f);
            }
            match self.values.get(id) {
                Some(rel) => {
                    if rel.is_parent() {
                        out.push(id);
                    }
                },
                None => {},
            }
            i += 1;
        }
        assert(ids@.take(i as int) =~= ids@);
        out
    }
}

impl<E: Entity> Default for RangeRelations<E> {
    fn default() -> (r: Self)
        ensures
            r@.len() == 0,
    {
        RangeRelations { values: RawComponent::default() }
    }
}

} // verus!
