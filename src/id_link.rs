//! Links to dynamic entities that are pruned lazily, by a liveness scan,
//! when the store finds itself out of step with the allocator.

use vstd::prelude::*;

use crate::allocator::{model_alive, pair, Allocator};
use crate::component::RawComponent;
use crate::entity::{Dynamic, Entity};
use crate::gen::{checksum_of, fold_kill, AllocGen, Gen};
use crate::id::Id;
use crate::valid::{Valid, ValidId};

verus! {

/// The link left in place by a kill of `target`: cleared where it pointed at
/// the killed handle.
pub open spec fn cleared<B: Entity>(link: Option<Id<B>>, target: Id<B>) -> Option<Id<B>> {
    match link {
        Some(t) => if pair(t) == pair(target) {
            None
        } else {
            Some(t)
        },
        None => None,
    }
}

/// A link kept only while its target is alive in `m`.
pub open spec fn living<B: Entity>(m: crate::allocator::AllocModel, link: Option<Id<B>>) -> Option<Id<B>> {
    match link {
        Some(t) => if model_alive(m, t.slot(), t.tag_raw()) {
            Some(t)
        } else {
            None
        },
        None => None,
    }
}

/// For each entity of `A`, an optional link to a dynamic entity of `B`, with
/// a checksum of the kills of `B` it has been told of. When it falls out of
/// step with `B`'s allocator, it drops the links to dead entities by a full
/// scan.
#[derive(Debug)]
pub struct IdLink<A: Entity, B: Entity> {
    component: RawComponent<A, Option<Id<B>>>,
    generation: AllocGen<B>,
}

impl<A: Entity, B: Entity> View for IdLink<A, B> {
    type V = Seq<Option<Id<B>>>;

    closed spec fn view(&self) -> Seq<Option<Id<B>>> {
        self.component@
    }
}

impl<A: Entity, B: Entity> IdLink<A, B> {
    /// The checksum of the kills of `B` this store has been told of.
    pub closed spec fn checksum(&self) -> u32 {
        self.generation.value()
    }

    /// Sets the link of `id`: over the one it has, or appended when `id` is
    /// the next index.
    pub fn insert<IA: ValidId<Entity = A>, IB: ValidId<Entity = B>>(&mut self, id: IA, link: Option<IB>)
        requires
            id.spec_id().slot() <= old(self)@.len(),
        ensures
            final(self)@ == crate::component::stored(
                old(self)@,
                id.spec_id().slot() as int,
                match link {
                    Some(l) => Some(l.spec_id()),
                    None => None,
                },
            ),
            final(self).checksum() == old(self).checksum(),
    {
        let target = match link {
            Some(l) => Some(l.id()),
            None => None,
        };
        self.component.insert(id.id(), target);
    }

    /// Clears the link of `id`, if the store reaches its index.
    pub fn remove<IA: ValidId<Entity = A>>(&mut self, id: IA)
        ensures
            id.spec_id().slot() < old(self)@.len() ==> final(self)@ == old(self)@.update(
                id.spec_id().slot() as int,
                None,
            ),
            id.spec_id().slot() >= old(self)@.len() ==> final(self)@ == old(self)@,
            final(self).checksum() == old(self).checksum(),
    {
        let i = id.id().index();
        if i < self.component.len() {
            self.component.set_at(i, None);
        }
    }

    /// The link of `id`, if the store reaches its index.
    pub fn get<IA: ValidId<Entity = A>>(&self, id: IA) -> (r: Option<Id<B>>)
        ensures
            r == if id.spec_id().slot() < self@.len() {
                self@[id.spec_id().slot() as int]
            } else {
                None
            },
    {
        match self.component.get(id.id()) {
            Some(link) => *link,
            None => None,
        }
    }
}

impl<A: Entity, B: Entity> Default for IdLink<A, B> {
    fn default() -> (r: Self)
        ensures
            r@.len() == 0,
            r.checksum() == 0,
    {
        IdLink { component: RawComponent::default(), generation: AllocGen::default() }
    }
}

impl<A: Entity, B: Entity<IdType = Dynamic>> IdLink<A, B> {
    /// Clears every link to `target` and folds its kill into the checksum.
    pub fn kill(&mut self, target: Id<B>)
        ensures
            final(self)@.len() == old(self)@.len(),
            forall|i: int| 0 <= i < final(self)@.len() ==> #[trigger] final(self)@[i] == cleared(old(self)@[i], target),
            final(self).checksum() == fold_kill(
                old(self).checksum(),
                target.slot(),
                Gen::next_value(target.tag_raw()),
            ),
    {
        let n = self.component.len();
        let mut i: usize = 0;
        while i < n
            invariant
                n == self@.len(),
                n == old(self)@.len(),
                0 <= i <= n,
                forall|k: int| 0 <= k < i ==> #[trigger] self@[k] == cleared(old(self)@[k], target),
                forall|k: int| i <= k < n ==> #[trigger] self@[k] == old(self)@[k],
                self.generation == old(self).generation,
            decreases n - i,
        {
            match *self.component.at(i) {
                Some(t) => {
                    if t == target {
                        self.component.set_at(i, None);
                    }
                },
                None => {},
            }
            i += 1;
        }
        self.generation.increment(target);
    }

    /// Whether the store has seen exactly the kills of `alloc`.
    pub fn is_synchronized(&self, alloc: &Allocator<B>) -> (r: bool)
        requires
            alloc.wf(),
        ensures
            r == (self.checksum() == checksum_of(alloc@.kills)),
    {
        self.generation.get() == alloc.alloc_gen().get()
    }

    /// Brings the store in step with `alloc`, then marks it as such. A store
    /// that has missed kills keeps only the links whose target is alive.
    pub fn validate<'a>(&'a mut self, alloc: &'a Allocator<B>) -> (r: Valid<'a, &'a Self>)
        requires
            alloc.wf(),
        ensures
            final(self).checksum() == checksum_of(alloc@.kills),
            old(self).checksum() == checksum_of(alloc@.kills) ==> final(self)@ == old(self)@,
            old(self).checksum() != checksum_of(alloc@.kills) ==> {
                &&& final(self)@.len() == old(self)@.len()
                &&& forall|i: int|
                    0 <= i < final(self)@.len() ==> #[trigger] final(self)@[i] == living(alloc@, old(self)@[i])
            },
            *r.inner() == *final(self),
    {
        if !self.is_synchronized(alloc) {
            self.retain_living(alloc);
        }
        Valid::new(self)
    }

    /// Brings the store in step with `alloc`, then marks it as such, for
    /// changes. A store that has missed kills keeps only the links whose
    /// target is alive.
    pub fn validate_mut<'a>(&'a mut self, alloc: &'a Allocator<B>) -> (r: Valid<'a, &'a mut Self>)
        requires
            alloc.wf(),
        ensures
            old(self).checksum() == checksum_of(alloc@.kills) ==> (*r.inner())@ == old(self)@,
            old(self).checksum() != checksum_of(alloc@.kills) ==> {
                &&& (*r.inner())@.len() == old(self)@.len()
                &&& forall|i: int|
                    0 <= i < (*r.inner())@.len() ==> #[trigger] (*r.inner())@[i] == living(alloc@, old(self)@[i])
            },
            (*r.inner()).checksum() == checksum_of(alloc@.kills),
    {
        if !self.is_synchronized(alloc) {
            self.retain_living(alloc);
        }
        Valid::new(self)
    }

    /// Drops every link whose target is dead in `alloc`, and takes over the
    /// allocator's checksum.
    fn retain_living(&mut self, alloc: &Allocator<B>)
        requires
            alloc.wf(),
        ensures
            final(self).checksum() == checksum_of(alloc@.kills),
            final(self)@.len() == old(self)@.len(),
            forall|i: int| 0 <= i < final(self)@.len() ==> #[trigger] final(self)@[i] == living(alloc@, old(self)@[i]),
    {
        let n = self.component.len();
        let mut i: usize = 0;
        while i < n
            invariant
                alloc.wf(),
                n == self@.len(),
                n == old(self)@.len(),
                0 <= i <= n,
                forall|k: int| 0 <= k < i ==> #[trigger] self@[k] == living(alloc@, old(self)@[k]),
                forall|k: int| i <= k < n ==> #[trigger] self@[k] == old(self)@[k],
            decreases n - i,
        {
            match *self.component.at(i) {
                Some(t) => {
                    if !alloc.is_alive(t) {
                        self.component.set_at(i, None);
                    }
                },
                None => {},
            }
            i += 1;
        }
        self.generation = alloc.alloc_gen().clone();
    }
}

} // verus!
