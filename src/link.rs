//! One-to-one links from source entities to target entities.

use std::marker::PhantomData;

use vstd::prelude::*;

use crate::allocator::{pair, KilledIds};
use crate::component::{stored, RawComponent};
use crate::entity::{Dynamic, Entity};
use crate::gen::{fold_kill, fold_kills, AllocGen, Gen};
use crate::id::Id;
use crate::id_link::cleared;
use crate::valid::ValidId;

verus! {

/// Links that may be absent, and can be removed.
pub struct Optional;

/// Links that every source has once it is linked.
pub struct Required;

/// The link left in place after the kills `s` of targets: cleared where it
/// pointed at one of them.
pub open spec fn dropped<T: Entity>(link: Option<Id<T>>, s: Seq<(u32, u16)>) -> Option<Id<T>> {
    match link {
        Some(t) => if s.contains(pair(t)) {
            None
        } else {
            Some(t)
        },
        None => None,
    }
}

/// For each source entity, a link to at most one target entity, with the
/// checksums of the kills of both kinds that it has been told of.
#[derive(Debug)]
pub struct RawLinks<S: Entity, T: Entity, L> {
    raw: RawComponent<S, Option<Id<T>>>,
    source_gen: AllocGen<S>,
    target_gen: AllocGen<T>,
    marker: PhantomData<L>,
}

impl<S: Entity, T: Entity, L> View for RawLinks<S, T, L> {
    type V = Seq<Option<Id<T>>>;

    closed spec fn view(&self) -> Seq<Option<Id<T>>> {
        self.raw@
    }
}

impl<S: Entity, T: Entity, L> RawLinks<S, T, L> {
    /// The checksum of the source kills this store has been told of.
    pub closed spec fn source_checksum(&self) -> u32 {
        self.source_gen.value()
    }

    /// The checksum of the target kills this store has been told of.
    pub closed spec fn target_checksum(&self) -> u32 {
        self.target_gen.value()
    }

    /// The target of `source`, if it has one.
    pub fn get(&self, source: Id<S>) -> (r: Option<Id<T>>)
        ensures
            r == if source.slot() < self@.len() {
                self@[source.slot() as int]
            } else {
                None
            },
    {
        match self.raw.get(source) {
            Some(link) => *link,
            None => None,
        }
    }
}

impl<S: Entity, T: Entity, L> Default for RawLinks<S, T, L> {
    fn default() -> (r: Self)
        ensures
            r@.len() == 0,
            r.source_checksum() == 0,
            r.target_checksum() == 0,
    {
        RawLinks {
            raw: RawComponent::default(),
            source_gen: AllocGen::default(),
            target_gen: AllocGen::default(),
            marker: PhantomData,
        }
    }
}

impl<S: Entity, T: Entity> RawLinks<S, T, Optional> {
    /// Links `source` to `target`; sources skipped over get no link.
    pub fn link(&mut self, source: Id<S>, target: Id<T>)
        ensures
            final(self)@.len() == if source.slot() < old(self)@.len() {
                old(self)@.len() as int
            } else {
                source.slot() + 1
            },
            forall|i: int|
                0 <= i < final(self)@.len() ==> #[trigger] final(self)@[i] == if i == source.slot() {
                    Some(target)
                } else if i < old(self)@.len() {
                    old(self)@[i]
                } else {
                    None
                },
            final(self).source_checksum() == old(self).source_checksum(),
            final(self).target_checksum() == old(self).target_checksum(),
    {
        let none = || -> (r: Option<Id<T>>)
            ensures
                r.is_none(),
            { None };
        self.raw.insert_with(source, Some(target), none);
    }

    /// Removes the link of `source`.
    pub fn unlink(&mut self, source: Id<S>)
        ensures
            source.slot() < old(self)@.len() ==> final(self)@ == old(self)@.update(source.slot() as int, None),
            source.slot() >= old(self)@.len() ==> final(self)@ == old(self)@,
            final(self).source_checksum() == old(self).source_checksum(),
            final(self).target_checksum() == old(self).target_checksum(),
    {
        let i = source.index();
        if i < self.raw.len() {
            self.raw.set_at(i, None);
        }
    }
}

impl<S: Entity, T: Entity> RawLinks<S, T, Required> {
    /// Links `source` to `target`. The source is the next one, or already
    /// has a link.
    pub fn link(&mut self, source: Id<S>, target: Id<T>)
        requires
            source.slot() <= old(self)@.len(),
        ensures
            final(self)@ == stored(old(self)@, source.slot() as int, Some(target)),
            final(self).source_checksum() == old(self).source_checksum(),
            final(self).target_checksum() == old(self).target_checksum(),
    {
        self.raw.insert(source, Some(target));
    }
}

impl<S: Entity, T: Entity<IdType = Dynamic>> RawLinks<S, T, Optional> {
    /// Removes every link to `target` and folds its kill into the target
    /// checksum.
    pub fn kill_target(&mut self, target: Id<T>)
        ensures
            final(self)@.len() == old(self)@.len(),
            forall|i: int| 0 <= i < final(self)@.len() ==> #[trigger] final(self)@[i] == cleared(old(self)@[i], target),
            final(self).source_checksum() == old(self).source_checksum(),
            final(self).target_checksum() == fold_kill(
                old(self).target_checksum(),
                target.slot(),
                Gen::next_value(target.tag_raw()),
            ),
    {
        let n = self.raw.len();
        let mut i: usize = 0;
        while i < n
            invariant
                n == self@.len(),
                n == old(self)@.len(),
                0 <= i <= n,
                forall|k: int| 0 <= k < i ==> #[trigger] self@[k] == cleared(old(self)@[k], target),
                forall|k: int| i <= k < n ==> #[trigger] self@[k] == old(self)@[k],
                self.source_gen == old(self).source_gen,
                self.target_gen == old(self).target_gen,
            decreases n - i,
        {
            match *self.raw.at(i) {
                Some(t) => {
                    if t == target {
                        self.raw.set_at(i, None);
                    }
                },
                None => {},
            }
            i += 1;
        }
        self.target_gen.increment(target);
    }

    /// Replays the kills of one `kill_many` of the targets' allocator. The
    /// store must have seen every target kill before them.
    pub fn kill_targets(&mut self, killed: &KilledIds<T>)
        requires
            killed.wf(),
            old(self).target_checksum() == killed.before_value(),
        ensures
            final(self).target_checksum() == killed.after_value(),
            final(self).source_checksum() == old(self).source_checksum(),
            final(self)@.len() == old(self)@.len(),
            forall|i: int|
                0 <= i < final(self)@.len() ==> #[trigger] final(self)@[i] == dropped(
                    old(self)@[i],
                    killed.killed().map_values(|h: Id<T>| pair(h)),
                ),
    {
        let ids = killed.ids().get();
        let ghost hs = ids@.map_values(|h: Id<T>| pair(h));
        let mut k: usize = 0;
        while k < ids.len()
            invariant
                0 <= k <= ids@.len(),
                ids@ == killed.killed(),
                hs == ids@.map_values(|h: Id<T>| pair(h)),
                self.target_checksum() == fold_kills(killed.before_value(), hs.take(k as int)),
                self.source_checksum() == old(self).source_checksum(),
                self@.len() == old(self)@.len(),
                forall|i: int|
                    0 <= i < self@.len() ==> #[trigger] self@[i] == dropped(old(self)@[i], hs.take(k as int)),
            decreases ids@.len() - k,
        {
            let t = ids[k];
            let ghost before = self@;
            self.kill_target(t);
            proof {
                let s0 = hs.take(k as int);
                let s1 = hs.take(k + 1);
                assert(s1 =~= s0.push(pair(t)));
                assert(s1.drop_last() =~= s0);
                assert forall|i: int| 0 <= i < self@.len() implies #[trigger] self@[i] == dropped(old(self)@[i], s1) by {
                    assert(self@[i] == cleared(before[i], t));
                    match old(self)@[i] {
                        Some(x) => {
                            assert(s1.contains(pair(x)) <==> (s0.contains(pair(x)) || pair(x) == pair(t))) by {
                                if s1.contains(pair(x)) {
                                    let m = choose|m: int| 0 <= m < s1.len() && s1[m] == pair(x);
                                    if m < s0.len() {
                                        assert(s0[m] == pair(x));
                                    }
                                }
                                if s0.contains(pair(x)) {
                                    let m = choose|m: int| 0 <= m < s0.len() && s0[m] == pair(x);
                                    assert(s1[m] == pair(x));
                                }
                                if pair(x) == pair(t) {
                                    assert(s1[s0.len() as int] == pair(x));
                                }
                            }
                        },
                        None => {},
                    }
                }
            }
            k += 1;
        }
        proof {
            assert(hs.take(k as int) =~= hs);
        }
    }
}

impl<S: Entity<IdType = Dynamic>, T: Entity> RawLinks<S, T, Optional> {
    /// Removes the link of the killed `source` and folds its kill into the
    /// source checksum.
    pub fn kill_source(&mut self, source: Id<S>)
        ensures
            source.slot() < old(self)@.len() ==> final(self)@ == old(self)@.update(source.slot() as int, None),
            source.slot() >= old(self)@.len() ==> final(self)@ == old(self)@,
            final(self).target_checksum() == old(self).target_checksum(),
            final(self).source_checksum() == fold_kill(
                old(self).source_checksum(),
                source.slot(),
                Gen::next_value(source.tag_raw()),
            ),
    {
        self.unlink(source);
        self.source_gen.increment(source);
    }

    /// Replays the kills of one `kill_many` of the sources' allocator. The
    /// store must have seen every source kill before them.
    pub fn kill_sources(&mut self, killed: &KilledIds<S>)
        requires
            killed.wf(),
            old(self).source_checksum() == killed.before_value(),
        ensures
            final(self).source_checksum() == killed.after_value(),
            final(self).target_checksum() == old(self).target_checksum(),
            final(self)@.len() == old(self)@.len(),
            forall|i: int|
                0 <= i < final(self)@.len() ==> #[trigger] final(self)@[i] == if killed.killed().map_values(
                    |h: Id<S>| h.slot() as int,
                ).contains(i) {
                    None
                } else {
                    old(self)@[i]
                },
    {
        let ids = killed.ids().get();
        let ghost hs = ids@.map_values(|h: Id<S>| pair(h));
        let ghost ss = ids@.map_values(|h: Id<S>| h.slot() as int);
        let mut k: usize = 0;
        while k < ids.len()
            invariant
                0 <= k <= ids@.len(),
                ids@ == killed.killed(),
                hs == ids@.map_values(|h: Id<S>| pair(h)),
                ss == ids@.map_values(|h: Id<S>| h.slot() as int),
                self.source_checksum() == fold_kills(killed.before_value(), hs.take(k as int)),
                self.target_checksum() == old(self).target_checksum(),
                self@.len() == old(self)@.len(),
                forall|i: int|
                    0 <= i < self@.len() ==> #[trigger] self@[i] == if ss.take(k as int).contains(i) {
                        None
                    } else {
                        old(self)@[i]
                    },
            decreases ids@.len() - k,
        {
            let s = ids[k];
            self.kill_source(s);
            proof {
                let t0 = ss.take(k as int);
                let t1 = ss.take(k + 1);
                assert(t1 =~= t0.push(s.slot() as int));
                assert(hs.take(k + 1).drop_last() =~= hs.take(k as int));
                assert forall|i: int| 0 <= i < self@.len() implies #[trigger] self@[i] == if t1.contains(i) {
                    None
                } else {
                    old(self)@[i]
                } by {
                    assert(t1.contains(i) <==> (t0.contains(i) || i == s.slot())) by {
                        if t1.contains(i) {
                            let m = choose|m: int| 0 <= m < t1.len() && t1[m] == i;
                            if m < t0.len() {
                                assert(t0[m] == i);
                            }
                        }
                        if t0.contains(i) {
                            let m = choose|m: int| 0 <= m < t0.len() && t0[m] == i;
                            assert(t1[m] == i);
                        }
                        if i == s.slot() {
                            assert(t1[t0.len() as int] == i);
                        }
                    }
                }
            }
            k += 1;
        }
        proof {
            assert(ss.take(k as int) =~= ss);
            assert(hs.take(k as int) =~= hs);
        }
    }
}

/// Source-to-target links that take handles needing no further check.
#[derive(Debug)]
pub struct Links<S: Entity, T: Entity, L> {
    raw: RawLinks<S, T, L>,
}

impl<S: Entity, T: Entity, L> View for Links<S, T, L> {
    type V = Seq<Option<Id<T>>>;

    closed spec fn view(&self) -> Seq<Option<Id<T>>> {
        self.raw@
    }
}

impl<S: Entity, T: Entity, L> Default for Links<S, T, L> {
    fn default() -> (r: Self)
        ensures
            r@.len() == 0,
    {
        Links { raw: RawLinks::default() }
    }
}

impl<S: Entity, T: Entity, L> Links<S, T, L> {
    /// The target of `source`, if it has one.
    pub fn get<VS: ValidId<Entity = S>>(&self, source: VS) -> (r: Option<Id<T>>)
        ensures
            r == if source.spec_id().slot() < self@.len() {
                self@[source.spec_id().slot() as int]
            } else {
                None
            },
    {
        self.raw.get(source.id())
    }
}

impl<S: Entity, T: Entity> Links<S, T, Optional> {
    /// Links `source` to `target`; sources skipped over get no link.
    pub fn link<VS: ValidId<Entity = S>, VT: ValidId<Entity = T>>(&mut self, source: VS, target: VT)
        ensures
            forall|i: int|
                0 <= i < final(self)@.len() ==> #[trigger] final(self)@[i] == if i == source.spec_id().slot() {
                    Some(target.spec_id())
                } else if i < old(self)@.len() {
                    old(self)@[i]
                } else {
                    None
                },
            final(self)@.len() == if source.spec_id().slot() < old(self)@.len() {
                old(self)@.len() as int
            } else {
                source.spec_id().slot() + 1
            },
    {
        self.raw.link(source.id(), target.id());
    }
}

impl<S: Entity, T: Entity> Links<S, T, Required> {
    /// Links `source` to `target`. The source is the next one, or already
    /// has a link.
    pub fn link<VS: ValidId<Entity = S>, VT: ValidId<Entity = T>>(&mut self, source: VS, target: VT)
        requires
            source.spec_id().slot() <= old(self)@.len(),
        ensures
            final(self)@ == stored(old(self)@, source.spec_id().slot() as int, Some(target.spec_id())),
    {
        self.raw.link(source.id(), target.id());
    }
}

} // verus!
