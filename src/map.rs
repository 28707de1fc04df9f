//! Sparse stores: at most one value per handle, kept in step with the
//! allocator through the kill checksum.

use std::collections::hash_map::Entry;
use std::collections::HashMap;

use vstd::prelude::*;
use vstd::std_specs::iter::IteratorSpec;

use crate::allocator::{pair, Allocator, KilledIds};
use crate::entity::{Dynamic, Entity, GenTag};
use crate::gen::{checksum_of, fold_kill, fold_kills, AllocGen, Gen};
use crate::id::Id;
use crate::valid::{Valid, ValidId};

verus! {

broadcast use vstd::std_specs::hash::group_hash_axioms;

/// The hash key of the handle `(index, gen)`: both numbers packed into one.
pub open spec fn key_of(h: (u32, u16)) -> u64 {
    (h.0 as u64 * 65536 + h.1 as u64) as u64
}

proof fn lemma_key_injective(a: (u32, u16), b: (u32, u16))
    requires
        key_of(a) == key_of(b),
    ensures
        a == b,
{
    assert(a.0 == b.0 && a.1 == b.1) by (nonlinear_arith)
        requires
            a.0 as u64 * 65536 + a.1 as u64 == b.0 as u64 * 65536 + b.1 as u64,
            a.1 < 65536,
            b.1 < 65536,
    ;
}

fn key<E: Entity>(id: Id<E>) -> (r: u64)
    ensures
        r == key_of(pair(id)),
{
    (id.index_u32() as u64) * 65536 + (id.gen().get_raw() as u64)
}

/// A sparse store: at most one value per handle, in a hash map, with a
/// checksum of the kills it has been told of.
#[derive(Debug)]
pub struct RawIdMap<E: Entity, T> {
    map: HashMap<u64, (Id<E>, T)>,
    gen: AllocGen<E>,
}

impl<E: Entity, T> View for RawIdMap<E, T> {
    type V = Map<(u32, u16), T>;

    closed spec fn view(&self) -> Map<(u32, u16), T> {
        Map::new(|h: (u32, u16)| self.map@.contains_key(key_of(h)), |h: (u32, u16)| self.map@[key_of(h)].1)
    }
}

impl<E: Entity, T> RawIdMap<E, T> {
    /// Every entry sits under its own handle's key.
    pub closed spec fn wf(&self) -> bool {
        forall|k: u64| #[trigger] self.map@.contains_key(k) ==> key_of(pair(self.map@[k].0)) == k
    }

    /// The checksum of the kills this store has been told of.
    pub closed spec fn checksum(&self) -> u32 {
        self.gen.value()
    }

    /// Writes `value` for `id`, and returns the value it replaced.
    pub fn insert(&mut self, id: Id<E>, value: T) -> (r: Option<T>)
        requires
            old(self).wf(),
        ensures
            final(self).wf(),
            final(self)@ == old(self)@.insert(pair(id), value),
            final(self).checksum() == old(self).checksum(),
            r == if old(self)@.contains_key(pair(id)) {
                Some(old(self)@[pair(id)])
            } else {
                None
            },
    {
        let k = key(id);
        let r = match self.map.insert(k, (id, value)) {
            Some(entry) => Some(entry.1),
            None => None,
        };
        proof {
            assert forall|h: (u32, u16)| #[trigger] self@.contains_key(h) == old(self)@.insert(pair(id), value).contains_key(h) by {
                if key_of(h) == k {
                    lemma_key_injective(h, pair(id));
                }
            }
            assert(self@ =~= old(self)@.insert(pair(id), value));
        }
        r
    }

    /// Takes out the value of `id`, if there is one.
    pub fn remove(&mut self, id: &Id<E>) -> (r: Option<T>)
        requires
            old(self).wf(),
        ensures
            final(self).wf(),
            final(self)@ == old(self)@.remove(pair(*id)),
            final(self).checksum() == old(self).checksum(),
            r == if old(self)@.contains_key(pair(*id)) {
                Some(old(self)@[pair(*id)])
            } else {
                None
            },
    {
        let k = key(*id);
        let r = match self.map.remove(&k) {
            Some(entry) => Some(entry.1),
            None => None,
        };
        proof {
            assert forall|h: (u32, u16)| #[trigger] self@.contains_key(h) == old(self)@.remove(pair(*id)).contains_key(h) by {
                if key_of(h) == k {
                    lemma_key_injective(h, pair(*id));
                }
            }
            assert(self@ =~= old(self)@.remove(pair(*id)));
        }
        r
    }

    /// The value of `id`, if there is one.
    pub fn get(&self, id: Id<E>) -> (r: Option<&T>)
        requires
            self.wf(),
        ensures
            r == if self@.contains_key(pair(id)) {
                Some(&self@[pair(id)])
            } else {
                None
            },
    {
        let k = key(id);
        match self.map.get(&k) {
            Some(entry) => Some(&entry.1),
            None => None,
        }
    }

    /// The handles that have a value, each once, in the map's order.
    pub fn ids(&self) -> (r: Vec<Id<E>>)
        requires
            self.wf(),
        ensures
            r@.len() == self@.len(),
            forall|h: (u32, u16)| #[trigger] self@.contains_key(h) <==> r@.map_values(|x: Id<E>| pair(x)).contains(h),
    {
        proof {
            self.lemma_len();
        }
        let ghost seq = vstd::std_specs::hash::spec_hash_map_iter(&self.map).remaining();
        proof {
            broadcast use vstd::std_specs::hash::axiom_spec_hash_map_iter;
            assert(seq.len() == self.map@.dom().len());
        }
        let mut out: Vec<Id<E>> = Vec::new();
        for entry in it: self.map.iter()
            invariant
                self.wf(),
                seq == vstd::std_specs::hash::spec_hash_map_iter(&self.map).remaining(),
                it.seq() == seq,
                out@.len() == it.index(),
                forall|i: int| 0 <= i < out@.len() ==> #[trigger] out@[i] == seq[i].1.0,
        {
            out.push(entry.1.0);
        }
        proof {
            broadcast use vstd::std_specs::hash::axiom_spec_hash_map_iter;
            let ps = out@.map_values(|x: Id<E>| pair(x));
            assert forall|h: (u32, u16)| #[trigger] self@.contains_key(h) <==> ps.contains(h) by {
                if self@.contains_key(h) {
                    let k = key_of(h);
                    assert(self.map@.contains_key(k));
                    assert(seq.contains((&k, &self.map@[k])));
                    let i = choose|i: int| 0 <= i < seq.len() && seq[i] == (&k, &self.map@[k]);
                    lemma_key_injective(pair(self.map@[k].0), h);
                    assert(ps[i] == h);
                }
                if ps.contains(h) {
                    let i = choose|i: int| 0 <= i < ps.len() && ps[i] == h;
                    let k = *seq[i].0;
                    assert(self.map@.contains_key(k) && self.map@[k] == *seq[i].1);
                    assert(key_of(pair(self.map@[k].0)) == k);
                }
            }
        }
        out
    }

    /// The value of `id` to change in place, if there is one.
    pub fn get_mut(&mut self, id: Id<E>) -> (r: Option<&mut T>)
        requires
            old(self).wf(),
        ensures
            r.is_some() == old(self)@.contains_key(pair(id)),
            r.is_some() ==> {
                &&& *r.unwrap() == old(self)@[pair(id)]
                &&& final(self)@ == old(self)@.insert(pair(id), *final(r.unwrap()))
                &&& final(self).wf()
            },
            r.is_none() ==> final(self)@ == old(self)@ && final(self).wf(),
            final(self).checksum() == old(self).checksum(),
    {
        let k = key(id);
        match self.map.entry(k) {
            Entry::Occupied(o) => {
                let entry = o.into_mut();
                Some(&mut entry.1)
            },
            Entry::Vacant(_) => None,
        }
    }

    pub fn len(&self) -> (r: usize)
        requires
            self.wf(),
        ensures
            r == self@.len(),
    {
        proof {
            self.lemma_len();
        }
        self.map.len()
    }

    pub fn is_empty(&self) -> (r: bool)
        requires
            self.wf(),
        ensures
            r == (self@.len() == 0),
    {
        proof {
            self.lemma_len();
        }
        self.map.len() == 0
    }

    proof fn lemma_len(&self)
        requires
            self.wf(),
        ensures
            self@.len() == self.map@.len(),
            self@.dom().finite(),
    {
        let f = |h: (u32, u16)| key_of(h);
        assert(self.map@.dom() =~= self@.dom().map(f)) by {
            assert forall|k: u64| self.map@.dom().contains(k) implies self@.dom().map(f).contains(k) by {
                let h = pair(self.map@[k].0);
                assert(self@.dom().contains(h));
            }
        }
        assert(self@.dom() =~= self.map@.dom().map(|k: u64| pair(self.map@[k].0)));
        self.map@.dom().lemma_map_finite(|k: u64| pair(self.map@[k].0));
        assert(vstd::relations::injective_on(f, self@.dom())) by {
            assert forall|a: (u32, u16), b: (u32, u16)|
                self@.dom().contains(a) && self@.dom().contains(b) && f(a) == f(b) implies a == b by {
                lemma_key_injective(a, b);
            }
        }
        vstd::set_lib::lemma_map_size(self@.dom(), self.map@.dom(), f);
    }
}

impl<E: Entity<IdType = Dynamic>, T> RawIdMap<E, T> {
    /// Takes out the value of `id` and folds its kill into the checksum.
    pub fn kill(&mut self, id: Id<E>) -> (r: Option<T>)
        requires
            old(self).wf(),
        ensures
            final(self).wf(),
            final(self)@ == old(self)@.remove(pair(id)),
            final(self).checksum() == fold_kill(old(self).checksum(), id.slot(), Gen::next_value(id.tag_raw())),
            r == if old(self)@.contains_key(pair(id)) {
                Some(old(self)@[pair(id)])
            } else {
                None
            },
    {
        self.gen.increment(id);
        self.remove(&id)
    }

    /// Replays the kills of one `kill_many` of the allocator. The store must
    /// have seen every kill before them; it then has seen every kill after.
    pub fn kill_many(&mut self, killed: &KilledIds<E>)
        requires
            old(self).wf(),
            killed.wf(),
            old(self).checksum() == killed.before_value(),
        ensures
            final(self).wf(),
            final(self).checksum() == killed.after_value(),
            final(self)@ == old(self)@.remove_keys(
                killed.killed().map_values(|h: Id<E>| pair(h)).to_set(),
            ),
    {
        let ids = killed.ids().get();
        let ghost hs = ids@.map_values(|h: Id<E>| pair(h));
        let mut i: usize = 0;
        while i < ids.len()
            invariant
                self.wf(),
                0 <= i <= ids@.len(),
                hs == ids@.map_values(|h: Id<E>| pair(h)),
                ids@ == killed.killed(),
                self.checksum() == fold_kills(killed.before_value(), hs.take(i as int)),
                self@ == old(self)@.remove_keys(hs.take(i as int).to_set()),
            decreases ids@.len() - i,
        {
            let id = ids[i];
            self.kill(id);
            proof {
                let t = hs.take(i + 1);
                assert(t.drop_last() =~= hs.take(i as int));
                assert(t.last() == pair(id));
                assert(t.to_set() =~= hs.take(i as int).to_set().insert(pair(id))) by {
                    assert forall|h: (u32, u16)| t.to_set().contains(h) implies hs.take(i as int).to_set().insert(pair(id)).contains(h) by {
                        let j = choose|j: int| 0 <= j < t.len() && t[j] == h;
                        if j < i {
                            assert(hs.take(i as int)[j] == h);
                        }
                    }
                    assert forall|h: (u32, u16)| hs.take(i as int).to_set().insert(pair(id)).contains(h) implies t.to_set().contains(h) by {
                        if h == pair(id) {
                            assert(t[i as int] == h);
                        } else {
                            let j = choose|j: int| 0 <= j < i && hs.take(i as int)[j] == h;
                            assert(t[j] == h);
                        }
                    }
                }
                assert(self@ =~= old(self)@.remove_keys(t.to_set()));
            }
            i += 1;
        }
        assert(hs.take(i as int) =~= hs);
    }
}

impl<E: Entity, T> Default for RawIdMap<E, T> {
    fn default() -> (r: Self)
        ensures
            r.wf(),
            r@ == Map::<(u32, u16), T>::empty(),
            r.checksum() == 0,
    {
        let r = RawIdMap { map: HashMap::new(), gen: AllocGen::default() };
        assert(r@ =~= Map::<(u32, u16), T>::empty());
        r
    }
}


/// A sparse store indexed by handles that need no further check. Before its
/// contents are trusted, it is validated against the allocator: its checksum
/// must equal the allocator's, so it has seen every kill.
#[derive(Debug)]
pub struct IdMap<E: Entity, T> {
    map: RawIdMap<E, T>,
}

impl<E: Entity, T> View for IdMap<E, T> {
    type V = Map<(u32, u16), T>;

    closed spec fn view(&self) -> Map<(u32, u16), T> {
        self.map@
    }
}

impl<E: Entity, T> IdMap<E, T> {
    pub closed spec fn wf(&self) -> bool {
        self.map.wf()
    }

    /// The checksum of the kills this store has been told of.
    pub closed spec fn checksum(&self) -> u32 {
        self.map.checksum()
    }

    /// Writes `value` for `id`, and returns the value it replaced.
    pub fn insert<V: ValidId<Entity = E>>(&mut self, id: V, value: T) -> (r: Option<T>)
        requires
            old(self).wf(),
        ensures
            final(self).wf(),
            final(self)@ == old(self)@.insert(pair(id.spec_id()), value),
            final(self).checksum() == old(self).checksum(),
            r == if old(self)@.contains_key(pair(id.spec_id())) {
                Some(old(self)@[pair(id.spec_id())])
            } else {
                None
            },
    {
        self.map.insert(id.id(), value)
    }

    /// Takes out the value of `id`, if there is one.
    pub fn remove<V: ValidId<Entity = E>>(&mut self, id: V) -> (r: Option<T>)
        requires
            old(self).wf(),
        ensures
            final(self).wf(),
            final(self)@ == old(self)@.remove(pair(id.spec_id())),
            final(self).checksum() == old(self).checksum(),
            r == if old(self)@.contains_key(pair(id.spec_id())) {
                Some(old(self)@[pair(id.spec_id())])
            } else {
                None
            },
    {
        let id = id.id();
        self.map.remove(&id)
    }

    /// The value of `id`, if there is one.
    pub fn get<V: ValidId<Entity = E>>(&self, id: V) -> (r: Option<&T>)
        requires
            self.wf(),
        ensures
            r == if self@.contains_key(pair(id.spec_id())) {
                Some(&self@[pair(id.spec_id())])
            } else {
                None
            },
    {
        self.map.get(id.id())
    }

    /// The handles that have a value, each once, in the map's order.
    pub fn ids(&self) -> (r: Vec<Id<E>>)
        requires
            self.wf(),
        ensures
            r@.len() == self@.len(),
            forall|h: (u32, u16)| #[trigger] self@.contains_key(h) <==> r@.map_values(|x: Id<E>| pair(x)).contains(h),
    {
        self.map.ids()
    }

    /// The value of `id` to change in place, if there is one.
    pub fn get_mut<V: ValidId<Entity = E>>(&mut self, id: V) -> (r: Option<&mut T>)
        requires
            old(self).wf(),
        ensures
            r.is_some() == old(self)@.contains_key(pair(id.spec_id())),
            r.is_some() ==> {
                &&& *r.unwrap() == old(self)@[pair(id.spec_id())]
                &&& final(self)@ == old(self)@.insert(pair(id.spec_id()), *final(r.unwrap()))
                &&& final(self).wf()
            },
            r.is_none() ==> final(self)@ == old(self)@ && final(self).wf(),
            final(self).checksum() == old(self).checksum(),
    {
        self.map.get_mut(id.id())
    }

    pub fn len(&self) -> (r: usize)
        requires
            self.wf(),
        ensures
            r == self@.len(),
    {
        self.map.len()
    }

    pub fn is_empty(&self) -> (r: bool)
        requires
            self.wf(),
        ensures
            r == (self@.len() == 0),
    {
        self.map.is_empty()
    }
}

impl<E: Entity<IdType = Dynamic>, T> IdMap<E, T> {
    /// Takes out the value of `id` and folds its kill into the checksum.
    pub fn kill<V: ValidId<Entity = E>>(&mut self, id: V) -> (r: Option<T>)
        requires
            old(self).wf(),
        ensures
            final(self).wf(),
            final(self)@ == old(self)@.remove(pair(id.spec_id())),
            final(self).checksum() == fold_kill(
                old(self).checksum(),
                id.spec_id().slot(),
                Gen::next_value(id.spec_id().tag_raw()),
            ),
            r == if old(self)@.contains_key(pair(id.spec_id())) {
                Some(old(self)@[pair(id.spec_id())])
            } else {
                None
            },
    {
        self.map.kill(id.id())
    }

    /// Replays the kills of one `kill_many` of the allocator. The store must
    /// have seen every kill before them; it then has seen every kill after.
    pub fn kill_many(&mut self, killed: &KilledIds<E>)
        requires
            old(self).wf(),
            killed.wf(),
            old(self).checksum() == killed.before_value(),
        ensures
            final(self).wf(),
            final(self).checksum() == killed.after_value(),
            final(self)@ == old(self)@.remove_keys(
                killed.killed().map_values(|h: Id<E>| pair(h)).to_set(),
            ),
    {
        self.map.kill_many(killed);
    }

    /// Whether the store has seen exactly the kills of `alloc`.
    pub fn is_synchronized(&self, alloc: &Allocator<E>) -> (r: bool)
        requires
            alloc.wf(),
        ensures
            r == (self.checksum() == checksum_of(alloc@.kills)),
    {
        self.map.gen.get() == alloc.alloc_gen().get()
    }

    /// The store, marked as in step with `alloc`. It must have seen exactly
    /// the allocator's kills.
    pub fn validate<'v>(&'v self, alloc: &'v Allocator<E>) -> (r: Valid<'v, &'v Self>)
        requires
            alloc.wf(),
            self.checksum() == checksum_of(alloc@.kills),
        ensures
            *r.inner() == *self,
    {
        Valid::new(self)
    }

    /// The store, marked as in step with `alloc`, for changes. It must have
    /// seen exactly the allocator's kills.
    pub fn validate_mut<'v>(&'v mut self, alloc: &'v Allocator<E>) -> (r: Valid<'v, &'v mut Self>)
        requires
            alloc.wf(),
            old(self).checksum() == checksum_of(alloc@.kills),
        ensures
            *r.inner() == *old(self),
    {
        Valid::new(self)
    }
}

impl<E: Entity, T: Clone> Clone for RawIdMap<E, T> {
    fn clone(&self) -> (r: Self) {
        RawIdMap { map: self.map.clone(), gen: self.gen.clone() }
    }
}

impl<E: Entity, T: Clone> Clone for IdMap<E, T> {
    fn clone(&self) -> (r: Self) {
        IdMap { map: self.map.clone() }
    }
}

impl<E: Entity, T> Default for IdMap<E, T> {
    fn default() -> (r: Self)
        ensures
            r.wf(),
            r@ == Map::<(u32, u16), T>::empty(),
            r.checksum() == 0,
    {
        IdMap { map: RawIdMap::default() }
    }
}

} // verus!
