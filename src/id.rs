//! Handles, and contiguous runs of static handles.

use std::cmp::Ordering;
use std::marker::PhantomData;

use vstd::prelude::*;

use crate::entity::{Entity, GenTag, IdType, NoGen, Static};

verus! {

/// The generation tag type of the handles of `E`.
pub type GenOf<E> = <<E as Entity>::IdType as IdType>::Gen;

/// A typed handle: a slot index and the generation of the slot's occupant.
///
/// The index is never `u32::MAX`, which stays free as a sentinel.
#[derive(Debug)]
pub struct Id<E: Entity> {
    index: u32,
    gen: GenOf<E>,
    marker: PhantomData<E>,
}

/// The lexicographic order of handles: index first, then generation.
pub open spec fn id_order(ai: u32, ag: u16, bi: u32, bg: u16) -> Ordering {
    if ai < bi {
        Ordering::Less
    } else if ai > bi {
        Ordering::Greater
    } else if ag < bg {
        Ordering::Less
    } else if ag > bg {
        Ordering::Greater
    } else {
        Ordering::Equal
    }
}

impl<E: Entity> Id<E> {
    #[verifier::type_invariant]
    spec fn inv(self) -> bool {
        self.index != u32::MAX
    }

    /// The slot index of the handle.
    pub closed spec fn slot(self) -> u32 {
        self.index
    }

    /// The generation tag of the handle.
    pub closed spec fn tag(self) -> GenOf<E> {
        self.gen
    }

    /// The generation tag of the handle, as a number.
    pub open spec fn tag_raw(self) -> u16 {
        self.tag().raw()
    }

    /// Two handles with the same index and the same generation are the same.
    pub proof fn lemma_ext(a: Self, b: Self)
        requires
            a.slot() == b.slot(),
            a.tag_raw() == b.tag_raw(),
        ensures
            a == b,
    {
        GenOf::<E>::lemma_raw_injective(a.gen, b.gen);
    }

    /// The handle of slot `index` with generation `gen`.
    pub fn new(index: u32, gen: GenOf<E>) -> (r: Self)
        requires
            index != u32::MAX,
        ensures
            r.slot() == index,
            r.tag() == gen,
    {
        Id { index, gen, marker: PhantomData }
    }

    /// The slot index.
    pub fn index(self) -> (r: usize)
        ensures
            r == self.slot(),
    {
        self.index as usize
    }

    /// The slot index as stored.
    pub fn index_u32(self) -> (r: u32)
        ensures
            r == self.slot(),
            r != u32::MAX,
    {
        proof {
            use_type_invariant(self);
        }
        self.index
    }

    /// The generation tag.
    pub fn gen(self) -> (r: GenOf<E>)
        ensures
            r == self.tag(),
    {
        self.gen
    }

    /// Compares index first, then generation.
    pub fn cmp(&self, other: &Self) -> (r: Ordering)
        ensures
            r == id_order(self.slot(), self.tag_raw(), other.slot(), other.tag_raw()),
    {
        let ag = self.gen.get_raw();
        let bg = other.gen.get_raw();
        if self.index < other.index {
            Ordering::Less
        } else if self.index > other.index {
            Ordering::Greater
        } else if ag < bg {
            Ordering::Less
        } else if ag > bg {
            Ordering::Greater
        } else {
            Ordering::Equal
        }
    }
}

impl<E: Entity> Clone for Id<E> {
    fn clone(&self) -> (r: Self)
        ensures
            r == *self,
    {
        *self
    }
}

impl<E: Entity> Copy for Id<E> {
}

impl<E: Entity> PartialEq for Id<E> {
    fn eq(&self, other: &Self) -> (r: bool) {
        self.index == other.index && self.gen.get_raw() == other.gen.get_raw()
    }
}

impl<E: Entity> vstd::std_specs::cmp::PartialEqSpecImpl for Id<E> {
    open spec fn obeys_eq_spec() -> bool {
        true
    }

    open spec fn eq_spec(&self, other: &Self) -> bool {
        self.slot() == other.slot() && self.tag_raw() == other.tag_raw()
    }
}

impl<E: Entity> Eq for Id<E> {
}

impl<E: Entity> PartialOrd for Id<E> {
    fn partial_cmp(&self, other: &Self) -> (r: Option<Ordering>) {
        Some(self.cmp(other))
    }
}

impl<E: Entity> vstd::std_specs::cmp::PartialOrdSpecImpl for Id<E> {
    open spec fn obeys_partial_cmp_spec() -> bool {
        true
    }

    open spec fn partial_cmp_spec(&self, other: &Self) -> Option<Ordering> {
        Some(id_order(self.slot(), self.tag_raw(), other.slot(), other.tag_raw()))
    }
}


/// A contiguous run of static handles: the indices `start..end`.
#[derive(Debug)]
pub struct IdRange<E> {
    start: u32,
    end: u32,
    marker: PhantomData<E>,
}

impl<E> IdRange<E> {
    /// The first index of the run.
    pub closed spec fn first(self) -> u32 {
        self.start
    }

    /// One past the last index of the run.
    pub closed spec fn bound(self) -> u32 {
        self.end
    }

    /// The number of indices in the run.
    pub open spec fn count(self) -> nat {
        if self.first() < self.bound() {
            (self.bound() - self.first()) as nat
        } else {
            0
        }
    }

    /// The run of indices `start..end`.
    pub fn new(start: u32, end: u32) -> (r: Self)
        ensures
            r.first() == start,
            r.bound() == end,
    {
        IdRange { start, end, marker: PhantomData }
    }

    /// The first index of the run.
    pub fn start(&self) -> (r: u32)
        ensures
            r == self.first(),
    {
        self.start
    }

    /// One past the last index of the run.
    pub fn end(&self) -> (r: u32)
        ensures
            r == self.bound(),
    {
        self.end
    }

    /// The indices of the run, as `usize`.
    pub fn range_usize(&self) -> (r: std::ops::Range<usize>)
        ensures
            r.start == self.first(),
            r.end == self.bound(),
    {
        (self.start as usize)..(self.end as usize)
    }

    /// The number of indices in the run.
    pub fn len(&self) -> (r: usize)
        ensures
            r == self.count(),
    {
        if self.start < self.end {
            (self.end - self.start) as usize
        } else {
            0
        }
    }

    pub fn is_empty(&self) -> (r: bool)
        ensures
            r == (self.count() == 0),
    {
        !(self.start < self.end)
    }
}

impl<E> Default for IdRange<E> {
    fn default() -> (r: Self)
        ensures
            r.first() == 0,
            r.bound() == 0,
    {
        IdRange { start: 0, end: 0, marker: PhantomData }
    }
}

impl<E> Clone for IdRange<E> {
    fn clone(&self) -> (r: Self)
        ensures
            r == *self,
    {
        *self
    }
}

impl<E> Copy for IdRange<E> {
}

impl<E> PartialEq for IdRange<E> {
    fn eq(&self, other: &Self) -> (r: bool) {
        self.start == other.start && self.end == other.end
    }
}

impl<E> vstd::std_specs::cmp::PartialEqSpecImpl for IdRange<E> {
    open spec fn obeys_eq_spec() -> bool {
        true
    }

    open spec fn eq_spec(&self, other: &Self) -> bool {
        self.first() == other.first() && self.bound() == other.bound()
    }
}

impl<E> Eq for IdRange<E> {
}

impl<E: Entity<IdType = Static>> IdRange<E> {
    /// Whether the run holds the index of `id`.
    pub fn contains(&self, id: Id<E>) -> (r: bool)
        ensures
            r == (self.first() <= id.slot() < self.bound()),
    {
        self.start <= id.index && id.index < self.end
    }

    /// The run that holds `first` through `last`, both included.
    pub fn from_inclusive(first: Id<E>, last: Id<E>) -> (r: Self)
        ensures
            r.first() == first.slot(),
            r.bound() == last.slot() + 1,
    {
        proof {
            use_type_invariant(last);
        }
        IdRange { start: first.index, end: last.index + 1, marker: PhantomData }
    }

    /// Extends the run by `id`, which must come right after its end.
    pub fn append(&mut self, id: Id<E>)
        requires
            id.slot() == old(self).bound(),
        ensures
            final(self).first() == old(self).first(),
            final(self).bound() == old(self).bound() + 1,
    {
        proof {
            use_type_invariant(id);
        }
        self.end = id.index + 1;
    }

    /// The handles of the run, in ascending order.
    pub fn into_iter(self) -> (r: RangeIter<E>)
        ensures
            r.front() == self.first(),
            r.back() == self.bound(),
    {
        RangeIter { next: self.start, end: self.end, marker: PhantomData }
    }
}

impl<E: Entity<IdType = Static>> From<Id<E>> for IdRange<E> {
    fn from(id: Id<E>) -> (r: Self) {
        proof {
            use_type_invariant(id);
        }
        IdRange { start: id.index, end: id.index + 1, marker: PhantomData }
    }
}

impl<E: Entity<IdType = Static>> vstd::std_specs::convert::FromSpecImpl<Id<E>> for IdRange<E> {
    open spec fn obeys_from_spec() -> bool {
        true
    }

    open spec fn from_spec(id: Id<E>) -> Self {
        IdRange::spec_single(id.slot())
    }
}

impl<E> IdRange<E> {
    /// The run that holds `index` alone.
    pub closed spec fn spec_single(index: u32) -> Self {
        IdRange { start: index, end: (index + 1) as u32, marker: PhantomData }
    }
}

/// Walks the handles of an [`IdRange`] from either end.
#[derive(Debug)]
pub struct RangeIter<E> {
    next: u32,
    end: u32,
    marker: PhantomData<E>,
}

impl<E> RangeIter<E> {
    /// Walks the indices of `range`.
    pub fn new(range: std::ops::Range<u32>) -> (r: Self)
        ensures
            r.front() == range.start,
            r.back() == range.end,
    {
        RangeIter { next: range.start, end: range.end, marker: PhantomData }
    }

    /// The index that `next` hands out.
    pub closed spec fn front(self) -> u32 {
        self.next
    }

    /// One past the index that `next_back` hands out.
    pub closed spec fn back(self) -> u32 {
        self.end
    }

    /// The number of handles left.
    pub open spec fn remaining(self) -> nat {
        if self.front() < self.back() {
            (self.back() - self.front()) as nat
        } else {
            0
        }
    }

    /// The handles left are exactly as many as this.
    pub fn size_hint(&self) -> (r: (usize, Option<usize>))
        ensures
            r.0 == self.remaining(),
            r.1 == Some(r.0),
    {
        let n: usize = if self.next < self.end {
            (self.end - self.next) as usize
        } else {
            0
        };
        (n, Some(n))
    }
}

impl<E> Clone for RangeIter<E> {
    fn clone(&self) -> (r: Self)
        ensures
            r.front() == self.front(),
            r.back() == self.back(),
    {
        RangeIter { next: self.next, end: self.end, marker: PhantomData }
    }
}

impl<E: Entity<IdType = Static>> RangeIter<E> {
    /// Hands out the lowest handle left.
    pub fn next(&mut self) -> (r: Option<Id<E>>)
        ensures
            old(self).front() < old(self).back() ==> {
                &&& r.is_some()
                &&& r.unwrap().slot() == old(self).front()
                &&& final(self).front() == old(self).front() + 1
                &&& final(self).back() == old(self).back()
            },
            old(self).front() >= old(self).back() ==> r.is_none() && *final(self) == *old(self),
    {
        if self.next < self.end {
            let id = Id::new(self.next, NoGen);
            self.next = self.next + 1;
            Some(id)
        } else {
            None
        }
    }

    /// Hands out the highest handle left.
    pub fn next_back(&mut self) -> (r: Option<Id<E>>)
        ensures
            old(self).front() < old(self).back() ==> {
                &&& r.is_some()
                &&& r.unwrap().slot() == old(self).back() - 1
                &&& final(self).front() == old(self).front()
                &&& final(self).back() == old(self).back() - 1
            },
            old(self).front() >= old(self).back() ==> r.is_none() && *final(self) == *old(self),
    {
        if self.next < self.end {
            self.end = self.end - 1;
            Some(Id::new(self.end, NoGen))
        } else {
            None
        }
    }
}

} // verus!
