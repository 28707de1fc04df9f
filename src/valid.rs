//! Values marked as checked against their allocator, and the handles that
//! may index a collection without a further check.

use std::marker::PhantomData;

use vstd::prelude::*;
use vstd::std_specs::cmp::PartialEqSpec;

use crate::entity::{Entity, Static};
use crate::id::Id;

verus! {

/// A value together with the claim that it was checked against its
/// allocator: a live handle, or a collection in step with the allocator.
#[derive(Debug)]
pub struct Valid<'v, T> {
    pub value: T,
    marker: PhantomData<&'v ()>,
}

impl<'v, T> Valid<'v, T> {
    /// The value the claim is about.
    pub closed spec fn inner(self) -> T {
        self.value
    }

    pub fn new(value: T) -> (r: Self)
        ensures
            r.inner() == value,
    {
        Valid { value, marker: PhantomData }
    }

    /// The checked value.
    pub fn get(&self) -> (r: &T)
        ensures
            *r == self.inner(),
    {
        &self.value
    }

    /// A claim about a borrow of the value.
    pub fn as_ref(&self) -> (r: Valid<'v, &T>)
        ensures
            *r.inner() == self.inner(),
    {
        Valid { value: &self.value, marker: PhantomData }
    }

    /// Gives up the claim.
    pub fn into_inner(self) -> (r: T)
        ensures
            r == self.inner(),
    {
        self.value
    }
}

impl<'v, 'a, T> Valid<'v, &'a T> {
    /// A claim about a shared borrow.
    pub fn new_ref(value: &'a T) -> (r: Self)
        ensures
            *r.inner() == *value,
    {
        Valid { value, marker: PhantomData }
    }
}

impl<'v, 'a, T> Valid<'v, &'a mut T> {
    /// A claim about a mutable borrow.
    pub fn new_mut(value: &'a mut T) -> (r: Self)
        ensures
            *r.inner() == *old(value),
    {
        Valid { value, marker: PhantomData }
    }
}

impl<'v, T: Clone> Clone for Valid<'v, T> {
    fn clone(&self) -> (r: Self) {
        Valid { value: self.value.clone(), marker: PhantomData }
    }
}

impl<'v, T: Copy> Copy for Valid<'v, T> {
}

impl<'v, T: PartialEq> PartialEq for Valid<'v, T> {
    fn eq(&self, other: &Self) -> (r: bool) {
        self.value.eq(&other.value)
    }
}

impl<'v, T: PartialEq> vstd::std_specs::cmp::PartialEqSpecImpl for Valid<'v, T> {
    open spec fn obeys_eq_spec() -> bool {
        T::obeys_eq_spec()
    }

    open spec fn eq_spec(&self, other: &Self) -> bool {
        self.inner().eq_spec(&other.inner())
    }
}

impl<'v, T: Eq> Eq for Valid<'v, T> {
}

impl<'v, T: PartialEq> PartialEq<T> for Valid<'v, T> {
    fn eq(&self, other: &T) -> (r: bool) {
        self.value.eq(other)
    }
}

impl<'v, T: PartialEq> vstd::std_specs::cmp::PartialEqSpecImpl<T> for Valid<'v, T> {
    open spec fn obeys_eq_spec() -> bool {
        T::obeys_eq_spec()
    }

    open spec fn eq_spec(&self, other: &T) -> bool {
        self.inner().eq_spec(other)
    }
}


impl<'v, E: Entity> PartialEq<Valid<'v, Id<E>>> for Id<E> {
    fn eq(&self, other: &Valid<'v, Id<E>>) -> (r: bool) {
        *self == other.value
    }
}

impl<'v, E: Entity> vstd::std_specs::cmp::PartialEqSpecImpl<Valid<'v, Id<E>>> for Id<E> {
    open spec fn obeys_eq_spec() -> bool {
        true
    }

    open spec fn eq_spec(&self, other: &Valid<'v, Id<E>>) -> bool {
        self.slot() == other.inner().slot() && self.tag_raw() == other.inner().tag_raw()
    }
}

/// Hands out the items of a checked collection, each marked as checked.
pub struct ValidIter<'v, T> {
    rev: Vec<T>,
    marker: PhantomData<&'v ()>,
}

impl<'v, T> ValidIter<'v, T> {
    /// The items still to come, in order.
    pub closed spec fn remaining(&self) -> Seq<T> {
        self.rev@.reverse()
    }

    /// The next item, if any.
    pub fn next(&mut self) -> (r: Option<Valid<'v, T>>)
        ensures
            old(self).remaining().len() == 0 ==> r.is_none() && final(self).remaining() == old(self).remaining(),
            old(self).remaining().len() > 0 ==> {
                &&& r.is_some()
                &&& r.unwrap().inner() == old(self).remaining()[0]
                &&& final(self).remaining() == old(self).remaining().drop_first()
            },
    {
        let ghost before = self.rev@;
        match self.rev.pop() {
            Some(v) => {
                assert(self.rev@.reverse() =~= before.reverse().drop_first());
                Some(Valid::new(v))
            },
            None => None,
        }
    }
}

impl<'v, T> Valid<'v, Vec<T>> {
    /// The items, in order, each marked as checked.
    pub fn into_iter(self) -> (r: ValidIter<'v, T>)
        ensures
            r.remaining() == self.inner()@,
    {
        let mut items = self.value;
        let ghost all = items@;
        let mut rev: Vec<T> = Vec::new();
        while items.len() > 0
            invariant
                all == items@ + rev@.reverse(),
            decreases items@.len(),
        {
            let ghost (i0, r0) = (items@, rev@);
            let v = items.pop().unwrap();
            rev.push(v);
            assert(all =~= items@ + rev@.reverse()) by {
                assert(rev@.reverse() =~= seq![v] + r0.reverse());
                assert(i0 =~= items@.push(v));
            }
        }
        assert(all =~= rev@.reverse());
        ValidIter { rev, marker: PhantomData }
    }
}

impl<'v, 'a, T> Valid<'v, &'a Vec<T>> {
    /// Borrows of the items, in order, each marked as checked.
    pub fn into_iter(self) -> (r: ValidIter<'v, &'a T>)
        ensures
            r.remaining().len() == self.inner()@.len(),
            forall|i: int| 0 <= i < r.remaining().len() ==> *r.remaining()[i] == self.inner()@[i],
    {
        let items: &'a Vec<T> = self.value;
        let mut rev: Vec<&'a T> = Vec::new();
        let mut i: usize = items.len();
        while i > 0
            invariant
                0 <= i <= items@.len(),
                rev@.len() == items@.len() - i,
                forall|k: int| 0 <= k < rev@.len() ==> *rev@[k] == items@[items@.len() - 1 - k],
            decreases i,
        {
            i -= 1;
            rev.push(&items[i]);
        }
        ValidIter { rev, marker: PhantomData }
    }
}

/// A handle that may index a collection without a further check: a static
/// handle, which is never killed, or a handle marked as checked.
pub trait ValidId: Copy {
    type Entity: Entity;

    /// The handle.
    spec fn spec_id(self) -> Id<Self::Entity>;

    fn id(self) -> (r: Id<Self::Entity>)
        ensures
            r == self.spec_id(),
    ;
}

impl<E: Entity<IdType = Static>> ValidId for Id<E> {
    type Entity = E;

    open spec fn spec_id(self) -> Id<E> {
        self
    }

    fn id(self) -> (r: Id<E>) {
        self
    }
}

impl<'a, E: Entity<IdType = Static>> ValidId for &'a Id<E> {
    type Entity = E;

    open spec fn spec_id(self) -> Id<E> {
        *self
    }

    fn id(self) -> (r: Id<E>) {
        *self
    }
}

impl<'v, E: Entity> ValidId for Valid<'v, Id<E>> {
    type Entity = E;

    open spec fn spec_id(self) -> Id<E> {
        self.inner()
    }

    fn id(self) -> (r: Id<E>) {
        self.value
    }
}

impl<'a, 'v, E: Entity> ValidId for &'a Valid<'v, Id<E>> {
    type Entity = E;

    open spec fn spec_id(self) -> Id<E> {
        self.inner()
    }

    fn id(self) -> (r: Id<E>) {
        self.value
    }
}

impl<'a, 'v, E: Entity> ValidId for Valid<'v, &'a Id<E>> {
    type Entity = E;

    open spec fn spec_id(self) -> Id<E> {
        *self.inner()
    }

    fn id(self) -> (r: Id<E>) {
        *self.value
    }
}

} // verus!
