//! Dense stores: one value per slot index, in a contiguous sequence.

use std::marker::PhantomData;

use vstd::prelude::*;
use vstd::std_specs::cmp::PartialEqSpec;

use crate::entity::Entity;
use crate::id::Id;
use crate::valid::ValidId;

verus! {

/// The store after writing `value` at `index`: over the old value inside the
/// store, or appended just past its end.
pub open spec fn stored<T>(s: Seq<T>, index: int, value: T) -> Seq<T> {
    if index < s.len() {
        s.update(index, value)
    } else {
        s.push(value)
    }
}

/// Element-wise assignment over the common prefix: position `i` takes
/// `rhs[i]` wherever `rhs` reaches.
pub open spec fn zip_assigned<T>(s: Seq<T>, rhs: Seq<T>) -> Seq<T> {
    Seq::new(s.len(), |i: int| if i < rhs.len() { rhs[i] } else { s[i] })
}

/// Element-wise assignment of the present values: position `i` takes the
/// value of `rhs[i]` where `rhs` reaches and holds one.
pub open spec fn zip_try_assigned<T>(s: Seq<T>, rhs: Seq<Option<T>>) -> Seq<T> {
    Seq::new(
        s.len(),
        |i: int|
            if i < rhs.len() && rhs[i] is Some {
                rhs[i].unwrap()
            } else {
                s[i]
            },
    )
}

/// A dense store: one value per slot index, in a contiguous sequence.
#[derive(Debug)]
pub struct RawComponent<E, T> {
    values: Vec<T>,
    marker: PhantomData<E>,
}

impl<E, T> View for RawComponent<E, T> {
    type V = Seq<T>;

    closed spec fn view(&self) -> Seq<T> {
        self.values@
    }
}

impl<E, T> RawComponent<E, T> {
    /// A store that holds `values`, the value of slot `i` at position `i`.
    pub fn from_vec(values: Vec<T>) -> (r: Self)
        ensures
            r@ == values@,
    {
        RawComponent { values, marker: PhantomData }
    }

    pub fn len(&self) -> (r: usize)
        ensures
            r == self@.len(),
    {
        self.values.len()
    }

    pub fn is_empty(&self) -> (r: bool)
        ensures
            r == (self@.len() == 0),
    {
        self.values.len() == 0
    }

    /// The values, by slot index.
    pub fn as_slice(&self) -> (r: &[T])
        ensures
            r@ == self@,
    {
        self.values.as_slice()
    }

    /// The value at position `i`.
    pub(crate) fn at(&self, i: usize) -> (r: &T)
        requires
            i < self@.len(),
        ensures
            *r == self@[i as int],
    {
        &self.values[i]
    }

    /// Overwrites the value at position `i`.
    pub(crate) fn set_at(&mut self, i: usize, value: T)
        requires
            i < old(self)@.len(),
        ensures
            final(self)@ == old(self)@.update(i as int, value),
    {
        self.values.set(i, value);
    }

    /// Overwrites every value with a fresh one from `fill`.
    pub fn fill_with<F: Fn() -> T>(&mut self, fill: F)
        requires
            call_requires(fill, ()),
        ensures
            final(self)@.len() == old(self)@.len(),
            forall|i: int| 0 <= i < final(self)@.len() ==> call_ensures(fill, (), #[trigger] final(self)@[i]),
    {
        let n = self.values.len();
        let mut i: usize = 0;
        while i < n
            invariant
                call_requires(fill, ()),
                n == self@.len(),
                n == old(self)@.len(),
                0 <= i <= n,
                forall|j: int| 0 <= j < i ==> call_ensures(fill, (), #[trigger] self@[j]),
            decreases n - i,
        {
            let v = fill();
            self.values.set(i, v);
            i += 1;
        }
    }
}

impl<E, T> RawComponent<E, T> {
    /// Takes over the values of `rhs`, position by position, as far as both
    /// stores reach.
    pub fn assign(&mut self, rhs: RawComponent<E, T>)
        ensures
            final(self)@ == zip_assigned(old(self)@, rhs@),
    {
        let mut rest = rhs.values;
        let ghost all = rest@;
        while rest.len() > 0
            invariant
                self@.len() == old(self)@.len(),
                rest@ == all.take(rest@.len() as int),
                rest@.len() <= all.len(),
                forall|i: int|
                    0 <= i < self@.len() ==> #[trigger] self@[i] == if rest@.len() <= i < all.len() {
                        all[i]
                    } else {
                        old(self)@[i]
                    },
            decreases rest@.len(),
        {
            let v = rest.pop().unwrap();
            let i = rest.len();
            assert(rest@ =~= all.take(i as int));
            if i < self.values.len() {
                self.values.set(i, v);
            }
        }
        assert(self@ =~= zip_assigned(old(self)@, all));
    }

    /// Sets each value, position by position, to the one `rhs` holds there,
    /// where it holds one.
    pub fn try_assign(&mut self, rhs: RawComponent<E, Option<T>>)
        ensures
            final(self)@ == zip_try_assigned(old(self)@, rhs@),
    {
        let mut rest = rhs.values;
        let ghost all = rest@;
        while rest.len() > 0
            invariant
                self@.len() == old(self)@.len(),
                rest@ == all.take(rest@.len() as int),
                rest@.len() <= all.len(),
                forall|i: int|
                    0 <= i < self@.len() ==> #[trigger] self@[i] == if rest@.len() <= i < all.len()
                        && all[i] is Some {
                        all[i].unwrap()
                    } else {
                        old(self)@[i]
                    },
            decreases rest@.len(),
        {
            let v = rest.pop().unwrap();
            let i = rest.len();
            assert(rest@ =~= all.take(i as int));
            if i < self.values.len() {
                match v {
                    Some(x) => self.values.set(i, x),
                    None => {},
                }
            }
        }
        assert(self@ =~= zip_try_assigned(old(self)@, all));
    }
}

impl<E, T: Copy> RawComponent<E, T> {
    /// Copies the values of `rhs`, position by position, as far as both
    /// stores reach.
    pub fn assign_ref(&mut self, rhs: &RawComponent<E, T>)
        ensures
            final(self)@ == zip_assigned(old(self)@, rhs@),
    {
        let mut i: usize = 0;
        while i < self.values.len() && i < rhs.values.len()
            invariant
                self@.len() == old(self)@.len(),
                0 <= i <= self@.len(),
                forall|k: int| 0 <= k < self@.len() ==> #[trigger] self@[k] == if k < i && k < rhs@.len() {
                    rhs@[k]
                } else {
                    old(self)@[k]
                },
            decreases self@.len() - i,
        {
            let v = rhs.values[i];
            self.values.set(i, v);
            i += 1;
        }
        assert(self@ =~= zip_assigned(old(self)@, rhs@));
    }

    /// Copies, position by position, each value that `rhs` holds there.
    pub fn try_assign_ref(&mut self, rhs: &RawComponent<E, Option<T>>)
        ensures
            final(self)@ == zip_try_assigned(old(self)@, rhs@),
    {
        let mut i: usize = 0;
        while i < self.values.len() && i < rhs.values.len()
            invariant
                self@.len() == old(self)@.len(),
                0 <= i <= self@.len(),
                forall|k: int|
                    0 <= k < self@.len() ==> #[trigger] self@[k] == if k < i && k < rhs@.len()
                        && rhs@[k] is Some {
                        rhs@[k].unwrap()
                    } else {
                        old(self)@[k]
                    },
            decreases self@.len() - i,
        {
            match rhs.values[i] {
                Some(v) => self.values.set(i, v),
                None => {},
            }
            i += 1;
        }
        assert(self@ =~= zip_try_assigned(old(self)@, rhs@));
    }

    /// Replaces each value, position by position, with `f` of it and the
    /// value of `m` there, as far as both stores reach.
    pub fn use_assign<M, F: Fn(T, &M) -> T>(&mut self, m: &RawComponent<E, M>, f: F)
        requires
            forall|a: T, b: &M| call_requires(f, (a, b)),
        ensures
            final(self)@.len() == old(self)@.len(),
            forall|k: int|
                0 <= k < final(self)@.len() && k < m@.len() ==> call_ensures(
                    f,
                    (old(self)@[k], &m@[k]),
                    #[trigger] final(self)@[k],
                ),
            forall|k: int| m@.len() <= k < final(self)@.len() ==> #[trigger] final(self)@[k] == old(self)@[k],
    {
        let mut i: usize = 0;
        while i < self.values.len() && i < m.values.len()
            invariant
                forall|a: T, b: &M| call_requires(f, (a, b)),
                self@.len() == old(self)@.len(),
                0 <= i <= self@.len(),
                i <= m@.len(),
                forall|k: int| 0 <= k < i ==> call_ensures(f, (old(self)@[k], &m@[k]), #[trigger] self@[k]),
                forall|k: int| i <= k < self@.len() ==> #[trigger] self@[k] == old(self)@[k],
            decreases self@.len() - i,
        {
            let v = f(self.values[i], &m.values[i]);
            self.values.set(i, v);
            i += 1;
        }
    }
}

impl<E: Entity, T> RawComponent<E, T> {
    /// Writes `value` for `id`: over the value it has, or appended when `id`
    /// is the next index. An index further out is refused.
    pub fn insert(&mut self, id: Id<E>, value: T)
        requires
            id.slot() <= old(self)@.len(),
        ensures
            final(self)@ == stored(old(self)@, id.slot() as int, value),
    {
        let index = id.index();
        if index < self.values.len() {
            self.values.set(index, value);
        } else if index == self.values.len() {
            self.values.push(value);
        }
    }

    /// Writes `value` for `id`; when `id` lies beyond the next index, the gap
    /// is first filled with values from `fill`.
    pub fn insert_with<F: Fn() -> T>(&mut self, id: Id<E>, value: T, fill: F)
        requires
            call_requires(fill, ()),
        ensures
            id.slot() < old(self)@.len() ==> final(self)@ == old(self)@.update(id.slot() as int, value),
            id.slot() >= old(self)@.len() ==> {
                &&& final(self)@.len() == id.slot() + 1
                &&& final(self)@.subrange(0, old(self)@.len() as int) == old(self)@
                &&& final(self)@[id.slot() as int] == value
                &&& forall|i: int|
                    old(self)@.len() <= i < id.slot() ==> call_ensures(fill, (), #[trigger] final(self)@[i])
            },
    {
        let index = id.index();
        if index < self.values.len() {
            self.values.set(index, value);
        } else {
            let ghost start = self@;
            while self.values.len() < index
                invariant
                    call_requires(fill, ()),
                    start.len() <= self@.len() <= index,
                    self@.subrange(0, start.len() as int) == start,
                    forall|i: int| start.len() <= i < self@.len() ==> call_ensures(fill, (), #[trigger] self@[i]),
                decreases index - self@.len(),
            {
                let v = fill();
                let ghost before = self@;
                self.values.push(v);
                assert(self@.subrange(0, start.len() as int) =~= before.subrange(0, start.len() as int));
            }
            let ghost before = self@;
            self.values.push(value);
            assert(self@.subrange(0, start.len() as int) =~= before.subrange(0, start.len() as int));
        }
    }

    /// The value of `id`, if the store reaches its index.
    pub fn get(&self, id: Id<E>) -> (r: Option<&T>)
        ensures
            r == if id.slot() < self@.len() {
                Some(&self@[id.slot() as int])
            } else {
                None
            },
    {
        let index = id.index();
        if index < self.values.len() {
            Some(&self.values[index])
        } else {
            None
        }
    }

    /// The value of `id` to change in place, if the store reaches its index.
    pub fn get_mut(&mut self, id: Id<E>) -> (r: Option<&mut T>)
        ensures
            r.is_some() == (id.slot() < old(self)@.len()),
            r.is_some() ==> {
                &&& *r.unwrap() == old(self)@[id.slot() as int]
                &&& final(self)@ == old(self)@.update(id.slot() as int, *final(r.unwrap()))
            },
            r.is_none() ==> final(self)@ == old(self)@,
    {
        let index = id.index();
        if index < self.values.len() {
            Some(&mut self.values[index])
        } else {
            None
        }
    }
}

impl<E, T> Default for RawComponent<E, T> {
    fn default() -> (r: Self)
        ensures
            r@.len() == 0,
    {
        RawComponent { values: Vec::new(), marker: PhantomData }
    }
}

impl<E, T: Clone> Clone for RawComponent<E, T> {
    fn clone(&self) -> (r: Self) {
        RawComponent { values: self.values.clone(), marker: PhantomData }
    }
}

impl<E, T: PartialEq> PartialEq for RawComponent<E, T> {
    fn eq(&self, other: &Self) -> (r: bool) {
        self.values == other.values
    }
}

impl<E, T: PartialEq> vstd::std_specs::cmp::PartialEqSpecImpl for RawComponent<E, T> {
    open spec fn obeys_eq_spec() -> bool {
        T::obeys_eq_spec()
    }

    open spec fn eq_spec(&self, other: &Self) -> bool {
        &&& self@.len() == other@.len()
        &&& forall|i: int| #![auto] 0 <= i < self@.len() ==> self@[i].eq_spec(&other@[i])
    }
}

impl<E, T: Eq> Eq for RawComponent<E, T> {
}


/// Dense store invariant: writing at the next index after `N` values always
/// grows the store to `N + 1` values, the new one last and the others kept.
pub proof fn lemma_insert_next_grows<T>(s: Seq<T>, value: T)
    ensures
        stored(s, s.len() as int, value).len() == s.len() + 1,
        stored(s, s.len() as int, value).last() == value,
        stored(s, s.len() as int, value).drop_last() == s,
{
    assert(s.push(value).drop_last() =~= s);
}

/// A dense store indexed by handles that need no further check: static
/// handles, or handles validated against their allocator.
#[derive(Debug)]
pub struct Component<E, T> {
    values: RawComponent<E, T>,
}

impl<E, T> View for Component<E, T> {
    type V = Seq<T>;

    closed spec fn view(&self) -> Seq<T> {
        self.values@
    }
}

impl<E, T> Component<E, T> {
    /// A store that holds `values`, the value of slot `i` at position `i`.
    pub fn from_vec(values: Vec<T>) -> (r: Self)
        ensures
            r@ == values@,
    {
        Component { values: RawComponent::from_vec(values) }
    }

    pub fn len(&self) -> (r: usize)
        ensures
            r == self@.len(),
    {
        self.values.len()
    }

    pub fn is_empty(&self) -> (r: bool)
        ensures
            r == (self@.len() == 0),
    {
        self.values.is_empty()
    }

    /// The values, by slot index.
    pub fn as_slice(&self) -> (r: &[T])
        ensures
            r@ == self@,
    {
        self.values.as_slice()
    }

    /// Overwrites every value with a fresh one from `fill`.
    pub fn fill_with<F: Fn() -> T>(&mut self, fill: F)
        requires
            call_requires(fill, ()),
        ensures
            final(self)@.len() == old(self)@.len(),
            forall|i: int| 0 <= i < final(self)@.len() ==> call_ensures(fill, (), #[trigger] final(self)@[i]),
    {
        self.values.fill_with(fill);
    }
}

impl<E, T> Component<E, T> {
    /// Takes over the values of `rhs`, position by position, as far as both
    /// stores reach.
    pub fn assign(&mut self, rhs: Component<E, T>)
        ensures
            final(self)@ == zip_assigned(old(self)@, rhs@),
    {
        self.values.assign(rhs.values);
    }

    /// Sets each value, position by position, to the one `rhs` holds there,
    /// where it holds one.
    pub fn try_assign(&mut self, rhs: Component<E, Option<T>>)
        ensures
            final(self)@ == zip_try_assigned(old(self)@, rhs@),
    {
        self.values.try_assign(rhs.values);
    }
}

impl<E, T: Copy> Component<E, T> {
    /// Copies the values of `rhs`, position by position, as far as both
    /// stores reach.
    pub fn assign_ref(&mut self, rhs: &Component<E, T>)
        ensures
            final(self)@ == zip_assigned(old(self)@, rhs@),
    {
        self.values.assign_ref(&rhs.values);
    }

    /// Copies, position by position, each value that `rhs` holds there.
    pub fn try_assign_ref(&mut self, rhs: &Component<E, Option<T>>)
        ensures
            final(self)@ == zip_try_assigned(old(self)@, rhs@),
    {
        self.values.try_assign_ref(&rhs.values);
    }

    /// Replaces each value, position by position, with `f` of it and the
    /// value of `m` there, as far as both stores reach.
    pub fn use_assign<M, F: Fn(T, &M) -> T>(&mut self, m: &Component<E, M>, f: F)
        requires
            forall|a: T, b: &M| call_requires(f, (a, b)),
        ensures
            final(self)@.len() == old(self)@.len(),
            forall|k: int|
                0 <= k < final(self)@.len() && k < m@.len() ==> call_ensures(
                    f,
                    (old(self)@[k], &m@[k]),
                    #[trigger] final(self)@[k],
                ),
            forall|k: int| m@.len() <= k < final(self)@.len() ==> #[trigger] final(self)@[k] == old(self)@[k],
    {
        self.values.use_assign(&m.values, f);
    }
}

impl<E: Entity, T> Component<E, T> {
    /// Writes `value` for `id`: over the value it has, or appended when `id`
    /// is the next index. An index further out is refused.
    pub fn insert<V: ValidId<Entity = E>>(&mut self, id: V, value: T)
        requires
            id.spec_id().slot() <= old(self)@.len(),
        ensures
            final(self)@ == stored(old(self)@, id.spec_id().slot() as int, value),
    {
        self.values.insert(id.id(), value);
    }

    /// Writes `value` for `id`; when `id` lies beyond the next index, the gap
    /// is first filled with values from `fill`.
    pub fn insert_with<V: ValidId<Entity = E>, F: Fn() -> T>(&mut self, id: V, value: T, fill: F)
        requires
            call_requires(fill, ()),
        ensures
            id.spec_id().slot() < old(self)@.len() ==> final(self)@ == old(self)@.update(
                id.spec_id().slot() as int,
                value,
            ),
            id.spec_id().slot() >= old(self)@.len() ==> {
                &&& final(self)@.len() == id.spec_id().slot() + 1
                &&& final(self)@.subrange(0, old(self)@.len() as int) == old(self)@
                &&& final(self)@[id.spec_id().slot() as int] == value
                &&& forall|i: int|
                    old(self)@.len() <= i < id.spec_id().slot() ==> call_ensures(
                        fill,
                        (),
                        #[trigger] final(self)@[i],
                    )
            },
    {
        self.values.insert_with(id.id(), value, fill);
    }

    /// The value of `id`, if the store reaches its index.
    pub fn get<V: ValidId<Entity = E>>(&self, id: V) -> (r: Option<&T>)
        ensures
            r == if id.spec_id().slot() < self@.len() {
                Some(&self@[id.spec_id().slot() as int])
            } else {
                None
            },
    {
        self.values.get(id.id())
    }

    /// The value of `id` to change in place, if the store reaches its index.
    pub fn get_mut<V: ValidId<Entity = E>>(&mut self, id: V) -> (r: Option<&mut T>)
        ensures
            r.is_some() == (id.spec_id().slot() < old(self)@.len()),
            r.is_some() ==> {
                &&& *r.unwrap() == old(self)@[id.spec_id().slot() as int]
                &&& final(self)@ == old(self)@.update(id.spec_id().slot() as int, *final(r.unwrap()))
            },
            r.is_none() ==> final(self)@ == old(self)@,
    {
        self.values.get_mut(id.id())
    }
}

impl<E, T> Default for Component<E, T> {
    fn default() -> (r: Self)
        ensures
            r@.len() == 0,
    {
        Component { values: RawComponent::default() }
    }
}

impl<E, T: Clone> Clone for Component<E, T> {
    fn clone(&self) -> (r: Self) {
        Component { values: self.values.clone() }
    }
}

impl<E, T: PartialEq> PartialEq for Component<E, T> {
    fn eq(&self, other: &Self) -> (r: bool) {
        self.values == other.values
    }
}

impl<E, T: PartialEq> vstd::std_specs::cmp::PartialEqSpecImpl for Component<E, T> {
    open spec fn obeys_eq_spec() -> bool {
        T::obeys_eq_spec()
    }

    open spec fn eq_spec(&self, other: &Self) -> bool {
        &&& self@.len() == other@.len()
        &&& forall|i: int| #![auto] 0 <= i < self@.len() ==> self@[i].eq_spec(&other@[i])
    }
}

impl<E, T: Eq> Eq for Component<E, T> {
}

} // verus!
