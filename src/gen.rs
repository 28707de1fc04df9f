//! Generations of dynamic slots, and the order-sensitive checksum of kills.

use vstd::prelude::*;

use std::marker::PhantomData;

use crate::entity::{Dynamic, Entity, GenTag};
use crate::id::Id;

verus! {

/// Tracks the generation of a dynamic slot, so that handles sharing an index
/// can be told apart. Never zero.
#[derive(Debug, Clone, Copy, PartialEq, Eq, Hash, PartialOrd, Ord)]
pub struct Gen(u16);

impl Gen {
    #[verifier::type_invariant]
    spec fn inv(self) -> bool {
        self.0 != 0
    }

    /// The generation as a number.
    pub closed spec fn value(self) -> u16 {
        self.0
    }

    /// The generation that follows `g`: one more, wrapping from the largest
    /// value back to the first one.
    pub open spec fn next_value(g: u16) -> u16 {
        if g == u16::MAX {
            1
        } else {
            (g + 1) as u16
        }
    }

    /// The first generation of every slot.
    pub fn min() -> (r: Gen)
        ensures
            r.value() == 1,
    {
        Gen(1)
    }

    /// The generation with the given number, or `None` for zero.
    pub fn new(value: u16) -> (r: Option<Gen>)
        ensures
            value == 0 ==> r.is_none(),
            value != 0 ==> r.is_some() && r.unwrap().value() == value,
    {
        if value == 0 {
            None
        } else {
            Some(Gen(value))
        }
    }

    pub fn get(self) -> (r: u16)
        ensures
            r == self.value(),
            r != 0,
    {
        proof {
            use_type_invariant(self);
        }
        self.0
    }

    #[must_use]
    pub fn next(self) -> (r: Gen)
        ensures
            r.value() == Gen::next_value(self.value()),
    {
        if self.0 == u16::MAX {
            Gen(1)
        } else {
            Gen(self.0 + 1)
        }
    }
}

impl GenTag for Gen {
    open spec fn raw(&self) -> u16 {
        self.value()
    }

    fn get_raw(&self) -> (r: u16) {
        self.get()
    }

    proof fn lemma_raw_injective(a: Self, b: Self) {
    }
}


/// The CRC-32 state reached by feeding `bytes` to a hasher that starts from
/// the state `init`.
pub uninterp spec fn crc32_resume(init: u32, bytes: Seq<u8>) -> u32;

/// Relies on crc32fast's `Hasher` (`new_with_initial`, `update`, `finalize`):
/// the result is the CRC-32 of `bytes` resumed from `init`, which depends on
/// these two alone.
#[verifier::external_body]
fn crc32_continue(init: u32, bytes: &[u8]) -> (r: u32)
    ensures
        r == crc32_resume(init, bytes@),
{
    let mut hasher = crc32fast::Hasher::new_with_initial(init);
    hasher.update(bytes);
    hasher.finalize()
}

/// The bytes that record the kill of slot `index`, whose next generation is
/// `gen`: the index, then the generation, least significant byte first.
pub open spec fn kill_record(index: u32, gen: u16) -> Seq<u8> {
    seq![
        (index & 0xff) as u8,
        ((index >> 8u32) & 0xff) as u8,
        ((index >> 16u32) & 0xff) as u8,
        ((index >> 24u32) & 0xff) as u8,
        (gen & 0xff) as u8,
        ((gen >> 8u16) & 0xff) as u16 as u8,
    ]
}

/// The checksum after one more kill.
pub open spec fn fold_kill(prior: u32, index: u32, gen: u16) -> u32 {
    crc32_resume(prior, kill_record(index, gen))
}

/// The checksum of a whole sequence of kills, in order, starting from zero.
pub open spec fn checksum_of(kills: Seq<(u32, u16)>) -> u32
    decreases kills.len(),
{
    if kills.len() == 0 {
        0
    } else {
        fold_kill(checksum_of(kills.drop_last()), kills.last().0, kills.last().1)
    }
}

/// The checksum reached from `start` by killing the handles `ids`
/// (`(index, generation)`, in order), each recorded with its next generation.
pub open spec fn fold_kills(start: u32, ids: Seq<(u32, u16)>) -> u32
    decreases ids.len(),
{
    if ids.len() == 0 {
        start
    } else {
        fold_kill(fold_kills(start, ids.drop_last()), ids.last().0, Gen::next_value(ids.last().1))
    }
}

/// A running checksum over the handles killed so far, in order.
///
/// Two checksums that saw the same kills in the same order are equal; a
/// collection whose checksum equals its allocator's has seen every kill.
#[derive(Debug)]
pub struct AllocGen<E> {
    value: u32,
    marker: PhantomData<E>,
}

impl<E> AllocGen<E> {
    /// The accumulated checksum.
    pub closed spec fn value(self) -> u32 {
        self.value
    }

    /// The accumulated checksum.
    pub fn get(&self) -> (r: u32)
        ensures
            r == self.value(),
    {
        self.value
    }
}

impl<E: Entity<IdType = Dynamic>> AllocGen<E> {
    /// Folds the kill of `id` into the checksum: its index and the
    /// generation that the slot moves to.
    pub fn increment(&mut self, id: Id<E>)
        ensures
            final(self).value() == fold_kill(old(self).value(), id.slot(), Gen::next_value(id.tag_raw())),
    {
        let index = id.index_u32();
        let gen = id.gen().next().get();
        let bytes: Vec<u8> = vec![
            (index & 0xff) as u8,
            ((index >> 8u32) & 0xff) as u8,
            ((index >> 16u32) & 0xff) as u8,
            ((index >> 24u32) & 0xff) as u8,
            (gen & 0xff) as u8,
            ((gen >> 8u16) & 0xff) as u16 as u8,
        ];
        assert(bytes@ == kill_record(index, gen));
        self.value = crc32_continue(self.value, bytes.as_slice());
    }
}

impl<E> Default for AllocGen<E> {
    fn default() -> (r: Self)
        ensures
            r.value() == 0,
    {
        AllocGen { value: 0, marker: PhantomData }
    }
}

impl<E> Clone for AllocGen<E> {
    fn clone(&self) -> (r: Self)
        ensures
            r.value() == self.value(),
    {
        AllocGen { value: self.value, marker: PhantomData }
    }
}

impl<E> PartialEq for AllocGen<E> {
    fn eq(&self, other: &Self) -> (r: bool) {
        self.value == other.value
    }
}

impl<E> vstd::std_specs::cmp::PartialEqSpecImpl for AllocGen<E> {
    open spec fn obeys_eq_spec() -> bool {
        true
    }

    open spec fn eq_spec(&self, other: &Self) -> bool {
        self.value() == other.value()
    }
}

impl<E> Eq for AllocGen<E> {
}

} // verus!
