//! Entity kinds and the liveness strategy each one selects.

use vstd::prelude::*;

verus! {

/// The generation tag that a handle carries, seen as a plain number.
///
/// A static entity kind carries [`NoGen`], which reads as zero; a dynamic one
/// carries a [`crate::Gen`].
pub trait GenTag: Sized {
    /// The tag as a number.
    spec fn raw(&self) -> u16;

    fn get_raw(&self) -> (r: u16)
        ensures
            r == self.raw(),
    ;

    /// Tags with the same number are the same tag.
    proof fn lemma_raw_injective(a: Self, b: Self)
        requires
            a.raw() == b.raw(),
        ensures
            a == b,
    ;
}

/// The generation tag of static handles: there is only one.
#[derive(Debug, Clone, Copy, PartialEq, Eq, Hash, PartialOrd, Ord, Default)]
pub struct NoGen;

impl GenTag for NoGen {
    open spec fn raw(&self) -> u16 {
        0
    }

    fn get_raw(&self) -> (r: u16) {
        0
    }

    proof fn lemma_raw_injective(a: Self, b: Self) {
    }
}

/// Selects the liveness strategy of an entity kind: the type of the
/// generation tag that its handles carry.
pub trait IdType {
    type Gen: GenTag + Copy + std::fmt::Debug;
}

/// Implement this trait for a marker type to index collections by it.
pub trait Entity: std::fmt::Debug {
    type IdType: IdType;
}

/// Entity kinds whose handles are only ever appended and never killed.
/// Their handles carry no generation.
pub struct Static;

impl IdType for Static {
    type Gen = NoGen;
}

/// Entity kinds whose handles can be created, killed, and whose slots are
/// reused under a new generation.
pub struct Dynamic;

impl IdType for Dynamic {
    type Gen = crate::gen::Gen;
}

} // verus!
