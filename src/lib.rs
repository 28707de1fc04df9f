//! Typed, generation-checked handles into externally owned arenas, and the
//! collections that are indexed by them.

use vstd::prelude::*;

pub mod allocator;
pub mod component;
pub mod entity;
pub mod gen;
pub mod id;
pub mod id_link;
pub mod link;
pub mod links;
pub mod map;
pub mod relations;
pub mod valid;

pub use allocator::{Allocator, CreateOnly, KilledIds, RangeAllocator};
pub use component::{Component, RawComponent};
pub use entity::{Dynamic, Entity, GenTag, IdType, NoGen, Static};
pub use gen::{AllocGen, Gen};
pub use id::{Id, IdRange, RangeIter};
pub use id_link::IdLink;
pub use links::Links;
pub use map::IdMap;
pub use relations::{RangeRelation, RangeRelations};
pub use valid::{Valid, ValidId, ValidIter};
