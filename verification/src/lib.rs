//! Generational arena maps whose handles carry a per-instance tag.
//!
//! A [`UniqueSlotmap`] stores values in reusable slots guarded by generation
//! counters, and stamps every handle it mints with a random 128-bit instance
//! tag. Every access re-validates that tag, so a handle minted by one map is
//! never honoured by another map of the same type. A [`UniqueSecondaryMap`]
//! attaches side data to the handles of one primary map, inheriting its tag.

mod handle;
mod parameter;
mod primary;
mod secondary;

pub use handle::{
    HasKey, InputId, InputIdInternal, InternalKey, MapId, NodeId, NodeIdInternal, OutputId,
    OutputIdInternal, UniqueId,
};
pub use parameter::AnyParameterId;
pub use primary::{Slot, UniqueSlotmap};
pub use secondary::UniqueSecondaryMap;
