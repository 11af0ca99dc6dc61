use vstd::prelude::*;

verus! {

/// Discriminator minted once per map instance: 128 bits drawn from the
/// operating system's entropy source, so that two independently created maps
/// of the same type collide with negligible probability.
pub type MapId = u128;

/// Relies on `getrandom::getrandom` to fill 16 bytes from the operating
/// system's entropy source. Aborts when no source is available: a
/// deterministic fallback would silently reintroduce cross-instance handle
/// confusion. The result depends on that source alone, so nothing is
/// promised of the value that comes back.
#[verifier::external_body]
pub(crate) fn get_random_map_id() -> MapId {
    let mut bytes = [0u8; 16];
    getrandom::getrandom(&mut bytes).unwrap();
    u128::from_le_bytes(bytes)
}

/// Relies on `core::marker::PhantomData`'s `Clone` implementation, which
/// can only hand back the sole value of that zero-sized type. Needed so that
/// the derived `Clone` of the handle types below is accepted.
pub assume_specification<T: core::marker::PointeeSized>[ <core::marker::PhantomData<
    T,
> as core::clone::Clone>::clone ](p: &core::marker::PhantomData<T>) -> (r: core::marker::PhantomData<
    T,
>)
    ensures
        r == *p,
;

/// Category marker for node handles.
#[derive(Clone, Copy, PartialEq, Eq, PartialOrd, Ord, Hash, Debug, Default)]
pub struct NodeIdInternal;

/// Category marker for input-parameter handles.
#[derive(Clone, Copy, PartialEq, Eq, PartialOrd, Ord, Hash, Debug, Default)]
pub struct InputIdInternal;

/// Category marker for output-parameter handles.
#[derive(Clone, Copy, PartialEq, Eq, PartialOrd, Ord, Hash, Debug, Default)]
pub struct OutputIdInternal;

/// Slot position plus the generation the slot had when the entry was
/// created. A later reuse of the slot bumps its generation, which
/// invalidates every key minted for an earlier tenant of the slot.
#[derive(Clone, Copy, PartialEq, Eq, PartialOrd, Ord, Hash, Debug, Default)]
pub struct InternalKey {
    pub index: usize,
    pub generation: u64,
}

/// Handle minted by one map instance: an internal key plus the tag of the
/// minting map. The parameter `K` separates handle categories at compile
/// time; the tag separates map instances at run time.
///
/// The fields are public so that a consumer that serialises map contents can
/// pin the numeric parts of a handle into its own format.
#[derive(Clone, Copy, PartialEq, Eq, PartialOrd, Ord, Hash, Debug, Default)]
pub struct UniqueId<K> {
    pub key: InternalKey,
    pub map_id: MapId,
    pub kind: core::marker::PhantomData<K>,
}

/// Ties a handle type to the category marker it wraps.
pub trait HasKey {
    type InnerKey;
}

impl<K> HasKey for UniqueId<K> {
    type InnerKey = K;
}

/// Handle category for nodes.
pub type NodeId = UniqueId<NodeIdInternal>;

/// Handle category for input parameters.
pub type InputId = UniqueId<InputIdInternal>;

/// Handle category for output parameters.
pub type OutputId = UniqueId<OutputIdInternal>;

} // verus!
