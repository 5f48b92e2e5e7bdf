use vstd::prelude::*;

verus! {

/// Identifier of an entity within one store.
///
/// Identifiers are unique within their store and are never compared across
/// stores: a primary id and a secondary id live in different spaces.
pub type Entity = usize;

/// Marker component on a primary entity requesting that the entity be
/// mirrored into the secondary store.
///
/// The marker is expected to persist throughout the entity's lifetime: once
/// it is detached, the mirrored entity is destroyed on the next cycle.
#[derive(Clone, Copy, Default)]
pub struct SyncRenderWorld;

/// Forward link: component on a primary entity holding the id of its
/// mirrored secondary entity.
#[derive(Clone, Copy)]
pub struct RenderEntity(pub Entity);

impl RenderEntity {
    /// The id of the mirrored secondary entity.
    pub fn id(&self) -> (r: Entity)
        ensures
            r == self.0,
    {
        self.0
    }
}

/// Back link: component on a secondary entity holding the id of the primary
/// entity it mirrors.
#[derive(Clone, Copy)]
pub struct MainEntity(pub Entity);

impl MainEntity {
    /// The id of the source primary entity.
    pub fn id(&self) -> (r: Entity)
        ensures
            r == self.0,
    {
        self.0
    }
}

/// Ephemeral marker: a secondary entity carrying it is destroyed
/// unconditionally at the end of every cycle.
#[derive(Clone, Copy, Default)]
pub struct RenderFlyEntity;

} // verus!
