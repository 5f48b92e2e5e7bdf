use vstd::prelude::*;

use crate::entity::Entity;
use crate::entity::RenderEntity;

verus! {

/// The part of one primary entity that the synchronizer reads and writes:
/// whether the sync tag is attached, and the forward link, if any.
#[derive(Clone, Copy)]
pub struct MainSlot {
    /// Whether the entity currently carries the sync tag
    /// (`crate::entity::SyncRenderWorld`).
    pub tagged: bool,
    /// Forward link to the mirrored secondary entity, written only by the
    /// sync system.
    pub fwd: Option<Entity>,
}

/// Whether primary id `e` names a live entity with the sync tag attached.
pub open spec fn spec_tagged(w: Seq<MainSlot>, e: Entity) -> bool {
    e < w.len() && w[e as int].tagged
}

/// The forward link of primary id `e`; `None` for an unknown id.
pub open spec fn spec_fwd(w: Seq<MainSlot>, e: Entity) -> Option<Entity> {
    if e < w.len() {
        w[e as int].fwd
    } else {
        None
    }
}

/// The primary store after clearing the forward link of `e`, if `e` is live.
pub open spec fn spec_clear_fwd(w: Seq<MainSlot>, e: Entity) -> Seq<MainSlot> {
    if e < w.len() {
        w.update(e as int, MainSlot { tagged: w[e as int].tagged, fwd: None })
    } else {
        w
    }
}

/// Model of the primary, authoritative store: the synchronizer's view of it.
///
/// An entity is the index of its slot; ids are never reused. Only what the
/// synchronizer touches is kept per entity: the tag and the forward link.
pub struct MainWorld {
    slots: Vec<MainSlot>,
}

impl View for MainWorld {
    type V = Seq<MainSlot>;

    closed spec fn view(&self) -> Seq<MainSlot> {
        self.slots@
    }
}

impl MainWorld {
    /// An empty primary store.
    pub fn new() -> (r: MainWorld)
        ensures
            r@ == Seq::<MainSlot>::empty(),
    {
        MainWorld { slots: Vec::new() }
    }

    /// Creates a fresh entity, untagged and unlinked, and returns its id.
    pub fn spawn(&mut self) -> (e: Entity)
        ensures
            final(self)@ == old(self)@.push(MainSlot { tagged: false, fwd: None }),
            e == old(self)@.len(),
    {
        let e = self.slots.len();
        self.slots.push(MainSlot { tagged: false, fwd: None });
        e
    }

    /// How many entities were ever spawned.
    pub fn len(&self) -> (n: usize)
        ensures
            n == self@.len(),
    {
        self.slots.len()
    }

    /// Whether `e` names a live entity.
    pub fn contains(&self, e: Entity) -> (r: bool)
        ensures
            r == (e < self@.len()),
    {
        e < self.slots.len()
    }

    /// Whether `e` currently carries the sync tag.
    pub fn is_tagged(&self, e: Entity) -> (r: bool)
        ensures
            r == spec_tagged(self@, e),
    {
        e < self.slots.len() && self.slots[e].tagged
    }

    /// The forward link of `e` as a raw secondary id.
    pub fn forward_link(&self, e: Entity) -> (r: Option<Entity>)
        ensures
            r == spec_fwd(self@, e),
    {
        if e < self.slots.len() {
            self.slots[e].fwd
        } else {
            None
        }
    }

    /// The forward-link component of `e`, if the entity is live and linked.
    pub fn render_entity(&self, e: Entity) -> (r: Option<RenderEntity>)
        ensures
            r == (match spec_fwd(self@, e) {
                Some(s) => Some(RenderEntity(s)),
                None => None::<RenderEntity>,
            }),
    {
        match self.forward_link(e) {
            Some(s) => Some(RenderEntity(s)),
            None => None,
        }
    }

    /// Attaches the sync tag to `e`.
    pub(crate) fn attach_tag(&mut self, e: Entity)
        requires
            e < old(self)@.len(),
        ensures
            final(self)@ == old(self)@.update(
                e as int,
                MainSlot { tagged: true, fwd: old(self)@[e as int].fwd },
            ),
    {
        let fwd = self.slots[e].fwd;
        self.slots[e] = MainSlot { tagged: true, fwd };
    }

    /// Detaches the sync tag from `e`.
    pub(crate) fn detach_tag(&mut self, e: Entity)
        requires
            e < old(self)@.len(),
        ensures
            final(self)@ == old(self)@.update(
                e as int,
                MainSlot { tagged: false, fwd: old(self)@[e as int].fwd },
            ),
    {
        let fwd = self.slots[e].fwd;
        self.slots[e] = MainSlot { tagged: false, fwd };
    }

    /// Writes the forward link of `e`; only the sync system does this.
    pub(crate) fn set_forward_link(&mut self, e: Entity, s: Entity)
        requires
            e < old(self)@.len(),
        ensures
            final(self)@ == old(self)@.update(
                e as int,
                MainSlot { tagged: old(self)@[e as int].tagged, fwd: Some(s) },
            ),
    {
        let tagged = self.slots[e].tagged;
        self.slots[e] = MainSlot { tagged, fwd: Some(s) };
    }

    /// Clears the forward link of `e`, if `e` is live; a no-op otherwise.
    pub(crate) fn clear_forward_link(&mut self, e: Entity)
        ensures
            final(self)@ == spec_clear_fwd(old(self)@, e),
    {
        if e < self.slots.len() {
            let tagged = self.slots[e].tagged;
            self.slots[e] = MainSlot { tagged, fwd: None };
        }
    }
}

} // verus!
