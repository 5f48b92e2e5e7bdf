use vstd::prelude::*;

use crate::entity::Entity;
use crate::entity::MainEntity;

verus! {

/// One slot of the secondary store. A destroyed entity keeps its slot, with
/// `alive` false: ids are never reused, so a stale id can at worst name a
/// dead entity, never a different live one.
#[derive(Clone, Copy)]
pub struct RenderSlot {
    /// Whether the entity currently exists.
    pub alive: bool,
    /// Back link to the source primary entity
    /// (`crate::entity::MainEntity`), for mirrored entities.
    pub back: Option<Entity>,
    /// Whether the entity carries the ephemeral marker
    /// (`crate::entity::RenderFlyEntity`).
    pub fly: bool,
}

/// Whether secondary id `s` names a live entity.
pub open spec fn spec_alive(w: Seq<RenderSlot>, s: Entity) -> bool {
    s < w.len() && w[s as int].alive
}

/// The back link of secondary id `s`, for a live `s`; `None` otherwise.
pub open spec fn spec_back(w: Seq<RenderSlot>, s: Entity) -> Option<Entity> {
    if spec_alive(w, s) {
        w[s as int].back
    } else {
        None
    }
}

/// The secondary store after destroying entity `s`, if it is alive; the
/// store unchanged otherwise.
pub open spec fn spec_despawn(w: Seq<RenderSlot>, s: Entity) -> Seq<RenderSlot> {
    if spec_alive(w, s) {
        w.update(s as int, RenderSlot { alive: false, back: w[s as int].back, fly: w[s as int].fly })
    } else {
        w
    }
}

/// The secondary store after one reap: every live entity carrying the
/// ephemeral marker is destroyed, everything else is untouched.
pub open spec fn spec_reap(w: Seq<RenderSlot>) -> Seq<RenderSlot> {
    Seq::new(
        w.len(),
        |i: int|
            if w[i].alive && w[i].fly {
                RenderSlot { alive: false, back: w[i].back, fly: w[i].fly }
            } else {
                w[i]
            },
    )
}

/// Model of the secondary, derived store.
///
/// An entity is the index of its slot; ids are never reused. Only what the
/// synchronizer and the reaper touch is kept per entity: liveness, the back
/// link, and the ephemeral marker.
pub struct RenderWorld {
    slots: Vec<RenderSlot>,
}

impl View for RenderWorld {
    type V = Seq<RenderSlot>;

    closed spec fn view(&self) -> Seq<RenderSlot> {
        self.slots@
    }
}

impl RenderWorld {
    /// An empty secondary store.
    pub fn new() -> (r: RenderWorld)
        ensures
            r@ == Seq::<RenderSlot>::empty(),
    {
        RenderWorld { slots: Vec::new() }
    }

    /// How many entities were ever spawned, dead ones included.
    pub fn len(&self) -> (n: usize)
        ensures
            n == self@.len(),
    {
        self.slots.len()
    }

    /// Creates a mirrored entity carrying a back link to `source`, and
    /// returns its id.
    pub fn spawn_synced(&mut self, source: MainEntity) -> (e: Entity)
        ensures
            final(self)@ == old(self)@.push(
                RenderSlot { alive: true, back: Some(source.0), fly: false },
            ),
            e == old(self)@.len(),
    {
        let e = self.slots.len();
        self.slots.push(RenderSlot { alive: true, back: Some(source.0), fly: false });
        e
    }

    /// Creates an entity carrying the ephemeral marker and returns its id.
    pub fn spawn_fly(&mut self) -> (e: Entity)
        ensures
            final(self)@ == old(self)@.push(RenderSlot { alive: true, back: None, fly: true }),
            e == old(self)@.len(),
    {
        let e = self.slots.len();
        self.slots.push(RenderSlot { alive: true, back: None, fly: true });
        e
    }

    /// Creates a plain entity, neither mirrored nor ephemeral, and returns
    /// its id.
    pub fn spawn_empty(&mut self) -> (e: Entity)
        ensures
            final(self)@ == old(self)@.push(RenderSlot { alive: true, back: None, fly: false }),
            e == old(self)@.len(),
    {
        let e = self.slots.len();
        self.slots.push(RenderSlot { alive: true, back: None, fly: false });
        e
    }

    /// Destroys entity `s`. Destroying a dead or unknown id is a no-op,
    /// never an error. The model carries no child entities, so the cascade
    /// of a destroy reduces to the entity itself.
    pub fn despawn(&mut self, s: Entity)
        ensures
            final(self)@ == spec_despawn(old(self)@, s),
    {
        if s < self.slots.len() {
            if self.slots[s].alive {
                let slot = self.slots[s];
                self.slots[s] = RenderSlot { alive: false, back: slot.back, fly: slot.fly };
            }
        }
    }

    /// Whether `s` names a live entity.
    pub fn is_alive(&self, s: Entity) -> (r: bool)
        ensures
            r == spec_alive(self@, s),
    {
        s < self.slots.len() && self.slots[s].alive
    }

    /// The back link of `s` as a raw primary id, for a live `s`.
    pub fn back_link(&self, s: Entity) -> (r: Option<Entity>)
        ensures
            r == spec_back(self@, s),
    {
        if s < self.slots.len() && self.slots[s].alive {
            self.slots[s].back
        } else {
            None
        }
    }

    /// The back-link component of `s`, if `s` is live and mirrored.
    pub fn main_entity(&self, s: Entity) -> (r: Option<MainEntity>)
        ensures
            r == (match spec_back(self@, s) {
                Some(p) => Some(MainEntity(p)),
                None => None::<MainEntity>,
            }),
    {
        match self.back_link(s) {
            Some(p) => Some(MainEntity(p)),
            None => None,
        }
    }

    /// Whether `s` is live and carries the ephemeral marker.
    pub fn is_fly(&self, s: Entity) -> (r: bool)
        ensures
            r == (spec_alive(self@, s) && self@[s as int].fly),
    {
        s < self.slots.len() && self.slots[s].alive && self.slots[s].fly
    }
}

} // verus!
