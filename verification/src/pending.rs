use vstd::prelude::*;

use crate::entity::Entity;

verus! {

/// Lifecycle record captured on a tag transition of the primary store.
#[derive(Clone, Copy)]
pub enum EntityRecord {
    /// The tag was attached to this primary entity; a mirrored secondary
    /// entity must be created for it.
    Added(Entity),
    /// The tag was detached from this primary entity. The second field
    /// carries the mirrored entity's id as far as it was known at capture
    /// time; it is `None` when the tag was detached before any cycle had
    /// resolved a forward link for the entity.
    Removed(Entity, Option<Entity>),
}

impl EntityRecord {
    /// The primary entity a record speaks of.
    pub open spec fn primary(self) -> Entity {
        match self {
            EntityRecord::Added(p) => p,
            EntityRecord::Removed(p, _) => p,
        }
    }
}

/// Append-only FIFO of lifecycle records, pending application to the
/// secondary store.
///
/// Captures only push; the sync system drains the whole queue exactly once
/// per cycle and leaves it empty. The queue grows without bound while no
/// cycle runs: the host must run the sync system regularly.
pub struct PendingSyncEntity {
    records: Vec<EntityRecord>,
}

impl View for PendingSyncEntity {
    type V = Seq<EntityRecord>;

    closed spec fn view(&self) -> Seq<EntityRecord> {
        self.records@
    }
}

impl PendingSyncEntity {
    /// An empty queue.
    pub fn new() -> (r: PendingSyncEntity)
        ensures
            r@ == Seq::<EntityRecord>::empty(),
    {
        PendingSyncEntity { records: Vec::new() }
    }

    /// Appends one record at the back.
    pub fn push(&mut self, record: EntityRecord)
        ensures
            final(self)@ == old(self)@.push(record),
    {
        self.records.push(record);
    }

    /// How many records are pending.
    pub fn len(&self) -> (n: usize)
        ensures
            n == self@.len(),
    {
        self.records.len()
    }

    /// Whether no record is pending.
    pub fn is_empty(&self) -> (r: bool)
        ensures
            r == (self@.len() == 0),
    {
        self.records.len() == 0
    }

    /// The record at position `i`, in capture order.
    pub fn get(&self, i: usize) -> (r: EntityRecord)
        requires
            i < self@.len(),
        ensures
            r == self@[i as int],
    {
        self.records[i]
    }

    /// Empties the queue.
    pub fn clear(&mut self)
        ensures
            final(self)@ == Seq::<EntityRecord>::empty(),
    {
        self.records = Vec::new();
    }
}

impl Default for PendingSyncEntity {
    fn default() -> (r: PendingSyncEntity)
        ensures
            r@ == Seq::<EntityRecord>::empty(),
    {
        PendingSyncEntity::new()
    }
}

} // verus!
