use vstd::prelude::*;

use crate::entity::Entity;

verus! {

/// Which secondary id an entry table associates with primary id `p`.
pub open spec fn map_get(m: Seq<Option<Entity>>, p: Entity) -> Option<Entity> {
    if p < m.len() {
        m[p as int]
    } else {
        None
    }
}

/// The entry table after associating `p` with `s`, grown as needed.
pub open spec fn map_set(m: Seq<Option<Entity>>, p: Entity, s: Entity) -> Seq<Option<Entity>> {
    Seq::new(
        if p < m.len() {
            m.len()
        } else {
            (p + 1) as nat
        },
        |i: int|
            if i == p {
                Some(s)
            } else if i < m.len() {
                m[i]
            } else {
                None
            },
    )
}

/// The entry table after dropping any association for `p`.
pub open spec fn map_clear(m: Seq<Option<Entity>>, p: Entity) -> Seq<Option<Entity>> {
    if p < m.len() {
        m.update(p as int, None)
    } else {
        m
    }
}

/// Lookup from primary entity id to the id of its mirrored secondary entity.
///
/// The map is written only while the sync system applies records; outside
/// that phase it may be read freely. An entry is removed in the same step
/// that destroys the mirrored entity, so a lookup never yields the id of an
/// entity destroyed by the synchronizer itself.
pub struct IdentityMap {
    entries: Vec<Option<Entity>>,
}

impl View for IdentityMap {
    type V = Seq<Option<Entity>>;

    closed spec fn view(&self) -> Seq<Option<Entity>> {
        self.entries@
    }
}

impl IdentityMap {
    /// An empty map.
    pub fn new() -> (r: IdentityMap)
        ensures
            r@ == Seq::<Option<Entity>>::empty(),
    {
        IdentityMap { entries: Vec::new() }
    }

    /// The secondary id recorded for primary id `p`, if any.
    pub fn get(&self, p: Entity) -> (r: Option<Entity>)
        ensures
            r == map_get(self@, p),
    {
        if p < self.entries.len() {
            self.entries[p]
        } else {
            None
        }
    }

    /// Records that primary id `p` is mirrored by secondary id `s`.
    pub fn insert(&mut self, p: Entity, s: Entity)
        ensures
            final(self)@ == map_set(old(self)@, p, s),
    {
        let mut n = self.entries.len();
        while n <= p
            invariant
                n == self@.len(),
                old(self)@.len() <= self@.len(),
                forall|i: int| 0 <= i < old(self)@.len() ==> self@[i] == old(self)@[i],
                forall|i: int| old(self)@.len() <= i < self@.len() ==> self@[i] is None,
                self@.len() <= p + 1 || self@.len() == old(self)@.len(),
            decreases p + 1 - n,
        {
            self.entries.push(None);
            n = self.entries.len();
        }
        self.entries[p] = Some(s);
        proof {
            assert(self@ =~= map_set(old(self)@, p, s));
        }
    }

    /// Drops any entry for primary id `p`.
    pub fn remove(&mut self, p: Entity)
        ensures
            final(self)@ == map_clear(old(self)@, p),
    {
        if p < self.entries.len() {
            self.entries[p] = None;
        }
    }
}

impl Default for IdentityMap {
    fn default() -> (r: IdentityMap)
        ensures
            r@ == Seq::<Option<Entity>>::empty(),
    {
        IdentityMap::new()
    }
}

} // verus!
