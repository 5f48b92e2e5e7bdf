use vstd::prelude::*;

use crate::entity::Entity;
use crate::identity_map::map_clear;
use crate::identity_map::map_get;
use crate::identity_map::map_set;
use crate::identity_map::IdentityMap;
use crate::main_world::spec_clear_fwd;
use crate::main_world::spec_fwd;
use crate::main_world::MainSlot;
use crate::main_world::MainWorld;
use crate::pending::EntityRecord;
use crate::render_world::spec_back;
use crate::render_world::spec_despawn;
use crate::render_world::RenderSlot;
use crate::render_world::RenderWorld;

verus! {

/// Everything the synchronizer acts on, as one mathematical value: the
/// primary store, the secondary store and the identity map. The pending
/// queue stands beside it, since captures touch only the queue.
#[verifier::ext_equal]
pub struct SyncState {
    pub main: Seq<MainSlot>,
    pub render: Seq<RenderSlot>,
    pub map: Seq<Option<Entity>>,
}

/// The combined state of the three exec structures.
pub open spec fn state_of(main: MainWorld, render: RenderWorld, map: IdentityMap) -> SyncState {
    SyncState { main: main@, render: render@, map: map@ }
}

/// Whether primary id `p` is live and tagged in `st`.
pub open spec fn tagged(st: SyncState, p: Entity) -> bool {
    crate::main_world::spec_tagged(st.main, p)
}

/// The forward link of primary id `p` in `st`.
pub open spec fn fwd(st: SyncState, p: Entity) -> Option<Entity> {
    spec_fwd(st.main, p)
}

/// The back link of secondary id `s` in `st`, for a live `s`.
pub open spec fn back_of(st: SyncState, s: Entity) -> Option<Entity> {
    spec_back(st.render, s)
}

/// Whether some live secondary entity carries a back link to primary id `p`.
pub open spec fn has_mirror(st: SyncState, p: Entity) -> bool {
    exists|s: Entity| #[trigger] back_of(st, s) == Some(p)
}

/// The state after the tag of `p` is set to `on`; links are untouched.
pub open spec fn with_tag(st: SyncState, p: Entity, on: bool) -> SyncState {
    if p < st.main.len() {
        SyncState {
            main: st.main.update(p as int, MainSlot { tagged: on, fwd: st.main[p as int].fwd }),
            render: st.render,
            map: st.map,
        }
    } else {
        st
    }
}

/// The state after one fresh, untagged, unlinked primary entity is spawned.
pub open spec fn with_spawned(st: SyncState) -> SyncState {
    SyncState {
        main: st.main.push(MainSlot { tagged: false, fwd: None }),
        render: st.render,
        map: st.map,
    }
}

/// What applying an `Added(p)` record does: if `p` is live and has no
/// forward link yet, a mirrored entity is created, the forward link and the
/// identity map are written together; otherwise the record is skipped.
pub open spec fn apply_added(st: SyncState, p: Entity) -> SyncState {
    if p < st.main.len() && st.main[p as int].fwd is None {
        let s = st.render.len() as Entity;
        SyncState {
            main: st.main.update(
                p as int,
                MainSlot { tagged: st.main[p as int].tagged, fwd: Some(s) },
            ),
            render: st.render.push(RenderSlot { alive: true, back: Some(p), fly: false }),
            map: map_set(st.map, p, s),
        }
    } else {
        st
    }
}

/// Which secondary entity a `Removed(p, carried)` record destroys: the
/// current forward link when present, else the identity map's entry, else
/// the id carried at capture time. The live links are consulted first, since
/// they alone reflect records already applied this cycle; the carried id is
/// a fallback for when the primary entity can no longer be consulted.
pub open spec fn resolve_removed(st: SyncState, p: Entity, carried: Option<Entity>) -> Option<
    Entity,
> {
    if fwd(st, p) is Some {
        fwd(st, p)
    } else if map_get(st.map, p) is Some {
        map_get(st.map, p)
    } else {
        carried
    }
}

/// What applying a `Removed(p, carried)` record does: the forward link and
/// the identity-map entry of `p` are cleared, and the resolved secondary
/// entity is destroyed. An unresolved or already-destroyed secondary id is
/// a no-op, never an error.
pub open spec fn apply_removed(st: SyncState, p: Entity, carried: Option<Entity>) -> SyncState {
    SyncState {
        main: spec_clear_fwd(st.main, p),
        render: match resolve_removed(st, p, carried) {
            Some(s) => spec_despawn(st.render, s),
            None => st.render,
        },
        map: map_clear(st.map, p),
    }
}

/// What applying one lifecycle record does.
pub open spec fn apply_one(st: SyncState, rec: EntityRecord) -> SyncState {
    match rec {
        EntityRecord::Added(p) => apply_added(st, p),
        EntityRecord::Removed(p, carried) => apply_removed(st, p, carried),
    }
}

/// What applying a whole queue does, in capture order.
pub open spec fn apply_seq(st: SyncState, recs: Seq<EntityRecord>) -> SyncState
    decreases recs.len(),
{
    if recs.len() == 0 {
        st
    } else {
        apply_one(apply_seq(st, recs.drop_last()), recs.last())
    }
}

/// How many records of a queue are `Added` records: only those can create a
/// mirrored entity when applied.
pub open spec fn count_added(recs: Seq<EntityRecord>) -> nat
    decreases recs.len(),
{
    if recs.len() == 0 {
        0
    } else {
        count_added(recs.drop_last()) + (match recs.last() {
            EntityRecord::Added(_) => 1nat,
            EntityRecord::Removed(_, _) => 0nat,
        })
    }
}

/// All three stores fit the machine's id space.
pub open spec fn bounded(st: SyncState) -> bool {
    &&& st.main.len() <= usize::MAX
    &&& st.render.len() <= usize::MAX
    &&& st.map.len() <= usize::MAX
}

/// Primary id `p` is fully mirrored: its forward link, the identity map and
/// the mirror's back link all agree on one live secondary entity.
pub open spec fn mirrored(st: SyncState, p: Entity) -> bool {
    match fwd(st, p) {
        Some(s) => back_of(st, s) == Some(p) && map_get(st.map, p) == Some(s),
        None => false,
    }
}

/// The two stores agree, as they must after a full cycle: every tagged
/// primary entity is fully mirrored, an untagged one has no forward link,
/// and every live back-linked secondary entity is the mirror that the
/// forward link of its tagged source names.
pub open spec fn consistent(st: SyncState) -> bool {
    &&& bounded(st)
    &&& forall|p: Entity| #[trigger] tagged(st, p) ==> mirrored(st, p)
    &&& forall|p: Entity| !(#[trigger] tagged(st, p)) ==> fwd(st, p) is None
    &&& forall|s: Entity|
        (#[trigger] back_of(st, s)) is Some ==> match back_of(st, s) {
            Some(p) => tagged(st, p) && fwd(st, p) == Some(s),
            None => false,
        }
}

/// The forward links and the identity map never diverge: for every primary
/// id they name the same secondary entity, or none.
pub open spec fn agree(st: SyncState) -> bool {
    forall|p: Entity| #[trigger] map_get(st.map, p) == fwd(st, p)
}

/// An ephemeral secondary entity is never a mirror: it carries no back link.
pub open spec fn wf_render(st: SyncState) -> bool {
    forall|s: int|
        0 <= s < st.render.len() ==> ((#[trigger] st.render[s]).fly ==> st.render[s].back is None)
}

/// Every queued record speaks of a primary entity below `n`.
pub open spec fn records_bounded(recs: Seq<EntityRecord>, n: nat) -> bool {
    forall|i: int| 0 <= i < recs.len() ==> (#[trigger] recs[i]).primary() < n
}

/// The secondary store has room for every mirror the queue may create.
pub open spec fn render_budget(st: SyncState, recs: Seq<EntityRecord>) -> bool {
    st.render.len() + count_added(recs) <= usize::MAX
}

/// The invariant of the capture phase: it holds of a fresh system, every
/// capture operation preserves it, and it guarantees that draining the
/// queue restores consistency.
pub open spec fn inv(st: SyncState, recs: Seq<EntityRecord>) -> bool {
    &&& bounded(st)
    &&& agree(st)
    &&& wf_render(st)
    &&& records_bounded(recs, st.main.len())
    &&& render_budget(st, recs)
    &&& consistent(apply_seq(st, recs))
}

} // verus!
