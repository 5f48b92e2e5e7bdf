use vstd::prelude::*;

use crate::entity::Entity;
use crate::entity::MainEntity;
use crate::identity_map::IdentityMap;
use crate::main_world::MainSlot;
use crate::main_world::MainWorld;
use crate::pending::EntityRecord;
use crate::pending::PendingSyncEntity;
use crate::render_world::spec_reap;
use crate::render_world::RenderWorld;
use crate::state::apply_one;
use crate::state::apply_seq;
use crate::state::state_of;
use crate::state::SyncState;

verus! {

/// Capture hook for a tag attach: enqueues an `Added` record and nothing
/// else. The store itself is never mutated here; mutation is deferred to the
/// sync system, so a store mid-dispatch of the very transition being
/// observed is never reentered.
pub fn on_sync_tag_added(pending: &mut PendingSyncEntity, entity: Entity)
    ensures
        final(pending)@ == old(pending)@.push(EntityRecord::Added(entity)),
{
    pending.push(EntityRecord::Added(entity));
}

/// Capture hook for a tag detach: resolves the forward link as far as it is
/// known right now and enqueues a `Removed` record carrying it. A detach
/// before any cycle ran finds no forward link and carries `None`; that is
/// tolerated, not an error.
pub fn on_sync_tag_removed(main_world: &MainWorld, pending: &mut PendingSyncEntity, entity: Entity)
    ensures
        final(pending)@ == old(pending)@.push(
            EntityRecord::Removed(entity, crate::main_world::spec_fwd(main_world@, entity)),
        ),
{
    let carried = main_world.forward_link(entity);
    pending.push(EntityRecord::Removed(entity, carried));
}

/// Attaches the sync tag to `entity` and fires the capture hook, as one
/// transition. Tagging a dead or already-tagged entity changes nothing.
pub fn tag_entity(main_world: &mut MainWorld, pending: &mut PendingSyncEntity, entity: Entity)
    ensures
        crate::main_world::spec_tagged(old(main_world)@, entity) || entity >= old(
            main_world,
        )@.len() ==> {
            &&& final(main_world)@ == old(main_world)@
            &&& final(pending)@ == old(pending)@
        },
        entity < old(main_world)@.len() && !crate::main_world::spec_tagged(
            old(main_world)@,
            entity,
        ) ==> {
            &&& final(main_world)@ == old(main_world)@.update(
                entity as int,
                MainSlot { tagged: true, fwd: old(main_world)@[entity as int].fwd },
            )
            &&& final(pending)@ == old(pending)@.push(EntityRecord::Added(entity))
        },
{
    if main_world.contains(entity) && !main_world.is_tagged(entity) {
        main_world.attach_tag(entity);
        on_sync_tag_added(pending, entity);
    }
}

/// Detaches the sync tag from `entity` and fires the capture hook, as one
/// transition. Untagging a dead or untagged entity changes nothing.
pub fn untag_entity(main_world: &mut MainWorld, pending: &mut PendingSyncEntity, entity: Entity)
    ensures
        !crate::main_world::spec_tagged(old(main_world)@, entity) ==> {
            &&& final(main_world)@ == old(main_world)@
            &&& final(pending)@ == old(pending)@
        },
        crate::main_world::spec_tagged(old(main_world)@, entity) ==> {
            &&& final(main_world)@ == old(main_world)@.update(
                entity as int,
                MainSlot { tagged: false, fwd: old(main_world)@[entity as int].fwd },
            )
            &&& final(pending)@ == old(pending)@.push(
                EntityRecord::Removed(
                    entity,
                    crate::main_world::spec_fwd(old(main_world)@, entity),
                ),
            )
        },
{
    if main_world.is_tagged(entity) {
        on_sync_tag_removed(main_world, pending, entity);
        main_world.detach_tag(entity);
    }
}

/// The apply phase: drains the pending queue, consuming records in capture
/// order, and leaves it empty. For each `Added(p)` with no forward link yet,
/// one mirrored entity is created and the forward link and identity map are
/// written together; a duplicate `Added` is skipped. For each
/// `Removed(p, s?)` the links of `p` are cleared and the resolved mirror is
/// destroyed; an unresolvable or already-destroyed mirror is a no-op. The
/// whole effect is exactly `apply_seq` of the drained records.
pub fn entity_sync_system(
    main_world: &mut MainWorld,
    render_world: &mut RenderWorld,
    identity_map: &mut IdentityMap,
    pending: &mut PendingSyncEntity,
)
    ensures
        final(pending)@ == Seq::<EntityRecord>::empty(),
        state_of(*final(main_world), *final(render_world), *final(identity_map)) == apply_seq(
            state_of(*old(main_world), *old(render_world), *old(identity_map)),
            old(pending)@,
        ),
{
    let ghost st0 = state_of(*main_world, *render_world, *identity_map);
    let ghost q = pending@;
    let n = pending.len();
    let mut i: usize = 0;
    while i < n
        invariant
            i <= n,
            n == q.len(),
            pending@ == q,
            state_of(*main_world, *render_world, *identity_map) == apply_seq(
                st0,
                q.subrange(0, i as int),
            ),
        decreases n - i,
    {
        let rec = pending.get(i);
        let ghost pre = state_of(*main_world, *render_world, *identity_map);
        match rec {
            EntityRecord::Added(p) => {
                if main_world.contains(p) {
                    if main_world.forward_link(p).is_none() {
                        let s = render_world.spawn_synced(MainEntity(p));
                        main_world.set_forward_link(p, s);
                        identity_map.insert(p, s);
                    }
                }
            },
            EntityRecord::Removed(p, carried) => {
                let resolved = match main_world.forward_link(p) {
                    Some(s) => Some(s),
                    None => match identity_map.get(p) {
                        Some(s) => Some(s),
                        None => carried,
                    },
                };
                main_world.clear_forward_link(p);
                identity_map.remove(p);
                match resolved {
                    Some(s) => render_world.despawn(s),
                    None => (),
                }
            },
        }
        proof {
            assert(state_of(*main_world, *render_world, *identity_map) =~= apply_one(pre, rec));
            assert(q.subrange(0, i + 1).drop_last() =~= q.subrange(0, i as int));
            assert(q.subrange(0, i + 1).last() == rec);
        }
        i = i + 1;
    }
    proof {
        assert(q.subrange(0, n as int) =~= q);
    }
    pending.clear();
}

/// The reap phase: destroys every live secondary entity carrying the
/// ephemeral marker, and returns the destroyed ids in the order they were
/// destroyed. Matched ids are collected in ascending order and destroyed in
/// descending order, so a destroy can never invalidate an id still queued
/// later in the same batch, whatever the store's slot-reuse policy.
pub fn despawn_fly_entity(render_world: &mut RenderWorld) -> (reaped: Vec<Entity>)
    ensures
        final(render_world)@ == spec_reap(old(render_world)@),
        forall|i: int, j: int| 0 <= i < j < reaped@.len() ==> reaped@[i] > reaped@[j],
        forall|e: Entity|
            #[trigger] reaped@.contains(e) <==> (e < old(render_world)@.len() && old(
                render_world,
            )@[e as int].alive && old(render_world)@[e as int].fly),
{
    let n = render_world.len();
    let mut matched: Vec<Entity> = Vec::new();
    let mut e: usize = 0;
    while e < n
        invariant
            e <= n,
            n == render_world@.len(),
            forall|i: int, j: int| 0 <= i < j < matched@.len() ==> matched@[i] < matched@[j],
            forall|i: int|
                0 <= i < matched@.len() ==> (#[trigger] matched@[i]) < e
                    && render_world@[matched@[i] as int].alive
                    && render_world@[matched@[i] as int].fly,
            forall|x: Entity|
                x < e && render_world@[x as int].alive && render_world@[x as int].fly
                    ==> matched@.contains(x),
        decreases n - e,
    {
        if render_world.is_fly(e) {
            let ghost m0 = matched@;
            matched.push(e);
            proof {
                assert forall|x: Entity|
                    x < e + 1 && render_world@[x as int].alive
                        && render_world@[x as int].fly implies matched@.contains(x) by {
                    if x < e {
                        assert(m0.contains(x));
                        let k = choose|k: int| 0 <= k < m0.len() && m0[k] == x;
                        assert(matched@[k] == x);
                    } else {
                        assert(matched@[matched@.len() - 1] == x);
                    }
                }
            }
        }
        e = e + 1;
    }
    let ghost before = render_world@;
    let mut reaped: Vec<Entity> = Vec::new();
    let mut k = matched.len();
    while k > 0
        invariant
            k <= matched@.len(),
            n == before.len(),
            forall|i: int, j: int| 0 <= i < j < matched@.len() ==> matched@[i] < matched@[j],
            forall|i: int|
                0 <= i < matched@.len() ==> (#[trigger] matched@[i]) < n
                    && before[matched@[i] as int].alive && before[matched@[i] as int].fly,
            forall|x: Entity|
                x < n && before[x as int].alive && before[x as int].fly ==> matched@.contains(x),
            reaped@.len() == matched@.len() - k,
            forall|i: int|
                0 <= i < reaped@.len() ==> reaped@[i] == matched@[matched@.len() - 1 - i],
            render_world@.len() == before.len(),
            forall|s: int|
                0 <= s < before.len() ==> render_world@[s] == (if before[s].alive && before[s].fly
                    && matched@.subrange(k as int, matched@.len() as int).contains(s as Entity) {
                    crate::render_world::RenderSlot {
                        alive: false,
                        back: before[s].back,
                        fly: before[s].fly,
                    }
                } else {
                    before[s]
                }),
        decreases k,
    {
        let s = matched[k - 1];
        proof {
            let ghost suffix = matched@.subrange(k as int, matched@.len() as int);
            assert(!suffix.contains(s)) by {
                if suffix.contains(s) {
                    let j = choose|j: int| 0 <= j < suffix.len() && suffix[j] == s;
                    assert(matched@[k + j] == s);
                    assert(matched@[k - 1] < matched@[k + j]);
                }
            }
            assert(render_world@[s as int] == before[s as int]);
        }
        render_world.despawn(s);
        reaped.push(s);
        k = k - 1;
        proof {
            let ghost suf_new = matched@.subrange(k as int, matched@.len() as int);
            assert forall|s2: int| 0 <= s2 < before.len() implies render_world@[s2] == (if before[s2].alive
                && before[s2].fly && suf_new.contains(s2 as Entity) {
                crate::render_world::RenderSlot {
                    alive: false,
                    back: before[s2].back,
                    fly: before[s2].fly,
                }
            } else {
                before[s2]
            }) by {
                let suffix = matched@.subrange(k + 1, matched@.len() as int);
                if s2 == s {
                    assert(suf_new[0] == s);
                    assert(suf_new.contains(s2 as Entity));
                } else {
                    assert(suf_new.contains(s2 as Entity) <==> suffix.contains(s2 as Entity)) by {
                        if suf_new.contains(s2 as Entity) {
                            let j = choose|j: int| 0 <= j < suf_new.len() && suf_new[j] == s2;
                            assert(j != 0);
                            assert(suffix[j - 1] == s2);
                        }
                        if suffix.contains(s2 as Entity) {
                            let j = choose|j: int| 0 <= j < suffix.len() && suffix[j] == s2;
                            assert(suf_new[j + 1] == s2);
                        }
                    }
                }
            }
        }
    }
    proof {
        assert(matched@.subrange(0, matched@.len() as int) =~= matched@);
        assert(render_world@ =~= spec_reap(before));
        assert forall|x: Entity| #[trigger] reaped@.contains(x) implies (x < before.len()
            && before[x as int].alive && before[x as int].fly) by {
            let j = choose|j: int| 0 <= j < reaped@.len() && reaped@[j] == x;
            assert(matched@[matched@.len() - 1 - j] == x);
        }
        assert forall|x: Entity|
            x < before.len() && before[x as int].alive && before[x as int].fly implies reaped@.contains(
            x,
        ) by {
            assert(matched@.contains(x));
            let j = choose|j: int| 0 <= j < matched@.len() && matched@[j] == x;
            assert(reaped@[matched@.len() - 1 - j] == matched@[j]);
        }
    }
    reaped
}

/// Registration boundary: stands for wiring the two capture hooks and the
/// per-cycle schedule, apply then reap, into a host's execution order. The
/// host must run `run_cycle` strictly after all primary-store mutation of
/// the cycle is finalized, and no identity-map reader may run concurrently
/// with it.
#[derive(Clone, Copy, Default)]
pub struct WorldSyncPlugin;

impl WorldSyncPlugin {
    /// One full cycle: the apply phase, then the reap phase. Returns the
    /// reaped ephemeral ids in destruction order. When the capture invariant
    /// holds of the drained records, the cycle restores consistency:
    /// `crate::laws::lemma_cycle_mirrors_tagged` states and proves that
    /// guarantee over this function's postcondition.
    pub fn run_cycle(
        &self,
        main_world: &mut MainWorld,
        render_world: &mut RenderWorld,
        identity_map: &mut IdentityMap,
        pending: &mut PendingSyncEntity,
    ) -> (reaped: Vec<Entity>)
        ensures
            final(pending)@ == Seq::<EntityRecord>::empty(),
            ({
                let applied = apply_seq(
                    state_of(*old(main_world), *old(render_world), *old(identity_map)),
                    old(pending)@,
                );
                state_of(*final(main_world), *final(render_world), *final(identity_map))
                    == SyncState {
                    main: applied.main,
                    render: spec_reap(applied.render),
                    map: applied.map,
                }
            }),
            forall|i: int, j: int| 0 <= i < j < reaped@.len() ==> reaped@[i] > reaped@[j],
    {
        entity_sync_system(main_world, render_world, identity_map, pending);
        let reaped = despawn_fly_entity(render_world);
        proof {
            assert(state_of(*main_world, *render_world, *identity_map) =~= SyncState {
                main: apply_seq(
                    state_of(*old(main_world), *old(render_world), *old(identity_map)),
                    old(pending)@,
                ).main,
                render: spec_reap(
                    apply_seq(
                        state_of(*old(main_world), *old(render_world), *old(identity_map)),
                        old(pending)@,
                    ).render,
                ),
                map: apply_seq(
                    state_of(*old(main_world), *old(render_world), *old(identity_map)),
                    old(pending)@,
                ).map,
            });
        }
        reaped
    }
}

} // verus!
