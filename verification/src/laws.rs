//! The laws of the synchronizer, stated and proved over the mathematical
//! model: what the capture operations preserve, and what one full cycle
//! guarantees.

use vstd::prelude::*;

use crate::entity::Entity;
use crate::identity_map::map_get;
use crate::main_world::spec_fwd;
use crate::main_world::MainSlot;
use crate::pending::EntityRecord;
use crate::render_world::spec_alive;
use crate::render_world::spec_reap;
use crate::state::agree;
use crate::state::apply_one;
use crate::state::apply_seq;
use crate::state::back_of;
use crate::state::bounded;
use crate::state::consistent;
use crate::state::count_added;
use crate::state::fwd;
use crate::state::has_mirror;
use crate::state::inv;
use crate::state::mirrored;
use crate::state::records_bounded;
use crate::state::tagged;
use crate::state::wf_render;
use crate::state::with_spawned;
use crate::state::with_tag;
use crate::state::SyncState;

verus! {

/// Applying a queue extended by one record is applying the queue, then the
/// record.
pub proof fn lemma_apply_seq_push(st: SyncState, q: Seq<EntityRecord>, rec: EntityRecord)
    ensures
        apply_seq(st, q.push(rec)) == apply_one(apply_seq(st, q), rec),
{
    assert(q.push(rec).drop_last() =~= q);
    assert(q.push(rec).last() == rec);
}

/// What one applied record leaves intact: the primary store's size and tag
/// flags, the agreement of forward links and identity map, the absence of
/// back links on ephemeral entities, and the bounds of all three stores.
pub proof fn lemma_apply_one_basic(st: SyncState, rec: EntityRecord)
    requires
        agree(st),
        wf_render(st),
    ensures
        agree(apply_one(st, rec)),
        wf_render(apply_one(st, rec)),
        apply_one(st, rec).main.len() == st.main.len(),
        apply_one(st, rec).render.len() <= st.render.len() + 1,
        (rec is Removed) ==> apply_one(st, rec).render.len() <= st.render.len(),
        apply_one(st, rec).map.len() <= st.map.len() || apply_one(st, rec).map.len()
            <= st.main.len(),
        forall|p2: Entity| #[trigger] tagged(apply_one(st, rec), p2) == tagged(st, p2),
{
    let r = apply_one(st, rec);
    match rec {
        EntityRecord::Added(p) => {
            if p < st.main.len() && st.main[p as int].fwd is None {
                assert forall|p2: Entity| #[trigger] map_get(r.map, p2) == fwd(r, p2) by {
                    if p2 != p {
                        assert(map_get(r.map, p2) == map_get(st.map, p2));
                        assert(fwd(r, p2) == fwd(st, p2));
                    }
                }
            }
        },
        EntityRecord::Removed(p, carried) => {
            assert forall|p2: Entity| #[trigger] map_get(r.map, p2) == fwd(r, p2) by {
                if p2 != p {
                    assert(map_get(r.map, p2) == map_get(st.map, p2));
                    assert(fwd(r, p2) == fwd(st, p2));
                } else {
                    assert(map_get(st.map, p) == fwd(st, p));
                }
            }
        },
    }
}

/// `lemma_apply_one_basic`, extended over a whole queue.
pub proof fn lemma_apply_seq_basic(st: SyncState, q: Seq<EntityRecord>)
    requires
        agree(st),
        wf_render(st),
    ensures
        agree(apply_seq(st, q)),
        wf_render(apply_seq(st, q)),
        apply_seq(st, q).main.len() == st.main.len(),
        apply_seq(st, q).render.len() <= st.render.len() + count_added(q),
        apply_seq(st, q).map.len() <= st.map.len() || apply_seq(st, q).map.len() <= st.main.len(),
        forall|p2: Entity| #[trigger] tagged(apply_seq(st, q), p2) == tagged(st, p2),
    decreases q.len(),
{
    if q.len() == 0 {
    } else {
        lemma_apply_seq_basic(st, q.drop_last());
        lemma_apply_one_basic(apply_seq(st, q.drop_last()), q.last());
        assert(count_added(q) == count_added(q.drop_last()) + (match q.last() {
            EntityRecord::Added(_) => 1nat,
            EntityRecord::Removed(_, _) => 0nat,
        }));
    }
}

/// Applied records never read or write tag flags, so applying commutes with
/// flipping one tag.
pub proof fn lemma_apply_one_tag(st: SyncState, rec: EntityRecord, p: Entity, b: bool)
    ensures
        apply_one(with_tag(st, p, b), rec) == with_tag(apply_one(st, rec), p, b),
{
    if p < st.main.len() {
        let wt = with_tag(st, p, b);
        match rec {
            EntityRecord::Added(p2) => {
                if p2 < st.main.len() && st.main[p2 as int].fwd is None {
                    if p2 == p {
                        assert(apply_one(wt, rec).main =~= with_tag(apply_one(st, rec), p, b).main);
                    } else {
                        assert(apply_one(wt, rec).main =~= with_tag(apply_one(st, rec), p, b).main);
                    }
                    assert(apply_one(wt, rec) =~= with_tag(apply_one(st, rec), p, b));
                } else {
                    assert(apply_one(wt, rec) =~= with_tag(apply_one(st, rec), p, b));
                }
            },
            EntityRecord::Removed(p2, carried) => {
                assert(fwd(wt, p2) == fwd(st, p2));
                assert(apply_one(wt, rec).main =~= with_tag(apply_one(st, rec), p, b).main);
                assert(apply_one(wt, rec) =~= with_tag(apply_one(st, rec), p, b));
            },
        }
    }
}

/// `lemma_apply_one_tag`, extended over a whole queue.
pub proof fn lemma_apply_seq_tag(st: SyncState, q: Seq<EntityRecord>, p: Entity, b: bool)
    ensures
        apply_seq(with_tag(st, p, b), q) == with_tag(apply_seq(st, q), p, b),
    decreases q.len(),
{
    if q.len() == 0 {
    } else {
        lemma_apply_seq_tag(st, q.drop_last(), p, b);
        lemma_apply_one_tag(apply_seq(st, q.drop_last()), q.last(), p, b);
    }
}

/// A freshly spawned primary entity is untouched by records captured before
/// it existed, so applying commutes with spawning.
pub proof fn lemma_apply_one_spawn(st: SyncState, rec: EntityRecord)
    requires
        rec.primary() < st.main.len(),
    ensures
        apply_one(with_spawned(st), rec) == (SyncState {
            main: apply_one(st, rec).main.push(MainSlot { tagged: false, fwd: None }),
            render: apply_one(st, rec).render,
            map: apply_one(st, rec).map,
        }),
{
    let ws = with_spawned(st);
    let target = SyncState {
        main: apply_one(st, rec).main.push(MainSlot { tagged: false, fwd: None }),
        render: apply_one(st, rec).render,
        map: apply_one(st, rec).map,
    };
    match rec {
        EntityRecord::Added(p2) => {
            assert(ws.main[p2 as int] == st.main[p2 as int]);
            if p2 < st.main.len() && st.main[p2 as int].fwd is None {
                assert(apply_one(ws, rec).main =~= target.main);
            }
            assert(apply_one(ws, rec) =~= target);
        },
        EntityRecord::Removed(p2, carried) => {
            assert(ws.main[p2 as int] == st.main[p2 as int]);
            assert(fwd(ws, p2) == fwd(st, p2));
            assert(apply_one(ws, rec).main =~= target.main);
            assert(apply_one(ws, rec) =~= target);
        },
    }
}

/// `lemma_apply_one_spawn`, extended over a whole queue.
pub proof fn lemma_apply_seq_spawn(st: SyncState, q: Seq<EntityRecord>)
    requires
        records_bounded(q, st.main.len()),
    ensures
        apply_seq(with_spawned(st), q) == (SyncState {
            main: apply_seq(st, q).main.push(MainSlot { tagged: false, fwd: None }),
            render: apply_seq(st, q).render,
            map: apply_seq(st, q).map,
        }),
    decreases q.len(),
{
    if q.len() == 0 {
        assert(apply_seq(with_spawned(st), q) =~= with_spawned(st));
    } else {
        assert(records_bounded(q.drop_last(), st.main.len())) by {
            assert(forall|i: int|
                0 <= i < q.drop_last().len() ==> q.drop_last()[i] == #[trigger] q[i]);
        }
        lemma_apply_seq_spawn(st, q.drop_last());
        assert(q.last().primary() < st.main.len()) by {
            assert(q[q.len() - 1] == q.last());
        }
        lemma_apply_seq_len(st, q.drop_last());
        lemma_apply_one_spawn(apply_seq(st, q.drop_last()), q.last());
    }
}

/// Applying a queue never changes how many primary entities exist.
pub proof fn lemma_apply_seq_len(st: SyncState, q: Seq<EntityRecord>)
    ensures
        apply_seq(st, q).main.len() == st.main.len(),
    decreases q.len(),
{
    if q.len() == 0 {
    } else {
        lemma_apply_seq_len(st, q.drop_last());
    }
}

/// A fresh system, with nothing spawned and nothing captured, satisfies the
/// capture invariant.
pub proof fn lemma_inv_empty()
    ensures
        inv(
            SyncState {
                main: Seq::<MainSlot>::empty(),
                render: Seq::empty(),
                map: Seq::empty(),
            },
            Seq::<EntityRecord>::empty(),
        ),
{
}

/// Spawning a primary entity preserves the capture invariant: the fresh
/// entity is untagged, unlinked and unmapped, and no queued record speaks
/// of it.
pub proof fn lemma_spawn_preserves_inv(st: SyncState, q: Seq<EntityRecord>)
    requires
        inv(st, q),
        st.main.len() < usize::MAX,
    ensures
        inv(with_spawned(st), q),
{
    let st2 = with_spawned(st);
    assert forall|p2: Entity| #[trigger] map_get(st2.map, p2) == fwd(st2, p2) by {
        assert(map_get(st.map, p2) == fwd(st, p2));
    }
    assert(records_bounded(q, st2.main.len()));
    lemma_apply_seq_spawn(st, q);
    let s_applied = apply_seq(st, q);
    let t_applied = apply_seq(st2, q);
    let fresh = st.main.len();
    lemma_apply_seq_len(st, q);
    assert forall|p2: Entity| #[trigger] tagged(t_applied, p2) implies mirrored(t_applied, p2) by {
        assert(p2 != fresh);
        assert(tagged(s_applied, p2));
        assert(mirrored(s_applied, p2));
        match fwd(s_applied, p2) {
            Some(s2) => {
                assert(fwd(t_applied, p2) == Some(s2));
                assert(back_of(t_applied, s2) == back_of(s_applied, s2));
            },
            None => {
                assert(false);
            },
        }
    }
    assert forall|p2: Entity| !(#[trigger] tagged(t_applied, p2)) implies fwd(t_applied, p2)
        is None by {
        if p2 != fresh {
            assert(!tagged(s_applied, p2));
            assert(fwd(s_applied, p2) is None);
        }
    }
    assert forall|s2: Entity| (#[trigger] back_of(t_applied, s2)) is Some implies (match back_of(
        t_applied,
        s2,
    ) {
        Some(p2) => tagged(t_applied, p2) && fwd(t_applied, p2) == Some(s2),
        None => false,
    }) by {
        assert(back_of(t_applied, s2) == back_of(s_applied, s2));
        match back_of(s_applied, s2) {
            Some(p2) => {
                assert(tagged(s_applied, p2));
                assert(p2 < s_applied.main.len());
            },
            None => {},
        }
    }
}

/// Tagging an untagged live primary entity, with the matching `Added` record
/// captured, preserves the capture invariant. The secondary store must have
/// room for one more mirror.
pub proof fn lemma_tag_preserves_inv(st: SyncState, q: Seq<EntityRecord>, p: Entity)
    requires
        inv(st, q),
        p < st.main.len(),
        !st.main[p as int].tagged,
        st.render.len() + count_added(q) + 1 <= usize::MAX,
    ensures
        inv(with_tag(st, p, true), q.push(EntityRecord::Added(p))),
{
    let st2 = with_tag(st, p, true);
    let q2 = q.push(EntityRecord::Added(p));
    assert forall|p2: Entity| #[trigger] map_get(st2.map, p2) == fwd(st2, p2) by {
        assert(map_get(st.map, p2) == fwd(st, p2));
        assert(fwd(st2, p2) == fwd(st, p2));
    }
    assert(q2.drop_last() =~= q);
    assert(count_added(q2) == count_added(q) + 1);
    assert(records_bounded(q2, st2.main.len())) by {
        assert(forall|i: int| 0 <= i < q.len() ==> q2[i] == #[trigger] q[i]);
        assert(q2[q.len() as int].primary() == p);
    }
    lemma_apply_seq_push(st2, q, EntityRecord::Added(p));
    lemma_apply_seq_tag(st, q, p, true);
    lemma_apply_seq_basic(st, q);
    let s_applied = apply_seq(st, q);
    let t_applied = with_tag(s_applied, p, true);
    assert(!tagged(s_applied, p));
    assert(fwd(s_applied, p) is None);
    assert(fwd(t_applied, p) is None);
    assert(t_applied.render.len() < usize::MAX);
    let sid = t_applied.render.len() as Entity;
    assert(sid == t_applied.render.len());
    let r_applied = apply_one(t_applied, EntityRecord::Added(p));
    assert(r_applied == apply_seq(st2, q2));
    assert(bounded(r_applied));
    assert forall|p2: Entity| #[trigger] tagged(r_applied, p2) implies mirrored(r_applied, p2) by {
        if p2 == p {
            assert(fwd(r_applied, p) == Some(sid));
            assert(back_of(r_applied, sid) == Some(p));
            assert(map_get(r_applied.map, p) == Some(sid));
        } else {
            assert(tagged(s_applied, p2));
            assert(mirrored(s_applied, p2));
            match fwd(s_applied, p2) {
                Some(s2) => {
                    assert(fwd(r_applied, p2) == Some(s2));
                    assert(s2 < s_applied.render.len());
                    assert(back_of(r_applied, s2) == back_of(s_applied, s2));
                    assert(map_get(s_applied.map, p2) == Some(s2));
                    assert(p2 < s_applied.map.len());
                    assert(map_get(r_applied.map, p2) == Some(s2));
                },
                None => {
                    assert(false);
                },
            }
        }
    }
    assert forall|p2: Entity| !(#[trigger] tagged(r_applied, p2)) implies fwd(r_applied, p2)
        is None by {
        assert(p2 != p);
        assert(!tagged(s_applied, p2));
        assert(fwd(s_applied, p2) is None);
        assert(fwd(r_applied, p2) == fwd(s_applied, p2));
    }
    assert forall|s2: Entity| (#[trigger] back_of(r_applied, s2)) is Some implies (match back_of(
        r_applied,
        s2,
    ) {
        Some(p2) => tagged(r_applied, p2) && fwd(r_applied, p2) == Some(s2),
        None => false,
    }) by {
        if s2 == sid {
            assert(back_of(r_applied, s2) == Some(p));
            assert(tagged(r_applied, p));
        } else {
            assert(back_of(r_applied, s2) == back_of(s_applied, s2));
            match back_of(s_applied, s2) {
                Some(p2) => {
                    assert(tagged(s_applied, p2));
                    assert(fwd(s_applied, p2) == Some(s2));
                    assert(p2 != p);
                    assert(tagged(r_applied, p2));
                    assert(fwd(r_applied, p2) == Some(s2));
                },
                None => {},
            }
        }
    }
}

/// Untagging a tagged primary entity, with the matching `Removed` record
/// captured carrying the forward link as known at capture time, preserves
/// the capture invariant.
pub proof fn lemma_untag_preserves_inv(st: SyncState, q: Seq<EntityRecord>, p: Entity)
    requires
        inv(st, q),
        p < st.main.len(),
        st.main[p as int].tagged,
    ensures
        inv(with_tag(st, p, false), q.push(EntityRecord::Removed(p, spec_fwd(st.main, p)))),
{
    let carried = spec_fwd(st.main, p);
    let st2 = with_tag(st, p, false);
    let q2 = q.push(EntityRecord::Removed(p, carried));
    assert forall|p2: Entity| #[trigger] map_get(st2.map, p2) == fwd(st2, p2) by {
        assert(map_get(st.map, p2) == fwd(st, p2));
        assert(fwd(st2, p2) == fwd(st, p2));
    }
    assert(q2.drop_last() =~= q);
    assert(count_added(q2) == count_added(q));
    assert(records_bounded(q2, st2.main.len())) by {
        assert(forall|i: int| 0 <= i < q.len() ==> q2[i] == #[trigger] q[i]);
        assert(q2[q.len() as int].primary() == p);
    }
    lemma_apply_seq_push(st2, q, EntityRecord::Removed(p, carried));
    lemma_apply_seq_tag(st, q, p, false);
    lemma_apply_seq_basic(st, q);
    let s_applied = apply_seq(st, q);
    let t_applied = with_tag(s_applied, p, false);
    assert(tagged(s_applied, p));
    assert(mirrored(s_applied, p));
    let r_applied = apply_one(t_applied, EntityRecord::Removed(p, carried));
    assert(r_applied == apply_seq(st2, q2));
    match fwd(s_applied, p) {
        Some(s) => {
            assert(back_of(s_applied, s) == Some(p));
            assert(s < s_applied.render.len());
            assert(fwd(t_applied, p) == Some(s));
            assert(crate::state::resolve_removed(t_applied, p, carried) == Some(s));
            assert(fwd(r_applied, p) is None);
            assert(map_get(r_applied.map, p) is None);
            assert(!spec_alive(r_applied.render, s));
            assert(bounded(r_applied));
            assert forall|p2: Entity| #[trigger] tagged(r_applied, p2) implies mirrored(
                r_applied,
                p2,
            ) by {
                assert(p2 != p);
                assert(tagged(s_applied, p2));
                assert(mirrored(s_applied, p2));
                match fwd(s_applied, p2) {
                    Some(s2) => {
                        assert(back_of(s_applied, s2) == Some(p2));
                        assert(s2 != s);
                        assert(fwd(r_applied, p2) == Some(s2));
                        assert(back_of(r_applied, s2) == Some(p2));
                        assert(map_get(r_applied.map, p2) == Some(s2));
                    },
                    None => {
                        assert(false);
                    },
                }
            }
            assert forall|p2: Entity| !(#[trigger] tagged(r_applied, p2)) implies fwd(
                r_applied,
                p2,
            ) is None by {
                if p2 != p {
                    assert(!tagged(s_applied, p2));
                    assert(fwd(s_applied, p2) is None);
                    assert(fwd(r_applied, p2) == fwd(s_applied, p2));
                }
            }
            assert forall|s2: Entity| (#[trigger] back_of(r_applied, s2)) is Some implies (
            match back_of(r_applied, s2) {
                Some(p2) => tagged(r_applied, p2) && fwd(r_applied, p2) == Some(s2),
                None => false,
            }) by {
                assert(s2 != s);
                assert(back_of(r_applied, s2) == back_of(s_applied, s2));
                match back_of(s_applied, s2) {
                    Some(p2) => {
                        assert(tagged(s_applied, p2));
                        assert(fwd(s_applied, p2) == Some(s2));
                        assert(p2 != p);
                        assert(tagged(r_applied, p2));
                        assert(fwd(r_applied, p2) == Some(s2));
                    },
                    None => {},
                }
            }
        },
        None => {
            assert(false);
        },
    }
}

/// The heart of the cycle guarantee: under the capture invariant, draining
/// the whole queue restores consistency, and the drained system satisfies
/// the invariant again with an empty queue.
pub proof fn lemma_cycle_restores_consistency(st: SyncState, q: Seq<EntityRecord>)
    requires
        inv(st, q),
    ensures
        consistent(apply_seq(st, q)),
        inv(apply_seq(st, q), Seq::<EntityRecord>::empty()),
{
    lemma_apply_seq_basic(st, q);
}

/// Reaping destroys every ephemeral entity and preserves consistency:
/// mirrors are never ephemeral, so the mirrored set is untouched.
pub proof fn lemma_reap_preserves_inv(st: SyncState)
    requires
        inv(st, Seq::<EntityRecord>::empty()),
        consistent(st),
    ensures
        ({
            let reaped = SyncState { main: st.main, render: spec_reap(st.render), map: st.map };
            &&& consistent(reaped)
            &&& inv(reaped, Seq::<EntityRecord>::empty())
            &&& forall|s: int|
                0 <= s < st.render.len() ==> !((#[trigger] spec_reap(st.render)[s]).alive
                    && spec_reap(st.render)[s].fly)
        }),
{
    let reaped = SyncState { main: st.main, render: spec_reap(st.render), map: st.map };
    assert forall|s: int|
        0 <= s < reaped.render.len() && (#[trigger] reaped.render[s]).fly implies reaped.render[s].back is None by {
        assert(st.render[s].fly ==> st.render[s].back is None);
    }
    assert(wf_render(reaped));
    assert forall|s: int|
        0 <= s < st.render.len() implies !((#[trigger] spec_reap(st.render)[s]).alive
        && spec_reap(st.render)[s].fly) by {
        assert(spec_reap(st.render)[s] == (if st.render[s].alive && st.render[s].fly {
            crate::render_world::RenderSlot {
                alive: false,
                back: st.render[s].back,
                fly: st.render[s].fly,
            }
        } else {
            st.render[s]
        }));
    }
    assert forall|p2: Entity| #[trigger] map_get(reaped.map, p2) == fwd(reaped, p2) by {
        assert(map_get(st.map, p2) == fwd(st, p2));
    }
    assert forall|p2: Entity| !(#[trigger] tagged(reaped, p2)) implies fwd(reaped, p2) is None by {
        assert(!tagged(st, p2));
        assert(fwd(st, p2) is None);
    }
    assert forall|p2: Entity| #[trigger] tagged(reaped, p2) implies mirrored(reaped, p2) by {
        assert(tagged(st, p2));
        assert(mirrored(st, p2));
        match fwd(st, p2) {
            Some(s2) => {
                assert(back_of(st, s2) == Some(p2));
                assert(!st.render[s2 as int].fly);
                assert(back_of(reaped, s2) == Some(p2));
            },
            None => {
                assert(false);
            },
        }
    }
    assert forall|s2: Entity| (#[trigger] back_of(reaped, s2)) is Some implies (match back_of(
        reaped,
        s2,
    ) {
        Some(p2) => tagged(reaped, p2) && fwd(reaped, p2) == Some(s2),
        None => false,
    }) by {
        assert(spec_alive(reaped.render, s2));
        assert(spec_alive(st.render, s2));
        assert(back_of(reaped, s2) == back_of(st, s2));
    }
}

/// The mirror-set law: in a consistent state, a primary entity is tagged
/// exactly when some live secondary entity carries a back link to it.
pub proof fn lemma_mirror_sets_match(st: SyncState)
    requires
        consistent(st),
    ensures
        forall|p: Entity|
            #[trigger] tagged(st, p) <==> (exists|s: Entity|
                #[trigger] back_of(st, s) == Some(p)),
{
    assert forall|p: Entity| #[trigger] tagged(st, p) implies (exists|s: Entity|
        #[trigger] back_of(st, s) == Some(p)) by {
        assert(mirrored(st, p));
        match fwd(st, p) {
            Some(s) => {
                assert(back_of(st, s) == Some(p));
            },
            None => {
                assert(false);
            },
        }
    }
}

/// One full cycle, apply then reap, leaves the two stores consistent: the
/// set of live back-linked secondary entities equals exactly the set of
/// primary entities that carry the tag, as of the records processed this
/// cycle.
pub proof fn lemma_cycle_mirrors_tagged(st: SyncState, q: Seq<EntityRecord>)
    requires
        inv(st, q),
    ensures
        ({
            let applied = apply_seq(st, q);
            let reaped = SyncState {
                main: applied.main,
                render: spec_reap(applied.render),
                map: applied.map,
            };
            &&& consistent(applied)
            &&& consistent(reaped)
            &&& inv(reaped, Seq::<EntityRecord>::empty())
            &&& forall|p: Entity|
                #[trigger] tagged(reaped, p) <==> (exists|s: Entity|
                    #[trigger] back_of(reaped, s) == Some(p))
        }),
{
    lemma_cycle_restores_consistency(st, q);
    lemma_reap_preserves_inv(apply_seq(st, q));
    lemma_mirror_sets_match(
        SyncState {
            main: apply_seq(st, q).main,
            render: spec_reap(apply_seq(st, q).render),
            map: apply_seq(st, q).map,
        },
    );
}

/// Idempotence of `Added`: re-processing an `Added` record for an entity
/// that already has a forward link changes nothing; in particular no
/// duplicate secondary entity is created.
pub proof fn lemma_added_idempotent(st: SyncState, p: Entity)
    requires
        fwd(st, p) is Some,
    ensures
        apply_one(st, EntityRecord::Added(p)) == st,
{
}

/// Order independence for distinct entities: applying `Added(a)` then
/// `Added(b)` yields the same final mapping as the opposite order. Secondary
/// ids are allocator-assigned, so the two results are compared as structure:
/// which primary entities are tagged, linked, mapped and mirrored, not which
/// raw secondary ids they received.
pub proof fn lemma_added_order_independent(st: SyncState, a: Entity, b: Entity)
    requires
        a != b,
        st.render.len() + 2 <= usize::MAX,
    ensures
        ({
            let st1 = apply_one(apply_one(st, EntityRecord::Added(a)), EntityRecord::Added(b));
            let st2 = apply_one(apply_one(st, EntityRecord::Added(b)), EntityRecord::Added(a));
            &&& st1.main.len() == st2.main.len()
            &&& st1.render.len() == st2.render.len()
            &&& forall|p: Entity| #[trigger] tagged(st1, p) == tagged(st2, p)
            &&& forall|p: Entity| #[trigger] fwd(st1, p) is Some <==> fwd(st2, p) is Some
            &&& forall|p: Entity|
                #[trigger] map_get(st1.map, p) is Some <==> map_get(st2.map, p) is Some
            &&& forall|p: Entity| #[trigger] has_mirror(st1, p) == has_mirror(st2, p)
        }),
{
    let ca = a < st.main.len() && st.main[a as int].fwd is None;
    let cb = b < st.main.len() && st.main[b as int].fwd is None;
    let st1 = apply_one(apply_one(st, EntityRecord::Added(a)), EntityRecord::Added(b));
    let st2 = apply_one(apply_one(st, EntityRecord::Added(b)), EntityRecord::Added(a));
    if !ca && !cb {
        assert(st1 == st);
        assert(st2 == st);
    } else if ca && !cb {
        assert(st1 == apply_one(st, EntityRecord::Added(a)));
        assert(st2 == apply_one(st, EntityRecord::Added(a)));
    } else if !ca && cb {
        assert(st1 == apply_one(st, EntityRecord::Added(b)));
        assert(st2 == apply_one(st, EntityRecord::Added(b)));
    } else {
        let n = st.render.len() as Entity;
        let m = (st.render.len() + 1) as Entity;
        assert forall|p: Entity| #[trigger] tagged(st1, p) == tagged(st2, p) by {}
        assert forall|p: Entity| #[trigger] fwd(st1, p) is Some <==> fwd(st2, p) is Some by {
            if p != a && p != b {
                assert(fwd(st1, p) == fwd(st, p));
                assert(fwd(st2, p) == fwd(st, p));
            }
        }
        assert forall|p: Entity|
            #[trigger] map_get(st1.map, p) is Some <==> map_get(st2.map, p) is Some by {
            if p != a && p != b {
                assert(map_get(st1.map, p) is Some <==> map_get(st.map, p) is Some);
                assert(map_get(st2.map, p) is Some <==> map_get(st.map, p) is Some);
            }
        }
        assert forall|p: Entity| has_mirror(st1, p) implies has_mirror(st2, p) by {
            let s = choose|s: Entity| #[trigger] back_of(st1, s) == Some(p);
            if s == n {
                assert(back_of(st2, m) == Some(p));
            } else if s == m {
                assert(back_of(st2, n) == Some(p));
            } else {
                assert(back_of(st2, s) == Some(p));
            }
        }
        assert forall|p: Entity| has_mirror(st2, p) implies has_mirror(st1, p) by {
            let s = choose|s: Entity| #[trigger] back_of(st2, s) == Some(p);
            if s == n {
                assert(back_of(st1, m) == Some(p));
            } else if s == m {
                assert(back_of(st1, n) == Some(p));
            } else {
                assert(back_of(st1, s) == Some(p));
            }
        }
    }
}

/// The round trip: from a settled system, tag a live entity and run a cycle
/// (a mirror is created and mapped), untag it and run a cycle: the mirror is
/// destroyed, the forward link and the identity-map entry are gone, and the
/// system is consistent again.
pub proof fn lemma_round_trip(st: SyncState, p: Entity)
    requires
        inv(st, Seq::<EntityRecord>::empty()),
        p < st.main.len(),
        !st.main[p as int].tagged,
        st.render.len() < usize::MAX,
    ensures
        ({
            let after_tag = apply_seq(
                with_tag(st, p, true),
                Seq::<EntityRecord>::empty().push(EntityRecord::Added(p)),
            );
            let after_untag = apply_seq(
                with_tag(after_tag, p, false),
                Seq::<EntityRecord>::empty().push(
                    EntityRecord::Removed(p, spec_fwd(after_tag.main, p)),
                ),
            );
            &&& tagged(after_tag, p)
            &&& fwd(after_tag, p) is Some
            &&& consistent(after_tag)
            &&& !tagged(after_untag, p)
            &&& fwd(after_untag, p) is None
            &&& map_get(after_untag.map, p) is None
            &&& (match fwd(after_tag, p) {
                Some(s) => !spec_alive(after_untag.render, s),
                None => false,
            })
            &&& consistent(after_untag)
        }),
{
    let q0 = Seq::<EntityRecord>::empty();
    lemma_tag_preserves_inv(st, q0, p);
    let st_tagged = with_tag(st, p, true);
    let q1 = q0.push(EntityRecord::Added(p));
    lemma_cycle_restores_consistency(st_tagged, q1);
    let after_tag = apply_seq(st_tagged, q1);
    lemma_apply_seq_basic(st_tagged, q1);
    assert(tagged(st_tagged, p));
    assert(tagged(after_tag, p));
    assert(mirrored(after_tag, p));
    assert(p < after_tag.main.len()) by {
        lemma_apply_seq_len(st_tagged, q1);
    }
    assert(after_tag.main[p as int].tagged);
    lemma_untag_preserves_inv(after_tag, q0, p);
    let st_untagged = with_tag(after_tag, p, false);
    let q2 = q0.push(EntityRecord::Removed(p, spec_fwd(after_tag.main, p)));
    lemma_cycle_restores_consistency(st_untagged, q2);
    let after_untag = apply_seq(st_untagged, q2);
    assert(after_untag == apply_one(st_untagged, EntityRecord::Removed(p, spec_fwd(after_tag.main, p)))) by {
        lemma_apply_seq_push(st_untagged, q0, EntityRecord::Removed(p, spec_fwd(after_tag.main, p)));
    }
    match fwd(after_tag, p) {
        Some(s) => {
            assert(fwd(st_untagged, p) == Some(s));
            assert(crate::state::resolve_removed(st_untagged, p, spec_fwd(after_tag.main, p))
                == Some(s));
            assert(back_of(after_tag, s) == Some(p));
            assert(s < after_tag.render.len());
            assert(!spec_alive(after_untag.render, s));
            assert(fwd(after_untag, p) is None);
            assert(map_get(after_untag.map, p) is None);
        },
        None => {
            assert(false);
        },
    }
}

/// Forward-link uniqueness: in a consistent state at most one live secondary
/// entity mirrors any primary entity.
pub proof fn lemma_mirror_unique(st: SyncState)
    requires
        consistent(st),
    ensures
        forall|s1: Entity, s2: Entity|
            (#[trigger] back_of(st, s1)) is Some && back_of(st, s1) == #[trigger] back_of(st, s2)
                ==> s1 == s2,
{
    assert forall|s1: Entity, s2: Entity|
        (#[trigger] back_of(st, s1)) is Some && back_of(st, s1) == #[trigger] back_of(
        st,
        s2,
    ) implies s1 == s2 by {
        match back_of(st, s1) {
            Some(p) => {
                assert(fwd(st, p) == Some(s1));
                assert(fwd(st, p) == Some(s2));
            },
            None => {},
        }
    }
}

/// An identity-map lookup never yields a dangling id: in a consistent state
/// whose links agree, every entry names a live mirror of its key.
pub proof fn lemma_map_entries_never_dangle(st: SyncState)
    requires
        consistent(st),
        agree(st),
    ensures
        forall|p: Entity|
            (#[trigger] map_get(st.map, p)) is Some ==> (match map_get(st.map, p) {
                Some(s) => spec_alive(st.render, s) && back_of(st, s) == Some(p),
                None => false,
            }),
{
    assert forall|p: Entity| (#[trigger] map_get(st.map, p)) is Some implies (match map_get(
        st.map,
        p,
    ) {
        Some(s) => spec_alive(st.render, s) && back_of(st, s) == Some(p),
        None => false,
    }) by {
        assert(map_get(st.map, p) == fwd(st, p));
        if !tagged(st, p) {
            assert(fwd(st, p) is None);
        }
        assert(tagged(st, p));
        assert(mirrored(st, p));
    }
}

/// One capture-phase operation on the primary store, as the capture API
/// exposes it: spawning an entity, attaching the tag, or detaching it.
pub enum CaptureOp {
    /// `MainWorld::spawn`.
    Spawn,
    /// `tag_entity` on this id: a no-op unless the entity is live and
    /// untagged.
    Tag(Entity),
    /// `untag_entity` on this id: a no-op unless the entity is live and
    /// tagged.
    Untag(Entity),
}

/// What one capture operation does to the stores. Only the primary store
/// changes; the secondary store and the identity map are untouched until the
/// next apply phase.
pub open spec fn capture_state(st: SyncState, op: CaptureOp) -> SyncState {
    match op {
        CaptureOp::Spawn => with_spawned(st),
        CaptureOp::Tag(p) => if p < st.main.len() && !st.main[p as int].tagged {
            with_tag(st, p, true)
        } else {
            st
        },
        CaptureOp::Untag(p) => if p < st.main.len() && st.main[p as int].tagged {
            with_tag(st, p, false)
        } else {
            st
        },
    }
}

/// What one capture operation appends to the pending queue.
pub open spec fn capture_queue(st: SyncState, q: Seq<EntityRecord>, op: CaptureOp) -> Seq<
    EntityRecord,
> {
    match op {
        CaptureOp::Spawn => q,
        CaptureOp::Tag(p) => if p < st.main.len() && !st.main[p as int].tagged {
            q.push(EntityRecord::Added(p))
        } else {
            q
        },
        CaptureOp::Untag(p) => if p < st.main.len() && st.main[p as int].tagged {
            q.push(EntityRecord::Removed(p, spec_fwd(st.main, p)))
        } else {
            q
        },
    }
}

/// The stores and the queue after a whole sequence of capture operations.
pub open spec fn capture_all(st: SyncState, q: Seq<EntityRecord>, ops: Seq<CaptureOp>) -> (
    SyncState,
    Seq<EntityRecord>,
)
    decreases ops.len(),
{
    if ops.len() == 0 {
        (st, q)
    } else {
        let prior = capture_all(st, q, ops.drop_last());
        (capture_state(prior.0, ops.last()), capture_queue(prior.0, prior.1, ops.last()))
    }
}

/// Any sequence of capture operations preserves the capture invariant, as
/// long as the machine's id space has room for what the sequence can spawn
/// and mirror.
pub proof fn lemma_capture_preserves_inv(st: SyncState, q: Seq<EntityRecord>, ops: Seq<CaptureOp>)
    requires
        inv(st, q),
        st.main.len() + ops.len() <= usize::MAX,
        st.render.len() + count_added(q) + ops.len() <= usize::MAX,
    ensures
        inv(capture_all(st, q, ops).0, capture_all(st, q, ops).1),
        capture_all(st, q, ops).0.render == st.render,
        capture_all(st, q, ops).0.main.len() <= st.main.len() + ops.len(),
        count_added(capture_all(st, q, ops).1) <= count_added(q) + ops.len(),
    decreases ops.len(),
{
    if ops.len() == 0 {
    } else {
        lemma_capture_preserves_inv(st, q, ops.drop_last());
        let prior = capture_all(st, q, ops.drop_last());
        match ops.last() {
            CaptureOp::Spawn => {
                lemma_spawn_preserves_inv(prior.0, prior.1);
            },
            CaptureOp::Tag(p) => {
                if p < prior.0.main.len() && !prior.0.main[p as int].tagged {
                    lemma_tag_preserves_inv(prior.0, prior.1, p);
                    assert(prior.1.push(EntityRecord::Added(p)).drop_last() =~= prior.1);
                }
            },
            CaptureOp::Untag(p) => {
                if p < prior.0.main.len() && prior.0.main[p as int].tagged {
                    lemma_untag_preserves_inv(prior.0, prior.1, p);
                    assert(prior.1.push(
                        EntityRecord::Removed(p, spec_fwd(prior.0.main, p)),
                    ).drop_last() =~= prior.1);
                }
            },
        }
    }
}

/// The cycle guarantee in full: after any sequence of capture operations
/// from a settled system, one full cycle (apply, then reap) leaves the two
/// stores consistent, with the mirrored set equal to the tagged set.
pub proof fn lemma_any_captures_then_cycle(st: SyncState, ops: Seq<CaptureOp>)
    requires
        inv(st, Seq::<EntityRecord>::empty()),
        st.main.len() + ops.len() <= usize::MAX,
        st.render.len() + ops.len() <= usize::MAX,
    ensures
        ({
            let captured = capture_all(st, Seq::<EntityRecord>::empty(), ops);
            let applied = apply_seq(captured.0, captured.1);
            let reaped = SyncState {
                main: applied.main,
                render: spec_reap(applied.render),
                map: applied.map,
            };
            &&& consistent(applied)
            &&& consistent(reaped)
            &&& forall|p: Entity|
                #[trigger] tagged(reaped, p) <==> (exists|s: Entity|
                    #[trigger] back_of(reaped, s) == Some(p))
        }),
{
    lemma_capture_preserves_inv(st, Seq::<EntityRecord>::empty(), ops);
    let captured = capture_all(st, Seq::<EntityRecord>::empty(), ops);
    lemma_cycle_mirrors_tagged(captured.0, captured.1);
}

} // verus!
