use world_sync::entity::MainEntity;
use world_sync::entity::RenderEntity;
use world_sync::identity_map::IdentityMap;
use world_sync::main_world::MainWorld;
use world_sync::pending::EntityRecord;
use world_sync::pending::PendingSyncEntity;
use world_sync::render_world::RenderWorld;
use world_sync::sync::entity_sync_system;
use world_sync::sync::on_sync_tag_added;
use world_sync::sync::on_sync_tag_removed;
use world_sync::sync::tag_entity;
use world_sync::sync::untag_entity;
use world_sync::sync::WorldSyncPlugin;

fn fresh() -> (MainWorld, RenderWorld, IdentityMap, PendingSyncEntity) {
    (MainWorld::new(), RenderWorld::new(), IdentityMap::new(), PendingSyncEntity::new())
}

/// How many live secondary entities carry a back link to `p`.
fn mirrors_of(render: &RenderWorld, p: usize) -> usize {
    let mut count = 0;
    for s in 0..render.len() {
        if render.back_link(s) == Some(p) {
            count += 1;
        }
    }
    count
}

/// How many live secondary entities carry any back link.
fn live_mirrors(render: &RenderWorld) -> usize {
    let mut count = 0;
    for s in 0..render.len() {
        if render.back_link(s).is_some() {
            count += 1;
        }
    }
    count
}

#[test]
fn scenario_one_tag_one_cycle() {
    let (mut main, mut render, mut map, mut pending) = fresh();
    let e1 = main.spawn();
    tag_entity(&mut main, &mut pending, e1);
    assert_eq!(pending.len(), 1);
    assert!(matches!(pending.get(0), EntityRecord::Added(p) if p == e1));

    entity_sync_system(&mut main, &mut render, &mut map, &mut pending);

    assert!(pending.is_empty());
    assert_eq!(render.len(), 1);
    assert_eq!(render.back_link(0), Some(e1));
    assert_eq!(mirrors_of(&render, e1), 1);
    assert_eq!(main.forward_link(e1), Some(0));
    assert_eq!(map.get(e1), Some(0));
}

#[test]
fn scenario_tag_untag_before_cycle() {
    let (mut main, mut render, mut map, mut pending) = fresh();
    let e1 = main.spawn();
    tag_entity(&mut main, &mut pending, e1);
    untag_entity(&mut main, &mut pending, e1);
    assert_eq!(pending.len(), 2);
    assert!(matches!(pending.get(0), EntityRecord::Added(p) if p == e1));
    // The tag left before any cycle ran, so the record's mirror id is
    // unresolved.
    assert!(matches!(pending.get(1), EntityRecord::Removed(p, None) if p == e1));

    entity_sync_system(&mut main, &mut render, &mut map, &mut pending);

    assert!(pending.is_empty());
    assert_eq!(live_mirrors(&render), 0);
    assert_eq!(main.forward_link(e1), None);
    assert_eq!(map.get(e1), None);
}

#[test]
fn scenario_removed_for_already_destroyed_mirror() {
    let (mut main, mut render, mut map, mut pending) = fresh();
    let e1 = main.spawn();
    tag_entity(&mut main, &mut pending, e1);
    entity_sync_system(&mut main, &mut render, &mut map, &mut pending);
    let mirror = main.forward_link(e1).unwrap();

    // An unrelated direct deletion destroys the mirror first.
    render.despawn(mirror);
    assert!(!render.is_alive(mirror));

    // The detach still captures the stale id; applying it is a no-op on the
    // secondary store and still clears the links.
    untag_entity(&mut main, &mut pending, e1);
    assert!(matches!(pending.get(0), EntityRecord::Removed(p, Some(s)) if p == e1 && s == mirror));
    entity_sync_system(&mut main, &mut render, &mut map, &mut pending);

    assert_eq!(main.forward_link(e1), None);
    assert_eq!(map.get(e1), None);
    assert_eq!(live_mirrors(&render), 0);
}

#[test]
fn round_trip_tag_cycle_untag_cycle() {
    let (mut main, mut render, mut map, mut pending) = fresh();
    let p = main.spawn();
    tag_entity(&mut main, &mut pending, p);
    entity_sync_system(&mut main, &mut render, &mut map, &mut pending);
    let mirror = main.forward_link(p).unwrap();
    assert!(render.is_alive(mirror));
    assert_eq!(map.get(p), Some(mirror));

    untag_entity(&mut main, &mut pending, p);
    entity_sync_system(&mut main, &mut render, &mut map, &mut pending);

    assert!(!render.is_alive(mirror));
    assert_eq!(main.forward_link(p), None);
    assert_eq!(map.get(p), None);
}

#[test]
fn added_twice_creates_no_duplicate() {
    let (mut main, mut render, mut map, mut pending) = fresh();
    let p = main.spawn();
    on_sync_tag_added(&mut pending, p);
    on_sync_tag_added(&mut pending, p);
    assert_eq!(pending.len(), 2);

    entity_sync_system(&mut main, &mut render, &mut map, &mut pending);

    assert_eq!(render.len(), 1);
    assert_eq!(mirrors_of(&render, p), 1);
}

#[test]
fn added_order_is_immaterial_for_disjoint_entities() {
    let (mut main1, mut render1, mut map1, mut pending1) = fresh();
    let a1 = main1.spawn();
    let b1 = main1.spawn();
    tag_entity(&mut main1, &mut pending1, a1);
    tag_entity(&mut main1, &mut pending1, b1);
    entity_sync_system(&mut main1, &mut render1, &mut map1, &mut pending1);

    let (mut main2, mut render2, mut map2, mut pending2) = fresh();
    let a2 = main2.spawn();
    let b2 = main2.spawn();
    tag_entity(&mut main2, &mut pending2, b2);
    tag_entity(&mut main2, &mut pending2, a2);
    entity_sync_system(&mut main2, &mut render2, &mut map2, &mut pending2);

    // The same primaries end up mapped and mirrored in both orders; only the
    // allocator-assigned secondary ids differ.
    for p in [a1, b1] {
        assert!(map1.get(p).is_some());
        assert!(map2.get(p).is_some());
        assert!(main1.forward_link(p).is_some());
        assert!(main2.forward_link(p).is_some());
        assert_eq!(mirrors_of(&render1, p), 1);
        assert_eq!(mirrors_of(&render2, p), 1);
    }
    assert_eq!(render1.len(), render2.len());
    assert_eq!(live_mirrors(&render1), live_mirrors(&render2));
}

#[test]
fn stale_capture_across_cycles_leaves_no_orphan() {
    let (mut main, mut render, mut map, mut pending) = fresh();
    let p = main.spawn();
    tag_entity(&mut main, &mut pending, p);
    entity_sync_system(&mut main, &mut render, &mut map, &mut pending);

    // Untag, retag and untag again within one capture window: the first and
    // the last record both carry the now-stale first mirror id.
    untag_entity(&mut main, &mut pending, p);
    tag_entity(&mut main, &mut pending, p);
    untag_entity(&mut main, &mut pending, p);
    entity_sync_system(&mut main, &mut render, &mut map, &mut pending);

    assert!(!main.is_tagged(p));
    assert_eq!(main.forward_link(p), None);
    assert_eq!(map.get(p), None);
    assert_eq!(live_mirrors(&render), 0);
}

#[test]
fn tagging_a_dead_entity_captures_nothing() {
    let (mut main, _, _, mut pending) = fresh();
    tag_entity(&mut main, &mut pending, 7);
    assert!(pending.is_empty());
    assert_eq!(main.len(), 0);
}

#[test]
fn untagging_an_untagged_entity_captures_nothing() {
    let (mut main, _, _, mut pending) = fresh();
    let p = main.spawn();
    untag_entity(&mut main, &mut pending, p);
    assert!(pending.is_empty());
}

#[test]
fn tagging_twice_captures_once() {
    let (mut main, _, _, mut pending) = fresh();
    let p = main.spawn();
    tag_entity(&mut main, &mut pending, p);
    tag_entity(&mut main, &mut pending, p);
    assert_eq!(pending.len(), 1);
    assert!(main.is_tagged(p));
}

#[test]
fn unresolved_removed_for_unknown_entity_is_a_no_op() {
    let (mut main, mut render, mut map, mut pending) = fresh();
    on_sync_tag_removed(&main, &mut pending, 9);
    assert!(matches!(pending.get(0), EntityRecord::Removed(9, None)));
    entity_sync_system(&mut main, &mut render, &mut map, &mut pending);
    assert!(pending.is_empty());
    assert_eq!(render.len(), 0);
    assert_eq!(map.get(9), None);
}

#[test]
fn queue_keeps_capture_order() {
    let (mut main, _, _, mut pending) = fresh();
    let a = main.spawn();
    let b = main.spawn();
    tag_entity(&mut main, &mut pending, b);
    tag_entity(&mut main, &mut pending, a);
    untag_entity(&mut main, &mut pending, b);
    assert_eq!(pending.len(), 3);
    assert!(matches!(pending.get(0), EntityRecord::Added(p) if p == b));
    assert!(matches!(pending.get(1), EntityRecord::Added(p) if p == a));
    assert!(matches!(pending.get(2), EntityRecord::Removed(p, None) if p == b));
}

#[test]
fn full_cycle_through_plugin() {
    let (mut main, mut render, mut map, mut pending) = fresh();
    let p = main.spawn();
    tag_entity(&mut main, &mut pending, p);
    let fly = render.spawn_fly();

    let plugin = WorldSyncPlugin::default();
    let reaped = plugin.run_cycle(&mut main, &mut render, &mut map, &mut pending);

    // The mirror was created by the apply phase and survives the reaper; the
    // ephemeral entity is gone.
    assert_eq!(reaped, vec![fly]);
    assert!(!render.is_alive(fly));
    assert_eq!(mirrors_of(&render, p), 1);
    assert_eq!(map.get(p), Some(main.forward_link(p).unwrap()));
}

#[test]
fn link_components_carry_their_ids() {
    let forward = RenderEntity(11);
    assert_eq!(forward.id(), 11);
    let back = MainEntity(4);
    assert_eq!(back.id(), 4);
}

#[test]
fn component_getters_wrap_raw_links() {
    let (mut main, mut render, mut map, mut pending) = fresh();
    let p = main.spawn();
    tag_entity(&mut main, &mut pending, p);
    entity_sync_system(&mut main, &mut render, &mut map, &mut pending);
    let mirror = main.forward_link(p).unwrap();
    assert_eq!(main.render_entity(p).unwrap().id(), mirror);
    assert_eq!(render.main_entity(mirror).unwrap().id(), p);
    assert!(main.render_entity(99).is_none());
    assert!(render.main_entity(99).is_none());
}

#[test]
fn forward_links_and_identity_map_never_diverge() {
    let (mut main, mut render, mut map, mut pending) = fresh();
    let a = main.spawn();
    let b = main.spawn();
    let c = main.spawn();
    tag_entity(&mut main, &mut pending, a);
    tag_entity(&mut main, &mut pending, b);
    entity_sync_system(&mut main, &mut render, &mut map, &mut pending);
    untag_entity(&mut main, &mut pending, a);
    tag_entity(&mut main, &mut pending, c);
    entity_sync_system(&mut main, &mut render, &mut map, &mut pending);
    for p in 0..main.len() {
        assert_eq!(map.get(p), main.forward_link(p));
        // An entry never dangles: it names a live mirror of its key.
        if let Some(s) = map.get(p) {
            assert!(render.is_alive(s));
            assert_eq!(render.back_link(s), Some(p));
        }
    }
}

#[test]
fn mirrored_set_equals_tagged_set_after_a_cycle() {
    let (mut main, mut render, mut map, mut pending) = fresh();
    for _ in 0..5 {
        main.spawn();
    }
    // An arbitrary burst of transitions across two capture windows.
    tag_entity(&mut main, &mut pending, 0);
    tag_entity(&mut main, &mut pending, 2);
    tag_entity(&mut main, &mut pending, 4);
    untag_entity(&mut main, &mut pending, 2);
    entity_sync_system(&mut main, &mut render, &mut map, &mut pending);
    tag_entity(&mut main, &mut pending, 1);
    untag_entity(&mut main, &mut pending, 0);
    tag_entity(&mut main, &mut pending, 0);
    entity_sync_system(&mut main, &mut render, &mut map, &mut pending);

    for p in 0..main.len() {
        let expected = if main.is_tagged(p) { 1 } else { 0 };
        assert_eq!(mirrors_of(&render, p), expected);
    }
    assert_eq!(live_mirrors(&render), 3);
}
