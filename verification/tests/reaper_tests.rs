use world_sync::render_world::RenderWorld;
use world_sync::sync::despawn_fly_entity;

#[test]
fn reaper_destroys_in_descending_order() {
    let mut render = RenderWorld::new();
    // Lay the store out so the ephemeral entities get ids 2, 5 and 9.
    render.spawn_empty();
    render.spawn_empty();
    let f2 = render.spawn_fly();
    render.spawn_empty();
    render.spawn_empty();
    let f5 = render.spawn_fly();
    render.spawn_empty();
    render.spawn_empty();
    render.spawn_empty();
    let f9 = render.spawn_fly();
    assert_eq!((f2, f5, f9), (2, 5, 9));

    let reaped = despawn_fly_entity(&mut render);
    assert_eq!(reaped, vec![9, 5, 2]);

    for s in 0..render.len() {
        if s == 2 || s == 5 || s == 9 {
            assert!(!render.is_alive(s));
        } else {
            assert!(render.is_alive(s));
        }
    }
}

#[test]
fn reaper_on_a_store_without_ephemerals_is_a_no_op() {
    let mut render = RenderWorld::new();
    render.spawn_empty();
    render.spawn_empty();
    let reaped = despawn_fly_entity(&mut render);
    assert!(reaped.is_empty());
    assert!(render.is_alive(0));
    assert!(render.is_alive(1));
}

#[test]
fn reaper_skips_already_dead_ephemerals() {
    let mut render = RenderWorld::new();
    let a = render.spawn_fly();
    let b = render.spawn_fly();
    render.despawn(a);
    let reaped = despawn_fly_entity(&mut render);
    assert_eq!(reaped, vec![b]);
    assert!(!render.is_alive(a));
    assert!(!render.is_alive(b));
}

#[test]
fn reaping_twice_finds_nothing_the_second_time() {
    let mut render = RenderWorld::new();
    render.spawn_fly();
    render.spawn_fly();
    let first = despawn_fly_entity(&mut render);
    assert_eq!(first, vec![1, 0]);
    let second = despawn_fly_entity(&mut render);
    assert!(second.is_empty());
}
