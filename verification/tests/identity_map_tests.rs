use world_sync::identity_map::IdentityMap;

#[test]
fn insert_then_get() {
    let mut map = IdentityMap::new();
    assert_eq!(map.get(0), None);
    map.insert(3, 40);
    assert_eq!(map.get(3), Some(40));
    assert_eq!(map.get(0), None);
    assert_eq!(map.get(4), None);
}

#[test]
fn insert_overwrites() {
    let mut map = IdentityMap::new();
    map.insert(1, 10);
    map.insert(1, 20);
    assert_eq!(map.get(1), Some(20));
}

#[test]
fn remove_drops_only_its_entry() {
    let mut map = IdentityMap::new();
    map.insert(0, 5);
    map.insert(2, 7);
    map.remove(0);
    assert_eq!(map.get(0), None);
    assert_eq!(map.get(2), Some(7));
}

#[test]
fn remove_beyond_the_table_is_a_no_op() {
    let mut map = IdentityMap::new();
    map.insert(0, 5);
    map.remove(100);
    assert_eq!(map.get(0), Some(5));
}

#[test]
fn default_is_empty() {
    let map = IdentityMap::default();
    assert_eq!(map.get(0), None);
}
