use arlo_wm::{RegionMap, RegionRegistry, Region};

#[test]
fn replace_all_overwrites_and_keeps_others() {
    let mut map = RegionMap::new();
    map.replace_all(&vec![(1, Region::new(0, 0, 10, 10)), (2, Region::new(10, 0, 10, 10))]);
    map.replace_all(&vec![(3, Region::new(0, 10, 5, 5)), (1, Region::new(1, 1, 1, 1))]);
    assert_eq!(
        map.snapshot(),
        vec![(1, Region::new(1, 1, 1, 1)), (2, Region::new(10, 0, 10, 10)), (3, Region::new(0, 10, 5, 5))]
    );
    assert_eq!(map.get(1), Some(Region::new(1, 1, 1, 1)));
    assert_eq!(map.get(4), None);
}

#[test]
fn replace_all_last_duplicate_wins() {
    let mut map = RegionMap::new();
    map.replace_all(&vec![(1, Region::new(0, 0, 10, 10)), (1, Region::new(5, 5, 1, 1))]);
    assert_eq!(map.snapshot(), vec![(1, Region::new(5, 5, 1, 1))]);
}

#[test]
fn remove_drops_one_entry() {
    let mut map = RegionMap::new();
    map.replace_all(&vec![(1, Region::new(0, 0, 1, 1)), (2, Region::new(1, 0, 1, 1)), (3, Region::new(2, 0, 1, 1))]);
    map.remove(2);
    map.remove(7);
    assert_eq!(map.snapshot(), vec![(1, Region::new(0, 0, 1, 1)), (3, Region::new(2, 0, 1, 1))]);
    assert_eq!(map.get(2), None);
}

#[test]
fn shared_registry_round_trip() {
    let registry = RegionRegistry::new();
    assert_eq!(registry.get(1), Ok(None));
    registry.replace_all(&vec![(1, Region::new(0, 0, 3, 4))]).unwrap();
    registry.replace_all(&vec![(2, Region::new(3, 0, 3, 4))]).unwrap();
    assert_eq!(registry.get(1), Ok(Some(Region::new(0, 0, 3, 4))));
    assert_eq!(
        registry.snapshot().unwrap().snapshot(),
        vec![(1, Region::new(0, 0, 3, 4)), (2, Region::new(3, 0, 3, 4))]
    );
}
