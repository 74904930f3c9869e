use arlo_wm::{navigate, LayoutKind, Ratio, RegionMap, RegionRegistry, Region, SwitchDirection, TileError};

/// A 100x100 region centered on `(cx, cy)`.
fn at(cx: u32, cy: u32) -> Region {
    Region::new(cx - 50, cy - 50, 100, 100)
}

fn map_of(entries: &[(u32, Region)]) -> RegionMap {
    let mut map = RegionMap::new();
    map.replace_all(&entries.to_vec());
    map
}

#[test]
fn navigation_picks_by_rule() {
    let map = map_of(&[(1, at(100, 100)), (2, at(300, 100)), (3, at(100, 300))]);
    assert_eq!(navigate(&map, 1, SwitchDirection::Right), Ok(Some(2)));
    assert_eq!(navigate(&map, 1, SwitchDirection::Down), Ok(Some(3)));
    assert_eq!(navigate(&map, 1, SwitchDirection::Left), Ok(None));
    assert_eq!(navigate(&map, 1, SwitchDirection::Up), Ok(None));
}

#[test]
fn lone_client_never_moves() {
    let map = map_of(&[(5, Region::new(0, 0, 1920, 1080))]);
    for d in [SwitchDirection::Up, SwitchDirection::Down, SwitchDirection::Left, SwitchDirection::Right] {
        assert_eq!(navigate(&map, 5, d), Ok(None));
    }
}

#[test]
fn unknown_focus_is_an_error() {
    let map = map_of(&[(1, at(100, 100))]);
    assert_eq!(navigate(&map, 2, SwitchDirection::Right), Err(TileError::UnknownClient));
    assert_eq!(navigate(&RegionMap::new(), 2, SwitchDirection::Up), Err(TileError::UnknownClient));
}

#[test]
fn horizontal_moves_take_the_farthest() {
    let map = map_of(&[(1, at(300, 100)), (2, at(400, 500)), (3, at(900, 100)), (4, at(100, 100)), (5, at(200, 900))]);
    assert_eq!(navigate(&map, 1, SwitchDirection::Right), Ok(Some(3)));
    assert_eq!(navigate(&map, 1, SwitchDirection::Left), Ok(Some(4)));
    assert_eq!(navigate(&map, 1, SwitchDirection::Down), Ok(Some(5)));
}

#[test]
fn ties_go_to_the_first_registered() {
    let map = map_of(&[(1, at(100, 100)), (7, at(500, 100)), (3, at(500, 700))]);
    assert_eq!(navigate(&map, 1, SwitchDirection::Right), Ok(Some(7)));
    let map = map_of(&[(1, at(100, 100)), (3, at(500, 700)), (7, at(500, 100))]);
    assert_eq!(navigate(&map, 1, SwitchDirection::Right), Ok(Some(3)));
}

#[test]
fn up_prefers_the_nearest_in_the_same_column() {
    let map = map_of(&[
        (1, at(300, 900)),
        (2, at(300, 100)),
        (3, at(310, 850)),
        (4, at(300, 500)),
        (5, at(300, 950)),
    ]);
    assert_eq!(navigate(&map, 1, SwitchDirection::Up), Ok(Some(4)));
}

#[test]
fn up_falls_back_to_the_nearest_above() {
    let map = map_of(&[(1, at(300, 900)), (2, at(900, 100)), (3, at(200, 700)), (4, at(300, 950))]);
    assert_eq!(navigate(&map, 1, SwitchDirection::Up), Ok(Some(3)));
}

#[test]
fn up_uses_full_coordinates_without_overflow() {
    let far = Region::new(u32::MAX - 100, 0, 100, 100);
    let low = Region::new(0, u32::MAX - 100, 100, 100);
    let map = map_of(&[(1, low), (2, far)]);
    assert_eq!(navigate(&map, 1, SwitchDirection::Up), Ok(Some(2)));
    assert_eq!(navigate(&map, 1, SwitchDirection::Right), Ok(Some(2)));
    assert_eq!(navigate(&map, 2, SwitchDirection::Down), Ok(Some(1)));
    assert_eq!(navigate(&map, 2, SwitchDirection::Left), Ok(Some(1)));
}

#[test]
fn shared_registry_layout_then_navigate() {
    let registry = RegionRegistry::new();
    let placed = registry
        .apply_layout(LayoutKind::MainPlusSide, &vec![1, 2, 3], &Region::new(0, 0, 1000, 500), 1, Ratio::new(3, 5))
        .unwrap();
    assert_eq!(placed.len(), 3);
    assert_eq!(registry.get(2), Ok(Some(Region::new(600, 0, 400, 250))));
    assert_eq!(registry.get(9), Ok(None));
    assert_eq!(registry.navigate(1, SwitchDirection::Right), Ok(Some(2)));
    assert_eq!(registry.navigate(3, SwitchDirection::Left), Ok(Some(1)));
    assert_eq!(registry.navigate(9, SwitchDirection::Left), Err(TileError::UnknownClient));
}

#[test]
fn shared_registry_failed_pass_publishes_nothing() {
    let registry = RegionRegistry::new();
    let r = registry.apply_layout(LayoutKind::Dwindle, &vec![1, 2], &Region::new(0, 0, 1, 1), 0, Ratio::new(1, 2));
    assert_eq!(r, Err(TileError::InvalidLayoutParameters));
    assert_eq!(registry.snapshot().unwrap().snapshot(), vec![]);
}

#[test]
fn shared_registry_pass_without_clients_succeeds() {
    let registry = RegionRegistry::new();
    for kind in [LayoutKind::MainPlusSide, LayoutKind::Dwindle] {
        let r = registry.apply_layout(kind, &vec![], &Region::new(0, 0, 10, 10), 1, Ratio::new(1, 2));
        assert_eq!(r, Ok(vec![]));
    }
    assert_eq!(registry.snapshot().unwrap().snapshot(), vec![]);
}
