use arlo_wm::{dwindle, layout, layout_into, main_plus_side, LayoutKind, Ratio, RegionMap, Region, TileError};

fn reg(x: u32, y: u32, w: u32, h: u32) -> Region {
    Region::new(x, y, w, h)
}

fn assert_tiles(placed: &[(u32, Region)], monitor: Region) {
    let mut area: u64 = 0;
    for (_, r) in placed {
        assert!(r.w > 0 && r.h > 0);
        assert!(r.x >= monitor.x && r.y >= monitor.y);
        assert!(r.x + r.w <= monitor.x + monitor.w && r.y + r.h <= monitor.y + monitor.h);
        area += r.w as u64 * r.h as u64;
    }
    assert_eq!(area, monitor.w as u64 * monitor.h as u64);
    for i in 0..placed.len() {
        for j in 0..placed.len() {
            if i != j {
                let a = placed[i].1;
                let b = placed[j].1;
                let apart = a.x + a.w <= b.x || b.x + b.w <= a.x || a.y + a.h <= b.y || b.y + b.h <= a.y;
                assert!(apart, "{:?} overlaps {:?}", a, b);
            }
        }
    }
}

#[test]
fn main_plus_side_without_clients_is_empty() {
    let r = main_plus_side(&vec![], &reg(0, 0, 1000, 500), 1, Ratio::new(3, 5));
    assert_eq!(r, Ok(vec![]));
}

#[test]
fn dwindle_without_clients_is_empty() {
    assert_eq!(dwindle(&vec![], &reg(0, 0, 1000, 500)), Ok(vec![]));
}

#[test]
fn layout_into_without_clients_leaves_registry() {
    let mut registry = RegionMap::new();
    registry.insert(9, reg(1, 2, 3, 4));
    for kind in [LayoutKind::MainPlusSide, LayoutKind::Dwindle] {
        let r = layout_into(&mut registry, kind, &vec![], &reg(0, 0, 100, 100), 1, Ratio::new(1, 2));
        assert_eq!(r, Ok(vec![]));
        assert_eq!(registry.snapshot(), vec![(9, reg(1, 2, 3, 4))]);
    }
}

#[test]
fn single_client_gets_whole_monitor() {
    let monitor = reg(10, 20, 640, 480);
    for (in_main, ratio) in [(0, Ratio::new(0, 1)), (1, Ratio::new(4, 5)), (5, Ratio::new(7, 0))] {
        assert_eq!(main_plus_side(&vec![7], &monitor, in_main, ratio), Ok(vec![(7, monitor)]));
    }
    assert_eq!(dwindle(&vec![7], &monitor), Ok(vec![(7, monitor)]));
}

#[test]
fn main_plus_side_three_clients() {
    let r = main_plus_side(&vec![1, 2, 3], &reg(0, 0, 1000, 500), 1, Ratio::new(3, 5));
    assert_eq!(
        r,
        Ok(vec![(1, reg(0, 0, 600, 500)), (2, reg(600, 0, 400, 250)), (3, reg(600, 250, 400, 250))])
    );
}

#[test]
fn main_plus_side_last_row_takes_remainder() {
    let monitor = reg(0, 0, 1000, 500);
    let r = main_plus_side(&vec![1, 2, 3, 4], &monitor, 1, Ratio::new(4, 5)).unwrap();
    assert_eq!(
        r,
        vec![
            (1, reg(0, 0, 800, 500)),
            (2, reg(800, 0, 200, 166)),
            (3, reg(800, 166, 200, 166)),
            (4, reg(800, 332, 200, 168)),
        ]
    );
    assert_tiles(&r, monitor);
}

#[test]
fn main_plus_side_two_in_main() {
    let monitor = reg(0, 0, 1000, 600);
    let r = main_plus_side(&vec![1, 2, 3], &monitor, 2, Ratio::new(1, 2)).unwrap();
    assert_eq!(
        r,
        vec![(1, reg(0, 0, 500, 300)), (2, reg(0, 300, 500, 300)), (3, reg(500, 0, 500, 600))]
    );
    assert_tiles(&r, monitor);
}

#[test]
fn main_plus_side_all_in_main_share_monitor() {
    let monitor = reg(0, 0, 300, 90);
    let r = main_plus_side(&vec![1, 2, 3], &monitor, 3, Ratio::new(1, 2)).unwrap();
    assert_eq!(r, vec![(1, reg(0, 0, 300, 30)), (2, reg(0, 30, 300, 30)), (3, reg(0, 60, 300, 30))]);
}

#[test]
fn main_plus_side_rejects_bad_ratios() {
    let monitor = reg(0, 0, 1000, 500);
    let clients = vec![1, 2];
    for ratio in [Ratio::new(0, 5), Ratio::new(5, 5), Ratio::new(6, 5), Ratio::new(1, 0), Ratio::new(1, 2000)] {
        assert_eq!(
            main_plus_side(&clients, &monitor, 1, ratio),
            Err(TileError::InvalidLayoutParameters)
        );
    }
}

#[test]
fn main_plus_side_rejects_rows_under_one_pixel() {
    let monitor = reg(0, 0, 100, 2);
    let r = main_plus_side(&vec![1, 2, 3, 4], &monitor, 1, Ratio::new(1, 2));
    assert_eq!(r, Err(TileError::InvalidLayoutParameters));
    let ok = main_plus_side(&vec![1, 2, 3], &monitor, 1, Ratio::new(1, 2)).unwrap();
    assert_tiles(&ok, monitor);
}

#[test]
fn dwindle_three_clients() {
    let r = dwindle(&vec![1, 2, 3], &reg(0, 0, 800, 400));
    assert_eq!(
        r,
        Ok(vec![(1, reg(0, 0, 400, 400)), (2, reg(400, 0, 400, 200)), (3, reg(400, 200, 400, 200))])
    );
}

#[test]
fn dwindle_tall_monitor_cuts_height_first() {
    let monitor = reg(0, 0, 400, 801);
    let r = dwindle(&vec![1, 2, 3, 4], &monitor).unwrap();
    assert_eq!(
        r,
        vec![
            (1, reg(0, 0, 400, 400)),
            (2, reg(0, 400, 200, 401)),
            (3, reg(200, 400, 200, 200)),
            (4, reg(200, 600, 200, 201)),
        ]
    );
    assert_tiles(&r, monitor);
}

#[test]
fn dwindle_rejects_unsplittable_region() {
    assert_eq!(dwindle(&vec![1, 2], &reg(0, 0, 1, 1)), Err(TileError::InvalidLayoutParameters));
    assert_eq!(dwindle(&vec![1, 2, 3], &reg(0, 0, 3, 1)), Err(TileError::InvalidLayoutParameters));
}

#[test]
fn layouts_tile_the_monitor() {
    let monitor = reg(17, 5, 1913, 1057);
    for n in 1..12u32 {
        let clients: Vec<u32> = (0..n).collect();
        for in_main in 0..4 {
            let r = main_plus_side(&clients, &monitor, in_main, Ratio::new(3, 5)).unwrap();
            assert_eq!(r.len(), n as usize);
            assert_tiles(&r, monitor);
        }
        let r = dwindle(&clients, &monitor).unwrap();
        assert_eq!(r.len(), n as usize);
        assert_tiles(&r, monitor);
    }
}

#[test]
fn layout_dispatches_on_kind() {
    let monitor = reg(0, 0, 800, 400);
    let clients = vec![1, 2, 3];
    assert_eq!(layout(LayoutKind::Dwindle, &clients, &monitor, 1, Ratio::new(1, 2)), dwindle(&clients, &monitor));
    assert_eq!(
        layout(LayoutKind::MainPlusSide, &clients, &monitor, 1, Ratio::new(1, 2)),
        main_plus_side(&clients, &monitor, 1, Ratio::new(1, 2))
    );
}

#[test]
fn layout_into_records_placement() {
    let mut registry = RegionMap::new();
    registry.insert(42, reg(0, 0, 5, 5));
    let r = layout_into(&mut registry, LayoutKind::Dwindle, &vec![1, 2], &reg(0, 0, 800, 400), 1, Ratio::new(1, 2)).unwrap();
    assert_eq!(r, vec![(1, reg(0, 0, 400, 400)), (2, reg(400, 0, 400, 400))]);
    assert_eq!(
        registry.snapshot(),
        vec![(42, reg(0, 0, 5, 5)), (1, reg(0, 0, 400, 400)), (2, reg(400, 0, 400, 400))]
    );
}

#[test]
fn layout_into_failure_leaves_registry() {
    let mut registry = RegionMap::new();
    registry.insert(1, reg(0, 0, 5, 5));
    let r = layout_into(&mut registry, LayoutKind::MainPlusSide, &vec![1, 2], &reg(0, 0, 800, 400), 1, Ratio::new(0, 2));
    assert_eq!(r, Err(TileError::InvalidLayoutParameters));
    assert_eq!(registry.snapshot(), vec![(1, reg(0, 0, 5, 5))]);
}
