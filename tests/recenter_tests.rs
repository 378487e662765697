use planisphere::grid::{GridAddress, Planisphere};
use planisphere::recenter::{rebase, LocalPosition, RecenterDecision, TerrainCenter};
use planisphere::terrain::{region_texture_indices, select_texture_from_rgba, RenderedSubpixels};

fn cos_table(height: usize, divisions: usize) -> Vec<usize> {
    (0..height)
        .map(|j| {
            let rank = (2.0 * j as f64 - height as f64).abs();
            let lat = rank * 90.0 / height as f64;
            (divisions as f64 * lat.to_radians().cos()).round().max(1.0) as usize
        })
        .collect()
}

#[test]
fn far_subject_triggers_recenter_and_rebase() {
    let grid = Planisphere::new(360, 180, 8, cos_table(180, 8)).unwrap();
    let mut center = TerrainCenter::new();
    center.max_subpixel_distance = 10;
    let tile = 100u64;
    let subject = LocalPosition { x: 800, y: 0, z: 700 };
    let cell = GridAddress::new(181, 91, 5);
    // 800^2 + 700^2 > 1000^2
    let d = center.on_tick(subject, cell, 5_000, tile);
    assert_eq!(d, RecenterDecision::Recenter(cell));
    center.recenter(&grid, cell, 5_000);
    assert_eq!(center.subpixel, cell);
    assert_eq!(center.center, grid.subpixel_to_geo(cell));
    assert!(center.terrain_recreated);
    center.reset_flag();
    assert!(!center.terrain_recreated);
    let other = LocalPosition { x: 850, y: 3, z: 690 };
    let mut moved = vec![subject, other];
    rebase(&mut moved, subject);
    assert_eq!(moved[0], LocalPosition { x: 0, y: 0, z: 0 });
    assert_eq!(moved[1], LocalPosition { x: 50, y: 3, z: -10 });
}

#[test]
fn near_subject_or_cooldown_keeps_center() {
    let mut center = TerrainCenter::new();
    center.max_subpixel_distance = 10;
    let cell = GridAddress::new(1, 1, 1);
    // exactly at the reach: not beyond it
    let at_edge = LocalPosition { x: 600, y: 900, z: 800 };
    assert_eq!(center.on_tick(at_edge, cell, 0, 100), RecenterDecision::Stay);
    let far = LocalPosition { x: 5000, y: 0, z: 0 };
    center.last_recreation_ms = Some(4_500);
    assert_eq!(center.on_tick(far, cell, 5_000, 100), RecenterDecision::Stay);
    assert_eq!(center.on_tick(far, cell, 5_500, 100), RecenterDecision::Recenter(cell));
}

#[test]
fn new_center_defaults() {
    let c = TerrainCenter::new();
    assert_eq!(c.max_subpixel_distance, 62);
    assert_eq!(c.recreation_cooldown_ms, 1000);
    assert_eq!(c.last_recreation_ms, None);
    assert_eq!(c.subpixel, GridAddress::new(0, 0, 0));
}

#[test]
fn texture_follows_red_tenths() {
    assert_eq!(select_texture_from_rgba(0, 9, 9, 9), 0);
    assert_eq!(select_texture_from_rgba(25, 0, 0, 0), 0);
    assert_eq!(select_texture_from_rgba(26, 0, 0, 0), 1);
    assert_eq!(select_texture_from_rgba(51, 0, 0, 0), 2);
    assert_eq!(select_texture_from_rgba(128, 0, 0, 0), 5);
    assert_eq!(select_texture_from_rgba(229, 0, 0, 0), 8);
    assert_eq!(select_texture_from_rgba(230, 0, 0, 0), 9);
    assert_eq!(select_texture_from_rgba(255, 0, 0, 0), 9);
    let thresholds = [0.1, 0.2, 0.3, 0.4, 0.5, 0.6, 0.7, 0.8, 0.9];
    for r in 0..=255u8 {
        let red = r as f64 / 255.0;
        let by_threshold = thresholds.iter().filter(|t| red >= **t).count();
        assert_eq!(select_texture_from_rgba(r, 0, 0, 0), by_threshold);
    }
}

#[test]
fn region_textures_read_pixel_red() {
    let luma = vec![0u8; 4];
    let rgba = vec![
        255u8, 0, 0, 255, 128, 0, 0, 255, // top row: map row 1
        0, 0, 0, 255, 60, 0, 0, 255, // bottom row: map row 0
    ];
    let p = Planisphere::from_elevation_map(2, 2, 1, vec![1, 1], &luma, &rgba).unwrap();
    let cells = p.get_subpixels_in_rectangle(0, 1, 0, 1);
    let tiles = region_texture_indices(&p, &cells);
    // order: (0,0), (0,1), (1,0), (1,1)
    assert_eq!(tiles, vec![0, 9, 2, 5]);
}

#[test]
fn rendered_set_tracks_region() {
    let grid = Planisphere::new(360, 180, 8, cos_table(180, 8)).unwrap();
    let mut rendered = RenderedSubpixels::new();
    assert!(!rendered.is_visible(0, 0, 0));
    let cells = grid.get_subpixels_in_rectangle(10, 10, 90, 90);
    let center = GridAddress::new(10, 90, 3);
    rendered.update_rendered_subpixels(center, 4, &cells);
    assert!(rendered.is_visible(10, 90, 63));
    assert!(!rendered.is_visible(11, 90, 0));
    assert_eq!(rendered.subpixels.len(), 64);
    assert_eq!(rendered.center, center);
    assert_eq!(rendered.max_distance, 4);
    // a region that folds onto itself lists each subpixel once
    let small = Planisphere::new(4, 2, 2, vec![2, 2]).unwrap();
    let folded = small.get_subpixels_in_rectangle(0, 7, 0, 1);
    assert_eq!(folded.len(), 2 * 4 * 2 * 4);
    rendered.update_rendered_subpixels(center, 4, &folded);
    assert_eq!(rendered.subpixels.len(), 4 * 2 * 4);
}
