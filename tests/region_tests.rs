use planisphere::grid::{GeoCoordinate, GridAddress, Planisphere};
use planisphere::region::{DistanceMethod, RegionCell};

fn cos_table(height: usize, divisions: usize) -> Vec<usize> {
    (0..height)
        .map(|j| {
            let rank = (2.0 * j as f64 - height as f64).abs();
            let lat = rank * 90.0 / height as f64;
            (divisions as f64 * lat.to_radians().cos()).round().max(1.0) as usize
        })
        .collect()
}

fn world() -> Planisphere {
    Planisphere::new(360, 180, 8, cos_table(180, 8)).unwrap()
}

fn interior_center(p: &Planisphere) -> GridAddress {
    p.geo_to_subpixel(GeoCoordinate { longitude: 10_300_000, latitude: 20_700_000 })
}

fn continuous(a: GridAddress) -> (i64, i64) {
    ((a.i * 8 + a.k / 8) as i64, (a.j * 8 + a.k % 8) as i64)
}

fn count_center(cells: &[RegionCell], c: GridAddress) -> usize {
    cells.iter().filter(|x| x.address == c).count()
}

#[test]
fn euclidean_region_matches_brute_force() {
    let p = world();
    let c = interior_center(&p);
    let cells = p.get_subpixels_by_circular_distance(c, 5);
    let (cx, cy) = continuous(c);
    for cell in &cells {
        let (x, y) = continuous(cell.address);
        assert!((x - cx) * (x - cx) + (y - cy) * (y - cy) <= 25);
    }
    // independent scan over the same bounding box: max / S + 2 = 2 pixels each way
    let mut brute = 0usize;
    for i in c.i - 2..=c.i + 2 {
        for j in c.j - 2..=c.j + 2 {
            let l = p.get_lon_subdivisons(j);
            for k in 0..l * 8 {
                let (x, y) = continuous(GridAddress::new(i, j, k));
                if (x - cx) * (x - cx) + (y - cy) * (y - cy) <= 25 {
                    brute += 1;
                }
            }
        }
    }
    assert_eq!(cells.len(), brute);
    assert_eq!(cells[0].address, c);
    assert_eq!(count_center(&cells, c), 1);
}

#[test]
fn every_metric_holds_center_once_and_first() {
    let p = world();
    let c = interior_center(&p);
    for method in [DistanceMethod::Manhattan, DistanceMethod::Euclidean, DistanceMethod::Chebyshev] {
        let cells = p.get_subpixels_by_distance_method(c, 9, method);
        assert_eq!(cells[0].address, c);
        assert_eq!(cells[0].corners, p.get_subpixel_corners(c));
        assert_eq!(count_center(&cells, c), 1);
    }
}

fn axis_steps(p: usize, sub: usize, c: usize, csub: usize, s: usize) -> usize {
    if p > c {
        (s - csub) + sub + (p - c - 1) * s
    } else if p < c {
        csub + (s - sub) + (c - p - 1) * s
    } else {
        sub.abs_diff(csub)
    }
}

fn manhattan(a: GridAddress, c: GridAddress, s: usize) -> usize {
    axis_steps(a.i, a.k / s, c.i, c.k / s, s) + axis_steps(a.j, a.k % s, c.j, c.k % s, s)
}

#[test]
fn manhattan_counts_subpixel_steps() {
    let p = world();
    let c = interior_center(&p);
    let cells = p.get_subpixels_by_distance(c, 8);
    for cell in &cells {
        assert!(manhattan(cell.address, c, 8) <= 8);
    }
    // independent scan over the search box: 8 / 8 + 1 = 2 pixels each way
    let mut brute = 0usize;
    for i in c.i - 2..=c.i + 2 {
        for j in c.j - 2..=c.j + 2 {
            for k in 0..p.get_lon_subdivisons(j) * 8 {
                if manhattan(GridAddress::new(i, j, k), c, 8) <= 8 {
                    brute += 1;
                }
            }
        }
    }
    assert_eq!(cells.len(), brute);
}

#[test]
fn manhattan_excludes_cell_three_steps_away() {
    let p = Planisphere::new(4, 2, 2, vec![2, 2]).unwrap();
    let c = GridAddress::new(1, 0, 0);
    let cells = p.get_subpixels_by_distance(c, 2);
    let addrs: Vec<GridAddress> = cells.iter().map(|x| x.address).collect();
    // sub_i 1 of pixel 2: two steps out of the center pixel, one in
    assert!(!addrs.contains(&GridAddress::new(2, 0, 2)));
    // sub_i 0 of pixel 2 is two steps away
    assert!(addrs.contains(&GridAddress::new(2, 0, 0)));
    assert!(addrs.contains(&GridAddress::new(1, 1, 0)));
    assert!(!addrs.contains(&GridAddress::new(1, 1, 1)));
}

#[test]
fn chebyshev_returns_whole_rectangle() {
    let p = world();
    let c = interior_center(&p);
    let cells = p.get_subpixels_by_rectangular_distance(c, 8);
    let lc = p.get_lon_subdivisons(c.j);
    let rx = 8 / lc + 1;
    let ry = 8 / 8 + 1;
    let mut expected = 0;
    for _i in c.i - rx..=c.i + rx {
        for j in c.j - ry..=c.j + ry {
            expected += p.get_lon_subdivisons(j) * 8;
        }
    }
    assert_eq!(cells.len(), expected);
    let rect = p.get_subpixels_in_rectangle(c.i - rx, c.i + rx, c.j - ry, c.j + ry);
    assert_eq!(rect.len(), expected);
}

#[test]
fn rectangle_folds_columns_past_east_edge() {
    let p = world();
    let rect = p.get_subpixels_in_rectangle(359, 360, 90, 90);
    assert_eq!(rect.len(), 2 * 64);
    assert_eq!(rect[0].address, GridAddress::new(359, 90, 0));
    assert_eq!(rect[64].address, GridAddress::new(0, 90, 0));
    assert_eq!(rect[65].address, GridAddress::new(0, 90, 1));
}

#[test]
fn rectangle_orders_columns_then_rows_then_k() {
    let p = world();
    let rect = p.get_subpixels_in_rectangle(3, 4, 178, 179);
    // rows 178 and 179 have one subpixel column each
    assert_eq!(rect.len(), 4 * 8);
    assert_eq!(rect[0].address, GridAddress::new(3, 178, 0));
    assert_eq!(rect[8].address, GridAddress::new(3, 179, 0));
    assert_eq!(rect[16].address, GridAddress::new(4, 178, 0));
    assert_eq!(rect[31].address, GridAddress::new(4, 179, 7));
}

#[test]
fn block_around_subpixel_has_requested_size() {
    let p = world();
    let c = GridAddress::new(100, 90, 4 * 8 + 4);
    let block = p.get_subpixels_rect_centered_on_subpixel(c, 3, 2);
    assert_eq!(block.len(), 6);
    // offsets start at (-1, -1)
    assert_eq!(block[0].address, p.get_neighbour_subpixel(c, -1, -1));
    assert_eq!(block[4].address, c);
    assert!(p.get_subpixels_rect_centered_on_subpixel(c, 0, 5).is_empty());
}

#[test]
fn corners_are_clockwise_and_exact() {
    let p = world();
    let corners = p.get_subpixel_corners(GridAddress::new(180, 90, 34));
    assert_eq!(corners.top_left, GeoCoordinate { longitude: 500_000, latitude: 250_000 });
    assert_eq!(corners.top_right, GeoCoordinate { longitude: 625_000, latitude: 250_000 });
    assert_eq!(corners.bottom_right, GeoCoordinate { longitude: 625_000, latitude: 375_000 });
    assert_eq!(corners.bottom_left, GeoCoordinate { longitude: 500_000, latitude: 375_000 });
}

#[test]
fn date_line_cells_keep_their_hemisphere() {
    let p = world();
    let (left, right, top, bottom) = p.get_pixel_boundaries(0, 90);
    assert_eq!((left, right, top, bottom), (-180_000_000, -179_000_000, 0, 1_000_000));
    let (left, right, _, _) = p.get_pixel_boundaries(359, 90);
    assert_eq!((left, right), (179_000_000, 180_000_000));
    let (left, right, _, _) = p.get_subpixel_boundaries(359, 90, 7, 0);
    assert_eq!((left, right), (179_875_000, 180_000_000));
    let c = p.get_pixel_corners(0, 90);
    assert_eq!(c.top_left, GeoCoordinate { longitude: -180_000_000, latitude: 0 });
}

#[test]
fn halves_of_even_map_meet_at_prime_meridian() {
    let p = world();
    let (left, right, _, _) = p.get_subpixel_boundaries(179, 90, 7, 0);
    assert_eq!((left, right), (-125_000, 0));
    let (left, right, _, _) = p.get_subpixel_boundaries(180, 90, 0, 0);
    assert_eq!((left, right), (0, 125_000));
    let (left, right, _, _) = p.get_pixel_boundaries(179, 10);
    assert!(left <= 0 && right <= 0);
}
