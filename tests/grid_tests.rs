use planisphere::grid::{GeoCoordinate, GridAddress, GridError, Planisphere, LAT_SPAN, LON_SPAN};

fn cos_table(height: usize, divisions: usize) -> Vec<usize> {
    (0..height)
        .map(|j| {
            let rank = (2.0 * j as f64 - height as f64).abs();
            let lat = rank * 90.0 / height as f64;
            (divisions as f64 * lat.to_radians().cos()).round().max(1.0) as usize
        })
        .collect()
}

fn world() -> Planisphere {
    Planisphere::new(360, 180, 8, cos_table(180, 8)).unwrap()
}

fn deg(lon: f64, lat: f64) -> GeoCoordinate {
    GeoCoordinate {
        longitude: (lon * 1_000_000.0).round() as i64,
        latitude: (lat * 1_000_000.0).round() as i64,
    }
}

#[test]
fn equator_origin_maps_to_center_pixel() {
    let p = world();
    let a = p.geo_to_subpixel(deg(0.0, 0.0));
    assert_eq!(p.get_lon_subdivisons(90), 8);
    assert_eq!((a.i, a.j), (180, 90));
    // sub_i = 180 mod 8 = 4, sub_j = 90 mod 8 = 2
    assert_eq!(a.k, 4 * 8 + 2);
}

#[test]
fn near_pole_has_fewer_subdivisions() {
    let p = world();
    let a = p.geo_to_subpixel(deg(0.0, 89.9));
    assert_eq!(a.j, 179);
    let polar = p.get_lon_subdivisons(a.j);
    let equator = p.get_lon_subdivisons(p.geo_to_subpixel(deg(0.0, 0.0)).j);
    assert_eq!(polar, 1);
    assert!(polar < equator);
    assert_eq!(a.k, 179 % 8);
}

#[test]
fn north_pole_latitude_wraps_to_row_zero() {
    let p = world();
    let a = p.geo_to_subpixel(deg(0.0, 90.0));
    assert_eq!(a.j, 0);
}

#[test]
fn round_trip_stays_in_cell() {
    let p = world();
    let samples = [
        (0.0, 0.0),
        (-180.0, -90.0),
        (179.999, 89.999),
        (12.34, -45.67),
        (-77.7, 66.6),
        (101.01, 0.5),
        (-0.25, -0.25),
    ];
    for (lon, lat) in samples {
        let c = deg(lon, lat);
        let a = p.geo_to_subpixel(c);
        let q = p.subpixel_to_geo(a);
        assert_eq!(p.geo_to_subpixel(q), a);
        assert!(((q.longitude - c.longitude) * 360).abs() < LON_SPAN);
        assert!(((q.latitude - c.latitude) * 180).abs() < LAT_SPAN);
    }
}

#[test]
fn subpixel_to_geo_interpolates_within_pixel() {
    let p = world();
    // pixel (180, 90), sub_i 4 of 8, sub_j 2 of 8
    let q = p.subpixel_to_geo(GridAddress::new(180, 90, 34));
    assert_eq!(q, GeoCoordinate { longitude: 500_000, latitude: 250_000 });
    let corner = p.subpixel_to_geo(GridAddress::new(0, 0, 0));
    assert_eq!(corner, GeoCoordinate { longitude: -180_000_000, latitude: -90_000_000 });
}

#[test]
fn subdivision_table_is_monotone_and_positive() {
    let t = cos_table(180, 8);
    for j1 in 0..180usize {
        assert!(t[j1] >= 1);
        for j2 in 0..180usize {
            let r1 = (2 * j1 as i64 - 180).abs();
            let r2 = (2 * j2 as i64 - 180).abs();
            if r1 <= r2 {
                assert!(t[j1] >= t[j2]);
            }
        }
    }
    assert!(Planisphere::new(360, 180, 8, t).is_ok());
}

#[test]
fn rejects_bad_dimensions_and_tables() {
    assert_eq!(
        Planisphere::new(0, 180, 8, cos_table(180, 8)).err(),
        Some(GridError::InvalidDimensions)
    );
    assert_eq!(
        Planisphere::new(360, 1, 8, vec![8]).err(),
        Some(GridError::InvalidDimensions)
    );
    assert_eq!(
        Planisphere::new(360, 180, 0, cos_table(180, 8)).err(),
        Some(GridError::InvalidDimensions)
    );
    assert_eq!(
        Planisphere::new(360, 180, 8, cos_table(179, 8)).err(),
        Some(GridError::InvalidSubdivisions)
    );
    let mut growing = cos_table(180, 8);
    growing[0] = 8;
    assert_eq!(
        Planisphere::new(360, 180, 8, growing).err(),
        Some(GridError::InvalidSubdivisions)
    );
    let mut zero = cos_table(180, 8);
    zero[90] = 0;
    assert_eq!(
        Planisphere::new(360, 180, 8, zero).err(),
        Some(GridError::InvalidSubdivisions)
    );
    let mut too_many = cos_table(180, 8);
    too_many[90] = 9;
    assert_eq!(
        Planisphere::new(360, 180, 8, too_many).err(),
        Some(GridError::InvalidSubdivisions)
    );
}

#[test]
fn image_rows_are_flipped_and_channels_split() {
    // 2 x 2 image, top row first
    let luma = vec![10u8, 20, 30, 80];
    let rgba = vec![
        1u8, 2, 3, 4, 5, 6, 7, 8, // top row
        9, 10, 11, 12, 13, 14, 15, 16, // bottom row
    ];
    let p = Planisphere::from_elevation_map(2, 2, 2, vec![1, 1], &luma, &rgba).unwrap();
    // map row 0 is the image's bottom row
    assert_eq!(p.get_elevation(0, 0), 30);
    assert_eq!(p.get_elevation(1, 0), 80);
    assert_eq!(p.get_elevation(0, 1), 10);
    assert_eq!(p.get_rgba_at_pixel(1, 0), (13, 14, 15, 16));
    assert_eq!(p.get_rgba_at_pixel(0, 1), (1, 2, 3, 4));
    assert_eq!(p.get_rgba_at_subpixel(1, 1, 0), (5, 6, 7, 8));
    assert!(p.is_sea(0, 0));
    assert!(!p.is_sea(1, 0));
}

#[test]
fn sea_threshold_is_thirty_percent() {
    let luma = vec![76u8, 77];
    let rgba = vec![0u8; 8];
    let p = Planisphere::from_elevation_map(1, 2, 1, vec![1, 1], &luma, &rgba).unwrap();
    assert!(p.is_sea(0, 1));
    assert!(!p.is_sea(0, 0));
}

#[test]
fn rgba_outside_map_is_opaque_black() {
    let p = world();
    assert_eq!(p.get_rgba_at_pixel(360, 0), (0, 0, 0, 255));
    assert_eq!(p.get_rgba_at_pixel(0, 180), (0, 0, 0, 255));
    assert_eq!(p.get_rgba_at_pixel(5, 5), (0, 0, 0, 255));
    assert_eq!(p.get_elevation(5, 5), 0);
}

#[test]
fn pixel_data_of_wrong_length_is_rejected() {
    let r = Planisphere::from_elevation_map(2, 2, 2, vec![1, 1], &vec![0u8; 3], &vec![0u8; 16]);
    assert_eq!(r.err(), Some(GridError::InvalidPixelData));
    let r = Planisphere::from_elevation_map(2, 2, 2, vec![1, 1], &vec![0u8; 4], &vec![0u8; 15]);
    assert_eq!(r.err(), Some(GridError::InvalidPixelData));
}

#[test]
fn load_replaces_dimensions() {
    let mut p = world();
    let r = p.load_elevation_map(1, 2, vec![1, 1], &vec![200u8, 7], &vec![9u8; 8]);
    assert!(r.is_ok());
    assert_eq!(p.get_width_pixels(), 1);
    assert_eq!(p.get_height_pixels(), 2);
    assert_eq!(p.get_subpixel_divisions(), 8);
    assert_eq!(p.get_elevation(0, 0), 7);
    let bad = p.load_elevation_map(1, 2, vec![1, 1], &vec![1u8], &vec![9u8; 8]);
    assert_eq!(bad, Err(GridError::InvalidPixelData));
    assert_eq!(p.get_elevation(0, 0), 7);
}

#[test]
fn dimensions_bounded_by_micro_degree_resolution() {
    // wide maps are fine while each subpixel spans a micro-degree or more
    assert!(Planisphere::new(100_000, 2, 1, vec![1, 1]).is_ok());
    assert_eq!(
        Planisphere::new(360_000_001, 2, 1, vec![1, 1]).err(),
        Some(GridError::InvalidDimensions)
    );
    assert_eq!(
        Planisphere::new(2, 2, 90_000_001, vec![1, 1]).err(),
        Some(GridError::InvalidDimensions)
    );
}
