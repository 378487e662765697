use planisphere::grid::{GeoCoordinate, GridAddress, Planisphere};
use planisphere::mesh::{build_mesh_topology, TriangleSubpixelMapping};
use planisphere::region::DistanceMethod;

fn cos_table(height: usize, divisions: usize) -> Vec<usize> {
    (0..height)
        .map(|j| {
            let rank = (2.0 * j as f64 - height as f64).abs();
            let lat = rank * 90.0 / height as f64;
            (divisions as f64 * lat.to_radians().cos()).round().max(1.0) as usize
        })
        .collect()
}

fn world() -> Planisphere {
    Planisphere::new(360, 180, 8, cos_table(180, 8)).unwrap()
}

#[test]
fn one_cell_region_gives_one_quad() {
    let p = world();
    let c = GridAddress::new(180, 90, 34);
    let region = p.get_subpixels_by_distance_method(c, 0, DistanceMethod::Euclidean);
    assert_eq!(region.len(), 1);
    let (vertices, indices, info) = p.get_subpixel_mesh_by_distance_method(c, 0, DistanceMethod::Euclidean);
    assert_eq!(vertices.len(), 4);
    assert_eq!(indices, vec![0, 1, 2, 0, 2, 3]);
    assert_eq!(info, vec![c]);
    // corners relative to the cell's own point
    assert_eq!(vertices[0], (0, 0, 0));
    assert_eq!(vertices[1], (125_000, 0, 0));
    assert_eq!(vertices[2], (125_000, 125_000, 0));
    assert_eq!(vertices[3], (0, 125_000, 0));
    let (tri, map) = build_mesh_topology(&region, p.subpixel_to_geo(c));
    assert_eq!(map.terrain_center, p.subpixel_to_geo(c));
    assert_eq!(tri.len(), 6);
    assert_eq!(map.triangle_to_subpixel, vec![c, c]);
}

#[test]
fn counts_follow_cell_count() {
    let p = world();
    let c = p.geo_to_subpixel(GeoCoordinate { longitude: -3_000_000, latitude: 40_000_000 });
    let region = p.get_subpixels_by_circular_distance(c, 6);
    let n = region.len();
    let (indices, map) = build_mesh_topology(&region, p.subpixel_to_geo(c));
    assert_eq!(indices.len(), 6 * n);
    assert_eq!(map.triangle_to_subpixel.len(), 2 * n);
    assert_eq!(indices.len(), 3 * map.triangle_to_subpixel.len());
    for t in 0..2 * n {
        assert_eq!(map.triangle_to_subpixel[t], region[t / 2].address);
        for c in 0..3 {
            assert_eq!(indices[3 * t + c] / 4, t / 2);
        }
    }
    let (_, mesh_indices, info) = p.get_subpixel_mesh_by_distance(c, 6);
    assert_eq!(mesh_indices.len() / 6, info.len());
}

#[test]
fn triangle_lookup_corrects_offset() {
    let a = GridAddress::new(1, 2, 3);
    let b = GridAddress::new(4, 5, 6);
    let mapping = TriangleSubpixelMapping {
        triangle_to_subpixel: vec![a, a, b, b],
        terrain_center: GeoCoordinate { longitude: 0, latitude: 0 },
    };
    assert_eq!(mapping.subpixel_for_triangle(2), Some(b));
    assert_eq!(mapping.subpixel_for_triangle(5), Some(a));
    assert_eq!(mapping.subpixel_for_triangle(11), Some(b));
    assert_eq!(TriangleSubpixelMapping::new().subpixel_for_triangle(0), None);
}
