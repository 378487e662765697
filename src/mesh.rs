//! Mesh topology for a selected region: two triangles per cell, and the map
//! from each triangle back to the cell that produced it.
use vstd::prelude::*;

use crate::boundaries::{corners_bounded, CellCorners};
use crate::grid::{GeoCoordinate, GridAddress, Planisphere, LAT_SPAN, LON_SPAN};
use crate::region::{DistanceMethod, RegionCell};

verus! {

/// Position of index `c` (0..6) of a quad's two triangles among the quad's
/// four corners: triangles `(0, 1, 2)` and `(0, 2, 3)`.
pub open spec fn quad_corner(c: int) -> int {
    if c == 0 || c == 3 {
        0
    } else if c == 1 {
        1
    } else if c == 2 || c == 4 {
        2
    } else {
        3
    }
}

/// Triangle-list indices for `n` quads of four vertices each.
pub open spec fn quad_indices(n: int) -> Seq<usize> {
    Seq::new((6 * n) as nat, |m: int| (4 * (m / 6) + quad_corner(m % 6)) as usize)
}

/// Triangle `t` came from cell `t / 2`.
pub open spec fn triangle_map(cells: Seq<RegionCell>) -> Seq<GridAddress> {
    Seq::new((2 * cells.len()) as nat, |t: int| cells[t / 2].address)
}

/// Corner `c` (0..4) of a cell: top left, top right, bottom right, bottom left.
pub open spec fn corner_at(corners: CellCorners, c: int) -> GeoCoordinate {
    if c == 0 {
        corners.top_left
    } else if c == 1 {
        corners.top_right
    } else if c == 2 {
        corners.bottom_right
    } else {
        corners.bottom_left
    }
}

/// The flat vertices of a region: each cell's corners relative to `origin`,
/// longitude first, with a zero third coordinate.
pub open spec fn relative_vertices(cells: Seq<RegionCell>, origin: GeoCoordinate) -> Seq<
    (i64, i64, i64),
> {
    Seq::new(
        (4 * cells.len()) as nat,
        |m: int|
            {
                let p = corner_at(cells[m / 4].corners, m % 4);
                (
                    (p.longitude - origin.longitude) as i64,
                    (p.latitude - origin.latitude) as i64,
                    0i64,
                )
            },
    )
}

/// The triangles of a region and the cell of each, rebuilt whole on every
/// recentering. Triangle `t` of the mesh came from `triangle_to_subpixel[t]`;
/// the mesh was projected around `terrain_center`.
pub struct TriangleSubpixelMapping {
    pub triangle_to_subpixel: Vec<GridAddress>,
    pub terrain_center: GeoCoordinate,
}

/// Builds the triangle list of a region, two triangles `(0, 1, 2)` and
/// `(0, 2, 3)` per cell over its four corners, and the cell of each triangle:
/// `6 n` indices and `2 n` map entries for `n` cells, in cell order. The
/// mapping records `projection_center`, the tangent point of the mesh.
pub fn build_mesh_topology(cells: &Vec<RegionCell>, projection_center: GeoCoordinate) -> (r: (
    Vec<usize>,
    TriangleSubpixelMapping,
))
    requires
        6 * cells@.len() <= usize::MAX,
    ensures
        r.1.terrain_center == projection_center,
        r.0@ == quad_indices(cells@.len() as int),
        r.1.triangle_to_subpixel@ == triangle_map(cells@),
        r.0@.len() == 6 * cells@.len(),
        r.1.triangle_to_subpixel@.len() == 2 * cells@.len(),
{
    let mut indices: Vec<usize> = Vec::new();
    let mut map: Vec<GridAddress> = Vec::new();
    let n = cells.len();
    let mut q: usize = 0;
    while q < n
        invariant
            n == cells@.len(),
            6 * n <= usize::MAX,
            q <= n,
            indices@ =~= quad_indices(q as int),
            map@ =~= triangle_map(cells@).take(2 * q),
        decreases n - q,
    {
        let base = 4 * q;
        indices.push(base);
        indices.push(base + 1);
        indices.push(base + 2);
        indices.push(base);
        indices.push(base + 2);
        indices.push(base + 3);
        let a = cells[q].address;
        map.push(a);
        map.push(a);
        proof {
            assert forall|m: int| 6 * q <= m < 6 * q + 6 implies #[trigger] quad_indices(
                q + 1,
            )[m] == indices@[m] by {
                vstd::arithmetic::div_mod::lemma_fundamental_div_mod_converse(
                    m,
                    6,
                    q as int,
                    m - 6 * q,
                );
            }
            assert forall|m: int| 0 <= m < 6 * q implies #[trigger] quad_indices(q + 1)[m]
                == quad_indices(q as int)[m] by {}
            assert(triangle_map(cells@)[2 * q] == a) by {
                vstd::arithmetic::div_mod::lemma_fundamental_div_mod_converse(2 * q, 2, q as int, 0);
            }
            assert(triangle_map(cells@)[2 * q + 1] == a) by {
                vstd::arithmetic::div_mod::lemma_fundamental_div_mod_converse(
                    2 * q + 1,
                    2,
                    q as int,
                    1,
                );
            }
        }
        q = q + 1;
    }
    proof {
        assert(triangle_map(cells@).take(2 * q) =~= triangle_map(cells@));
    }
    (indices, TriangleSubpixelMapping { triangle_to_subpixel: map, terrain_center: projection_center })
}

/// Triangle `t` of the index list uses only the four vertices of cell
/// `t / 2`, the cell that the triangle map gives for `t`: the index list and
/// the map stay in lockstep, with three indices per map entry.
pub proof fn lemma_triangles_match_map(cells: Seq<RegionCell>)
    requires
        6 * cells.len() <= usize::MAX,
    ensures
        quad_indices(cells.len() as int).len() == 3 * triangle_map(cells).len(),
        forall|t: int, c: int|
            0 <= t < 2 * cells.len() && 0 <= c < 3 ==> {
                &&& (#[trigger] quad_indices(cells.len() as int)[3 * t + c]) / 4 == t / 2
                &&& #[trigger] triangle_map(cells)[t] == cells[t / 2].address
            },
{
    assert forall|t: int, c: int|
        0 <= t < 2 * cells.len() && 0 <= c < 3 implies (#[trigger] quad_indices(
        cells.len() as int,
    )[3 * t + c]) / 4 == t / 2 by {
        let m = 3 * t + c;
        let q = t / 2;
        let rem = t % 2;
        vstd::arithmetic::div_mod::lemma_fundamental_div_mod(t, 2);
        vstd::arithmetic::div_mod::lemma_mod_bound(t, 2);
        assert(m == 6 * q + (3 * rem + c));
        vstd::arithmetic::div_mod::lemma_fundamental_div_mod_converse(m, 6, q, 3 * rem + c);
        assert(q < cells.len());
        vstd::arithmetic::div_mod::lemma_fundamental_div_mod_converse(
            4 * q + quad_corner(3 * rem + c),
            4,
            q,
            quad_corner(3 * rem + c),
        );
        assert(m < 6 * cells.len());
    }
}

impl TriangleSubpixelMapping {
    /// An empty mapping around longitude and latitude 0.
    pub fn new() -> (r: TriangleSubpixelMapping)
        ensures
            r.triangle_to_subpixel@ == Seq::<GridAddress>::empty(),
            r.terrain_center == (GeoCoordinate { longitude: 0, latitude: 0 }),
    {
        TriangleSubpixelMapping {
            triangle_to_subpixel: Vec::new(),
            terrain_center: GeoCoordinate { longitude: 0, latitude: 0 },
        }
    }

    /// The cell of triangle `triangle_index` as a physics engine reports it.
    /// An index past the end is taken modulo the map's length, the offset a
    /// collider may add; with an empty map there is no cell.
    pub fn subpixel_for_triangle(&self, triangle_index: usize) -> (r: Option<GridAddress>)
        ensures
            self.triangle_to_subpixel@.len() == 0 ==> r is None,
            self.triangle_to_subpixel@.len() > 0 ==> r == Some(
                self.triangle_to_subpixel@[triangle_index as int
                    % self.triangle_to_subpixel@.len() as int],
            ),
    {
        let n = self.triangle_to_subpixel.len();
        if n == 0 {
            return None;
        }
        if triangle_index < n {
            proof {
                vstd::arithmetic::div_mod::lemma_small_mod(triangle_index as nat, n as nat);
            }
            Some(self.triangle_to_subpixel[triangle_index])
        } else {
            let corrected = triangle_index % n;
            Some(self.triangle_to_subpixel[corrected])
        }
    }
}

impl Planisphere {
    /// A flat mesh of the region of `method` around `center`: each cell's four
    /// corners relative to the center's point in micro-degrees, two triangles
    /// per cell, and the address of each cell in order.
    pub fn get_subpixel_mesh_by_distance_method(
        &self,
        center: GridAddress,
        max_subpixel_distance: usize,
        method: DistanceMethod,
    ) -> (r: (Vec<(i64, i64, i64)>, Vec<usize>, Vec<GridAddress>))
        requires
            self.wf(),
            self.valid_address(center),
            center.i + max_subpixel_distance + 3 <= usize::MAX,
        ensures
            ({
                let cells = self.selection_spec(method, center, max_subpixel_distance as int);
                &&& 6 * cells.len() <= usize::MAX ==> r.0@ == relative_vertices(
                    cells,
                    self.subpixel_to_geo_spec(center),
                ) && r.1@ == quad_indices(cells.len() as int) && r.2@ == cells.map_values(
                    |c: RegionCell| c.address,
                )
            }),
    {
        let origin = self.subpixel_to_geo(center);
        let cells = self.get_subpixels_by_distance_method(center, max_subpixel_distance, method);
        let mut vertices: Vec<(i64, i64, i64)> = Vec::new();
        let mut triangles: Vec<usize> = Vec::new();
        let mut info: Vec<GridAddress> = Vec::new();
        let n = cells.len();
        if n > usize::MAX / 6 {
            return (vertices, triangles, info);
        }
        let ghost verts = relative_vertices(cells@, origin);
        let mut q: usize = 0;
        while q < n
            invariant
                n == cells@.len(),
                6 * n <= usize::MAX,
                q <= n,
                origin.is_valid(),
                verts == relative_vertices(cells@, origin),
                forall|m: int| 0 <= m < n ==> corners_bounded(#[trigger] cells@[m].corners),
                vertices@ =~= verts.take(4 * q),
                triangles@ =~= quad_indices(q as int),
                info@ =~= cells@.map_values(|c: RegionCell| c.address).take(q as int),
            decreases n - q,
        {
            let base = vertices.len();
            let c = cells[q].corners;
            let corner_list = [c.top_left, c.top_right, c.bottom_right, c.bottom_left];
            let mut v: usize = 0;
            while v < 4
                invariant
                    n == cells@.len(),
                    q < n,
                    v <= 4,
                    origin.is_valid(),
                    c == cells@[q as int].corners,
                    corners_bounded(c),
                    corner_list@ == seq![c.top_left, c.top_right, c.bottom_right, c.bottom_left],
                    verts == relative_vertices(cells@, origin),
                    vertices@ =~= verts.take(4 * q + v),
                decreases 4 - v,
            {
                let p = corner_list[v];
                vertices.push((p.longitude - origin.longitude, p.latitude - origin.latitude, 0));
                proof {
                    let m = 4 * q + v;
                    vstd::arithmetic::div_mod::lemma_fundamental_div_mod_converse(
                        m,
                        4,
                        q as int,
                        v as int,
                    );
                    assert(verts.take(m + 1) =~= verts.take(m).push(verts[m]));
                }
                v = v + 1;
            }
            triangles.push(base);
            triangles.push(base + 1);
            triangles.push(base + 2);
            triangles.push(base);
            triangles.push(base + 2);
            triangles.push(base + 3);
            info.push(cells[q].address);
            proof {
                assert forall|m: int| 6 * q <= m < 6 * q + 6 implies #[trigger] quad_indices(
                    q + 1,
                )[m] == triangles@[m] by {
                    vstd::arithmetic::div_mod::lemma_fundamental_div_mod_converse(
                        m,
                        6,
                        q as int,
                        m - 6 * q,
                    );
                }
                assert forall|m: int| 0 <= m < 6 * q implies #[trigger] quad_indices(q + 1)[m]
                    == quad_indices(q as int)[m] by {}
            }
            q = q + 1;
        }
        proof {
            assert(verts.take(4 * n) =~= verts);
            assert(cells@.map_values(|c: RegionCell| c.address).take(n as int) =~= cells@.map_values(
                |c: RegionCell| c.address,
            ));
        }
        (vertices, triangles, info)
    }

    /// The Manhattan mesh around `center` (see
    /// `get_subpixel_mesh_by_distance_method`).
    pub fn get_subpixel_mesh_by_distance(
        &self,
        center: GridAddress,
        max_subpixel_distance: usize,
    ) -> (r: (Vec<(i64, i64, i64)>, Vec<usize>, Vec<GridAddress>))
        requires
            self.wf(),
            self.valid_address(center),
            center.i + max_subpixel_distance + 3 <= usize::MAX,
        ensures
            ({
                let cells = self.selection_spec(
                    DistanceMethod::Manhattan,
                    center,
                    max_subpixel_distance as int,
                );
                &&& 6 * cells.len() <= usize::MAX ==> r.0@ == relative_vertices(
                    cells,
                    self.subpixel_to_geo_spec(center),
                ) && r.1@ == quad_indices(cells.len() as int) && r.2@ == cells.map_values(
                    |c: RegionCell| c.address,
                )
            }),
    {
        self.get_subpixel_mesh_by_distance_method(
            center,
            max_subpixel_distance,
            DistanceMethod::Manhattan,
        )
    }
}

} // verus!
