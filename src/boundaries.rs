//! Cell boundaries and corners in micro-degrees, kept in the same longitude
//! phase as the cell's hemisphere so that no polygon spans the date line.
use vstd::prelude::*;

use crate::grid::{
    ceil_div, lemma_ceil_div_bounds, lemma_dimension_bounds, GeoCoordinate, GridAddress,
    Planisphere, LAT_SPAN, LON_SPAN,
};

verus! {

/// The four corners of a cell, clockwise from the top left.
#[derive(Clone, Copy, Debug, PartialEq, Eq, Structural)]
pub struct CellCorners {
    pub top_left: GeoCoordinate,
    pub top_right: GeoCoordinate,
    pub bottom_right: GeoCoordinate,
    pub bottom_left: GeoCoordinate,
}

/// Corner longitudes lie within one turn of the date line's either side and
/// latitudes on the map.
pub open spec fn corners_bounded(c: CellCorners) -> bool {
    &&& -LON_SPAN <= c.top_left.longitude <= LON_SPAN
    &&& -LON_SPAN <= c.top_right.longitude <= LON_SPAN
    &&& -LON_SPAN <= c.bottom_right.longitude <= LON_SPAN
    &&& -LON_SPAN <= c.bottom_left.longitude <= LON_SPAN
    &&& -LAT_SPAN / 2 <= c.top_left.latitude <= LAT_SPAN / 2
    &&& -LAT_SPAN / 2 <= c.top_right.latitude <= LAT_SPAN / 2
    &&& -LAT_SPAN / 2 <= c.bottom_right.latitude <= LAT_SPAN / 2
    &&& -LAT_SPAN / 2 <= c.bottom_left.latitude <= LAT_SPAN / 2
}

/// The edge `sub` of `m` inside the pixels of `n`, as a fraction of `span`
/// rounded up.
pub open spec fn edge(index: int, m: int, n: int, span: int) -> int {
    ceil_div(index * span, n * m) - span / 2
}

/// Longitudes of a cell's west and east edges moved into the phase of its
/// hemisphere. An edge pair that touches the date line is put on the side of
/// the hemisphere (`west`: negative longitudes). With `whole_pixel` false, a
/// pair lying wholly on the other side is moved across as well.
pub open spec fn dateline_phase(west: bool, left: int, right: int, whole_pixel: bool) -> (int, int) {
    let half = LON_SPAN / 2;
    if (left <= -half && right >= -half) || (left <= half && right >= half) {
        if west {
            (
                if left >= 0 {
                    left - LON_SPAN
                } else {
                    left
                },
                if right > 0 {
                    right - LON_SPAN
                } else {
                    right
                },
            )
        } else {
            (
                if left < 0 {
                    left + LON_SPAN
                } else {
                    left
                },
                if right <= 0 {
                    right + LON_SPAN
                } else {
                    right
                },
            )
        }
    } else if !whole_pixel && west && left > 0 && right > 0 {
        (left - LON_SPAN, right - LON_SPAN)
    } else if !whole_pixel && !west && left < 0 && right < 0 {
        (left + LON_SPAN, right + LON_SPAN)
    } else {
        (left, right)
    }
}

fn dateline_phase_exec(west: bool, left: i64, right: i64, whole_pixel: bool) -> (r: (i64, i64))
    requires
        -LON_SPAN / 2 <= left <= LON_SPAN / 2,
        -LON_SPAN / 2 <= right <= LON_SPAN / 2,
    ensures
        (r.0 as int, r.1 as int) == dateline_phase(west, left as int, right as int, whole_pixel),
        -LON_SPAN <= r.0 <= LON_SPAN,
        -LON_SPAN <= r.1 <= LON_SPAN,
{
    let half = LON_SPAN / 2;
    if (left <= -half && right >= -half) || (left <= half && right >= half) {
        if west {
            (
                if left >= 0 {
                    left - LON_SPAN
                } else {
                    left
                },
                if right > 0 {
                    right - LON_SPAN
                } else {
                    right
                },
            )
        } else {
            (
                if left < 0 {
                    left + LON_SPAN
                } else {
                    left
                },
                if right <= 0 {
                    right + LON_SPAN
                } else {
                    right
                },
            )
        }
    } else if !whole_pixel && west && left > 0 && right > 0 {
        (left - LON_SPAN, right - LON_SPAN)
    } else if !whole_pixel && !west && left < 0 && right < 0 {
        (left + LON_SPAN, right + LON_SPAN)
    } else {
        (left, right)
    }
}

/// An edge of the grid lies within the map's span and its computation fits.
proof fn lemma_edge_bounds(index: int, m: int, n: int, span: int)
    requires
        0 <= index <= n * m,
        1 <= n,
        1 <= m,
        n * m <= span,
        LAT_SPAN <= span <= LON_SPAN,
    ensures
        1 <= n * m <= LON_SPAN,
        0 <= index * span <= LON_SPAN * LON_SPAN,
        0 <= ceil_div(index * span, n * m) <= span,
{
    assert(1 <= n * m) by (nonlinear_arith)
        requires
            1 <= n,
            1 <= m,
    ;
    assert(0 <= index * span <= (n * m) * span) by (nonlinear_arith)
        requires
            0 <= index <= n * m,
            0 <= span,
    ;
    assert((n * m) * span <= LON_SPAN * LON_SPAN) by (nonlinear_arith)
        requires
            1 <= n * m <= span,
            0 <= span <= LON_SPAN,
    ;
    lemma_ceil_div_bounds(index * span, n * m);
    let c = ceil_div(index * span, n * m);
    assert(c <= span) by (nonlinear_arith)
        requires
            c * (n * m) <= index * span + n * m - 1,
            index * span <= (n * m) * span,
            n * m >= 1,
    ;
}

/// On a map of even width the edges of the western half lie at or west of
/// the prime meridian and those of the eastern half at or east of it.
proof fn lemma_edge_half(index: int, m: int, n: int, span: int)
    requires
        0 <= index <= n * m,
        1 <= n,
        1 <= m,
        n % 2 == 0,
        span == LAT_SPAN || span == LON_SPAN,
    ensures
        index <= (n / 2) * m ==> edge(index, m, n, span) <= 0,
        index >= (n / 2) * m ==> edge(index, m, n, span) >= 0,
{
    let a = index * span;
    let b = n * m;
    let t = span / 2;
    assert(1 <= b) by (nonlinear_arith)
        requires
            1 <= n,
            1 <= m,
            b == n * m,
    ;
    assert(0 <= a) by (nonlinear_arith)
        requires
            0 <= index,
            0 <= span,
            a == index * span,
    ;
    lemma_ceil_div_bounds(a, b);
    let c = ceil_div(a, b);
    assert(b * t == (n / 2) * m * span) by (nonlinear_arith)
        requires
            b == n * m,
            n == 2 * (n / 2),
            span == 2 * t,
    ;
    if index <= (n / 2) * m {
        assert(a <= b * t) by (nonlinear_arith)
            requires
                a == index * span,
                index <= (n / 2) * m,
                b * t == (n / 2) * m * span,
                0 <= span,
        ;
        assert(c <= t) by (nonlinear_arith)
            requires
                c * b <= a + b - 1,
                a <= b * t,
                1 <= b,
        ;
    }
    if index >= (n / 2) * m {
        assert(a >= b * t) by (nonlinear_arith)
            requires
                a == index * span,
                index >= (n / 2) * m,
                b * t == (n / 2) * m * span,
                0 <= span,
        ;
        assert(c >= t) by (nonlinear_arith)
            requires
                c * b >= a,
                a >= b * t,
                1 <= b,
        ;
    }
}

/// `edge` computed in machine integers.
fn edge_exec(index: u64, m: u64, n: u64, span: i64) -> (r: i64)
    requires
        0 <= index <= n * m,
        1 <= n,
        1 <= m,
        n * m <= span,
        span == LAT_SPAN || span == LON_SPAN,
    ensures
        r as int == edge(index as int, m as int, n as int, span as int),
        -span / 2 <= r <= span / 2,
{
    proof {
        lemma_edge_bounds(index as int, m as int, n as int, span as int);
    }
    let den = n * m;
    let num = index * span as u64;
    ((num + den - 1) / den) as i64 - span / 2
}

impl Planisphere {
    /// `(left, right, top, bottom)` of pixel `(i, j)`; `top` is the lower
    /// latitude, the rows counting from the south.
    pub open spec fn pixel_boundaries_spec(self, i: int, j: int) -> (int, int, int, int) {
        let w = self.width_pixels as int;
        let h = self.height_pixels as int;
        let (left, right) = dateline_phase(
            i < w / 2,
            edge(i, 1, w, LON_SPAN as int),
            edge(i + 1, 1, w, LON_SPAN as int),
            true,
        );
        (left, right, edge(j, 1, h, LAT_SPAN as int), edge(j + 1, 1, h, LAT_SPAN as int))
    }

    /// `(left, right, top, bottom)` of subpixel `(sub_i, sub_j)` of pixel
    /// `(i, j)`.
    pub open spec fn subpixel_boundaries_spec(self, i: int, j: int, sub_i: int, sub_j: int) -> (
        int,
        int,
        int,
        int,
    ) {
        let w = self.width_pixels as int;
        let h = self.height_pixels as int;
        let s = self.subpixel_divisions as int;
        let l = self.lon_subdivs(j);
        let (left, right) = dateline_phase(
            i < w / 2,
            edge(i * l + sub_i, l, w, LON_SPAN as int),
            edge(i * l + sub_i + 1, l, w, LON_SPAN as int),
            false,
        );
        (
            left,
            right,
            edge(j * s + sub_j, s, h, LAT_SPAN as int),
            edge(j * s + sub_j + 1, s, h, LAT_SPAN as int),
        )
    }

    /// The corners of subpixel `a`.
    pub open spec fn subpixel_corners_spec(self, a: GridAddress) -> CellCorners {
        let s = self.subpixel_divisions as int;
        let b = self.subpixel_boundaries_spec(
            a.i as int,
            a.j as int,
            (a.k as int) / s,
            (a.k as int) % s,
        );
        CellCorners {
            top_left: GeoCoordinate { longitude: b.0 as i64, latitude: b.2 as i64 },
            top_right: GeoCoordinate { longitude: b.1 as i64, latitude: b.2 as i64 },
            bottom_right: GeoCoordinate { longitude: b.1 as i64, latitude: b.3 as i64 },
            bottom_left: GeoCoordinate { longitude: b.0 as i64, latitude: b.3 as i64 },
        }
    }

    /// `(left, right, top, bottom)` of pixel `(i, j)` in micro-degrees.
    pub fn get_pixel_boundaries(&self, i: usize, j: usize) -> (r: (i64, i64, i64, i64))
        requires
            self.wf(),
            i < self.width_pixels,
            j < self.height_pixels,
        ensures
            (r.0 as int, r.1 as int, r.2 as int, r.3 as int) == self.pixel_boundaries_spec(
                i as int,
                j as int,
            ),
            self.width_pixels % 2 == 0 ==> {
                &&& i < self.width_pixels / 2 ==> r.0 <= 0 && r.1 <= 0
                &&& i >= self.width_pixels / 2 ==> r.0 >= 0 && r.1 >= 0
                &&& r.1 - r.0 == edge(i + 1, 1, self.width_pixels as int, LON_SPAN as int) - edge(
                    i as int,
                    1,
                    self.width_pixels as int,
                    LON_SPAN as int,
                )
            },
            -LON_SPAN <= r.0 <= LON_SPAN,
            -LON_SPAN <= r.1 <= LON_SPAN,
            -LAT_SPAN / 2 <= r.2 <= LAT_SPAN / 2,
            -LAT_SPAN / 2 <= r.3 <= LAT_SPAN / 2,
    {
        let w = self.width_pixels as u64;
        let h = self.height_pixels as u64;
        proof {
            lemma_dimension_bounds(w as int, h as int, self.subpixel_divisions as int, 1);
            if w % 2 == 0 {
                lemma_edge_half(i as int, 1, w as int, LON_SPAN as int);
                lemma_edge_half(i + 1, 1, w as int, LON_SPAN as int);
            }
        }
        let left = edge_exec(i as u64, 1, w, LON_SPAN);
        let right = edge_exec(i as u64 + 1, 1, w, LON_SPAN);
        let top = edge_exec(j as u64, 1, h, LAT_SPAN);
        let bottom = edge_exec(j as u64 + 1, 1, h, LAT_SPAN);
        let (l, r) = dateline_phase_exec(i < self.width_pixels / 2, left, right, true);
        (l, r, top, bottom)
    }

    /// `(left, right, top, bottom)` of subpixel `(sub_i, sub_j)` of pixel
    /// `(i, j)` in micro-degrees.
    pub fn get_subpixel_boundaries(&self, i: usize, j: usize, sub_i: usize, sub_j: usize) -> (r: (
        i64,
        i64,
        i64,
        i64,
    ))
        requires
            self.wf(),
            i < self.width_pixels,
            j < self.height_pixels,
            sub_i < self.lon_subdivs(j as int),
            sub_j < self.subpixel_divisions,
        ensures
            (r.0 as int, r.1 as int, r.2 as int, r.3 as int) == self.subpixel_boundaries_spec(
                i as int,
                j as int,
                sub_i as int,
                sub_j as int,
            ),
            self.width_pixels % 2 == 0 ==> {
                &&& i < self.width_pixels / 2 ==> r.0 <= 0 && r.1 <= 0
                &&& i >= self.width_pixels / 2 ==> r.0 >= 0 && r.1 >= 0
                &&& r.1 - r.0 == edge(
                    i * self.lon_subdivs(j as int) + sub_i + 1,
                    self.lon_subdivs(j as int),
                    self.width_pixels as int,
                    LON_SPAN as int,
                ) - edge(
                    i * self.lon_subdivs(j as int) + sub_i,
                    self.lon_subdivs(j as int),
                    self.width_pixels as int,
                    LON_SPAN as int,
                )
            },
            -LON_SPAN <= r.0 <= LON_SPAN,
            -LON_SPAN <= r.1 <= LON_SPAN,
            -LAT_SPAN / 2 <= r.2 <= LAT_SPAN / 2,
            -LAT_SPAN / 2 <= r.3 <= LAT_SPAN / 2,
    {
        let w = self.width_pixels as u64;
        let h = self.height_pixels as u64;
        let s = self.subpixel_divisions as u64;
        let l = self.lon_subdivisions[j] as u64;
        proof {
            assert(i * l + sub_i + 1 <= w * l) by (nonlinear_arith)
                requires
                    i < w,
                    sub_i < l,
            ;
            assert(j * s + sub_j + 1 <= h * s) by (nonlinear_arith)
                requires
                    j < h,
                    sub_j < s,
            ;
            lemma_dimension_bounds(w as int, h as int, s as int, l as int);
            if w % 2 == 0 {
                assert(i * l + sub_i + 1 <= (w / 2) * l ==> i < w / 2) by (nonlinear_arith)
                    requires
                        0 <= sub_i,
                        1 <= l,
                ;
                if i < w / 2 {
                    assert(i * l + sub_i + 1 <= (w / 2) * l) by (nonlinear_arith)
                        requires
                            i + 1 <= w / 2,
                            sub_i < l,
                    ;
                } else {
                    assert(i * l + sub_i >= (w / 2) * l) by (nonlinear_arith)
                        requires
                            i >= w / 2,
                            sub_i >= 0,
                            l >= 1,
                    ;
                }
                lemma_edge_half((i * l + sub_i) as int, l as int, w as int, LON_SPAN as int);
                lemma_edge_half((i * l + sub_i + 1) as int, l as int, w as int, LON_SPAN as int);
            }
        }
        let left = edge_exec(i as u64 * l + sub_i as u64, l, w, LON_SPAN);
        let right = edge_exec(i as u64 * l + sub_i as u64 + 1, l, w, LON_SPAN);
        let top = edge_exec(j as u64 * s + sub_j as u64, s, h, LAT_SPAN);
        let bottom = edge_exec(j as u64 * s + sub_j as u64 + 1, s, h, LAT_SPAN);
        let (l, r) = dateline_phase_exec(i < self.width_pixels / 2, left, right, false);
        (l, r, top, bottom)
    }

    /// The corners of subpixel `a`, clockwise from the top left.
    pub fn get_subpixel_corners(&self, a: GridAddress) -> (r: CellCorners)
        requires
            self.wf(),
            self.valid_address(a),
        ensures
            r == self.subpixel_corners_spec(a),
            corners_bounded(r),
    {
        let s = self.subpixel_divisions;
        proof {
            let l = self.lon_subdivs(a.j as int);
            assert((a.k as int) / (s as int) < l) by (nonlinear_arith)
                requires
                    a.k < l * s,
                    s > 0,
            ;
        }
        let (left, right, top, bottom) = self.get_subpixel_boundaries(a.i, a.j, a.k / s, a.k % s);
        CellCorners {
            top_left: GeoCoordinate { longitude: left, latitude: top },
            top_right: GeoCoordinate { longitude: right, latitude: top },
            bottom_right: GeoCoordinate { longitude: right, latitude: bottom },
            bottom_left: GeoCoordinate { longitude: left, latitude: bottom },
        }
    }

    /// The corners of pixel `(i, j)`, clockwise from the top left.
    pub fn get_pixel_corners(&self, i: usize, j: usize) -> (r: CellCorners)
        requires
            self.wf(),
            i < self.width_pixels,
            j < self.height_pixels,
        ensures
            ({
                let b = self.pixel_boundaries_spec(i as int, j as int);
                r == (CellCorners {
                    top_left: GeoCoordinate { longitude: b.0 as i64, latitude: b.2 as i64 },
                    top_right: GeoCoordinate { longitude: b.1 as i64, latitude: b.2 as i64 },
                    bottom_right: GeoCoordinate { longitude: b.1 as i64, latitude: b.3 as i64 },
                    bottom_left: GeoCoordinate { longitude: b.0 as i64, latitude: b.3 as i64 },
                })
            }),
    {
        let (left, right, top, bottom) = self.get_pixel_boundaries(i, j);
        CellCorners {
            top_left: GeoCoordinate { longitude: left, latitude: top },
            top_right: GeoCoordinate { longitude: right, latitude: top },
            bottom_right: GeoCoordinate { longitude: right, latitude: bottom },
            bottom_left: GeoCoordinate { longitude: left, latitude: bottom },
        }
    }
}

} // verus!
