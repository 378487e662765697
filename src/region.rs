//! Distance-limited region selection: the subpixels around a center cell,
//! under the Manhattan, Euclidean or Chebyshev metric.
use vstd::prelude::*;

use crate::boundaries::{corners_bounded, CellCorners};
use crate::grid::{lemma_dimension_bounds, GridAddress, Planisphere, LAT_SPAN, LON_SPAN};

verus! {

/// How the distance from the center is measured when selecting a region.
#[derive(Clone, Copy, Debug, PartialEq, Eq, Structural)]
pub enum DistanceMethod {
    /// Whole-pixel Manhattan distance times the subpixel count (a diamond).
    Manhattan,
    /// Euclidean distance between continuous subpixel positions (a disc).
    Euclidean,
    /// The whole search rectangle, sized from the center row's subdivisions.
    Chebyshev,
}

/// A selected subpixel with its four corners.
#[derive(Clone, Copy, Debug, PartialEq, Eq, Structural)]
pub struct RegionCell {
    pub address: GridAddress,
    pub corners: CellCorners,
}

/// `s.push(x)` filtered is `s` filtered, then `x` if it passes.
pub proof fn lemma_filter_push<A>(s: Seq<A>, x: A, p: spec_fn(A) -> bool)
    ensures
        s.push(x).filter(p) == if p(x) {
            s.filter(p).push(x)
        } else {
            s.filter(p)
        },
{
    reveal(Seq::filter);
    assert(s.push(x).drop_last() =~= s);
}

pub open spec fn abs_diff(a: int, b: int) -> int {
    if a >= b {
        a - b
    } else {
        b - a
    }
}

impl Planisphere {
    /// Every cell of `cells` names an existing subpixel, with corners on the
    /// map or within one turn of it.
    pub open spec fn all_valid(self, cells: Seq<RegionCell>) -> bool {
        forall|n: int|
            0 <= n < cells.len() ==> self.valid_address(#[trigger] cells[n].address)
                && corners_bounded(cells[n].corners)
    }

    /// Subpixel `a` with its corners.
    pub open spec fn region_cell_spec(self, a: GridAddress) -> RegionCell {
        RegionCell { address: a, corners: self.subpixel_corners_spec(a) }
    }

    /// The subpixels of pixel `(i, j)` in order of `k`: `sub_i` major,
    /// `sub_j` minor.
    pub open spec fn pixel_cells(self, i: int, j: int) -> Seq<RegionCell> {
        Seq::new(
            (self.lon_subdivs(j) * self.subpixel_divisions) as nat,
            |k: int|
                self.region_cell_spec(GridAddress { i: i as usize, j: j as usize, k: k as usize }),
        )
    }

    /// The subpixels of the pixels `(i, j)` for `lo_j <= j < hi_j`, row by row.
    pub open spec fn column_cells(self, i: int, lo_j: int, hi_j: int) -> Seq<RegionCell>
        decreases hi_j - lo_j,
    {
        if hi_j <= lo_j {
            Seq::empty()
        } else {
            self.column_cells(i, lo_j, hi_j - 1) + self.pixel_cells(i, hi_j - 1)
        }
    }

    /// A column index past the east edge folded back onto the map.
    pub open spec fn fold_column(self, i: int) -> int {
        if i >= self.width_pixels {
            i % (self.width_pixels as int)
        } else {
            i
        }
    }

    /// The subpixels of the pixel rectangle `lo_i <= i < hi_i`,
    /// `lo_j <= j < hi_j`, column by column; columns past the east edge fold
    /// back onto the map.
    pub open spec fn rectangle_cells(self, lo_i: int, hi_i: int, lo_j: int, hi_j: int) -> Seq<
        RegionCell,
    >
        decreases hi_i - lo_i,
    {
        if hi_i <= lo_i {
            Seq::empty()
        } else {
            self.rectangle_cells(lo_i, hi_i - 1, lo_j, hi_j) + self.column_cells(
                self.fold_column(hi_i - 1),
                lo_j,
                hi_j,
            )
        }
    }

    /// The subpixels of one pixel, with their corners.
    fn push_pixel_cells(&self, result: &mut Vec<RegionCell>, i: usize, j: usize)
        requires
            self.wf(),
            i < self.width_pixels,
            j < self.height_pixels,
            self.all_valid(old(result)@),
        ensures
            final(result)@ == old(result)@ + self.pixel_cells(i as int, j as int),
            self.all_valid(final(result)@),
    {
        let s = self.subpixel_divisions;
        let l = self.lon_subdivisions[j];
        proof {
            lemma_dimension_bounds(
                self.width_pixels as int,
                self.height_pixels as int,
                s as int,
                l as int,
            );
        }
        let n = l * s;
        let ghost start = result@;
        let mut k: usize = 0;
        while k < n
            invariant
                self.wf(),
                i < self.width_pixels,
                j < self.height_pixels,
                n == self.lon_subdivs(j as int) * self.subpixel_divisions,
                k <= n,
                result@ == start + self.pixel_cells(i as int, j as int).take(k as int),
                self.all_valid(result@),
            decreases n - k,
        {
            let a = GridAddress { i, j, k };
            let corners = self.get_subpixel_corners(a);
            result.push(RegionCell { address: a, corners });
            proof {
                assert(self.pixel_cells(i as int, j as int).take(k + 1) =~= self.pixel_cells(
                    i as int,
                    j as int,
                ).take(k as int).push(self.region_cell_spec(a)));
            }
            k = k + 1;
        }
        proof {
            assert(self.pixel_cells(i as int, j as int).take(n as int) =~= self.pixel_cells(
                i as int,
                j as int,
            ));
        }
    }

    /// The subpixels of the pixels `(i, j)` for `min_j <= j <= max_j`.
    #[verifier::rlimit(40)]
    fn push_column_cells(&self, result: &mut Vec<RegionCell>, i: usize, min_j: usize, max_j: usize)
        requires
            self.wf(),
            i < self.width_pixels,
            max_j < self.height_pixels,
            self.all_valid(old(result)@),
        ensures
            final(result)@ == old(result)@ + self.column_cells(i as int, min_j as int, max_j + 1),
            self.all_valid(final(result)@),
    {
        let ghost before = result@;
        let mut j = min_j;
        while j <= max_j
            invariant
                self.wf(),
                max_j < self.height_pixels,
                i < self.width_pixels,
                min_j <= j,
                j <= max_j + 1 || j == min_j,
                result@ == before + self.column_cells(i as int, min_j as int, j as int),
                self.all_valid(result@),
            decreases max_j + 1 - j,
        {
            self.push_pixel_cells(result, i, j);
            proof {
                assert(self.column_cells(i as int, min_j as int, j + 1) =~= self.column_cells(
                    i as int,
                    min_j as int,
                    j as int,
                ) + self.pixel_cells(i as int, j as int));
            }
            j = j + 1;
        }
        proof {
            if min_j > max_j {
                assert(self.column_cells(i as int, min_j as int, max_j + 1) =~= Seq::empty());
                assert(self.column_cells(i as int, min_j as int, j as int) =~= Seq::empty());
            }
            assert(self.column_cells(i as int, min_j as int, j as int) == self.column_cells(
                i as int,
                min_j as int,
                max_j + 1,
            ));
        }
    }

    /// Every subpixel of the pixels with `min_i <= i <= max_i` and
    /// `min_j <= j <= max_j`, with its corners, column by column; a column
    /// index past the east edge is folded back onto the map.
    pub fn get_subpixels_in_rectangle(
        &self,
        min_i: usize,
        max_i: usize,
        min_j: usize,
        max_j: usize,
    ) -> (r: Vec<RegionCell>)
        requires
            self.wf(),
            max_i < usize::MAX,
            max_j < self.height_pixels,
        ensures
            r@ == self.rectangle_cells(min_i as int, max_i + 1, min_j as int, max_j + 1),
            self.all_valid(r@),
    {
        let mut result: Vec<RegionCell> = Vec::new();
        if min_i > max_i {
            return result;
        }
        let mut ii = min_i;
        while ii <= max_i
            invariant
                self.wf(),
                max_i < usize::MAX,
                max_j < self.height_pixels,
                min_i <= ii <= max_i + 1,
                result@ == self.rectangle_cells(min_i as int, ii as int, min_j as int, max_j + 1),
                self.all_valid(result@),
            decreases max_i + 1 - ii,
        {
            let i = if ii >= self.width_pixels {
                ii % self.width_pixels
            } else {
                ii
            };
            self.push_column_cells(&mut result, i, min_j, max_j);
            proof {
                assert(self.rectangle_cells(min_i as int, ii + 1, min_j as int, max_j + 1)
                    =~= self.rectangle_cells(min_i as int, ii as int, min_j as int, max_j + 1)
                    + self.column_cells(i as int, min_j as int, max_j + 1));
            }
            ii = ii + 1;
        }
        result
    }
}

/// Subpixel steps along one axis from subpixel `csub` of pixel `c` to
/// subpixel `sub` of pixel `p`, with `s` subpixels per pixel: out of the
/// center pixel, across the whole pixels between, into the target pixel.
pub open spec fn axis_steps(p: int, sub: int, c: int, csub: int, s: int) -> int {
    if p > c {
        (s - csub) + sub + (p - c - 1) * s
    } else if p < c {
        csub + (s - sub) + (c - p - 1) * s
    } else {
        abs_diff(sub, csub)
    }
}

/// `axis_steps` in machine integers, for positions on a map whose pixel
/// count times `s` is at most `LON_SPAN`.
fn axis_steps_exec(p: u64, sub: u64, c: u64, csub: u64, s: u64) -> (r: u64)
    requires
        1 <= s,
        sub < s,
        csub < s,
        s <= LON_SPAN,
        p * s <= LON_SPAN,
        c * s <= LON_SPAN,
    ensures
        r == axis_steps(p as int, sub as int, c as int, csub as int, s as int),
        r <= 3 * LON_SPAN,
{
    if p > c {
        proof {
            assert((p - c - 1) * s <= p * s) by (nonlinear_arith)
                requires
                    p > c,
                    c >= 0,
                    s >= 1,
            ;
        }
        (s - csub) + sub + (p - c - 1) * s
    } else if p < c {
        proof {
            assert((c - p - 1) * s <= c * s) by (nonlinear_arith)
                requires
                    c > p,
                    p >= 0,
                    s >= 1,
            ;
        }
        csub + (s - sub) + (c - p - 1) * s
    } else if sub >= csub {
        sub - csub
    } else {
        csub - sub
    }
}

impl Planisphere {
    /// Column of subpixel `a` counted in subpixels from the date line.
    pub open spec fn continuous_i(self, a: GridAddress) -> int {
        a.i * self.subpixel_divisions + (a.k as int) / (self.subpixel_divisions as int)
    }

    /// Row of subpixel `a` counted in subpixels from the south pole.
    pub open spec fn continuous_j(self, a: GridAddress) -> int {
        a.j * self.subpixel_divisions + (a.k as int) % (self.subpixel_divisions as int)
    }

    /// Subpixel `a` lies within `max` of `center` under `method`.
    pub open spec fn within(
        self,
        method: DistanceMethod,
        center: GridAddress,
        max: int,
        a: GridAddress,
    ) -> bool {
        match method {
            DistanceMethod::Manhattan => {
                let s = self.subpixel_divisions as int;
                axis_steps(a.i as int, (a.k as int) / s, center.i as int, (center.k as int) / s, s)
                    + axis_steps(a.j as int, (a.k as int) % s, center.j as int, (center.k as int) % s, s)
                    <= max
            },
            DistanceMethod::Euclidean => {
                let dx = self.continuous_i(a) - self.continuous_i(center);
                let dy = self.continuous_j(a) - self.continuous_j(center);
                dx * dx + dy * dy <= max * max
            },
            DistanceMethod::Chebyshev => true,
        }
    }

    /// The cells that a selection keeps after the center: every other cell
    /// within the distance.
    pub open spec fn keeps(self, method: DistanceMethod, center: GridAddress, max: int) -> spec_fn(
        RegionCell,
    ) -> bool {
        |c: RegionCell| c.address != center && self.within(method, center, max, c.address)
    }

    /// The pixel rectangle searched, `(min_i, max_i, min_j, max_j)` inclusive:
    /// `max / S + 1` pixels each way (`+ 2` for the Euclidean disc); for
    /// Chebyshev the east-west reach is `max / lon_subdivs + 1` at the center's
    /// row. Rows stop at the map's edges; columns stop at 0 in the west.
    pub open spec fn search_box(self, method: DistanceMethod, center: GridAddress, max: int) -> (
        int,
        int,
        int,
        int,
    ) {
        let s = self.subpixel_divisions as int;
        let ry = max / s + if method == DistanceMethod::Euclidean {
            2int
        } else {
            1int
        };
        let rx = if method == DistanceMethod::Chebyshev {
            max / self.lon_subdivs(center.j as int) + 1
        } else {
            ry
        };
        let ci = center.i as int;
        let cj = center.j as int;
        let h = self.height_pixels as int;
        (
            if ci > rx {
                ci - rx
            } else {
                0
            },
            ci + rx,
            if cj > ry {
                cj - ry
            } else {
                0
            },
            if cj + ry < h - 1 {
                cj + ry
            } else {
                h - 1
            },
        )
    }

    /// What a selection returns: the center first, then the other cells of
    /// the search rectangle within the distance, in rectangle order.
    pub open spec fn selection_spec(
        self,
        method: DistanceMethod,
        center: GridAddress,
        max: int,
    ) -> Seq<RegionCell> {
        let b = self.search_box(method, center, max);
        seq![self.region_cell_spec(center)] + self.rectangle_cells(b.0, b.1 + 1, b.2, b.3 + 1).filter(
            self.keeps(method, center, max),
        )
    }

    /// The metric test of `within`, in machine integers.
    fn within_exec(
        &self,
        method: DistanceMethod,
        center: GridAddress,
        max: usize,
        a: GridAddress,
    ) -> (r: bool)
        requires
            self.wf(),
            self.valid_address(center),
            self.valid_address(a),
        ensures
            r == self.within(method, center, max as int, a),
    {
        let s = self.subpixel_divisions as u64;
        let la = self.lon_subdivisions[a.j] as u64;
        let lc = self.lon_subdivisions[center.j] as u64;
        let w = self.width_pixels as u64;
        let h = self.height_pixels as u64;
        let a_si = a.k as u64 / s;
        let a_sj = a.k as u64 % s;
        let c_si = center.k as u64 / s;
        let c_sj = center.k as u64 % s;
        proof {
            lemma_dimension_bounds(w as int, h as int, s as int, la as int);
            lemma_dimension_bounds(w as int, h as int, s as int, lc as int);
            assert(a_si < la && c_si < lc) by (nonlinear_arith)
                requires
                    a.k < la * s,
                    center.k < lc * s,
                    a_si == (a.k as int) / (s as int),
                    c_si == (center.k as int) / (s as int),
                    s > 0,
            ;
            assert(a.i * s <= LON_SPAN && center.i * s <= LON_SPAN && a.j * s <= LAT_SPAN
                && center.j * s <= LAT_SPAN) by (nonlinear_arith)
                requires
                    a.i < w,
                    center.i < w,
                    a.j < h,
                    center.j < h,
                    w * s <= LON_SPAN,
                    h * s <= LAT_SPAN,
                    s >= 1,
            ;
            assert(a.i * s + a_si <= LON_SPAN && center.i * s + c_si <= LON_SPAN) by (
            nonlinear_arith)
                requires
                    a.i < w,
                    center.i < w,
                    a_si < la <= s,
                    c_si < lc <= s,
                    w * s <= LON_SPAN,
            ;
            assert(a.j * s + a_sj <= LAT_SPAN && center.j * s + c_sj <= LAT_SPAN) by (
            nonlinear_arith)
                requires
                    a.j < h,
                    center.j < h,
                    a_sj < s,
                    c_sj < s,
                    h * s <= LAT_SPAN,
            ;
        }
        match method {
            DistanceMethod::Manhattan => {
                let hsteps = axis_steps_exec(a.i as u64, a_si, center.i as u64, c_si, s);
                assert(a_sj < s && c_sj < s);
                let vsteps = axis_steps_exec(a.j as u64, a_sj, center.j as u64, c_sj, s);
                hsteps + vsteps <= max as u64
            },
            DistanceMethod::Euclidean => {
                let ci = (a.i as u64 * s + a_si) as i64;
                let cj = (a.j as u64 * s + a_sj) as i64;
                let ki = (center.i as u64 * s + c_si) as i64;
                let kj = (center.j as u64 * s + c_sj) as i64;
                let dx = ci - ki;
                let dy = cj - kj;
                proof {
                    assert(dx * dx <= LON_SPAN * LON_SPAN) by (nonlinear_arith)
                        requires
                            -LON_SPAN <= dx <= LON_SPAN,
                    ;
                    assert(dy * dy <= LON_SPAN * LON_SPAN) by (nonlinear_arith)
                        requires
                            -LON_SPAN <= dy <= LON_SPAN,
                    ;
                    assert(0 <= dx * dx && 0 <= dy * dy) by (nonlinear_arith);
                    assert(max * max <= 0xffff_ffff_ffff_ffff * 0xffff_ffff_ffff_ffff) by (
                    nonlinear_arith)
                        requires
                            max <= 0xffff_ffff_ffff_ffff,
                    ;
                }
                let d2 = (dx * dx + dy * dy) as u128;
                d2 <= (max as u128) * (max as u128)
            },
            DistanceMethod::Chebyshev => true,
        }
    }

    /// `[center] + rect.filter(keeps)`, the last step of every selection.
    fn filter_region(
        &self,
        rect: &Vec<RegionCell>,
        method: DistanceMethod,
        center: GridAddress,
        max: usize,
    ) -> (r: Vec<RegionCell>)
        requires
            self.wf(),
            self.valid_address(center),
            self.all_valid(rect@),
        ensures
            r@ == seq![self.region_cell_spec(center)] + rect@.filter(
                self.keeps(method, center, max as int),
            ),
            corners_bounded(self.subpixel_corners_spec(center)),
    {
        let mut result: Vec<RegionCell> = Vec::new();
        let corners = self.get_subpixel_corners(center);
        result.push(RegionCell { address: center, corners });
        let ghost p = self.keeps(method, center, max as int);
        let mut n: usize = 0;
        while n < rect.len()
            invariant
                self.wf(),
                self.valid_address(center),
                p == self.keeps(method, center, max as int),
                self.all_valid(rect@),
                n <= rect@.len(),
                result@ == seq![self.region_cell_spec(center)] + rect@.take(n as int).filter(p),
            decreases rect@.len() - n,
        {
            let c = rect[n];
            assert(self.valid_address(rect@[n as int].address) && corners_bounded(rect@[n as int].corners));
            let keep = c.address != center && self.within_exec(method, center, max, c.address);
            proof {
                lemma_filter_push(rect@.take(n as int), c, p);
                assert(rect@.take(n + 1) =~= rect@.take(n as int).push(c));
            }
            if keep {
                result.push(c);
            }
            n = n + 1;
        }
        proof {
            assert(rect@.take(n as int) =~= rect@);
        }
        result
    }
}

impl Planisphere {
    /// The search rectangle of `search_box`, in machine integers.
    #[verifier::rlimit(40)]
    fn search_box_exec(&self, method: DistanceMethod, center: GridAddress, max: usize) -> (r: (
        usize,
        usize,
        usize,
        usize,
    ))
        requires
            self.wf(),
            self.valid_address(center),
            center.i + max + 3 <= usize::MAX,
        ensures
            (r.0 as int, r.1 as int, r.2 as int, r.3 as int) == self.search_box(
                method,
                center,
                max as int,
            ),
            r.1 < usize::MAX,
            r.3 < self.height_pixels,
    {
        let s = self.subpixel_divisions;
        let ry = if method == DistanceMethod::Euclidean {
            max / s + 2
        } else {
            max / s + 1
        };
        let rx = if method == DistanceMethod::Chebyshev {
            max / self.lon_subdivisions[center.j] + 1
        } else {
            ry
        };
        let min_i = if center.i > rx {
            center.i - rx
        } else {
            0
        };
        let max_i = center.i + rx;
        let min_j = if center.j > ry {
            center.j - ry
        } else {
            0
        };
        let max_j = if ry < self.height_pixels - 1 - center.j {
            center.j + ry
        } else {
            self.height_pixels - 1
        };
        (min_i, max_i, min_j, max_j)
    }

    /// The region of `method` around `center`: the center cell first, then
    /// every other cell of the search rectangle within `max_subpixel_distance`.
    pub fn get_subpixels_by_distance_method(
        &self,
        center: GridAddress,
        max_subpixel_distance: usize,
        method: DistanceMethod,
    ) -> (r: Vec<RegionCell>)
        requires
            self.wf(),
            self.valid_address(center),
            center.i + max_subpixel_distance + 3 <= usize::MAX,
        ensures
            r@ == self.selection_spec(method, center, max_subpixel_distance as int),
            self.all_valid(r@),
    {
        let (min_i, max_i, min_j, max_j) = self.search_box_exec(
            method,
            center,
            max_subpixel_distance,
        );
        let rect = self.get_subpixels_in_rectangle(min_i, max_i, min_j, max_j);
        let r = self.filter_region(&rect, method, center, max_subpixel_distance);
        proof {
            let p = self.keeps(method, center, max_subpixel_distance as int);
            assert forall|n: int| 0 <= n < r@.len() implies self.valid_address(
                #[trigger] r@[n].address,
            ) && corners_bounded(r@[n].corners) by {
                if n > 0 {
                    let f = rect@.filter(p);
                    assert(r@[n] == f[n - 1]);
                    rect@.lemma_filter_pred(p, n - 1);
                    lemma_filter_member(rect@, p, n - 1);
                }
            }
        }
        r
    }

    /// The Manhattan region around `center` (see `get_subpixels_by_distance_method`).
    pub fn get_subpixels_by_distance(&self, center: GridAddress, max_subpixel_distance: usize) -> (r:
        Vec<RegionCell>)
        requires
            self.wf(),
            self.valid_address(center),
            center.i + max_subpixel_distance + 3 <= usize::MAX,
        ensures
            r@ == self.selection_spec(
                DistanceMethod::Manhattan,
                center,
                max_subpixel_distance as int,
            ),
            self.all_valid(r@),
    {
        self.get_subpixels_by_distance_method(
            center,
            max_subpixel_distance,
            DistanceMethod::Manhattan,
        )
    }

    /// The Euclidean region around `center` (see `get_subpixels_by_distance_method`).
    pub fn get_subpixels_by_circular_distance(
        &self,
        center: GridAddress,
        max_subpixel_distance: usize,
    ) -> (r: Vec<RegionCell>)
        requires
            self.wf(),
            self.valid_address(center),
            center.i + max_subpixel_distance + 3 <= usize::MAX,
        ensures
            r@ == self.selection_spec(
                DistanceMethod::Euclidean,
                center,
                max_subpixel_distance as int,
            ),
            self.all_valid(r@),
    {
        self.get_subpixels_by_distance_method(
            center,
            max_subpixel_distance,
            DistanceMethod::Euclidean,
        )
    }

    /// The Chebyshev region around `center`: the whole search rectangle, the
    /// center first (see `get_subpixels_by_distance_method`).
    pub fn get_subpixels_by_rectangular_distance(
        &self,
        center: GridAddress,
        max_subpixel_distance: usize,
    ) -> (r: Vec<RegionCell>)
        requires
            self.wf(),
            self.valid_address(center),
            center.i + max_subpixel_distance + 3 <= usize::MAX,
        ensures
            r@ == self.selection_spec(
                DistanceMethod::Chebyshev,
                center,
                max_subpixel_distance as int,
            ),
            self.all_valid(r@),
    {
        self.get_subpixels_by_distance_method(
            center,
            max_subpixel_distance,
            DistanceMethod::Chebyshev,
        )
    }
}

/// Every element of a filtered sequence is an element of the sequence.
pub proof fn lemma_filter_member<A>(s: Seq<A>, p: spec_fn(A) -> bool, n: int)
    requires
        0 <= n < s.filter(p).len(),
    ensures
        exists|m: int| 0 <= m < s.len() && s[m] == s.filter(p)[n],
    decreases s.len(),
{
    reveal(Seq::filter);
    if s.len() > 0 {
        let sub = s.drop_last().filter(p);
        if n < sub.len() {
            lemma_filter_member(s.drop_last(), p, n);
            let m = choose|m: int| 0 <= m < s.drop_last().len() && s.drop_last()[m] == sub[n];
            assert(s[m] == s.filter(p)[n]);
        } else {
            assert(s[s.len() - 1] == s.filter(p)[n]);
        }
    }
}

/// Every selection holds the center cell exactly once, first, and every cell
/// it holds lies within the distance under its metric (for Chebyshev that is
/// no test at all: the selection is the whole search rectangle). Every cell of
/// the search rectangle within the distance is selected.
pub proof fn lemma_selection_containment(
    grid: Planisphere,
    method: DistanceMethod,
    center: GridAddress,
    max: int,
)
    requires
        grid.wf(),
        grid.valid_address(center),
        max >= 0,
    ensures
        ({
            let sel = grid.selection_spec(method, center, max);
            let b = grid.search_box(method, center, max);
            let rect = grid.rectangle_cells(b.0, b.1 + 1, b.2, b.3 + 1);
            &&& sel.len() >= 1
            &&& sel[0] == grid.region_cell_spec(center)
            &&& forall|n: int| 0 < n < sel.len() ==> (#[trigger] sel[n]).address != center
            &&& forall|n: int|
                0 <= n < sel.len() ==> grid.within(method, center, max, (#[trigger] sel[n]).address)
            &&& forall|n: int|
                0 <= n < rect.len() && (#[trigger] rect[n]).address != center && grid.within(
                    method,
                    center,
                    max,
                    rect[n].address,
                ) ==> sel.contains(rect[n])
        }),
{
    let sel = grid.selection_spec(method, center, max);
    let b = grid.search_box(method, center, max);
    let rect = grid.rectangle_cells(b.0, b.1 + 1, b.2, b.3 + 1);
    let p = grid.keeps(method, center, max);
    let f = rect.filter(p);
    assert(sel == seq![grid.region_cell_spec(center)] + f);
    assert forall|n: int| 0 < n < sel.len() implies (#[trigger] sel[n]).address != center
        && grid.within(method, center, max, sel[n].address) by {
        assert(sel[n] == f[n - 1]);
        rect.lemma_filter_pred(p, n - 1);
    }
    assert(grid.within(method, center, max, center)) by {
        let s = grid.subpixel_divisions as int;
        assert(0 <= max * max) by (nonlinear_arith);
        assert(0 * s == 0);
        assert(0int * 0int + 0int * 0int == 0);
    }
    assert forall|n: int|
        0 <= n < rect.len() && (#[trigger] rect[n]).address != center && grid.within(
            method,
            center,
            max,
            rect[n].address,
        ) implies sel.contains(rect[n]) by {
        rect.lemma_filter_contains(p, n);
        let m = choose|m: int| 0 <= m < f.len() && f[m] == rect[n];
        assert(sel[m + 1] == rect[n]);
    }
}

impl Planisphere {
    /// The `nx x ny` block of subpixels reached by neighbour steps from
    /// `center`, offsets from `-(nx / 2)` and `-(ny / 2)` up, row by row.
    pub open spec fn block_spec(self, center: GridAddress, nx: int, ny: int) -> Seq<RegionCell> {
        if nx <= 0 || ny <= 0 {
            Seq::empty()
        } else {
            Seq::new(
                (nx * ny) as nat,
                |n: int|
                    self.region_cell_spec(
                        self.neighbour_subpixel_spec(center, n % nx - nx / 2, n / nx - ny / 2),
                    ),
            )
        }
    }

    /// The `nx x ny` block of subpixels around `center` reached by neighbour
    /// steps, with their corners, row by row.
    pub fn get_subpixels_rect_centered_on_subpixel(
        &self,
        center: GridAddress,
        nx: i32,
        ny: i32,
    ) -> (r: Vec<RegionCell>)
        requires
            self.wf(),
            self.valid_address(center),
        ensures
            r@ == self.block_spec(center, nx as int, ny as int),
            self.all_valid(r@),
    {
        let mut result: Vec<RegionCell> = Vec::new();
        if nx <= 0 || ny <= 0 {
            proof {
                assert(result@ =~= self.block_spec(center, nx as int, ny as int));
            }
            return result;
        }
        let half_nx = nx / 2;
        let half_ny = ny / 2;
        let ghost total = self.block_spec(center, nx as int, ny as int);
        let mut iy: i32 = 0;
        while iy < ny
            invariant
                self.wf(),
                self.valid_address(center),
                0 < nx,
                0 <= iy <= ny,
                half_nx == nx / 2,
                half_ny == ny / 2,
                total == self.block_spec(center, nx as int, ny as int),
                result@ =~= total.take(iy * nx),
                self.all_valid(result@),
            decreases ny - iy,
        {
            let mut ix: i32 = 0;
            while ix < nx
                invariant
                    self.wf(),
                    self.valid_address(center),
                    0 < nx,
                    0 <= iy < ny,
                    0 <= ix <= nx,
                    half_nx == nx / 2,
                    half_ny == ny / 2,
                    total == self.block_spec(center, nx as int, ny as int),
                    result@ =~= total.take(iy * nx + ix),
                    self.all_valid(result@),
                decreases nx - ix,
            {
                let a = self.get_neighbour_subpixel(center, ix - half_nx, iy - half_ny);
                let corners = self.get_subpixel_corners(a);
                result.push(RegionCell { address: a, corners });
                proof {
                    let n = iy * nx + ix;
                    assert(n < nx * ny) by (nonlinear_arith)
                        requires
                            0 <= ix < nx,
                            0 <= iy < ny,
                            n == iy * nx + ix,
                    ;
                    assert(n % (nx as int) == ix && n / (nx as int) == iy) by {
                        vstd::arithmetic::div_mod::lemma_fundamental_div_mod_converse(
                            n,
                            nx as int,
                            iy as int,
                            ix as int,
                        );
                    }
                    assert(total.take(n + 1) =~= total.take(n).push(total[n]));
                }
                ix = ix + 1;
            }
            proof {
                assert((iy + 1) * nx == iy * nx + nx) by (nonlinear_arith);
            }
            iy = iy + 1;
        }
        proof {
            assert(total.len() == nx * ny);
            assert(total.take(ny * nx) =~= total) by {
                assert(ny * nx == nx * ny) by (nonlinear_arith);
            }
        }
        result
    }
}

/// No two cells of `cells` share an address.
pub open spec fn distinct_addresses(cells: Seq<RegionCell>) -> bool {
    forall|a: int, b: int|
        0 <= a < b < cells.len() ==> (#[trigger] cells[a]).address != (#[trigger] cells[b]).address
}

/// Filtering keeps addresses distinct.
proof fn lemma_filter_distinct(s: Seq<RegionCell>, p: spec_fn(RegionCell) -> bool)
    requires
        distinct_addresses(s),
    ensures
        distinct_addresses(s.filter(p)),
    decreases s.len(),
{
    reveal(Seq::filter);
    if s.len() > 0 {
        let d = s.drop_last();
        assert(distinct_addresses(d)) by {
            assert forall|a: int, b: int| 0 <= a < b < d.len() implies (#[trigger] d[a]).address
                != (#[trigger] d[b]).address by {
                assert(d[a] == s[a] && d[b] == s[b]);
            }
        }
        lemma_filter_distinct(d, p);
        let f = d.filter(p);
        if p(s.last()) {
            let g = f.push(s.last());
            assert forall|a: int, b: int| 0 <= a < b < g.len() implies (#[trigger] g[a]).address
                != (#[trigger] g[b]).address by {
                if b == g.len() - 1 {
                    lemma_filter_member(d, p, a);
                    let m = choose|m: int| 0 <= m < d.len() && d[m] == f[a];
                    assert(s[m] == g[a]);
                    assert(s[s.len() - 1] == g[b]);
                } else {
                    assert(g[a] == f[a] && g[b] == f[b]);
                }
            }
        }
    }
}

impl Planisphere {
    /// The subpixels of pixel `(i, j)` have that pixel and distinct indices.
    proof fn lemma_pixel_cells_shape(self, i: int, j: int)
        requires
            self.wf(),
            0 <= i < self.width_pixels,
            0 <= j < self.height_pixels,
        ensures
            distinct_addresses(self.pixel_cells(i, j)),
            forall|n: int|
                0 <= n < self.pixel_cells(i, j).len() ==> (#[trigger] self.pixel_cells(i, j)[n]).address.i
                    == i && self.pixel_cells(i, j)[n].address.j == j,
    {
        let l = self.lon_subdivs(j);
        let s = self.subpixel_divisions as int;
        lemma_dimension_bounds(self.width_pixels as int, self.height_pixels as int, s, l);
        let c = self.pixel_cells(i, j);
        assert forall|a: int, b: int| 0 <= a < b < c.len() implies (#[trigger] c[a]).address
            != (#[trigger] c[b]).address by {
            assert(c[a].address.k == a as usize && c[b].address.k == b as usize);
        }
    }

    /// A column of the rectangle holds cells of that column and the rows
    /// asked for, each address once.
    proof fn lemma_column_cells_shape(self, i: int, lo_j: int, hi_j: int)
        requires
            self.wf(),
            0 <= i < self.width_pixels,
            0 <= lo_j,
            hi_j <= self.height_pixels,
        ensures
            distinct_addresses(self.column_cells(i, lo_j, hi_j)),
            forall|n: int|
                0 <= n < self.column_cells(i, lo_j, hi_j).len() ==> (#[trigger] self.column_cells(
                    i,
                    lo_j,
                    hi_j,
                )[n]).address.i == i && lo_j <= self.column_cells(i, lo_j, hi_j)[n].address.j
                    < hi_j,
        decreases hi_j - lo_j,
    {
        if hi_j > lo_j {
            self.lemma_column_cells_shape(i, lo_j, hi_j - 1);
            self.lemma_pixel_cells_shape(i, hi_j - 1);
            let a0 = self.column_cells(i, lo_j, hi_j - 1);
            let b0 = self.pixel_cells(i, hi_j - 1);
            let c = self.column_cells(i, lo_j, hi_j);
            assert(c == a0 + b0);
            assert forall|n: int| 0 <= n < c.len() implies (#[trigger] c[n]).address.i == i && lo_j
                <= c[n].address.j < hi_j by {
                if n < a0.len() {
                    assert(c[n] == a0[n]);
                } else {
                    assert(c[n] == b0[n - a0.len()]);
                }
            }
            assert forall|a: int, b: int| 0 <= a < b < c.len() implies (#[trigger] c[a]).address
                != (#[trigger] c[b]).address by {
                if b < a0.len() {
                    assert(c[a] == a0[a] && c[b] == a0[b]);
                } else if a < a0.len() {
                    assert(c[a] == a0[a] && c[b] == b0[b - a0.len()]);
                } else {
                    assert(c[a] == b0[a - a0.len()] && c[b] == b0[b - a0.len()]);
                }
            }
        }
    }

    /// A rectangle that does not reach past the east edge holds cells of its
    /// columns, each address once.
    proof fn lemma_rectangle_cells_shape(self, lo_i: int, hi_i: int, lo_j: int, hi_j: int)
        requires
            self.wf(),
            0 <= lo_i,
            hi_i <= self.width_pixels,
            0 <= lo_j,
            hi_j <= self.height_pixels,
        ensures
            distinct_addresses(self.rectangle_cells(lo_i, hi_i, lo_j, hi_j)),
            forall|n: int|
                0 <= n < self.rectangle_cells(lo_i, hi_i, lo_j, hi_j).len() ==> lo_i <= (
                #[trigger] self.rectangle_cells(lo_i, hi_i, lo_j, hi_j)[n]).address.i < hi_i,
        decreases hi_i - lo_i,
    {
        if hi_i > lo_i {
            self.lemma_rectangle_cells_shape(lo_i, hi_i - 1, lo_j, hi_j);
            self.lemma_column_cells_shape(hi_i - 1, lo_j, hi_j);
            let a0 = self.rectangle_cells(lo_i, hi_i - 1, lo_j, hi_j);
            let b0 = self.column_cells(hi_i - 1, lo_j, hi_j);
            let c = self.rectangle_cells(lo_i, hi_i, lo_j, hi_j);
            assert(self.fold_column(hi_i - 1) == hi_i - 1);
            assert(c == a0 + b0);
            assert forall|n: int| 0 <= n < c.len() implies lo_i <= (#[trigger] c[n]).address.i
                < hi_i by {
                if n < a0.len() {
                    assert(c[n] == a0[n]);
                } else {
                    assert(c[n] == b0[n - a0.len()]);
                }
            }
            assert forall|a: int, b: int| 0 <= a < b < c.len() implies (#[trigger] c[a]).address
                != (#[trigger] c[b]).address by {
                if b < a0.len() {
                    assert(c[a] == a0[a] && c[b] == a0[b]);
                } else if a < a0.len() {
                    assert(c[a] == a0[a] && c[b] == b0[b - a0.len()]);
                } else {
                    assert(c[a] == b0[a - a0.len()] && c[b] == b0[b - a0.len()]);
                }
            }
        }
    }
}

/// When the search rectangle stays west of the east edge, a selection lists
/// no subpixel twice, so its length is the number of distinct subpixels kept.
pub proof fn lemma_selection_distinct(
    grid: Planisphere,
    method: DistanceMethod,
    center: GridAddress,
    max: int,
)
    requires
        grid.wf(),
        grid.valid_address(center),
        max >= 0,
        grid.search_box(method, center, max).1 < grid.width_pixels,
    ensures
        distinct_addresses(grid.selection_spec(method, center, max)),
{
    let b = grid.search_box(method, center, max);
    let rect = grid.rectangle_cells(b.0, b.1 + 1, b.2, b.3 + 1);
    let p = grid.keeps(method, center, max);
    grid.lemma_rectangle_cells_shape(b.0, b.1 + 1, b.2, b.3 + 1);
    lemma_filter_distinct(rect, p);
    let f = rect.filter(p);
    let sel = grid.selection_spec(method, center, max);
    assert(sel == seq![grid.region_cell_spec(center)] + f);
    assert forall|x: int, y: int| 0 <= x < y < sel.len() implies (#[trigger] sel[x]).address
        != (#[trigger] sel[y]).address by {
        assert(sel[y] == f[y - 1]);
        rect.lemma_filter_pred(p, y - 1);
        if x > 0 {
            assert(sel[x] == f[x - 1]);
        }
    }
}

} // verus!
