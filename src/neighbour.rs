//! Neighbour lookup on the planisphere: across subpixel and pixel edges,
//! wrapping at the date line and mirroring over the poles.
use vstd::prelude::*;

use crate::grid::{lemma_dimension_bounds, GridAddress, Planisphere};

verus! {

impl Planisphere {
    /// The pixel one step `(dx, dy)` from `(x, y)`. Past the last row the row
    /// mirrors back (`H` becomes `H - 1`, `-1` becomes `1`) and the column turns
    /// half way round the map; columns wrap at the date line.
    pub open spec fn neighbour_pixel_spec(self, x: int, y: int, dx: int, dy: int) -> (int, int) {
        let w = self.width_pixels as int;
        let h = self.height_pixels as int;
        let y1 = y + dy;
        let crossed = y1 >= h || y1 < 0;
        let y2 = if y1 >= h {
            2 * h - 1 - y1
        } else if y1 < 0 {
            -y1
        } else {
            y1
        };
        let shift = if crossed {
            w / 2
        } else {
            0
        };
        ((x + dx + shift) % w, y2)
    }

    /// The subpixel `di` columns and `dj` rows from `a`. A step that leaves the
    /// pixel moves one pixel at most and enters it at its near edge. Crossing
    /// rows straight north or south keeps the relative column,
    /// `sub_i * L' / L`; a west step enters the last column that both rows have.
    pub open spec fn neighbour_subpixel_spec(self, a: GridAddress, di: int, dj: int) -> GridAddress {
        let s = self.subpixel_divisions as int;
        let l = self.lon_subdivs(a.j as int);
        let si = (a.k as int) / s;
        let sj = (a.k as int) % s;
        let ni = si + di;
        let nj = sj + dj;
        let pdi: int = if ni >= l {
            1
        } else if ni < 0 {
            -1
        } else {
            0
        };
        let pdj: int = if nj >= s {
            1
        } else if nj < 0 {
            -1
        } else {
            0
        };
        let fsj = if pdj == 1 {
            0
        } else if pdj == -1 {
            s - 1
        } else {
            nj
        };
        if pdi == 0 && pdj == 0 {
            GridAddress { i: a.i, j: a.j, k: (ni * s + nj) as usize }
        } else {
            let (wi, wj) = self.neighbour_pixel_spec(a.i as int, a.j as int, pdi, pdj);
            let lt = self.lon_subdivs(wj);
            let fsi = if pdi == 1 {
                0
            } else if pdi == -1 {
                if l <= lt {
                    l - 1
                } else {
                    lt - 1
                }
            } else {
                si * lt / l
            };
            GridAddress { i: wi as usize, j: wj as usize, k: (fsi * s + fsj) as usize }
        }
    }

    /// The pixel one step `(dx, dy)` from `(x, y)`, see `neighbour_pixel_spec`.
    fn get_neighbour(&self, x: usize, y: usize, dx: i32, dy: i32) -> (r: (usize, usize))
        requires
            self.wf(),
            x < self.width_pixels,
            y < self.height_pixels,
            -1 <= dx <= 1,
            -1 <= dy <= 1,
        ensures
            r.0 as int == self.neighbour_pixel_spec(x as int, y as int, dx as int, dy as int).0,
            r.1 as int == self.neighbour_pixel_spec(x as int, y as int, dx as int, dy as int).1,
            r.0 < self.width_pixels,
            r.1 < self.height_pixels,
    {
        proof {
            lemma_dimension_bounds(
                self.width_pixels as int,
                self.height_pixels as int,
                self.subpixel_divisions as int,
                1,
            );
        }
        let w = self.width_pixels as i64;
        let h = self.height_pixels as i64;
        let mut cx: i64 = x as i64 + dx as i64;
        let mut cy: i64 = y as i64 + dy as i64;
        let ghost x0 = cx;
        if cy >= h {
            let overflow = cy - h + 1;
            cy = h - overflow;
            cx = cx + w / 2;
        }
        if cy < 0 {
            cy = -cy;
            cx = cx + w / 2;
        }
        let ghost x1 = cx;
        if cx >= w {
            cx = cx - w;
            proof {
                vstd::arithmetic::div_mod::lemma_fundamental_div_mod_converse(x1 as int, w as int, 1, cx as int);
            }
        } else if cx < 0 {
            cx = w + cx;
            proof {
                vstd::arithmetic::div_mod::lemma_fundamental_div_mod_converse(x1 as int, w as int, -1, cx as int);
            }
        } else {
            proof {
                vstd::arithmetic::div_mod::lemma_small_mod(x1 as nat, w as nat);
            }
        }
        (cx as usize, cy as usize)
    }

    /// The subpixel `di` columns and `dj` rows from `a` (see
    /// `neighbour_subpixel_spec`); always an existing subpixel.
    pub fn get_neighbour_subpixel(&self, a: GridAddress, di: i32, dj: i32) -> (r: GridAddress)
        requires
            self.wf(),
            self.valid_address(a),
        ensures
            r == self.neighbour_subpixel_spec(a, di as int, dj as int),
            self.valid_address(r),
    {
        let s = self.subpixel_divisions;
        let l = self.lon_subdivisions[a.j];
        let sub_i = a.k / s;
        let sub_j = a.k % s;
        proof {
            lemma_dimension_bounds(
                self.width_pixels as int,
                self.height_pixels as int,
                s as int,
                l as int,
            );
            assert(sub_i < l) by (nonlinear_arith)
                requires
                    a.k < l * s,
                    sub_i == (a.k as int) / (s as int),
                    s > 0,
            ;
        }
        let new_sub_i: i64 = sub_i as i64 + di as i64;
        let new_sub_j: i64 = sub_j as i64 + dj as i64;
        let mut pixel_di: i32 = 0;
        let mut pixel_dj: i32 = 0;
        let mut final_sub_i: i64 = new_sub_i;
        let mut final_sub_j: i64 = new_sub_j;
        if new_sub_i >= l as i64 {
            pixel_di = 1;
            final_sub_i = 0;
        } else if new_sub_i < 0 {
            pixel_di = -1;
            final_sub_i = l as i64 - 1;
        }
        if new_sub_j >= s as i64 {
            pixel_dj = 1;
            final_sub_j = 0;
        } else if new_sub_j < 0 {
            pixel_dj = -1;
            final_sub_j = s as i64 - 1;
        }
        if pixel_di == 0 && pixel_dj == 0 {
            proof {
                assert(final_sub_i * s + final_sub_j < l * s) by (nonlinear_arith)
                    requires
                        0 <= final_sub_i < l,
                        0 <= final_sub_j < s,
                ;
            }
            let new_k = (final_sub_i as usize) * s + (final_sub_j as usize);
            return GridAddress { i: a.i, j: a.j, k: new_k };
        }
        let (wrapped_i, wrapped_j) = self.get_neighbour(a.i, a.j, pixel_di, pixel_dj);
        let target_l = self.lon_subdivisions[wrapped_j];
        if pixel_di == 0 {
            // straight north or south: keep the relative column
            proof {
                assert((sub_i * target_l) as int / (l as int) < target_l) by (nonlinear_arith)
                    requires
                        sub_i < l,
                        0 < l,
                        0 < target_l,
                ;
                assert(sub_i * target_l <= s * s) by (nonlinear_arith)
                    requires
                        sub_i < l <= s,
                        target_l <= s,
                ;
            }
            final_sub_i = ((sub_i * target_l) / l) as i64;
        } else if pixel_di == -1 && target_l < l {
            // a diagonal step into a row with fewer columns
            final_sub_i = target_l as i64 - 1;
        }
        proof {
            assert(final_sub_i * s + final_sub_j < target_l * s) by (nonlinear_arith)
                requires
                    0 <= final_sub_i < target_l,
                    0 <= final_sub_j < s,
            ;
            lemma_dimension_bounds(
                self.width_pixels as int,
                self.height_pixels as int,
                s as int,
                target_l as int,
            );
        }
        let new_k = (final_sub_i as usize) * s + (final_sub_j as usize);
        GridAddress { i: wrapped_i, j: wrapped_j, k: new_k }
    }
}

/// A straight step north or south that leaves the map over a pole lands in
/// the row mirrored back into the map (`H - 1` past the north edge, `1` past
/// the south edge), with the column turned by exactly `W / 2`, modulo `W`.
pub proof fn lemma_pole_crossing(grid: Planisphere, a: GridAddress, dj: int)
    requires
        grid.wf(),
        grid.valid_address(a),
    ensures
        ({
            let s = grid.subpixel_divisions as int;
            let w = grid.width_pixels as int;
            let h = grid.height_pixels as int;
            let r = grid.neighbour_subpixel_spec(a, 0, dj);
            &&& (a.j == h - 1 && (a.k as int) % s + dj >= s) ==> r.j == h - 1 && r.i == (a.i + w
                / 2) % w
            &&& (a.j == 0 && (a.k as int) % s + dj < 0) ==> r.j == 1 && r.i == (a.i + w / 2) % w
        }),
{
    let s = grid.subpixel_divisions as int;
    let l = grid.lon_subdivs(a.j as int);
    let si = (a.k as int) / s;
    assert(si < l) by (nonlinear_arith)
        requires
            a.k < l * s,
            si == (a.k as int) / s,
            s > 0,
    ;
    assert(0 <= si) by (nonlinear_arith)
        requires
            a.k >= 0,
            si == (a.k as int) / s,
            s > 0,
    ;
}

} // verus!
