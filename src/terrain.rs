//! Terrain-side classification and bookkeeping: texture choice from a cell's
//! color and the set of subpixels currently rendered.
use vstd::prelude::*;

use crate::grid::{GridAddress, Planisphere};
use crate::region::RegionCell;

verus! {

/// A subpixel position, as kept for objects placed on the grid.
pub type SubpixelPosition = GridAddress;

/// The texture tile for a cell's color: the red channel alone picks one of ten
/// tiles in equal steps of a tenth of the full range, `min(9, 10 red / 255)`.
pub fn select_texture_from_rgba(red: u8, green: u8, blue: u8, alpha: u8) -> (r: usize)
    ensures
        r == if 10 * red / 255 < 9 {
            10 * red / 255
        } else {
            9
        },
{
    // red / 255 < t / 10  <=>  10 red < 255 t
    let r10 = 10 * (red as u32);
    let texture_index: usize = if r10 < 255 {
        0
    } else if r10 < 510 {
        1
    } else if r10 < 765 {
        2
    } else if r10 < 1020 {
        3
    } else if r10 < 1275 {
        4
    } else if r10 < 1530 {
        5
    } else if r10 < 1785 {
        6
    } else if r10 < 2040 {
        7
    } else if r10 < 2295 {
        8
    } else {
        9
    };
    texture_index
}

/// Whether `a` is among `v`.
fn contains_address(v: &Vec<GridAddress>, a: GridAddress) -> (r: bool)
    ensures
        r == v@.contains(a),
{
    let mut n: usize = 0;
    while n < v.len()
        invariant
            n <= v@.len(),
            forall|m: int| 0 <= m < n ==> v@[m] != a,
        decreases v@.len() - n,
    {
        if v[n] == a {
            assert(v@[n as int] == a);
            return true;
        }
        n = n + 1;
    }
    false
}

/// The subpixels of the current region, each once, for deciding which
/// objects show, with the region's center and reach.
pub struct RenderedSubpixels {
    pub subpixels: Vec<GridAddress>,
    pub center: GridAddress,
    pub max_distance: usize,
}

/// `a` is the address of one of `cells`.
pub open spec fn in_region(cells: Seq<RegionCell>, a: GridAddress) -> bool {
    exists|m: int| 0 <= m < cells.len() && (#[trigger] cells[m]).address == a
}

impl RenderedSubpixels {
    /// The rendered subpixels form a set: no address appears twice.
    pub open spec fn wf(self) -> bool {
        self.subpixels@.no_duplicates()
    }

    /// No subpixel rendered, centered on `(0, 0, 0)` with no reach.
    pub fn new() -> (r: RenderedSubpixels)
        ensures
            r.wf(),
            r.subpixels@ == Seq::<GridAddress>::empty(),
            r.center == (GridAddress { i: 0, j: 0, k: 0 }),
            r.max_distance == 0,
    {
        RenderedSubpixels {
            subpixels: Vec::new(),
            center: GridAddress { i: 0, j: 0, k: 0 },
            max_distance: 0,
        }
    }

    /// Whether subpixel `(i, j, k)` is rendered.
    pub fn is_visible(&self, i: usize, j: usize, k: usize) -> (r: bool)
        ensures
            r == self.subpixels@.contains(GridAddress { i, j, k }),
    {
        contains_address(&self.subpixels, GridAddress { i, j, k })
    }

    /// Replaces the rendered set by the addresses of a new region's cells,
    /// each once, and records the region's center and reach.
    pub fn update_rendered_subpixels(
        &mut self,
        center: GridAddress,
        max_distance: usize,
        cells: &Vec<RegionCell>,
    )
        ensures
            final(self).wf(),
            forall|a: GridAddress|
                #[trigger] final(self).subpixels@.contains(a) <==> in_region(cells@, a),
            final(self).center == center,
            final(self).max_distance == max_distance,
    {
        let mut fresh: Vec<GridAddress> = Vec::new();
        let mut n: usize = 0;
        while n < cells.len()
            invariant
                n <= cells@.len(),
                fresh@.no_duplicates(),
                forall|a: GridAddress|
                    #[trigger] fresh@.contains(a) <==> in_region(cells@.take(n as int), a),
            decreases cells@.len() - n,
        {
            let a = cells[n].address;
            let ghost before = fresh@;
            if !contains_address(&fresh, a) {
                fresh.push(a);
            }
            proof {
                let t = cells@.take(n + 1);
                assert(t[n as int].address == a);
                assert forall|b: GridAddress| #[trigger] fresh@.contains(b) <==> in_region(t, b) by {
                    if fresh@.contains(b) {
                        if b == a {
                            assert(t[n as int].address == b);
                        } else {
                            assert(before.contains(b)) by {
                                let m = choose|m: int| 0 <= m < fresh@.len() && fresh@[m] == b;
                                assert(before[m] == b);
                            }
                            assert(in_region(cells@.take(n as int), b));
                            let m = choose|m: int|
                                0 <= m < n && (#[trigger] cells@.take(n as int)[m]).address == b;
                            assert(t[m].address == b);
                        }
                    }
                    if in_region(t, b) {
                        let m = choose|m: int| 0 <= m < n + 1 && (#[trigger] t[m]).address == b;
                        if m == n {
                            if !before.contains(a) {
                                assert(fresh@[before.len() as int] == a);
                            } else {
                                let q = choose|q: int| 0 <= q < before.len() && before[q] == a;
                                assert(fresh@[q] == a);
                            }
                        } else {
                            assert(cells@.take(n as int)[m].address == b);
                            assert(before.contains(b));
                            let q = choose|q: int| 0 <= q < before.len() && before[q] == b;
                            assert(fresh@[q] == b);
                        }
                    }
                }
            }
            n = n + 1;
        }
        proof {
            assert(cells@.take(n as int) =~= cells@);
        }
        self.subpixels = fresh;
        self.center = center;
        self.max_distance = max_distance;
    }
}

/// The texture tile of a red byte (see `select_texture_from_rgba`).
pub open spec fn texture_of(red: u8) -> usize {
    if 10 * red / 255 < 9 {
        (10 * red / 255) as usize
    } else {
        9
    }
}

/// The texture tile of every cell of a region, in order, from its pixel's color.
pub fn region_texture_indices(grid: &Planisphere, cells: &Vec<RegionCell>) -> (r: Vec<usize>)
    requires
        grid.wf(),
        grid.all_valid(cells@),
    ensures
        r@.len() == cells@.len(),
        forall|n: int|
            0 <= n < cells@.len() ==> #[trigger] r@[n] == texture_of(
                grid.red.at(cells@[n].address.i as int, cells@[n].address.j as int),
            ),
{
    let mut out: Vec<usize> = Vec::new();
    let mut n: usize = 0;
    while n < cells.len()
        invariant
            grid.wf(),
            grid.all_valid(cells@),
            n <= cells@.len(),
            out@.len() == n,
            forall|m: int|
                0 <= m < n ==> #[trigger] out@[m] == texture_of(
                    grid.red.at(cells@[m].address.i as int, cells@[m].address.j as int),
                ),
        decreases cells@.len() - n,
    {
        let a = cells[n].address;
        assert(grid.valid_address(cells@[n as int].address));
        let (red, green, blue, alpha) = grid.get_rgba_at_subpixel(a.i, a.j, a.k);
        out.push(select_texture_from_rgba(red, green, blue, alpha));
        n = n + 1;
    }
    out
}

} // verus!
