//! Recentering of the local projection: when the followed subject has moved
//! too far from the center, the projection is re-rooted at the subject's cell
//! and every position is shifted so the subject sits at the origin.
use vstd::prelude::*;

use crate::grid::{GeoCoordinate, GridAddress, Planisphere};

verus! {

/// A position in the local tangent plane, in integer length units; `y` is the
/// height above the plane, `x` and `z` lie in it.
#[derive(Clone, Copy, Debug, PartialEq, Eq, Structural)]
pub struct LocalPosition {
    pub x: i64,
    pub y: i64,
    pub z: i64,
}

/// What a tick decides.
#[derive(Clone, Copy, Debug, PartialEq, Eq, Structural)]
pub enum RecenterDecision {
    /// Keep the current center.
    Stay,
    /// Re-root the projection at this subpixel.
    Recenter(GridAddress),
}

/// The projection center currently in effect and the recentering policy.
#[derive(Clone, Copy, Debug, PartialEq, Eq, Structural)]
pub struct TerrainCenter {
    /// The tangent point, in micro-degrees.
    pub center: GeoCoordinate,
    /// The subpixel of the tangent point.
    pub subpixel: GridAddress,
    /// Distance from the center, in cells, beyond which the subject triggers
    /// a recentering.
    pub max_subpixel_distance: usize,
    /// Least time between two recenterings, in milliseconds.
    pub recreation_cooldown_ms: u64,
    /// When the last recentering happened, if any.
    pub last_recreation_ms: Option<u64>,
    /// Set by a recentering, cleared by `reset_flag` once consumers caught up.
    pub terrain_recreated: bool,
}

/// The subject lies farther than `max_cells` cells of `tile_size` units from
/// the center, measured in the plane (the height does not count).
pub open spec fn beyond_reach(subject: LocalPosition, max_cells: int, tile_size: int) -> bool {
    subject.x * subject.x + subject.z * subject.z > (max_cells * tile_size) * (max_cells
        * tile_size)
}

/// `p` shifted so that `subject` lands on the plane's origin; heights stay.
pub open spec fn rebased_spec(p: LocalPosition, subject: LocalPosition) -> LocalPosition {
    LocalPosition { x: (p.x - subject.x) as i64, y: p.y, z: (p.z - subject.z) as i64 }
}

/// The shift of `p` by `subject` fits the integer width.
pub open spec fn rebase_fits(p: LocalPosition, subject: LocalPosition) -> bool {
    i64::MIN <= p.x - subject.x <= i64::MAX && i64::MIN <= p.z - subject.z <= i64::MAX
}

impl TerrainCenter {
    /// The center at longitude and latitude 0 on subpixel `(0, 0, 0)`, a reach
    /// of 62 cells, a one-second cooldown and no recentering yet.
    pub fn new() -> (r: TerrainCenter)
        ensures
            r.center == (GeoCoordinate { longitude: 0, latitude: 0 }),
            r.subpixel == (GridAddress { i: 0, j: 0, k: 0 }),
            r.max_subpixel_distance == 62,
            r.recreation_cooldown_ms == 1000,
            r.last_recreation_ms is None,
            !r.terrain_recreated,
    {
        TerrainCenter {
            center: GeoCoordinate { longitude: 0, latitude: 0 },
            subpixel: GridAddress { i: 0, j: 0, k: 0 },
            max_subpixel_distance: 62,
            recreation_cooldown_ms: 1000,
            last_recreation_ms: None,
            terrain_recreated: false,
        }
    }

    /// Clears the recentering flag.
    pub fn reset_flag(&mut self)
        ensures
            *final(self) == (TerrainCenter { terrain_recreated: false, ..*old(self) }),
    {
        self.terrain_recreated = false;
    }

    /// The cooldown has passed at time `now_ms`, or no recentering happened yet.
    pub open spec fn cooled_down(self, now_ms: int) -> bool {
        match self.last_recreation_ms {
            None => true,
            Some(t) => now_ms >= t && now_ms - t >= self.recreation_cooldown_ms,
        }
    }

    /// Decides, at time `now_ms`, whether to recenter on the subject at local
    /// position `subject` in subpixel `subject_subpixel`: only when it lies
    /// beyond the reach (`max_subpixel_distance` cells of `mean_tile_size`
    /// units) and the cooldown has passed. The new center is the subject's
    /// own subpixel.
    pub fn on_tick(
        &self,
        subject: LocalPosition,
        subject_subpixel: GridAddress,
        now_ms: u64,
        mean_tile_size: u64,
    ) -> (r: RecenterDecision)
        ensures
            r == if beyond_reach(subject, self.max_subpixel_distance as int, mean_tile_size as int)
                && self.cooled_down(now_ms as int) {
                RecenterDecision::Recenter(subject_subpixel)
            } else {
                RecenterDecision::Stay
            },
    {
        let x = subject.x as i128;
        let z = subject.z as i128;
        proof {
            assert(0 <= x * x <= 0x4000_0000_0000_0000_0000_0000_0000_0000) by (nonlinear_arith)
                requires
                    -0x8000_0000_0000_0000 <= x <= 0x7fff_ffff_ffff_ffff,
            ;
            assert(0 <= z * z <= 0x4000_0000_0000_0000_0000_0000_0000_0000) by (nonlinear_arith)
                requires
                    -0x8000_0000_0000_0000 <= z <= 0x7fff_ffff_ffff_ffff,
            ;
            assert(self.max_subpixel_distance * mean_tile_size <= 0xffff_ffff_ffff_ffff
                * 0xffff_ffff_ffff_ffff) by (nonlinear_arith)
                requires
                    self.max_subpixel_distance <= 0xffff_ffff_ffff_ffff,
                    mean_tile_size <= 0xffff_ffff_ffff_ffff,
            ;
        }
        let d2 = (x * x) as u128 + (z * z) as u128;
        let reach = (self.max_subpixel_distance as u128) * (mean_tile_size as u128);
        let far = match reach.checked_mul(reach) {
            Some(r2) => d2 > r2,
            None => false,
        };
        let cooled = match self.last_recreation_ms {
            None => true,
            Some(t) => now_ms >= t && now_ms - t >= self.recreation_cooldown_ms,
        };
        if far && cooled {
            RecenterDecision::Recenter(subject_subpixel)
        } else {
            RecenterDecision::Stay
        }
    }

    /// Re-roots the projection at subpixel `new_center` at time `now_ms`: the
    /// new tangent point is that subpixel's point, and the flag is raised.
    pub fn recenter(&mut self, grid: &Planisphere, new_center: GridAddress, now_ms: u64)
        requires
            grid.wf(),
            grid.valid_address(new_center),
        ensures
            *final(self) == (TerrainCenter {
                center: grid.subpixel_to_geo_spec(new_center),
                subpixel: new_center,
                last_recreation_ms: Some(now_ms),
                terrain_recreated: true,
                ..*old(self)
            }),
    {
        self.center = grid.subpixel_to_geo(new_center);
        self.subpixel = new_center;
        self.last_recreation_ms = Some(now_ms);
        self.terrain_recreated = true;
    }
}

/// `p` shifted so that `subject` lands on the plane's origin.
pub fn rebased(p: LocalPosition, subject: LocalPosition) -> (r: LocalPosition)
    requires
        rebase_fits(p, subject),
    ensures
        r == rebased_spec(p, subject),
{
    LocalPosition { x: p.x - subject.x, y: p.y, z: p.z - subject.z }
}

/// Shifts every position so that `subject` lands on the plane's
/// origin, keeping heights and every offset between positions.
pub fn rebase(positions: &mut Vec<LocalPosition>, subject: LocalPosition)
    requires
        forall|n: int| 0 <= n < old(positions)@.len() ==> rebase_fits(#[trigger] old(positions)@[n], subject),
    ensures
        final(positions)@.len() == old(positions)@.len(),
        forall|n: int|
            0 <= n < old(positions)@.len() ==> #[trigger] final(positions)@[n] == rebased_spec(
                old(positions)@[n],
                subject,
            ),
{
    let ghost start = positions@;
    let mut n: usize = 0;
    while n < positions.len()
        invariant
            positions@.len() == start.len(),
            n <= start.len(),
            forall|m: int| 0 <= m < start.len() ==> rebase_fits(#[trigger] start[m], subject),
            forall|m: int| 0 <= m < n ==> #[trigger] positions@[m] == rebased_spec(start[m], subject),
            forall|m: int| n <= m < start.len() ==> #[trigger] positions@[m] == start[m],
        decreases start.len() - n,
    {
        let p = positions[n];
        assert(p == start[n as int]);
        let q = rebased(p, subject);
        positions.set(n, q);
        n = n + 1;
    }
}

/// After a rebase the subject sits at the origin of the plane (at the origin
/// outright when it stood on the plane), and the offset between any two
/// positions is the same as before.
pub proof fn lemma_rebase_centers_subject(subject: LocalPosition, p: LocalPosition, q: LocalPosition)
    requires
        rebase_fits(subject, subject),
        rebase_fits(p, subject),
        rebase_fits(q, subject),
    ensures
        rebased_spec(subject, subject).x == 0,
        rebased_spec(subject, subject).z == 0,
        rebased_spec(subject, subject).y == subject.y,
        subject.y == 0 ==> rebased_spec(subject, subject) == (LocalPosition { x: 0, y: 0, z: 0 }),
        rebased_spec(p, subject).x - rebased_spec(q, subject).x == p.x - q.x,
        rebased_spec(p, subject).y - rebased_spec(q, subject).y == p.y - q.y,
        rebased_spec(p, subject).z - rebased_spec(q, subject).z == p.z - q.z,
{
}

} // verus!
