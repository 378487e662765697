//! Discrete multi-resolution grid over a sphere, with latitude-corrected
//! subdivision, neighbour lookup across the date line and the poles,
//! distance-limited region selection, mesh topology for a selected region
//! and the recentering decisions of a roaming local projection.

pub mod raster;

pub mod grid;
pub mod neighbour;
pub mod boundaries;
pub mod region;
pub mod mesh;
pub mod recenter;
pub mod terrain;
