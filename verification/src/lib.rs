//! Two-dimensional acoustic wave simulation on a tiled rectangular grid.
//!
//! The domain is cut into a `px` by `py` grid of tiles. Every tile keeps three
//! planes of the field in one slab, exchanges its border with its neighbours
//! and advances by an explicit finite-difference step. The scalar type of the
//! field is a parameter: the arithmetic of the update rule is handed in by the
//! caller, and every function states which cells it reads and writes.

pub mod geometry;
pub mod config;
pub mod controlblock;
pub mod buffer;
pub mod stencil;
pub mod halo;
pub mod stimulus;
pub mod obstacle;
pub mod frame;
pub mod driver;
