//! Converts a dense 3D voxel occupancy grid into a compact list of brick,
//! ramp and wedge primitives: a two-pass ramp sweep with occupancy tracking,
//! followed by a greedy box filler over the remaining cells.

pub mod vox;
pub mod config;
pub mod primitive;
pub mod grid;
pub mod heuristic;
pub mod fit;
pub mod ramps;
pub mod sweep;
pub mod fill;
pub mod pipeline;

pub use config::RampifierConfig;
pub use grid::Rampifier;
pub use primitive::{Direction, Primitive, Rotation};
pub use vox::VoxVector;
