//! Numeric limits and asset selectors for the conversion: how far a ramp may
//! run and rise, whether wedges substitute for short ramps, which asset each
//! shape uses, and the physical size of one grid cell in world units.

use vstd::prelude::*;

verus! {

/// Configuration of the conversion. All fields are caller-supplied; the core
/// never validates them — degenerate limits simply mean that no ramp fits.
pub struct RampifierConfig {
    /// How wide a ramp may be, in bricks. Reserved; the fitter does not read it.
    pub ramp_max_width: usize,

    /// How long a ramp may run, in bricks.
    pub ramp_max_run: usize,

    /// How high a ramp may rise, in plates.
    pub ramp_max_rise: usize,

    /// How high a wedge may rise, in plates.
    pub wedge_max_rise: usize,

    /// The least acceptable rise of a fitted ramp, in plates.
    pub ramp_min_rise: usize,

    /// Rise step granularity for ramps, in plates.
    pub ramp_rise_step: usize,

    /// Rise step granularity for wedges, in plates.
    pub wedge_rise_step: usize,

    /// Whether a short ramp is emitted as a wedge shape.
    pub use_wedge: bool,

    /// Asset index of the plain cubic brick.
    pub brick_index: u32,

    /// Asset index of the ramp brick.
    pub ramp_index: u32,

    /// Asset index of the wedge brick.
    pub wedge_index: u32,

    /// The world-unit size of a single grid cell, per axis. This must match
    /// the target brick grid or the emitted sizes are invalid.
    pub brick_size: (u32, u32, u32),
}

impl Default for RampifierConfig {
    /// The stock configuration: 4-brick runs, 12-plate rises, no wedges,
    /// one cell = a 5x5x2 procedural brick.
    fn default() -> (c: Self)
        ensures
            c == RampifierConfig::spec_default(),
    {
        Self {
            ramp_max_width: 2,
            ramp_max_run: 4,
            ramp_max_rise: 12,
            wedge_max_rise: 2,
            ramp_min_rise: 1,
            ramp_rise_step: 1,
            wedge_rise_step: 2,
            use_wedge: false,
            brick_index: 0,
            ramp_index: 1,
            wedge_index: 2,
            brick_size: (5, 5, 2),
        }
    }
}

impl RampifierConfig {
    /// The value that `Default::default` returns.
    pub open spec fn spec_default() -> RampifierConfig {
        RampifierConfig {
            ramp_max_width: 2,
            ramp_max_run: 4,
            ramp_max_rise: 12,
            wedge_max_rise: 2,
            ramp_min_rise: 1,
            ramp_rise_step: 1,
            wedge_rise_step: 2,
            use_wedge: false,
            brick_index: 0,
            ramp_index: 1,
            wedge_index: 2,
            brick_size: (5, 5, 2),
        }
    }

    /// A configuration built from every field in order.
    pub fn new(
        ramp_max_width: usize,
        ramp_max_run: usize,
        ramp_max_rise: usize,
        wedge_max_rise: usize,
        ramp_min_rise: usize,
        ramp_rise_step: usize,
        wedge_rise_step: usize,
        use_wedge: bool,
        brick_index: u32,
        ramp_index: u32,
        wedge_index: u32,
        brick_size: (u32, u32, u32),
    ) -> (c: Self)
        ensures
            c == (RampifierConfig {
                ramp_max_width,
                ramp_max_run,
                ramp_max_rise,
                wedge_max_rise,
                ramp_min_rise,
                ramp_rise_step,
                wedge_rise_step,
                use_wedge,
                brick_index,
                ramp_index,
                wedge_index,
                brick_size,
            }),
    {
        Self {
            ramp_max_width,
            ramp_max_run,
            ramp_max_rise,
            wedge_max_rise,
            ramp_min_rise,
            ramp_rise_step,
            wedge_rise_step,
            use_wedge,
            brick_index,
            ramp_index,
            wedge_index,
            brick_size,
        }
    }

    /// A configuration for microbricks: one cell = a 1x1x1 microbrick.
    pub fn micro(micro_cube_index: u32, micro_ramp_index: u32) -> (c: Self)
        ensures
            c == (RampifierConfig {
                ramp_max_width: 2,
                ramp_max_run: 4,
                ramp_max_rise: 12,
                wedge_max_rise: 12,
                ramp_min_rise: 1,
                ramp_rise_step: 1,
                wedge_rise_step: 1,
                use_wedge: false,
                brick_index: micro_cube_index,
                ramp_index: micro_ramp_index,
                wedge_index: micro_ramp_index,
                brick_size: (1u32, 1u32, 1u32),
            }),
    {
        Self {
            ramp_max_width: 2,
            ramp_max_run: 4,
            ramp_max_rise: 12,
            wedge_max_rise: 12,
            ramp_min_rise: 1,
            ramp_rise_step: 1,
            wedge_rise_step: 1,
            use_wedge: false,
            brick_index: micro_cube_index,
            ramp_index: micro_ramp_index,
            wedge_index: micro_ramp_index,
            brick_size: (1, 1, 1),
        }
    }

    /// A configuration for 4x cubes: one cell = a 20x20x20 brick.
    pub fn x4cube(micro_cube_index: u32, micro_ramp_index: u32) -> (c: Self)
        ensures
            c == (RampifierConfig {
                ramp_max_width: 2,
                ramp_max_run: 4,
                ramp_max_rise: 4,
                wedge_max_rise: 12,
                ramp_min_rise: 1,
                ramp_rise_step: 0,
                wedge_rise_step: 1,
                use_wedge: false,
                brick_index: micro_cube_index,
                ramp_index: micro_ramp_index,
                wedge_index: micro_ramp_index,
                brick_size: (20u32, 20u32, 20u32),
            }),
    {
        Self {
            ramp_max_width: 2,
            ramp_max_run: 4,
            ramp_max_rise: 4,
            wedge_max_rise: 12,
            ramp_min_rise: 1,
            ramp_rise_step: 0,
            wedge_rise_step: 1,
            use_wedge: false,
            brick_index: micro_cube_index,
            ramp_index: micro_ramp_index,
            wedge_index: micro_ramp_index,
            brick_size: (20, 20, 20),
        }
    }
}

} // verus!
