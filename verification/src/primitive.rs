//! The output descriptors of the conversion: an axis-aligned box, ramp or
//! wedge in world units, plus the grid-space descriptions (a ramp placement
//! and a filled box) that say exactly which grid cells a primitive covers.

use vstd::prelude::*;
use crate::config::RampifierConfig;

verus! {

/// One of the four cardinal rotations of a primitive.
#[derive(Clone, Copy, Debug, PartialEq, Eq, Structural)]
pub enum Rotation {
    Deg0,
    Deg90,
    Deg180,
    Deg270,
}

/// Whether a sloped primitive rises from a floor or hangs from a ceiling.
#[derive(Clone, Copy, Debug, PartialEq, Eq, Structural)]
pub enum Direction {
    ZPositive,
    ZNegative,
}

/// An emitted primitive, in world units. Descriptors are immutable once
/// created and hold no reference back into the grid.
#[derive(Clone, Copy, Debug, PartialEq, Eq)]
pub struct Primitive {
    /// Asset selector: plain brick, ramp or wedge.
    pub asset_name_index: u32,
    /// Anchor position in world units.
    pub position: (i32, i32, i32),
    /// Extent in world sub-units, per axis.
    pub size: (u32, u32, u32),
    /// Floor or ceiling orientation.
    pub direction: Direction,
    /// Cardinal rotation.
    pub rotation: Rotation,
    /// Material/color selector.
    pub color_index: u32,
}

/// The 0/180 degree swap applied to ceiling ramps, which mirrors those two
/// orientations relative to floor placement.
pub open spec fn mirror_z(rot: Rotation) -> Rotation {
    match rot {
        Rotation::Deg0 => Rotation::Deg180,
        Rotation::Deg180 => Rotation::Deg0,
        r => r,
    }
}

/// The per-rotation anchor correction: moves a sloped primitive's anchor to
/// its outward-facing corner, as a function of its own width/length/height.
/// The 0 and 90 degree forms also step one cell back toward the seed: one
/// cell is `2 * brick_size.0` world units along x, `2 * brick_size.1`
/// along y, so every component scales with the configured unit size.
pub open spec fn offset_spec(
    cfg: RampifierConfig,
    pos: (int, int, int),
    size: (int, int, int),
    rot: Rotation,
) -> (int, int, int) {
    let w = size.0;
    let l = size.1;
    let h = size.2;
    let ux = 2 * cfg.brick_size.0 as int;
    let uy = 2 * cfg.brick_size.1 as int;
    match rot {
        Rotation::Deg0 => (pos.0 - w + ux, pos.1 + l, pos.2 + h),
        Rotation::Deg90 => (pos.0 + l, pos.1 - w + uy, pos.2 + h),
        Rotation::Deg180 => (pos.0 + w, pos.1 + l, pos.2 + h),
        Rotation::Deg270 => (pos.0 + l, pos.1 + w, pos.2 + h),
    }
}

/// A fitted ramp in grid space: its seed cell, run, rise, rotation and pass.
/// Spec-only; the world-unit `Primitive` is derived from it.
pub ghost struct Placement {
    pub seed: (int, int, int),
    pub run: int,
    pub rise: int,
    pub rot: Rotation,
    pub floor: bool,
}

impl Placement {
    /// The lowest covered cell of the ramp: the seed for a floor ramp, the
    /// seed shifted down by the rise for a ceiling ramp.
    pub open spec fn base(self) -> (int, int, int) {
        if self.floor {
            self.seed
        } else {
            (self.seed.0, self.seed.1, self.seed.2 - (self.rise - 1))
        }
    }

    /// Whether grid cell `c` lies in this ramp's run x rise footprint.
    pub open spec fn covers(self, c: (int, int, int)) -> bool {
        let b = self.base();
        &&& (match self.rot {
            Rotation::Deg0 => b.0 - self.run < c.0 <= b.0 && c.1 == b.1,
            Rotation::Deg180 => b.0 <= c.0 < b.0 + self.run && c.1 == b.1,
            Rotation::Deg90 => c.0 == b.0 && b.1 - self.run < c.1 <= b.1,
            Rotation::Deg270 => c.0 == b.0 && b.1 <= c.1 < b.1 + self.run,
        })
        &&& b.2 <= c.2 < b.2 + self.rise
    }
}

/// A box emitted by the greedy filler, in grid space: seed corner, extent
/// and the uniform material it covers. Spec-only.
pub ghost struct GridBox {
    pub x: int,
    pub y: int,
    pub z: int,
    pub w: int,
    pub l: int,
    pub h: int,
    pub m: u8,
}

impl GridBox {
    /// Whether grid cell `c` lies in this box.
    pub open spec fn covers(self, c: (int, int, int)) -> bool {
        self.x <= c.0 < self.x + self.w && self.y <= c.1 < self.y + self.l && self.z <= c.2
            < self.z + self.h
    }
}

/// The world-unit primitive of a grid-space box under a configuration:
/// grid coordinates scaled by the physical unit size.
pub open spec fn box_prim_spec(cfg: RampifierConfig, b: GridBox) -> Primitive {
    let bw = cfg.brick_size.0 as int;
    let bl = cfg.brick_size.1 as int;
    let bh = cfg.brick_size.2 as int;
    let sw = b.w * bw;
    let sl = b.l * bl;
    let sh = b.h * bh;
    Primitive {
        asset_name_index: cfg.brick_index,
        position: (
            (b.x * 2 * bw + sw) as i32,
            (b.y * 2 * bl + sl) as i32,
            (b.z * 2 * bh + sh) as i32,
        ),
        size: (sw as u32, sl as u32, sh as u32),
        direction: Direction::ZPositive,
        rotation: Rotation::Deg0,
        color_index: b.m as u32,
    }
}

/// Whether every world coordinate of `box_prim_spec(cfg, b)` fits its
/// machine type.
pub open spec fn box_prim_fits(cfg: RampifierConfig, b: GridBox) -> bool {
    let bw = cfg.brick_size.0 as int;
    let bl = cfg.brick_size.1 as int;
    let bh = cfg.brick_size.2 as int;
    &&& 0 <= b.w * bw <= u32::MAX
    &&& 0 <= b.l * bl <= u32::MAX
    &&& 0 <= b.h * bh <= u32::MAX
    &&& 0 <= b.x * 2 * bw + b.w * bw <= i32::MAX
    &&& 0 <= b.y * 2 * bl + b.l * bl <= i32::MAX
    &&& 0 <= b.z * 2 * bh + b.h * bh <= i32::MAX
}

/// The world-unit primitive of a ramp placement under a configuration, with
/// its majority color already resolved: the base cell scaled by the physical
/// unit size, anchor-corrected per rotation, with the ceiling 0/180 mirror.
pub open spec fn ramp_prim_spec(cfg: RampifierConfig, p: Placement, color: u8) -> Primitive {
    let bw = cfg.brick_size.0 as int;
    let bl = cfg.brick_size.1 as int;
    let bh = cfg.brick_size.2 as int;
    let b = p.base();
    let world = (b.0 * 2 * bw, b.1 * 2 * bl, b.2 * 2 * bh);
    let size = (p.run * bw, bl, p.rise * bh);
    let position = offset_spec(cfg, world, size, p.rot);
    Primitive {
        asset_name_index: if p.run < 2 {
            cfg.wedge_index
        } else {
            cfg.ramp_index
        },
        position: (position.0 as i32, position.1 as i32, position.2 as i32),
        size: (size.0 as u32, size.1 as u32, size.2 as u32),
        direction: if p.floor {
            Direction::ZPositive
        } else {
            Direction::ZNegative
        },
        rotation: if p.floor {
            p.rot
        } else {
            mirror_z(p.rot)
        },
        color_index: color as u32,
    }
}

/// Whether every world coordinate of `ramp_prim_spec(cfg, p, _)` fits its
/// machine type.
pub open spec fn ramp_prim_fits(cfg: RampifierConfig, p: Placement) -> bool {
    let bw = cfg.brick_size.0 as int;
    let bl = cfg.brick_size.1 as int;
    let bh = cfg.brick_size.2 as int;
    let b = p.base();
    let world = (b.0 * 2 * bw, b.1 * 2 * bl, b.2 * 2 * bh);
    let size = (p.run * bw, bl, p.rise * bh);
    let position = offset_spec(cfg, world, size, p.rot);
    &&& 0 <= size.0 <= u32::MAX
    &&& 0 <= size.2 <= u32::MAX
    &&& i32::MIN <= world.0 <= i32::MAX
    &&& i32::MIN <= world.1 <= i32::MAX
    &&& i32::MIN <= world.2 <= i32::MAX
    &&& i32::MIN <= position.0 <= i32::MAX
    &&& i32::MIN <= position.1 <= i32::MAX
    &&& i32::MIN <= position.2 <= i32::MAX
}

/// The anchor correction, computed on machine integers.
pub fn offset_pos(
    cfg: &RampifierConfig,
    pos: (i32, i32, i32),
    size: (u32, u32, u32),
    rot: Rotation,
) -> (r: (i32, i32, i32))
    requires
        i32::MIN <= offset_spec(
            *cfg,
            (pos.0 as int, pos.1 as int, pos.2 as int),
            (size.0 as int, size.1 as int, size.2 as int),
            rot,
        ).0 <= i32::MAX,
        i32::MIN <= offset_spec(
            *cfg,
            (pos.0 as int, pos.1 as int, pos.2 as int),
            (size.0 as int, size.1 as int, size.2 as int),
            rot,
        ).1 <= i32::MAX,
        i32::MIN <= offset_spec(
            *cfg,
            (pos.0 as int, pos.1 as int, pos.2 as int),
            (size.0 as int, size.1 as int, size.2 as int),
            rot,
        ).2 <= i32::MAX,
    ensures
        (r.0 as int, r.1 as int, r.2 as int) == offset_spec(
            *cfg,
            (pos.0 as int, pos.1 as int, pos.2 as int),
            (size.0 as int, size.1 as int, size.2 as int),
            rot,
        ),
{
    let w = size.0 as i64;
    let l = size.1 as i64;
    let h = size.2 as i64;
    let x = pos.0 as i64;
    let y = pos.1 as i64;
    let z = pos.2 as i64;
    let ux = 2 * (cfg.brick_size.0 as i64);
    let uy = 2 * (cfg.brick_size.1 as i64);
    match rot {
        Rotation::Deg0 => ((x - w + ux) as i32, (y + l) as i32, (z + h) as i32),
        Rotation::Deg90 => ((x + l) as i32, (y - w + uy) as i32, (z + h) as i32),
        Rotation::Deg180 => ((x + w) as i32, (y + l) as i32, (z + h) as i32),
        Rotation::Deg270 => ((x + l) as i32, (y + w) as i32, (z + h) as i32),
    }
}

/// Doubling the physical unit size doubles every position and size component
/// of an emitted box, while its grid-space footprint is unchanged (the
/// footprint is a function of the grid-space box alone).
pub proof fn lemma_box_primitive_scaling(c1: RampifierConfig, c2: RampifierConfig, b: GridBox)
    requires
        c2.brick_size.0 == 2 * c1.brick_size.0,
        c2.brick_size.1 == 2 * c1.brick_size.1,
        c2.brick_size.2 == 2 * c1.brick_size.2,
        c2.brick_index == c1.brick_index,
        box_prim_fits(c1, b),
        box_prim_fits(c2, b),
    ensures
        box_prim_spec(c2, b).position.0 == 2 * box_prim_spec(c1, b).position.0,
        box_prim_spec(c2, b).position.1 == 2 * box_prim_spec(c1, b).position.1,
        box_prim_spec(c2, b).position.2 == 2 * box_prim_spec(c1, b).position.2,
        box_prim_spec(c2, b).size.0 == 2 * box_prim_spec(c1, b).size.0,
        box_prim_spec(c2, b).size.1 == 2 * box_prim_spec(c1, b).size.1,
        box_prim_spec(c2, b).size.2 == 2 * box_prim_spec(c1, b).size.2,
        box_prim_spec(c2, b).asset_name_index == box_prim_spec(c1, b).asset_name_index,
        box_prim_spec(c2, b).color_index == box_prim_spec(c1, b).color_index,
{
    let bw = c1.brick_size.0 as int;
    let bl = c1.brick_size.1 as int;
    let bh = c1.brick_size.2 as int;
    assert(b.w * (2 * bw) == 2 * (b.w * bw)) by (nonlinear_arith);
    assert(b.l * (2 * bl) == 2 * (b.l * bl)) by (nonlinear_arith);
    assert(b.h * (2 * bh) == 2 * (b.h * bh)) by (nonlinear_arith);
    assert(b.x * 2 * (2 * bw) == 2 * (b.x * 2 * bw)) by (nonlinear_arith);
    assert(b.y * 2 * (2 * bl) == 2 * (b.y * 2 * bl)) by (nonlinear_arith);
    assert(b.z * 2 * (2 * bh) == 2 * (b.z * 2 * bh)) by (nonlinear_arith);
}

/// Doubling the physical unit size doubles every position and size component
/// of an emitted ramp, whatever its rotation, while its grid-space footprint
/// is unchanged (the footprint is a function of the placement alone).
pub proof fn lemma_ramp_primitive_scaling(
    c1: RampifierConfig,
    c2: RampifierConfig,
    p: Placement,
    color: u8,
)
    requires
        c2.brick_size.0 == 2 * c1.brick_size.0,
        c2.brick_size.1 == 2 * c1.brick_size.1,
        c2.brick_size.2 == 2 * c1.brick_size.2,
        c2.ramp_index == c1.ramp_index,
        c2.wedge_index == c1.wedge_index,
        ramp_prim_fits(c1, p),
        ramp_prim_fits(c2, p),
    ensures
        ramp_prim_spec(c2, p, color).position.0 == 2 * ramp_prim_spec(c1, p, color).position.0,
        ramp_prim_spec(c2, p, color).position.1 == 2 * ramp_prim_spec(c1, p, color).position.1,
        ramp_prim_spec(c2, p, color).position.2 == 2 * ramp_prim_spec(c1, p, color).position.2,
        ramp_prim_spec(c2, p, color).size.0 == 2 * ramp_prim_spec(c1, p, color).size.0,
        ramp_prim_spec(c2, p, color).size.1 == 2 * ramp_prim_spec(c1, p, color).size.1,
        ramp_prim_spec(c2, p, color).size.2 == 2 * ramp_prim_spec(c1, p, color).size.2,
        ramp_prim_spec(c2, p, color).rotation == ramp_prim_spec(c1, p, color).rotation,
        ramp_prim_spec(c2, p, color).direction == ramp_prim_spec(c1, p, color).direction,
        ramp_prim_spec(c2, p, color).asset_name_index == ramp_prim_spec(
            c1,
            p,
            color,
        ).asset_name_index,
        ramp_prim_spec(c2, p, color).color_index == ramp_prim_spec(c1, p, color).color_index,
{
    let bw = c1.brick_size.0 as int;
    let bl = c1.brick_size.1 as int;
    let bh = c1.brick_size.2 as int;
    let b = p.base();
    assert(p.run * (2 * bw) == 2 * (p.run * bw)) by (nonlinear_arith);
    assert(p.rise * (2 * bh) == 2 * (p.rise * bh)) by (nonlinear_arith);
    assert(b.0 * 2 * (2 * bw) == 2 * (b.0 * 2 * bw)) by (nonlinear_arith);
    assert(b.1 * 2 * (2 * bl) == 2 * (b.1 * 2 * bl)) by (nonlinear_arith);
    assert(b.2 * 2 * (2 * bh) == 2 * (b.2 * 2 * bh)) by (nonlinear_arith);
}

} // verus!
