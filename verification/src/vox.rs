//! Signed grid coordinates and the unit step vectors of the four cardinal
//! slope directions. Coordinates are signed so that relative offsets may go
//! out of range before they are bounds-checked against the grid.

use vstd::prelude::*;
use crate::primitive::Rotation;

verus! {

/// A signed 3D grid coordinate or offset.
#[derive(Clone, Copy, Debug)]
pub struct VoxVector(pub isize, pub isize, pub isize);

/// The forward unit vector of a rotation, as mathematical integers.
pub open spec fn forward_of(rot: Rotation) -> (int, int, int) {
    match rot {
        Rotation::Deg0 => (-1int, 0int, 0int),
        Rotation::Deg180 => (1int, 0int, 0int),
        Rotation::Deg90 => (0int, -1int, 0int),
        Rotation::Deg270 => (0int, 1int, 0int),
    }
}

/// The vertical unit step of a pass: up for the floor pass, down for the
/// ceiling pass.
pub open spec fn up_of(is_floor: bool) -> int {
    if is_floor { 1int } else { -1int }
}

/// `k` vertical steps of a pass: up for the floor pass, down for the ceiling
/// pass.
pub open spec fn up_mul(is_floor: bool, k: int) -> int {
    if is_floor { k } else { -k }
}

/// The coordinate `i` forward steps along a rotation and `dz` cells up from
/// `c`.
pub open spec fn step_cell(c: (int, int, int), rot: Rotation, i: int, dz: int) -> (int, int, int) {
    match rot {
        Rotation::Deg0 => (c.0 - i, c.1, c.2 + dz),
        Rotation::Deg180 => (c.0 + i, c.1, c.2 + dz),
        Rotation::Deg90 => (c.0, c.1 - i, c.2 + dz),
        Rotation::Deg270 => (c.0, c.1 + i, c.2 + dz),
    }
}

impl VoxVector {
    pub open spec fn view(self) -> (int, int, int) {
        (self.0 as int, self.1 as int, self.2 as int)
    }

    /// Componentwise sum.
    pub fn plus(self, rhs: VoxVector) -> (r: VoxVector)
        requires
            isize::MIN <= self.0 + rhs.0 <= isize::MAX,
            isize::MIN <= self.1 + rhs.1 <= isize::MAX,
            isize::MIN <= self.2 + rhs.2 <= isize::MAX,
        ensures
            r@ == (self.0 + rhs.0, self.1 + rhs.1, self.2 + rhs.2),
    {
        VoxVector(self.0 + rhs.0, self.1 + rhs.1, self.2 + rhs.2)
    }

    /// The forward unit vector of a rotation.
    pub fn forward_vec(rot: Rotation) -> (r: VoxVector)
        ensures
            r@ == forward_of(rot),
    {
        match rot {
            Rotation::Deg0 => VoxVector(-1, 0, 0),
            Rotation::Deg180 => VoxVector(1, 0, 0),
            Rotation::Deg90 => VoxVector(0, -1, 0),
            Rotation::Deg270 => VoxVector(0, 1, 0),
        }
    }

    /// The upward unit vector.
    pub fn up() -> (r: VoxVector)
        ensures
            r@ == (0int, 0int, 1int),
    {
        VoxVector(0, 0, 1)
    }

    /// The coordinate `i` forward steps along a rotation and `dz` cells up.
    pub fn stepped(self, rot: Rotation, i: isize, dz: isize) -> (r: VoxVector)
        requires
            isize::MIN <= self.0 - i <= isize::MAX,
            isize::MIN <= self.0 + i <= isize::MAX,
            isize::MIN <= self.1 - i <= isize::MAX,
            isize::MIN <= self.1 + i <= isize::MAX,
            isize::MIN <= self.2 + dz <= isize::MAX,
        ensures
            r@ == step_cell(self@, rot, i as int, dz as int),
    {
        match rot {
            Rotation::Deg0 => VoxVector(self.0 - i, self.1, self.2 + dz),
            Rotation::Deg180 => VoxVector(self.0 + i, self.1, self.2 + dz),
            Rotation::Deg90 => VoxVector(self.0, self.1 - i, self.2 + dz),
            Rotation::Deg270 => VoxVector(self.0, self.1 + i, self.2 + dz),
        }
    }
}

} // verus!
