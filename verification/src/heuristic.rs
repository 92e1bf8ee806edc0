//! The ramp direction heuristic: per candidate cell, estimate a local slope
//! magnitude in each of the four cardinal directions by scanning vertically
//! from the forward neighbour, and pick the direction with the strictly
//! largest magnitude; ties keep the first direction in the fixed evaluation
//! order 0, 180, 90, 270 degrees.

use vstd::prelude::*;
use crate::grid::Rampifier;
use crate::primitive::Rotation;
use crate::vox::{step_cell, up_mul, up_of, VoxVector};

verus! {

/// Depth of the vertical slope scan.
pub const MAX_SEARCH: usize = 32;

/// The fixed evaluation order of the four directions.
pub open spec fn rot_at(i: int) -> Rotation {
    if i == 0 {
        Rotation::Deg0
    } else if i == 1 {
        Rotation::Deg180
    } else if i == 2 {
        Rotation::Deg90
    } else {
        Rotation::Deg270
    }
}

/// The first index achieving the strict maximum of four magnitudes, if that
/// maximum is at least 1; invalid directions carry `i32::MIN`.
pub open spec fn pick4(h0: int, h1: int, h2: int, h3: int) -> Option<int> {
    if h0 >= h1 && h0 >= h2 && h0 >= h3 && h0 >= 1 {
        Some(0int)
    } else if h1 > h0 && h1 >= h2 && h1 >= h3 && h1 >= 1 {
        Some(1int)
    } else if h2 > h0 && h2 > h1 && h2 >= h3 && h2 >= 1 {
        Some(2int)
    } else if h3 > h0 && h3 > h1 && h3 > h2 && h3 >= 1 {
        Some(3int)
    } else {
        None
    }
}

impl Rampifier {
    /// The vertical scan from step `i` on: the least step in `[i, 31]` whose
    /// cell no longer satisfies the pass's occupancy condition, capped at 31.
    pub open spec fn slope_from(self, c: (int, int, int), is_floor: bool, i: int) -> int
        decreases 32 - i,
    {
        if i < 1 || i >= 32 {
            31
        } else if !self.occupied((c.0, c.1, c.2 + up_mul(is_floor, i))) {
            i
        } else {
            self.slope_from(c, is_floor, i + 1)
        }
    }

    /// The slope magnitude at a probe cell: invalid (`i32::MIN`) when the
    /// probe itself is empty, else the vertical extent of occupied cells
    /// above it (floor pass) or below it (ceiling pass), capped at 31.
    pub open spec fn slope_of(self, c: (int, int, int), is_floor: bool) -> int {
        if !self.occupied(c) {
            i32::MIN as int
        } else {
            self.slope_from(c, is_floor, 1)
        }
    }

    /// The slope magnitude a direction earns at a candidate cell: invalid
    /// unless the cell behind is empty, else the slope at the forward
    /// neighbour. Note that an out-of-grid backward probe reads as empty
    /// air, so every grid-boundary cell passes the local-edge test in the
    /// direction of the boundary; whether that is intended is unsettled,
    /// and the behaviour is kept as it stands.
    pub open spec fn cand_height(self, c: (int, int, int), is_floor: bool, rot: Rotation) -> int {
        if self.occupied(step_cell(c, rot, -1, 0)) {
            i32::MIN as int
        } else {
            self.slope_of(step_cell(c, rot, 1, 0), is_floor)
        }
    }

    /// Whether the candidate cell fails the pass precondition: a floor
    /// candidate must have air directly above, a ceiling candidate directly
    /// below.
    pub open spec fn pass_blocked(self, c: (int, int, int), is_floor: bool) -> bool {
        self.occupied((c.0, c.1, c.2 + up_of(is_floor)))
    }

    /// The direction the heuristic settles on, if any.
    pub open spec fn best_rotation_spec(self, c: (int, int, int), is_floor: bool) -> Option<
        Rotation,
    > {
        if self.pass_blocked(c, is_floor) {
            None
        } else {
            match pick4(
                self.cand_height(c, is_floor, rot_at(0)),
                self.cand_height(c, is_floor, rot_at(1)),
                self.cand_height(c, is_floor, rot_at(2)),
                self.cand_height(c, is_floor, rot_at(3)),
            ) {
                Some(i) => Some(rot_at(i)),
                None => None,
            }
        }
    }

    /// The vertical scan returns `r` when every step before `r` satisfies
    /// the occupancy condition and step `r` fails it.
    proof fn lemma_slope_stops(self, c: (int, int, int), is_floor: bool, s: int, r: int)
        requires
            1 <= s <= r <= 31,
            forall|j: int|
                s <= j < r ==> self.occupied((c.0, c.1, #[trigger] (c.2 + up_mul(is_floor, j)))),
            !self.occupied((c.0, c.1, c.2 + up_mul(is_floor, r))),
        ensures
            self.slope_from(c, is_floor, s) == r,
        decreases r - s,
    {
        if s < r {
            self.lemma_slope_stops(c, is_floor, s + 1, r);
        }
    }

    /// The vertical scan caps at 31 when every step below 32 satisfies the
    /// occupancy condition.
    proof fn lemma_slope_caps(self, c: (int, int, int), is_floor: bool, s: int)
        requires
            1 <= s <= 32,
            forall|j: int|
                s <= j < 32 ==> self.occupied((c.0, c.1, #[trigger] (c.2 + up_mul(is_floor, j)))),
        ensures
            self.slope_from(c, is_floor, s) == 31,
        decreases 32 - s,
    {
        if s < 32 {
            self.lemma_slope_caps(c, is_floor, s + 1);
        }
    }

    /// The vertical scan reads only the grid view.
    proof fn lemma_slope_from_congruent(
        self,
        other: Rampifier,
        c: (int, int, int),
        is_floor: bool,
        i: int,
    )
        requires
            self.same_view(other),
        ensures
            self.slope_from(c, is_floor, i) == other.slope_from(c, is_floor, i),
        decreases 32 - i,
    {
        if 1 <= i < 32 {
            self.lemma_slope_from_congruent(other, c, is_floor, i + 1);
        }
    }

    /// The direction heuristic reads only the grid view.
    pub proof fn lemma_best_rotation_congruent(
        self,
        other: Rampifier,
        c: (int, int, int),
        is_floor: bool,
    )
        requires
            self.same_view(other),
        ensures
            self.best_rotation_spec(c, is_floor) == other.best_rotation_spec(c, is_floor),
    {
        assert forall|i: int| 0 <= i < 4 implies self.cand_height(c, is_floor, #[trigger] rot_at(i))
            == other.cand_height(c, is_floor, rot_at(i)) by {
            let rot = rot_at(i);
            self.lemma_slope_from_congruent(other, step_cell(c, rot, 1, 0), is_floor, 1);
        }
        assert(self.cand_height(c, is_floor, rot_at(0)) == other.cand_height(
            c,
            is_floor,
            rot_at(0),
        ));
        assert(self.cand_height(c, is_floor, rot_at(1)) == other.cand_height(
            c,
            is_floor,
            rot_at(1),
        ));
        assert(self.cand_height(c, is_floor, rot_at(2)) == other.cand_height(
            c,
            is_floor,
            rot_at(2),
        ));
        assert(self.cand_height(c, is_floor, rot_at(3)) == other.cand_height(
            c,
            is_floor,
            rot_at(3),
        ));
    }

    /// The change in height from a probe cell, scanning upward for the floor
    /// pass and downward for the ceiling pass; `i32::MIN` marks an invalid
    /// probe.
    pub(crate) fn get_slope_from_offset(&self, pos: VoxVector, is_floor: bool) -> (r: i32)
        requires
            self.wf(),
            isize::MIN + 32 <= pos.2 <= isize::MAX - 32,
        ensures
            r as int == self.slope_of(pos@, is_floor),
    {
        if !self.vox_exists(pos) {
            return i32::MIN;
        }
        let mut i: usize = 1;
        while i < MAX_SEARCH
            invariant
                self.wf(),
                self.occupied(pos@),
                1 <= i <= 32,
                isize::MIN + 32 <= pos.2 <= isize::MAX - 32,
                forall|j: int|
                    1 <= j < i ==> self.occupied(
                        (pos@.0, pos@.1, #[trigger] (pos@.2 + up_mul(is_floor, j))),
                    ),
            decreases MAX_SEARCH - i,
        {
            let dz: isize = if is_floor {
                i as isize
            } else {
                -(i as isize)
            };
            let pos_y = VoxVector(pos.0, pos.1, pos.2 + dz);
            if !self.vox_exists(pos_y) {
                proof {
                    self.lemma_slope_stops(pos@, is_floor, 1, i as int);
                }
                return i as i32;
            }
            i += 1;
        }
        proof {
            self.lemma_slope_caps(pos@, is_floor, 1);
        }
        31
    }

    /// One direction's slope magnitude at a candidate cell.
    fn cand_height_exec(&self, pos: VoxVector, is_floor: bool, rot: Rotation) -> (r: i32)
        requires
            self.wf(),
            self.in_bounds(pos@),
        ensures
            r as int == self.cand_height(pos@, is_floor, rot),
    {
        let back = pos.stepped(rot, -1, 0);
        if self.vox_exists(back) {
            i32::MIN
        } else {
            self.get_slope_from_offset(pos.stepped(rot, 1, 0), is_floor)
        }
    }

    /// The direction and rotation best suited to seed a ramp at this cell,
    /// chosen heuristically; `None` when no direction qualifies.
    pub(crate) fn best_ramp_rotation(&self, pos: VoxVector, is_floor: bool) -> (r: Option<
        Rotation,
    >)
        requires
            self.wf(),
            self.in_bounds(pos@),
        ensures
            r == self.best_rotation_spec(pos@, is_floor),
    {
        let vz: isize = if is_floor {
            1
        } else {
            -1
        };
        if self.vox_exists(VoxVector(pos.0, pos.1, pos.2 + vz)) {
            return None;
        }
        let h0 = self.cand_height_exec(pos, is_floor, Rotation::Deg0);
        let h1 = self.cand_height_exec(pos, is_floor, Rotation::Deg180);
        let h2 = self.cand_height_exec(pos, is_floor, Rotation::Deg90);
        let h3 = self.cand_height_exec(pos, is_floor, Rotation::Deg270);

        let mut max_height: i32 = 0;
        let mut best_rotation: Option<Rotation> = None;
        if max_height < h0 {
            max_height = h0;
            best_rotation = Some(Rotation::Deg0);
        }
        if max_height < h1 {
            max_height = h1;
            best_rotation = Some(Rotation::Deg180);
        }
        if max_height < h2 {
            max_height = h2;
            best_rotation = Some(Rotation::Deg90);
        }
        if max_height < h3 {
            max_height = h3;
            best_rotation = Some(Rotation::Deg270);
        }
        best_rotation
    }
}

} // verus!
