//! The ramp fitter: given a seed cell and a chosen direction, grow the run
//! while the cell above the run tip is air and the next forward cell is
//! occupied and unclaimed; then grow the rise while the cell above the full
//! run is occupied and unclaimed; then smooth the crest with an all-or-
//! nothing one-unit bonus if the whole forward lookahead window is clear.

use vstd::prelude::*;
use crate::grid::{Rampifier, MAX_DIM};
use crate::primitive::Rotation;
use crate::vox::{step_cell, up_mul, up_of, VoxVector};

verus! {

impl Rampifier {
    /// The iteration cap of the run-growth loop.
    pub open spec fn run_cap(self) -> int {
        if self.config.ramp_max_run as int >= 1 {
            self.config.ramp_max_run as int - 1
        } else {
            0
        }
    }

    /// The iteration cap of the rise-growth loop.
    pub open spec fn rise_cap(self) -> int {
        if self.config.ramp_max_rise as int >= 1 {
            self.config.ramp_max_rise as int - 1
        } else {
            0
        }
    }

    /// Whether the run may extend past `k` steps: air above the run tip, and
    /// a next forward cell that is occupied and not ramp-claimed.
    pub open spec fn run_ok(self, c: (int, int, int), rot: Rotation, fl: bool, k: int) -> bool {
        &&& !self.occupied(step_cell(c, rot, k, up_of(fl)))
        &&& self.occupied(step_cell(c, rot, k + 1, 0))
        &&& !self.claimed_at(step_cell(c, rot, k + 1, 0))
    }

    /// The run length: the least `k` at which growth stops, capped.
    pub open spec fn run_extent_from(self, c: (int, int, int), rot: Rotation, fl: bool, k: int) -> int
        decreases self.run_cap() - k,
    {
        if k >= self.run_cap() {
            self.run_cap()
        } else if !self.run_ok(c, rot, fl, k) {
            k
        } else {
            self.run_extent_from(c, rot, fl, k + 1)
        }
    }

    /// The run length grown from the seed.
    pub open spec fn run_extent(self, c: (int, int, int), rot: Rotation, fl: bool) -> int {
        self.run_extent_from(c, rot, fl, 0)
    }

    /// Whether the rise may extend past `j` steps over a run of `r`: the
    /// cell there is occupied and not ramp-claimed.
    pub open spec fn rise_ok(self, c: (int, int, int), rot: Rotation, fl: bool, r: int, j: int) -> bool {
        &&& self.occupied(step_cell(c, rot, r, up_mul(fl, j)))
        &&& !self.claimed_at(step_cell(c, rot, r, up_mul(fl, j)))
    }

    /// The rise height: the least `j` at which growth stops, capped.
    pub open spec fn rise_extent_from(
        self,
        c: (int, int, int),
        rot: Rotation,
        fl: bool,
        r: int,
        j: int,
    ) -> int
        decreases self.rise_cap() - j,
    {
        if j >= self.rise_cap() {
            self.rise_cap()
        } else if !self.rise_ok(c, rot, fl, r, j) {
            j
        } else {
            self.rise_extent_from(c, rot, fl, r, j + 1)
        }
    }

    /// The rise height grown over a run of `r`.
    pub open spec fn rise_extent(self, c: (int, int, int), rot: Rotation, fl: bool, r: int) -> int {
        self.rise_extent_from(c, rot, fl, r, 0)
    }

    /// Whether lookahead step `i` past the crest is empty and unclaimed.
    pub open spec fn crest_step_clear(
        self,
        c: (int, int, int),
        rot: Rotation,
        fl: bool,
        r: int,
        s: int,
        i: int,
    ) -> bool {
        &&& !self.occupied(step_cell(c, rot, r + i, up_mul(fl, s)))
        &&& !self.claimed_at(step_cell(c, rot, r + i, up_mul(fl, s)))
    }

    /// Whether the whole forward lookahead window past the crest is empty
    /// and unclaimed.
    pub open spec fn crest_clear(
        self,
        c: (int, int, int),
        rot: Rotation,
        fl: bool,
        r: int,
        s: int,
    ) -> bool {
        forall|i: int|
            1 <= i < self.config.ramp_max_run ==> #[trigger] self.crest_step_clear(
                c,
                rot,
                fl,
                r,
                s,
                i,
            )
    }

    /// The all-or-nothing crest bonus: one extra rise unit only if the
    /// lookahead window is nonempty and holds without interruption.
    pub open spec fn crest_bonus(self, c: (int, int, int), rot: Rotation, fl: bool, r: int, s: int) -> int {
        if self.config.ramp_max_run as int >= 2 && self.crest_clear(c, rot, fl, r, s) {
            1int
        } else {
            0int
        }
    }

    /// What the fitter returns: the grown (run, rise) pair after crest
    /// smoothing, rejection of too-small rises, and the wedge shrink, or
    /// `None` when no ramp fits here.
    pub open spec fn fit_spec(self, c: (int, int, int), rot: Rotation, fl: bool) -> Option<
        (int, int),
    > {
        let r0 = self.run_extent(c, rot, fl);
        if r0 <= 0 {
            None
        } else {
            let s0 = self.rise_extent(c, rot, fl, r0);
            let s1 = s0 + self.crest_bonus(c, rot, fl, r0, s0);
            if s1 <= 0 {
                None
            } else if s1 - 1 < self.config.ramp_min_rise as int {
                None
            } else {
                let rr = if s1 - 1 == 2 && self.config.use_wedge {
                    r0 - 1
                } else {
                    r0
                };
                Some((rr + 1, s1 - 1))
            }
        }
    }

    /// The run recursion returns `r` when every step before `r` may extend
    /// and either the cap is hit or step `r` stops.
    proof fn lemma_run_extent(self, c: (int, int, int), rot: Rotation, fl: bool, s: int, r: int)
        requires
            0 <= s <= r <= self.run_cap(),
            forall|k: int| s <= k < r ==> self.run_ok(c, rot, fl, k),
            r == self.run_cap() || !self.run_ok(c, rot, fl, r),
        ensures
            self.run_extent_from(c, rot, fl, s) == r,
        decreases r - s,
    {
        if s < r {
            self.lemma_run_extent(c, rot, fl, s + 1, r);
        }
    }

    /// The rise recursion returns `j` when every step before `j` may extend
    /// and either the cap is hit or step `j` stops.
    proof fn lemma_rise_extent(
        self,
        c: (int, int, int),
        rot: Rotation,
        fl: bool,
        r: int,
        s: int,
        j: int,
    )
        requires
            0 <= s <= j <= self.rise_cap(),
            forall|k: int| s <= k < j ==> self.rise_ok(c, rot, fl, r, k),
            j == self.rise_cap() || !self.rise_ok(c, rot, fl, r, j),
        ensures
            self.rise_extent_from(c, rot, fl, r, s) == j,
        decreases j - s,
    {
        if s < j {
            self.lemma_rise_extent(c, rot, fl, r, s + 1, j);
        }
    }

    /// The run growth reads only the grid view.
    proof fn lemma_run_extent_congruent(
        self,
        other: Rampifier,
        c: (int, int, int),
        rot: Rotation,
        fl: bool,
        k: int,
    )
        requires
            self.same_view(other),
        ensures
            self.run_extent_from(c, rot, fl, k) == other.run_extent_from(c, rot, fl, k),
        decreases self.run_cap() - k,
    {
        if k < self.run_cap() && self.run_ok(c, rot, fl, k) {
            self.lemma_run_extent_congruent(other, c, rot, fl, k + 1);
        }
    }

    /// The rise growth reads only the grid view.
    proof fn lemma_rise_extent_congruent(
        self,
        other: Rampifier,
        c: (int, int, int),
        rot: Rotation,
        fl: bool,
        r: int,
        j: int,
    )
        requires
            self.same_view(other),
        ensures
            self.rise_extent_from(c, rot, fl, r, j) == other.rise_extent_from(c, rot, fl, r, j),
        decreases self.rise_cap() - j,
    {
        if j < self.rise_cap() && self.rise_ok(c, rot, fl, r, j) {
            self.lemma_rise_extent_congruent(other, c, rot, fl, r, j + 1);
        }
    }

    /// The whole fit reads only the grid view.
    pub proof fn lemma_fit_congruent(self, other: Rampifier, c: (int, int, int), rot: Rotation, fl: bool)
        requires
            self.same_view(other),
        ensures
            self.fit_spec(c, rot, fl) == other.fit_spec(c, rot, fl),
    {
        self.lemma_run_extent_congruent(other, c, rot, fl, 0);
        let r0 = self.run_extent(c, rot, fl);
        if r0 > 0 {
            self.lemma_rise_extent_congruent(other, c, rot, fl, r0, 0);
            let s0 = self.rise_extent(c, rot, fl, r0);
            assert(self.crest_clear(c, rot, fl, r0, s0) == other.crest_clear(c, rot, fl, r0, s0))
                by {
                if self.crest_clear(c, rot, fl, r0, s0) {
                    assert forall|i: int|
                        1 <= i < other.config.ramp_max_run implies #[trigger] other.crest_step_clear(
                        c,
                        rot,
                        fl,
                        r0,
                        s0,
                        i,
                    ) by {
                        assert(self.crest_step_clear(c, rot, fl, r0, s0, i));
                    }
                }
                if other.crest_clear(c, rot, fl, r0, s0) {
                    assert forall|i: int|
                        1 <= i < self.config.ramp_max_run implies #[trigger] self.crest_step_clear(
                        c,
                        rot,
                        fl,
                        r0,
                        s0,
                        i,
                    ) by {
                        assert(other.crest_step_clear(c, rot, fl, r0, s0, i));
                    }
                }
            }
        }
    }

    /// Fits a ramp at a seed cell along a chosen direction, returning its
    /// (run, rise) in grid cells, or `None` when no ramp fits.
    pub(crate) fn fit_ramp(&self, pos: VoxVector, rot: Rotation, is_floor: bool) -> (r: Option<
        (usize, usize),
    >)
        requires
            self.wf(),
            self.limits_ok(),
            self.in_bounds(pos@),
        ensures
            (r is Some) == (self.fit_spec(pos@, rot, is_floor) is Some),
            r matches Some((a, b)) ==> {
                &&& self.fit_spec(pos@, rot, is_floor) == Some((a as int, b as int))
                &&& 1 <= a <= self.config.ramp_max_run
                &&& a as int <= self.gw() + self.gl()
                &&& self.config.ramp_min_rise <= b
                &&& b <= self.config.ramp_max_rise
                &&& b as int <= self.gh()
            },
    {
        let vz: isize = if is_floor {
            1
        } else {
            -1
        };
        let cap_run: usize = if self.config.ramp_max_run >= 1 {
            self.config.ramp_max_run - 1
        } else {
            0
        };
        let cap_rise: usize = if self.config.ramp_max_rise >= 1 {
            self.config.ramp_max_rise - 1
        } else {
            0
        };

        // Run growth.
        let mut run: usize = 0;
        let mut run_stop: bool = false;
        while !run_stop && run < cap_run
            invariant
                self.wf(),
                self.limits_ok(),
                self.in_bounds(pos@),
                vz as int == up_of(is_floor),
                cap_run == self.run_cap(),
                run <= cap_run,
                forall|k: int| 0 <= k < run ==> self.run_ok(pos@, rot, is_floor, k),
                run_stop ==> !self.run_ok(pos@, rot, is_floor, run as int),
            decreases cap_run - run + (if run_stop { 0int } else { 1int }),
        {
            let above = pos.stepped(rot, run as isize, vz);
            let fwd = pos.stepped(rot, run as isize + 1, 0);
            let has_air = !self.vox_exists(above);
            let has_vox_forward = self.vox_exists(fwd);
            if self.ramp_exists(fwd) {
                run_stop = true;
            } else if has_air && has_vox_forward {
                run += 1;
            } else {
                run_stop = true;
            }
        }
        proof {
            self.lemma_run_extent(pos@, rot, is_floor, 0, run as int);
        }

        if run == 0 {
            return None;
        }

        // Rise growth.
        let mut rise: usize = 0;
        let mut rise_stop: bool = false;
        while !rise_stop && rise < cap_rise
            invariant
                self.wf(),
                self.limits_ok(),
                self.in_bounds(pos@),
                cap_rise == self.rise_cap(),
                run <= self.run_cap(),
                rise <= cap_rise,
                forall|j: int| 0 <= j < rise ==> self.rise_ok(pos@, rot, is_floor, run as int, j),
                rise_stop ==> !self.rise_ok(pos@, rot, is_floor, run as int, rise as int),
            decreases cap_rise - rise + (if rise_stop { 0int } else { 1int }),
        {
            let dz: isize = if is_floor {
                rise as isize
            } else {
                -(rise as isize)
            };
            let pos_air = pos.stepped(rot, run as isize, dz);
            if self.vox_exists(pos_air) && !self.ramp_exists(pos_air) {
                rise += 1;
            } else {
                rise_stop = true;
            }
        }
        proof {
            self.lemma_rise_extent(pos@, rot, is_floor, run as int, 0, rise as int);
        }

        // Crest smoothing: the bonus holds only if the whole lookahead
        // window ahead of the crest is empty and unclaimed.
        let mut all_clear: bool = true;
        let mut i: usize = 1;
        while all_clear && i < self.config.ramp_max_run
            invariant
                self.wf(),
                self.limits_ok(),
                self.in_bounds(pos@),
                run <= self.run_cap(),
                rise <= self.rise_cap(),
                1 <= i <= self.config.ramp_max_run || (i == 1
                    && self.config.ramp_max_run == 0),
                all_clear ==> forall|t: int|
                    1 <= t < i ==> #[trigger] self.crest_step_clear(
                        pos@,
                        rot,
                        is_floor,
                        run as int,
                        rise as int,
                        t,
                    ),
                !all_clear ==> 1 <= i < self.config.ramp_max_run && !self.crest_step_clear(
                    pos@,
                    rot,
                    is_floor,
                    run as int,
                    rise as int,
                    i as int,
                ),
            decreases self.config.ramp_max_run - i + (if all_clear { 1int } else { 0int }),
        {
            let dz: isize = if is_floor {
                rise as isize
            } else {
                -(rise as isize)
            };
            proof {
                assert(run <= MAX_DIM && i <= MAX_DIM);
                assert(0 <= pos@.0 <= MAX_DIM && 0 <= pos@.1 <= MAX_DIM);
            }
            let probe = pos.stepped(rot, (run + i) as isize, dz);
            if !self.vox_exists(probe) && !self.ramp_exists(probe) {
                i += 1;
            } else {
                all_clear = false;
            }
        }
        let add_one: usize = if all_clear && self.config.ramp_max_run >= 2 {
            1
        } else {
            0
        };
        proof {
            let b = self.crest_bonus(pos@, rot, is_floor, run as int, rise as int);
            if all_clear && self.config.ramp_max_run >= 2 {
                assert forall|t: int|
                    1 <= t < self.config.ramp_max_run implies #[trigger] self.crest_step_clear(
                    pos@,
                    rot,
                    is_floor,
                    run as int,
                    rise as int,
                    t,
                ) by {
                    assert(1 <= t < i as int);
                }
                assert(self.crest_clear(pos@, rot, is_floor, run as int, rise as int));
                assert(b == 1);
            } else if !all_clear {
                if self.crest_clear(pos@, rot, is_floor, run as int, rise as int) {
                    assert(self.crest_step_clear(
                        pos@,
                        rot,
                        is_floor,
                        run as int,
                        rise as int,
                        i as int,
                    ));
                    assert(false);
                }
                assert(b == 0);
            } else {
                assert(b == 0);
            }
        }

        let rise_total = rise + add_one;

        if rise_total == 0 {
            return None;
        }
        if rise_total - 1 < self.config.ramp_min_rise {
            return None;
        }

        let run_final = if rise_total - 1 == 2 && self.config.use_wedge {
            run - 1
        } else {
            run
        };

        proof {
            // The grown run and rise stay within the grid: each growth step
            // demanded an occupied, hence in-bounds, cell.
            assert(self.run_ok(pos@, rot, is_floor, run - 1));
            assert(self.occupied(step_cell(pos@, rot, run as int, 0)));
            assert(run as int <= self.gw() + self.gl() - 1);
            if rise >= 1 {
                assert(self.rise_ok(pos@, rot, is_floor, run as int, rise - 1));
                assert(self.occupied(
                    step_cell(pos@, rot, run as int, up_mul(is_floor, rise - 1)),
                ));
                assert(rise as int <= self.gh());
            }
        }

        Some((run_final + 1, rise_total - 1))
    }
}

} // verus!
