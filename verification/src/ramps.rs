//! The ramp constructor and occupancy tracker: turns a fitted (seed, run,
//! rise, direction, pass) into a primitive descriptor, records every grid
//! cell of its run x rise footprint in the occupancy bitmap, and resolves
//! the primitive's material by majority vote over the occupied footprint
//! cells, lowest id winning ties.

use vstd::prelude::*;
use crate::grid::{cell_in, lemma_index_bounds, lemma_index_injective, Rampifier};
use crate::primitive::{offset_pos, ramp_prim_fits, ramp_prim_spec, Direction, Placement, Primitive, Rotation};
use crate::vox::{step_cell, VoxVector};

verus! {

/// The footprint cell of a placement at forward step `i`, rise step `j`.
pub open spec fn foot_cell(p: Placement, i: int, j: int) -> (int, int, int) {
    step_cell(p.base(), p.rot, i, j)
}

/// Whether `c` lies on forward column `i` of the footprint (any height).
pub open spec fn on_column(p: Placement, c: (int, int, int), i: int) -> bool {
    let b = p.base();
    match p.rot {
        Rotation::Deg0 => c.0 == b.0 - i && c.1 == b.1,
        Rotation::Deg180 => c.0 == b.0 + i && c.1 == b.1,
        Rotation::Deg90 => c.0 == b.0 && c.1 == b.1 - i,
        Rotation::Deg270 => c.0 == b.0 && c.1 == b.1 + i,
    }
}

/// The footprint restricted to the first `n` forward columns.
pub open spec fn covers_cols(p: Placement, c: (int, int, int), n: int) -> bool {
    let b = p.base();
    &&& (match p.rot {
        Rotation::Deg0 => b.0 - n < c.0 <= b.0 && c.1 == b.1,
        Rotation::Deg180 => b.0 <= c.0 < b.0 + n && c.1 == b.1,
        Rotation::Deg90 => c.0 == b.0 && b.1 - n < c.1 <= b.1,
        Rotation::Deg270 => c.0 == b.0 && b.1 <= c.1 < b.1 + n,
    })
    &&& b.2 <= c.2 < b.2 + p.rise
}

/// The footprint cells visited before reaching column `i`, row `j` in the
/// claim scan: the first `i` full columns plus the first `j` rows of
/// column `i`.
pub open spec fn covers_prefix(p: Placement, c: (int, int, int), i: int, j: int) -> bool {
    covers_cols(p, c, i) || (on_column(p, c, i) && p.base().2 <= c.2 < p.base().2 + j)
}

/// How many of the first `j` rows of footprint column `i` hold material `m`.
pub open spec fn tally_col(
    g: Seq<Option<u8>>,
    w: int,
    l: int,
    h: int,
    p: Placement,
    m: u8,
    i: int,
    j: int,
) -> nat
    decreases j,
{
    if j <= 0 {
        0
    } else {
        tally_col(g, w, l, h, p, m, i, j - 1) + (if cell_in(g, w, l, h, foot_cell(p, i, j - 1))
            == Some(m) {
            1nat
        } else {
            0nat
        })
    }
}

/// How many cells of the first `i` full footprint columns hold material `m`.
pub open spec fn tally_cols(
    g: Seq<Option<u8>>,
    w: int,
    l: int,
    h: int,
    p: Placement,
    m: u8,
    i: int,
) -> nat
    decreases i,
{
    if i <= 0 {
        0
    } else {
        tally_cols(g, w, l, h, p, m, i - 1) + tally_col(g, w, l, h, p, m, i - 1, p.rise)
    }
}

/// How many cells of the whole footprint hold material `m`.
pub open spec fn tally_in(g: Seq<Option<u8>>, w: int, l: int, h: int, p: Placement, m: u8) -> nat {
    tally_cols(g, w, l, h, p, m, p.run)
}

/// The majority material among ids below `n`: the highest tally, with the
/// lowest id winning ties.
pub open spec fn best_color_upto(
    g: Seq<Option<u8>>,
    w: int,
    l: int,
    h: int,
    p: Placement,
    n: int,
) -> u8
    decreases n,
{
    if n <= 1 {
        0u8
    } else {
        let prev = best_color_upto(g, w, l, h, p, n - 1);
        let m = (n - 1) as u8;
        if tally_in(g, w, l, h, p, m) > tally_in(g, w, l, h, p, prev) {
            m
        } else {
            prev
        }
    }
}

/// The majority material of a placement's footprint over a grid: the id
/// with the highest tally of occupied footprint cells, lowest id on ties.
pub open spec fn majority_in(g: Seq<Option<u8>>, w: int, l: int, h: int, p: Placement) -> u8 {
    best_color_upto(g, w, l, h, p, 256)
}

/// The running best among ids below `n` is itself below `n`, ties with no
/// lower id, and no id below `n` beats it.
proof fn lemma_best_upto(g: Seq<Option<u8>>, w: int, l: int, h: int, p: Placement, n: int)
    requires
        1 <= n <= 256,
    ensures
        0 <= best_color_upto(g, w, l, h, p, n) < n,
        forall|m: int|
            0 <= m < n ==> tally_in(g, w, l, h, p, #[trigger] (m as u8)) <= tally_in(
                g,
                w,
                l,
                h,
                p,
                best_color_upto(g, w, l, h, p, n),
            ),
        forall|m: int|
            0 <= m < best_color_upto(g, w, l, h, p, n) ==> tally_in(
                g,
                w,
                l,
                h,
                p,
                #[trigger] (m as u8),
            ) < tally_in(g, w, l, h, p, best_color_upto(g, w, l, h, p, n)),
    decreases n,
{
    if n > 1 {
        lemma_best_upto(g, w, l, h, p, n - 1);
    }
}

/// The majority vote is exact: the chosen material's tally is at least
/// every other material's tally, and every lower id tallies strictly less —
/// the lowest id wins ties.
pub proof fn lemma_majority_vote(g: Seq<Option<u8>>, w: int, l: int, h: int, p: Placement)
    ensures
        forall|m: u8|
            m < majority_in(g, w, l, h, p) ==> #[trigger] tally_in(g, w, l, h, p, m) < tally_in(
                g,
                w,
                l,
                h,
                p,
                majority_in(g, w, l, h, p),
            ),
        forall|m: u8|
            #[trigger] tally_in(g, w, l, h, p, m) <= tally_in(
                g,
                w,
                l,
                h,
                p,
                majority_in(g, w, l, h, p),
            ),
{
    lemma_best_upto(g, w, l, h, p, 256);
    assert forall|m: u8| 0 <= m implies #[trigger] tally_in(g, w, l, h, p, m) <= tally_in(
        g,
        w,
        l,
        h,
        p,
        majority_in(g, w, l, h, p),
    ) by {
        assert(0 <= (m as int) && (m as int) < 256);
        assert((m as int) as u8 == m);
        assert(tally_in(g, w, l, h, p, (m as int) as u8) <= tally_in(
            g,
            w,
            l,
            h,
            p,
            best_color_upto(g, w, l, h, p, 256),
        ));
    }
    assert forall|m: u8| m < majority_in(g, w, l, h, p) implies #[trigger] tally_in(
        g,
        w,
        l,
        h,
        p,
        m,
    ) < tally_in(g, w, l, h, p, majority_in(g, w, l, h, p)) by {
        assert((m as int) as u8 == m);
        assert(0 <= (m as int) && (m as int) < best_color_upto(g, w, l, h, p, 256));
    }
}

/// A column tally never exceeds the rows counted.
proof fn lemma_tally_col_le(
    g: Seq<Option<u8>>,
    w: int,
    l: int,
    h: int,
    p: Placement,
    m: u8,
    i: int,
    j: int,
)
    requires
        j >= 0,
    ensures
        tally_col(g, w, l, h, p, m, i, j) <= j,
    decreases j,
{
    if j > 0 {
        lemma_tally_col_le(g, w, l, h, p, m, i, j - 1);
    }
}

/// A multi-column tally never exceeds columns times rise.
proof fn lemma_tally_cols_le(
    g: Seq<Option<u8>>,
    w: int,
    l: int,
    h: int,
    p: Placement,
    m: u8,
    i: int,
)
    requires
        i >= 0,
        p.rise >= 0,
    ensures
        tally_cols(g, w, l, h, p, m, i) <= i * p.rise,
    decreases i,
{
    if i > 0 {
        lemma_tally_cols_le(g, w, l, h, p, m, i - 1);
        lemma_tally_col_le(g, w, l, h, p, m, i - 1, p.rise);
        assert((i - 1) * p.rise + p.rise == i * p.rise) by (nonlinear_arith);
    }
}

impl Rampifier {
    /// Sufficient headroom in the world-unit types for every primitive this
    /// grid and configuration can emit: each position component, formed from
    /// a coordinate scaled by twice the unit size plus an extent and the
    /// anchor correction, fits an `i32`, and each extent fits a `u32`.
    pub open spec fn scale_ok(self) -> bool {
        let bw = self.config.brick_size.0 as int;
        let bl = self.config.brick_size.1 as int;
        let bh = self.config.brick_size.2 as int;
        let w = self.gw();
        let l = self.gl();
        let h = self.gh();
        &&& (3 * w + l + 2) * bw + bl <= i32::MAX
        &&& (2 * l + 2) * bl + (w + l) * bw <= i32::MAX
        &&& 3 * l * bl <= i32::MAX
        &&& 3 * h * bh <= i32::MAX
        &&& (w + l) * bw <= u32::MAX
        &&& l * bl <= u32::MAX
        &&& h * bh <= u32::MAX
    }

    /// A placement whose seed is in bounds and whose run and rise respect
    /// the grid dimensions yields world coordinates within machine range.
    proof fn lemma_ramp_fits(self, p: Placement)
        by (nonlinear_arith)
        requires
            self.scale_ok(),
            self.in_bounds(p.seed),
            1 <= p.run <= self.gw() + self.gl(),
            1 <= p.rise <= self.gh(),
        ensures
            ramp_prim_fits(self.config, p),
    {
    }

    /// Claims every in-bounds cell of the placement's footprint in the
    /// occupancy bitmap. Bookkeeping only: the grid itself is not mutated.
    fn claim_footprint(&mut self, base: VoxVector, run: usize, rise: usize, rotation: Rotation, p: Ghost<Placement>)
        requires
            old(self).wf(),
            p@.base() == base@,
            p@.rot == rotation,
            p@.run == run as int,
            p@.rise == rise as int,
            run <= old(self).gw() + old(self).gl(),
            rise <= old(self).gh(),
            -(old(self).gh() as int) <= base@.2 <= old(self).gh(),
            0 <= base@.0 < old(self).gw(),
            0 <= base@.1 < old(self).gl(),
        ensures
            final(self).wf(),
            final(self).grid@ == old(self).grid@,
            final(self).size == old(self).size,
            final(self).config == old(self).config,
            final(self).placements == old(self).placements,
            final(self).boxes == old(self).boxes,
            forall|c: (int, int, int)|
                #![trigger final(self).claimed_at(c)]
                final(self).claimed_at(c) <==> old(self).claimed_at(c) || (old(self).in_bounds(c)
                    && p@.covers(c)),
    {
        let ghost pl = p@;
        let mut i: usize = 0;
        while i < run
            invariant
                self.wf(),
                self.grid@ == old(self).grid@,
                self.size == old(self).size,
                self.config == old(self).config,
                self.placements == old(self).placements,
                self.boxes == old(self).boxes,
                pl.base() == base@,
                pl.rot == rotation,
                pl.run == run as int,
                pl.rise == rise as int,
                i <= run,
                run <= self.gw() + self.gl(),
                rise <= self.gh(),
                -(self.gh() as int) <= base@.2 <= self.gh(),
                0 <= base@.0 < self.gw(),
                0 <= base@.1 < self.gl(),
                forall|c: (int, int, int)|
                    #![trigger self.claimed_at(c)]
                    self.claimed_at(c) <==> old(self).claimed_at(c) || (old(self).in_bounds(c)
                        && covers_prefix(pl, c, i as int, 0)),
            decreases run - i,
        {
            let mut j: usize = 0;
            while j < rise
                invariant
                    self.wf(),
                    self.grid@ == old(self).grid@,
                    self.size == old(self).size,
                    self.config == old(self).config,
                    self.placements == old(self).placements,
                    self.boxes == old(self).boxes,
                    pl.base() == base@,
                    pl.rot == rotation,
                    pl.run == run as int,
                    pl.rise == rise as int,
                    i < run,
                    j <= rise,
                    run <= self.gw() + self.gl(),
                    rise <= self.gh(),
                    -(self.gh() as int) <= base@.2 <= self.gh(),
                    0 <= base@.0 < self.gw(),
                    0 <= base@.1 < self.gl(),
                    forall|c: (int, int, int)|
                        #![trigger self.claimed_at(c)]
                        self.claimed_at(c) <==> old(self).claimed_at(c) || (old(self).in_bounds(c)
                            && covers_prefix(pl, c, i as int, j as int)),
                decreases rise - j,
            {
                let cell = base.stepped(rotation, i as isize, j as isize);
                let ghost pre = *self;
                proof {
                    assert(cell@ == foot_cell(pl, i as int, j as int));
                }
                if self.is_bounded(cell) {
                    let index: usize = self.grid_index(
                        (cell.0 as usize, cell.1 as usize, cell.2 as usize),
                    );
                    self.claimed[index] = true;
                    proof {
                        assert forall|c: (int, int, int)|
                            self.claimed_at(c) <==> old(self).claimed_at(c) || (old(
                                self,
                            ).in_bounds(c) && covers_prefix(pl, c, i as int, j as int + 1)) by {
                            assert(pre.claimed_at(c) <==> old(self).claimed_at(c) || (old(
                                self,
                            ).in_bounds(c) && covers_prefix(pl, c, i as int, j as int)));
                            if self.in_bounds(c) {
                                lemma_index_bounds(
                                    self.gw(),
                                    self.gl(),
                                    self.gh(),
                                    c.0,
                                    c.1,
                                    c.2,
                                );
                                if c != cell@ && self.index_of(c) == self.index_of(cell@) {
                                    lemma_index_injective(
                                        self.gw(),
                                        self.gl(),
                                        self.gh(),
                                        c.0,
                                        c.1,
                                        c.2,
                                        cell@.0,
                                        cell@.1,
                                        cell@.2,
                                    );
                                }
                            }
                        }
                    }
                } else {
                    proof {
                        assert forall|c: (int, int, int)|
                            self.claimed_at(c) <==> old(self).claimed_at(c) || (old(
                                self,
                            ).in_bounds(c) && covers_prefix(pl, c, i as int, j as int + 1)) by {
                            if old(self).in_bounds(c) && covers_prefix(
                                pl,
                                c,
                                i as int,
                                j as int + 1,
                            ) && !covers_prefix(pl, c, i as int, j as int) {
                                assert(c == cell@);
                                assert(false);
                            }
                        }
                    }
                }
                j += 1;
            }
            proof {
                assert forall|c: (int, int, int)|
                    covers_prefix(pl, c, i as int, rise as int) == covers_prefix(
                        pl,
                        c,
                        i as int + 1,
                        0,
                    ) by {}
            }
            i += 1;
        }
        proof {
            assert forall|c: (int, int, int)|
                covers_prefix(pl, c, run as int, 0) == pl.covers(c) by {}
        }
    }

    /// Tallies the occupied footprint cells of a placement by material and
    /// returns the majority material, lowest id winning ties.
    fn majority_color(&self, base: VoxVector, run: usize, rise: usize, rotation: Rotation, p: Ghost<Placement>) -> (r: u8)
        requires
            self.wf(),
            p@.base() == base@,
            p@.rot == rotation,
            p@.run == run as int,
            p@.rise == rise as int,
            run <= self.gw() + self.gl(),
            rise <= self.gh(),
            -(self.gh() as int) <= base@.2 <= self.gh(),
            0 <= base@.0 < self.gw(),
            0 <= base@.1 < self.gl(),
        ensures
            r == majority_in(self.grid@, self.gw(), self.gl(), self.gh(), p@),
    {
        let ghost pl = p@;
        let ghost g = self.grid@;
        let ghost w: int = self.gw();
        let ghost l: int = self.gl();
        let ghost h: int = self.gh();

        let mut counts: Vec<u64> = Vec::new();
        let mut n: usize = 0;
        while n < 256
            invariant
                counts@.len() == n,
                n <= 256,
                forall|m: int| 0 <= m < n ==> counts@[m] == 0,
            decreases 256 - n,
        {
            counts.push(0);
            n += 1;
        }
        proof {
            assert forall|m: int| 0 <= m < 256 implies counts@[m] == tally_cols(
                g,
                w,
                l,
                h,
                pl,
                m as u8,
                0,
            ) by {}
        }

        let mut i: usize = 0;
        while i < run
            invariant
                self.wf(),
                g == self.grid@,
                w == self.gw(),
                l == self.gl(),
                h == self.gh(),
                pl.base() == base@,
                pl.rot == rotation,
                pl.run == run as int,
                pl.rise == rise as int,
                i <= run,
                run <= w + l,
                rise <= h,
                -h <= base@.2 <= h,
                0 <= base@.0 < w,
                0 <= base@.1 < l,
                counts@.len() == 256,
                forall|m: int|
                    0 <= m < 256 ==> counts@[m] == tally_cols(g, w, l, h, pl, m as u8, i as int),
            decreases run - i,
        {
            let mut j: usize = 0;
            while j < rise
                invariant
                    self.wf(),
                    g == self.grid@,
                    w == self.gw(),
                    l == self.gl(),
                    h == self.gh(),
                    pl.base() == base@,
                    pl.rot == rotation,
                    pl.run == run as int,
                    pl.rise == rise as int,
                    i < run,
                    j <= rise,
                    run <= w + l,
                    rise <= h,
                    -h <= base@.2 <= h,
                    0 <= base@.0 < w,
                    0 <= base@.1 < l,
                    counts@.len() == 256,
                    forall|m: int|
                        0 <= m < 256 ==> counts@[m] == tally_cols(g, w, l, h, pl, m as u8, i as int)
                            + tally_col(g, w, l, h, pl, m as u8, i as int, j as int),
                decreases rise - j,
            {
                let cell = base.stepped(rotation, i as isize, j as isize);
                proof {
                    assert(cell@ == foot_cell(pl, i as int, j as int));
                }
                match self.get_point_safe(cell) {
                    Some(value) => {
                        let vi: usize = value as usize;
                        let cur: u64 = counts[vi];
                        proof {
                            lemma_tally_cols_le(g, w, l, h, pl, value, i as int);
                            lemma_tally_col_le(g, w, l, h, pl, value, i as int, j as int);
                            assert(i as int * pl.rise <= (w + l) * h) by (nonlinear_arith)
                                requires
                                    0 <= i as int <= w + l,
                                    0 <= pl.rise <= h,
                                    w >= 0,
                                    l >= 0,
                            ;
                            assert((w + l) * h + h < 0x8000_0000_0000_0000) by (nonlinear_arith)
                                requires
                                    0 <= w <= 0x1000_0000,
                                    0 <= l <= 0x1000_0000,
                                    0 <= h <= 0x1000_0000,
                            ;
                        }
                        counts[vi] = cur + 1;
                    },
                    None => {},
                }
                j += 1;
            }
            i += 1;
        }

        let mut best: u8 = 0;
        let mut id: usize = 1;
        proof {
            assert forall|m: int| 0 <= m < 256 implies counts@[m] == tally_in(
                g,
                w,
                l,
                h,
                pl,
                m as u8,
            ) by {}
            assert(best == best_color_upto(g, w, l, h, pl, 1));
        }
        while id < 256
            invariant
                counts@.len() == 256,
                1 <= id <= 256,
                forall|m: int| 0 <= m < 256 ==> counts@[m] == tally_in(g, w, l, h, pl, m as u8),
                best == best_color_upto(g, w, l, h, pl, id as int),
            decreases 256 - id,
        {
            if counts[id] > counts[best as usize] {
                best = id as u8;
            }
            id += 1;
        }
        best
    }
}


/// A placement assembled from its parts.
pub open spec fn place_of(
    seed: (int, int, int),
    run: int,
    rise: int,
    rot: Rotation,
    floor: bool,
) -> Placement {
    Placement { seed, run, rise, rot, floor }
}

impl Rampifier {
    /// Turns a fitted (seed, run, rise, rotation, pass) into a primitive
    /// descriptor, claims the footprint in the occupancy bitmap, and colors
    /// the primitive by majority vote over its occupied footprint cells.
    /// For a ceiling placement the base is shifted down by the rise so the
    /// primitive hangs correctly, and the 0/180 rotations are mirrored.
    pub(crate) fn create_ramp(
        &mut self,
        pos: VoxVector,
        run: usize,
        rise: usize,
        rotation: Rotation,
        is_floor: bool,
    ) -> (r: Primitive)
        requires
            old(self).inv(),
            old(self).scale_ok(),
            old(self).in_bounds(pos@),
            1 <= run,
            run as int <= old(self).gw() + old(self).gl(),
            1 <= rise,
            rise as int <= old(self).gh(),
        ensures
            final(self).inv(),
            final(self).grid@ == old(self).grid@,
            final(self).size == old(self).size,
            final(self).config == old(self).config,
            final(self).boxes == old(self).boxes,
            final(self).placements@ == old(self).placements@.push(
                place_of(pos@, run as int, rise as int, rotation, is_floor),
            ),
            r == ramp_prim_spec(
                old(self).config,
                place_of(pos@, run as int, rise as int, rotation, is_floor),
                majority_in(
                    old(self).grid@,
                    old(self).gw(),
                    old(self).gl(),
                    old(self).gh(),
                    place_of(pos@, run as int, rise as int, rotation, is_floor),
                ),
            ),
            forall|c: (int, int, int)|
                #![trigger final(self).claimed_at(c)]
                final(self).claimed_at(c) <==> old(self).claimed_at(c) || (old(self).in_bounds(c)
                    && place_of(pos@, run as int, rise as int, rotation, is_floor).covers(c)),
    {
        let ghost p = place_of(pos@, run as int, rise as int, rotation, is_floor);

        let pos2 = if is_floor {
            pos
        } else {
            VoxVector(pos.0, pos.1, pos.2 - (rise as isize - 1))
        };
        proof {
            assert(pos2@ == p.base());
        }

        self.claim_footprint(pos2, run, rise, rotation, Ghost(p));
        let ghost s1 = *self;
        let mode_color = self.majority_color(pos2, run, rise, rotation, Ghost(p));

        proof {
            old(self).lemma_ramp_fits(p);
        }

        let bw = self.config.brick_size.0;
        let bl = self.config.brick_size.1;
        let bh = self.config.brick_size.2;

        let wx = ((pos2.0 as i64) * 2 * (bw as i64)) as i32;
        let wy = ((pos2.1 as i64) * 2 * (bl as i64)) as i32;
        let wz = ((pos2.2 as i64) * 2 * (bh as i64)) as i32;
        let sx = (run as u32) * bw;
        let sy = bl;
        let sz = (rise as u32) * bh;
        let position = offset_pos(&self.config, (wx, wy, wz), (sx, sy, sz), rotation);

        let asset = if run < 2 {
            self.config.wedge_index
        } else {
            self.config.ramp_index
        };
        let direction = if is_floor {
            Direction::ZPositive
        } else {
            Direction::ZNegative
        };
        let out_rot = if is_floor {
            rotation
        } else {
            match rotation {
                Rotation::Deg0 => Rotation::Deg180,
                Rotation::Deg180 => Rotation::Deg0,
                other => other,
            }
        };
        let ramp = Primitive {
            asset_name_index: asset,
            position,
            size: (sx, sy, sz),
            direction,
            rotation: out_rot,
            color_index: mode_color as u32,
        };

        proof {
            assert(mode_color == majority_in(
                old(self).grid@,
                old(self).gw(),
                old(self).gl(),
                old(self).gh(),
                p,
            ));
            let spec_prim = ramp_prim_spec(old(self).config, p, mode_color);
            assert(ramp.asset_name_index == spec_prim.asset_name_index);
            assert(ramp.size == spec_prim.size);
            assert(ramp.direction == spec_prim.direction);
            assert(ramp.rotation == spec_prim.rotation);
            assert(ramp.color_index == spec_prim.color_index);
            assert(ramp.position == spec_prim.position);
        }

        proof {
            self.placements@ = self.placements@.push(p);
            let ghost oldlen = old(self).placements@.len() as int;
            assert forall|c: (int, int, int)|
                self.in_bounds(c) implies (self.claimed_at(c) <==> self.ramp_covered(c)) by {
                assert(s1.claimed_at(c) <==> old(self).claimed_at(c) || (old(self).in_bounds(c)
                    && p.covers(c)));
                assert(self.claimed_at(c) == s1.claimed_at(c));
                assert(old(self).claimed_at(c) <==> old(self).ramp_covered(c));
                assert(self.placements@[oldlen] == p);
                if self.claimed_at(c) {
                    if old(self).claimed_at(c) {
                        let k = choose|k: int|
                            0 <= k < old(self).placements@.len() && (#[trigger] old(
                                self,
                            ).placements@[k]).covers(c);
                        assert((self.placements@[k]).covers(c));
                        assert(self.ramp_covered(c));
                    } else {
                        assert((self.placements@[oldlen]).covers(c));
                        assert(self.ramp_covered(c));
                    }
                }
                if self.ramp_covered(c) {
                    let k = choose|k: int|
                        0 <= k < self.placements@.len() && (#[trigger] self.placements@[k]).covers(
                            c,
                        );
                    if k < oldlen {
                        assert((old(self).placements@[k]).covers(c));
                        assert(old(self).ramp_covered(c));
                    } else {
                        assert(p.covers(c));
                    }
                }
            }
            assert forall|c: (int, int, int)|
                #![trigger self.claimed_at(c)]
                self.claimed_at(c) <==> old(self).claimed_at(c) || (old(self).in_bounds(c)
                    && p.covers(c)) by {
                assert(s1.claimed_at(c) <==> old(self).claimed_at(c) || (old(self).in_bounds(c)
                    && p.covers(c)));
                assert(self.claimed_at(c) == s1.claimed_at(c));
            }
        }

        ramp
    }
}


} // verus!
