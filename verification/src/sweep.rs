//! The two-pass ramp sweep: drive the direction heuristic, the fitter and
//! the constructor across the whole grid in a fixed scan order, once for
//! floor slopes and once for ceiling slopes, then commit the removal of
//! every ramp-claimed cell in one deferred step so that neither pass sees
//! the other's removals.

use vstd::prelude::*;
use crate::grid::{bounds_in, cell_in, lemma_index_bounds, Rampifier};
use crate::primitive::{ramp_prim_spec, Placement, Primitive};
use crate::ramps::majority_in;
use crate::vox::VoxVector;

verus! {

/// What the sweep guarantees of the `k`-th recorded placement: it belongs
/// to the given pass, its seed was an occupied in-bounds cell of the grid
/// the sweep ran over, its run and rise respect the grid dimensions, and
/// its seed was not covered by any earlier placement — a claimed cell is
/// never re-seeded.
pub open spec fn sweep_entry_ok(
    g: Seq<Option<u8>>,
    w: int,
    l: int,
    h: int,
    ps: Seq<Placement>,
    k: int,
    floor: bool,
) -> bool {
    let p = ps[k];
    &&& p.floor == floor
    &&& bounds_in(w, l, h, p.seed)
    &&& cell_in(g, w, l, h, p.seed) is Some
    &&& 1 <= p.run <= w + l
    &&& 1 <= p.rise <= h
    &&& forall|k2: int| 0 <= k2 < k ==> !(#[trigger] ps[k2]).covers(p.seed)
}

/// The scan frontier of a pass: whether the sweep visits cell `c` strictly
/// before reaching counters `(z, y, x)`; the vertical counter is mirrored
/// for the ceiling pass.
pub open spec fn visited_lt(fl: bool, h: int, c: (int, int, int), z: int, y: int, x: int) -> bool {
    let zz = if fl {
        c.2
    } else {
        h - 1 - c.2
    };
    zz < z || (zz == z && (c.1 < y || (c.1 == y && c.0 < x)))
}

/// Whether cell `a` comes strictly before cell `b` in a pass's scan order.
pub open spec fn pass_before(fl: bool, h: int, a: (int, int, int), b: (int, int, int)) -> bool {
    visited_lt(
        fl,
        h,
        a,
        (if fl {
            b.2
        } else {
            h - 1 - b.2
        }),
        b.1,
        b.0,
    )
}

/// Whether `s` reads like the sweep state between two placements: the same
/// grid view and configuration as the initial state `s0`, with exactly the
/// in-bounds cells of the first `k` recorded placements claimed.
pub open spec fn mid_state_ok(s0: Rampifier, ps: Seq<Placement>, k: int, s: Rampifier) -> bool {
    &&& s.size == s0.size
    &&& s.grid@ == s0.grid@
    &&& s.config == s0.config
    &&& forall|c: (int, int, int)|
        #![trigger s.claimed_at(c)]
        s.claimed_at(c) <==> (s0.in_bounds(c) && exists|k2: int|
            0 <= k2 < k && (#[trigger] ps[k2]).covers(c))
}

/// Whether the decision chain demonstrably fails at `c` in the state the
/// sweep was in once the first `k` recorded placements had been made: some
/// state with that view rejects the cell.
#[verifier::opaque]
pub open spec fn gap_failed(
    s0: Rampifier,
    ps: Seq<Placement>,
    k: int,
    c: (int, int, int),
    fl: bool,
) -> bool {
    exists|s: Rampifier| (#[trigger] s.pass_failed(c, fl)) && mid_state_ok(s0, ps, k, s)
}

/// A state whose claimed cells are exactly those of its own recorded
/// placements witnesses the failure of any cell it rejects.
proof fn lemma_gap_here(s0: Rampifier, s_now: Rampifier, c: (int, int, int), fl: bool)
    requires
        s_now.claim_inv(),
        s_now.size == s0.size,
        s_now.grid@ == s0.grid@,
        s_now.config == s0.config,
        s_now.pass_failed(c, fl),
    ensures
        gap_failed(s0, s_now.placements@, s_now.placements@.len() as int, c, fl),
{
    reveal(gap_failed);
    let ps = s_now.placements@;
    let k = ps.len() as int;
    assert forall|c2: (int, int, int)|
        #![trigger s_now.claimed_at(c2)]
        s_now.claimed_at(c2) <==> (s0.in_bounds(c2) && exists|k2: int|
            0 <= k2 < k && (#[trigger] ps[k2]).covers(c2)) by {
        if s_now.claimed_at(c2) {
            assert(s_now.ramp_covered(c2));
            let k2 = choose|k2: int|
                0 <= k2 < s_now.placements@.len() && (#[trigger] s_now.placements@[k2]).covers(c2);
            assert(ps[k2].covers(c2));
        }
        if s0.in_bounds(c2) && exists|k2: int| 0 <= k2 < k && (#[trigger] ps[k2]).covers(c2) {
            let k2 = choose|k2: int| 0 <= k2 < k && (#[trigger] ps[k2]).covers(c2);
            assert(s_now.placements@[k2].covers(c2));
            assert(s_now.ramp_covered(c2));
            assert(s_now.claimed_at(c2));
        }
    }
    assert(mid_state_ok(s0, ps, k, s_now));
    assert(gap_failed(s0, ps, k, c, fl));
}

/// A recorded gap failure is unaffected by a later placement.
proof fn lemma_gap_push(
    s0: Rampifier,
    ps: Seq<Placement>,
    p2: Placement,
    k: int,
    c: (int, int, int),
    fl: bool,
)
    requires
        gap_failed(s0, ps, k, c, fl),
        0 <= k <= ps.len(),
    ensures
        gap_failed(s0, ps.push(p2), k, c, fl),
{
    reveal(gap_failed);
    let s = choose|s: Rampifier| (#[trigger] s.pass_failed(c, fl)) && mid_state_ok(s0, ps, k, s);
    assert forall|c2: (int, int, int)|
        #![trigger s.claimed_at(c2)]
        s.claimed_at(c2) <==> (s0.in_bounds(c2) && exists|k2: int|
            0 <= k2 < k && (#[trigger] ps.push(p2)[k2]).covers(c2)) by {
        if s.claimed_at(c2) {
            let k2 = choose|k2: int| 0 <= k2 < k && (#[trigger] ps[k2]).covers(c2);
            assert(ps.push(p2)[k2].covers(c2));
        }
        if s0.in_bounds(c2) && exists|k2: int|
            0 <= k2 < k && (#[trigger] ps.push(p2)[k2]).covers(c2) {
            let k2 = choose|k2: int| 0 <= k2 < k && (#[trigger] ps.push(p2)[k2]).covers(c2);
            assert(ps[k2].covers(c2));
        }
    }
    assert(mid_state_ok(s0, ps.push(p2), k, s));
    assert(s.pass_failed(c, fl));
}

impl Rampifier {
    /// Whether the sweep rightly places no ramp at `c` in this state: the
    /// cell is already claimed, the direction heuristic finds no candidate,
    /// or the fitter rejects the chosen direction or fits a zero rise.
    pub open spec fn pass_failed(self, c: (int, int, int), fl: bool) -> bool {
        self.claimed_at(c) || (match self.best_rotation_spec(c, fl) {
            None => true,
            Some(rot) => match self.fit_spec(c, rot, fl) {
                None => true,
                Some(rr) => rr.1 == 0,
            },
        })
    }

    /// Processes the voxel grid in the fixed scan order (x innermost, z
    /// outermost; z mirrored for the ceiling pass) and returns the ramps
    /// the pass places, in order. The grid itself is not mutated; claimed
    /// cells are recorded in the occupancy bitmap and removed later by
    /// `remove_occupied_voxels`. An entirely empty grid yields no ramps.
    #[verifier::rlimit(80)]
    pub fn generate_ramps(&mut self, gen_floor_else_ceil: bool) -> (ramps: Vec<Primitive>)
        requires
            old(self).inv(),
            old(self).limits_ok(),
            old(self).scale_ok(),
        ensures
            final(self).inv(),
            final(self).limits_ok(),
            final(self).scale_ok(),
            final(self).grid@ == old(self).grid@,
            final(self).size == old(self).size,
            final(self).config == old(self).config,
            final(self).boxes == old(self).boxes,
            old(self).placements@.len() + ramps@.len() == final(self).placements@.len(),
            forall|k: int|
                0 <= k < old(self).placements@.len() ==> final(self).placements@[k] == old(
                    self,
                ).placements@[k],
            forall|k: int|
                old(self).placements@.len() <= k < final(self).placements@.len()
                    ==> sweep_entry_ok(
                    old(self).grid@,
                    old(self).gw(),
                    old(self).gl(),
                    old(self).gh(),
                    final(self).placements@,
                    k,
                    gen_floor_else_ceil,
                ),
            forall|k: int|
                old(self).placements@.len() <= k < final(self).placements@.len()
                    ==> ramps@[k - old(self).placements@.len()] == ramp_prim_spec(
                    old(self).config,
                    #[trigger] final(self).placements@[k],
                    majority_in(
                        old(self).grid@,
                        old(self).gw(),
                        old(self).gl(),
                        old(self).gh(),
                        final(self).placements@[k],
                    ),
                ),
            forall|c: (int, int, int)|
                #![trigger final(self).claimed_at(c)]
                final(self).claimed_at(c) ==> old(self).claimed_at(c) || final(self).ramp_covered(
                    c,
                ),
            (forall|c: (int, int, int)|
                old(self).in_bounds(c) ==> !old(self).occupied(c)) ==> ramps@.len() == 0,
            // A pass that places nothing rightly found no opportunity: at
            // every occupied cell the decision chain demonstrably failed.
            // The placements of this pass are recorded in its scan order:
            // every earlier seed comes before every later one.
            forall|k1: int, k2: int|
                #![trigger final(self).placements@[k1], final(self).placements@[k2]]
                old(self).placements@.len() <= k1 < k2 < final(self).placements@.len()
                    ==> pass_before(
                    gen_floor_else_ceil,
                    old(self).gh(),
                    final(self).placements@[k1].seed,
                    final(self).placements@[k2].seed,
                ),
            // Between consecutive seeds — before the first, after the last —
            // every occupied cell demonstrably failed the decision chain in
            // the state the sweep was then in: each ramp is placed at the
            // next opportunity of its pass.
            forall|k: int, c: (int, int, int)|
                #![trigger gap_failed(*old(self), final(self).placements@, k, c, gen_floor_else_ceil)]
                {
                    &&& old(self).placements@.len() <= k <= final(self).placements@.len()
                    &&& (k == old(self).placements@.len() || pass_before(
                        gen_floor_else_ceil,
                        old(self).gh(),
                        final(self).placements@[k - 1].seed,
                        c,
                    ))
                    &&& (k < final(self).placements@.len() ==> pass_before(
                        gen_floor_else_ceil,
                        old(self).gh(),
                        c,
                        final(self).placements@[k].seed,
                    ))
                    &&& old(self).in_bounds(c)
                    &&& old(self).occupied(c)
                } ==> gap_failed(
                    *old(self),
                    final(self).placements@,
                    k,
                    c,
                    gen_floor_else_ceil,
                ),
            ramps@.len() == 0 ==> final(self).claimed@ == old(self).claimed@,
            ramps@.len() == 0 ==> forall|c: (int, int, int)|
                old(self).in_bounds(c) && old(self).occupied(c) ==> #[trigger] old(
                    self,
                ).pass_failed(c, gen_floor_else_ceil),
            // The first ramp of a pass is placed at the first opportunity:
            // at every occupied cell scanned before its seed, the decision
            // chain demonstrably failed.
            ramps@.len() > 0 ==> forall|c: (int, int, int)|
                old(self).in_bounds(c) && old(self).occupied(c) && visited_lt(
                    gen_floor_else_ceil,
                    old(self).gh(),
                    c,
                    (if gen_floor_else_ceil {
                        final(self).placements@[old(self).placements@.len() as int].seed.2
                    } else {
                        old(self).gh() - 1 - final(self).placements@[old(
                            self,
                        ).placements@.len() as int].seed.2
                    }),
                    final(self).placements@[old(self).placements@.len() as int].seed.1,
                    final(self).placements@[old(self).placements@.len() as int].seed.0,
                ) ==> #[trigger] old(self).pass_failed(c, gen_floor_else_ceil),
    {
        let ghost g0 = self.grid@;
        let ghost w0: int = self.gw();
        let ghost l0: int = self.gl();
        let ghost h0: int = self.gh();
        let ghost cfg0 = self.config;
        let ghost oldlen: int = self.placements@.len() as int;
        let ghost fl = gen_floor_else_ceil;

        let mut ramps: Vec<Primitive> = Vec::new();

        let w: usize = self.size.0;
        let l: usize = self.size.1;
        let h: usize = self.size.2;

        let mut z: usize = 0;
        while z < h
            invariant
                self.inv(),
                self.limits_ok(),
                self.scale_ok(),
                self.grid@ == g0,
                self.gw() == w0,
                self.gl() == l0,
                self.gh() == h0,
                self.config == cfg0,
                self.boxes == old(self).boxes,
                g0 == old(self).grid@,
                w0 == old(self).gw(),
                l0 == old(self).gl(),
                h0 == old(self).gh(),
                cfg0 == old(self).config,
                oldlen == old(self).placements@.len(),
                fl == gen_floor_else_ceil,
                w == self.size.0 && l == self.size.1 && h == self.size.2,
                z <= h,
                oldlen + ramps@.len() == self.placements@.len(),
                forall|k: int|
                    0 <= k < oldlen ==> self.placements@[k] == old(self).placements@[k],
                forall|k: int|
                    oldlen <= k < self.placements@.len() ==> sweep_entry_ok(
                        g0,
                        w0,
                        l0,
                        h0,
                        self.placements@,
                        k,
                        fl,
                    ),
                forall|k: int|
                    oldlen <= k < self.placements@.len() ==> ramps@[k - oldlen] == ramp_prim_spec(
                        cfg0,
                        #[trigger] self.placements@[k],
                        majority_in(g0, w0, l0, h0, self.placements@[k]),
                    ),
                self.placements@.len() == oldlen ==> self.claimed@ == old(self).claimed@,
                self.placements@.len() > oldlen ==> forall|c: (int, int, int)|
                    old(self).in_bounds(c) && old(self).occupied(c) && visited_lt(
                        fl,
                        h0,
                        c,
                        (if fl {
                            self.placements@[oldlen].seed.2
                        } else {
                            h0 - 1 - self.placements@[oldlen].seed.2
                        }),
                        self.placements@[oldlen].seed.1,
                        self.placements@[oldlen].seed.0,
                    ) ==> #[trigger] old(self).pass_failed(c, fl),
                // Every seed placed so far lies inside the scanned region, and
                // the seeds follow the scan order.
                forall|k: int|
                    oldlen <= k < self.placements@.len() ==> visited_lt(
                        fl,
                        h0,
                        (#[trigger] self.placements@[k]).seed,
                        z as int,
                        0,
                        0,
                    ),
                forall|k1: int, k2: int|
                    #![trigger self.placements@[k1], self.placements@[k2]]
                    oldlen <= k1 < k2 < self.placements@.len() ==> pass_before(
                        fl,
                        h0,
                        self.placements@[k1].seed,
                        self.placements@[k2].seed,
                    ),
                // Every scanned occupied cell not seeding a ramp demonstrably
                // failed the decision chain in the state the sweep was then in.
                forall|k: int, c: (int, int, int)|
                    #![trigger gap_failed(*old(self), self.placements@, k, c, fl)]
                    {
                        &&& oldlen <= k <= self.placements@.len()
                        &&& (k == oldlen || pass_before(fl, h0, self.placements@[k - 1].seed, c))
                        &&& (k == self.placements@.len() ==> visited_lt(fl, h0, c, z as int, 0, 0))
                        &&& (k < self.placements@.len() ==> pass_before(fl, h0, c, self.placements@[k].seed))
                        &&& old(self).in_bounds(c)
                        &&& old(self).occupied(c)
                    } ==> gap_failed(*old(self), self.placements@, k, c, fl),
                forall|c: (int, int, int)|
                    self.placements@.len() == oldlen && old(self).in_bounds(c) && old(
                        self,
                    ).occupied(c) && visited_lt(fl, h0, c, z as int, 0, 0) ==> #[trigger] old(
                        self,
                    ).pass_failed(c, gen_floor_else_ceil),
            decreases h - z,
        {
            let mut y: usize = 0;
            while y < l
                invariant
                    self.inv(),
                    self.limits_ok(),
                    self.scale_ok(),
                    self.grid@ == g0,
                    self.gw() == w0,
                    self.gl() == l0,
                    self.gh() == h0,
                    self.config == cfg0,
                    self.boxes == old(self).boxes,
                    g0 == old(self).grid@,
                    w0 == old(self).gw(),
                    l0 == old(self).gl(),
                    h0 == old(self).gh(),
                    cfg0 == old(self).config,
                    oldlen == old(self).placements@.len(),
                    fl == gen_floor_else_ceil,
                    w == self.size.0 && l == self.size.1 && h == self.size.2,
                    z < h,
                    y <= l,
                    oldlen + ramps@.len() == self.placements@.len(),
                    forall|k: int|
                        0 <= k < oldlen ==> self.placements@[k] == old(self).placements@[k],
                    forall|k: int|
                        oldlen <= k < self.placements@.len() ==> sweep_entry_ok(
                            g0,
                            w0,
                            l0,
                            h0,
                            self.placements@,
                            k,
                            fl,
                        ),
                    forall|k: int|
                        oldlen <= k < self.placements@.len() ==> ramps@[k - oldlen]
                            == ramp_prim_spec(
                            cfg0,
                            #[trigger] self.placements@[k],
                            majority_in(g0, w0, l0, h0, self.placements@[k]),
                        ),
                    self.placements@.len() == oldlen ==> self.claimed@ == old(self).claimed@,
                    self.placements@.len() > oldlen ==> forall|c: (int, int, int)|
                        old(self).in_bounds(c) && old(self).occupied(c) && visited_lt(
                            fl,
                            h0,
                            c,
                            (if fl {
                                self.placements@[oldlen].seed.2
                            } else {
                                h0 - 1 - self.placements@[oldlen].seed.2
                            }),
                            self.placements@[oldlen].seed.1,
                            self.placements@[oldlen].seed.0,
                        ) ==> #[trigger] old(self).pass_failed(c, fl),
                    // Every seed placed so far lies inside the scanned region, and
                    // the seeds follow the scan order.
                    forall|k: int|
                        oldlen <= k < self.placements@.len() ==> visited_lt(
                            fl,
                            h0,
                            (#[trigger] self.placements@[k]).seed,
                            z as int,
                            y as int,
                            0,
                        ),
                    forall|k1: int, k2: int|
                        #![trigger self.placements@[k1], self.placements@[k2]]
                        oldlen <= k1 < k2 < self.placements@.len() ==> pass_before(
                            fl,
                            h0,
                            self.placements@[k1].seed,
                            self.placements@[k2].seed,
                        ),
                    // Every scanned occupied cell not seeding a ramp demonstrably
                    // failed the decision chain in the state the sweep was then in.
                    forall|k: int, c: (int, int, int)|
                        #![trigger gap_failed(*old(self), self.placements@, k, c, fl)]
                        {
                            &&& oldlen <= k <= self.placements@.len()
                            &&& (k == oldlen || pass_before(fl, h0, self.placements@[k - 1].seed, c))
                            &&& (k == self.placements@.len() ==> visited_lt(fl, h0, c, z as int, y as int, 0))
                            &&& (k < self.placements@.len() ==> pass_before(fl, h0, c, self.placements@[k].seed))
                            &&& old(self).in_bounds(c)
                            &&& old(self).occupied(c)
                        } ==> gap_failed(*old(self), self.placements@, k, c, fl),
                    forall|c: (int, int, int)|
                        self.placements@.len() == oldlen && old(self).in_bounds(c) && old(
                            self,
                        ).occupied(c) && visited_lt(fl, h0, c, z as int, y as int, 0)
                            ==> #[trigger] old(self).pass_failed(c, gen_floor_else_ceil),
                decreases l - y,
            {
                let mut x: usize = 0;
                while x < w
                    invariant
                        self.inv(),
                        self.limits_ok(),
                        self.scale_ok(),
                        self.grid@ == g0,
                        self.gw() == w0,
                        self.gl() == l0,
                        self.gh() == h0,
                        self.config == cfg0,
                        self.boxes == old(self).boxes,
                        g0 == old(self).grid@,
                        w0 == old(self).gw(),
                        l0 == old(self).gl(),
                        h0 == old(self).gh(),
                        cfg0 == old(self).config,
                        oldlen == old(self).placements@.len(),
                        fl == gen_floor_else_ceil,
                        w == self.size.0 && l == self.size.1 && h == self.size.2,
                        z < h,
                        y < l,
                        x <= w,
                        oldlen + ramps@.len() == self.placements@.len(),
                        forall|k: int|
                            0 <= k < oldlen ==> self.placements@[k] == old(self).placements@[k],
                        forall|k: int|
                            oldlen <= k < self.placements@.len() ==> sweep_entry_ok(
                                g0,
                                w0,
                                l0,
                                h0,
                                self.placements@,
                                k,
                                fl,
                            ),
                        forall|k: int|
                            oldlen <= k < self.placements@.len() ==> ramps@[k - oldlen]
                                == ramp_prim_spec(
                                cfg0,
                                #[trigger] self.placements@[k],
                                majority_in(g0, w0, l0, h0, self.placements@[k]),
                            ),
                        self.placements@.len() == oldlen ==> self.claimed@ == old(self).claimed@,
                        self.placements@.len() > oldlen ==> forall|c: (int, int, int)|
                            old(self).in_bounds(c) && old(self).occupied(c) && visited_lt(
                                fl,
                                h0,
                                c,
                                (if fl {
                                    self.placements@[oldlen].seed.2
                                } else {
                                    h0 - 1 - self.placements@[oldlen].seed.2
                                }),
                                self.placements@[oldlen].seed.1,
                                self.placements@[oldlen].seed.0,
                            ) ==> #[trigger] old(self).pass_failed(c, fl),
                        // Every seed placed so far lies inside the scanned region, and
                        // the seeds follow the scan order.
                        forall|k: int|
                            oldlen <= k < self.placements@.len() ==> visited_lt(
                                fl,
                                h0,
                                (#[trigger] self.placements@[k]).seed,
                                z as int,
                                y as int,
                                x as int,
                            ),
                        forall|k1: int, k2: int|
                            #![trigger self.placements@[k1], self.placements@[k2]]
                            oldlen <= k1 < k2 < self.placements@.len() ==> pass_before(
                                fl,
                                h0,
                                self.placements@[k1].seed,
                                self.placements@[k2].seed,
                            ),
                        // Every scanned occupied cell not seeding a ramp demonstrably
                        // failed the decision chain in the state the sweep was then in.
                        forall|k: int, c: (int, int, int)|
                            #![trigger gap_failed(*old(self), self.placements@, k, c, fl)]
                            {
                                &&& oldlen <= k <= self.placements@.len()
                                &&& (k == oldlen || pass_before(fl, h0, self.placements@[k - 1].seed, c))
                                &&& (k == self.placements@.len() ==> visited_lt(fl, h0, c, z as int, y as int, x as int))
                                &&& (k < self.placements@.len() ==> pass_before(fl, h0, c, self.placements@[k].seed))
                                &&& old(self).in_bounds(c)
                                &&& old(self).occupied(c)
                            } ==> gap_failed(*old(self), self.placements@, k, c, fl),
                        forall|c: (int, int, int)|
                            self.placements@.len() == oldlen && old(self).in_bounds(c) && old(
                                self,
                            ).occupied(c) && visited_lt(fl, h0, c, z as int, y as int, x as int)
                                ==> #[trigger] old(self).pass_failed(c, gen_floor_else_ceil),
                    decreases w - x,
                {
                    let zz = if gen_floor_else_ceil {
                        z
                    } else {
                        h - 1 - z
                    };
                    let pos = VoxVector(x as isize, y as isize, zz as isize);

                    if self.vox_exists_unsafe(pos) && !self.ramp_exists(pos) {
                        match self.best_ramp_rotation(pos, gen_floor_else_ceil) {
                            Some(rot) => {
                                match self.fit_ramp(pos, rot, gen_floor_else_ceil) {
                                    Some((run, rise)) => {
                                        if rise == 0 {
                                            proof {
                                                if old(self).occupied(pos@) {
                                                    lemma_gap_here(
                                                        *old(self),
                                                        *self,
                                                        pos@,
                                                        gen_floor_else_ceil,
                                                    );
                                                }
                                                if self.placements@.len() == oldlen && old(
                                                    self,
                                                ).occupied(pos@) {
                                                    self.lemma_best_rotation_congruent(
                                                        *old(self),
                                                        pos@,
                                                        gen_floor_else_ceil,
                                                    );
                                                    self.lemma_fit_congruent(
                                                        *old(self),
                                                        pos@,
                                                        rot,
                                                        gen_floor_else_ceil,
                                                    );
                                                    assert(old(self).pass_failed(
                                                        pos@,
                                                        gen_floor_else_ceil,
                                                    ));
                                                }
                                            }
                                        }
                                        if rise >= 1 {
                                            let ghost pre = *self;
                                            let ramp = self.create_ramp(
                                                pos,
                                                run,
                                                rise,
                                                rot,
                                                gen_floor_else_ceil,
                                            );
                                            ramps.push(ramp);
                                            proof {
                                                let newlen = self.placements@.len() as int;
                                                assert(self.placements@[newlen - 1] == crate::ramps::place_of(
                                                    pos@,
                                                    run as int,
                                                    rise as int,
                                                    rot,
                                                    fl,
                                                ));
                                                let p = self.placements@[newlen - 1];
                                                assert(p.seed == pos@);
                                                assert(pre.claim_inv());
                                                assert(!pre.claimed_at(pos@));
                                                assert(!pre.ramp_covered(pos@));
                                                assert forall|k2: int|
                                                    0 <= k2 < newlen - 1 implies !(
                                                #[trigger] self.placements@[k2]).covers(p.seed) by {
                                                    assert(self.placements@[k2]
                                                        == pre.placements@[k2]);
                                                    if pre.placements@[k2].covers(p.seed) {
                                                        assert(pre.ramp_covered(pos@));
                                                    }
                                                }
                                                assert(sweep_entry_ok(
                                                    g0,
                                                    w0,
                                                    l0,
                                                    h0,
                                                    self.placements@,
                                                    newlen - 1,
                                                    fl,
                                                ));
                                                assert forall|k: int|
                                                    oldlen <= k < newlen implies sweep_entry_ok(
                                                    g0,
                                                    w0,
                                                    l0,
                                                    h0,
                                                    self.placements@,
                                                    k,
                                                    fl,
                                                ) by {
                                                    if k < newlen - 1 {
                                                        assert(sweep_entry_ok(
                                                            g0,
                                                            w0,
                                                            l0,
                                                            h0,
                                                            pre.placements@,
                                                            k,
                                                            fl,
                                                        ));
                                                        assert(self.placements@[k]
                                                            == pre.placements@[k]);
                                                        assert forall|k2: int|
                                                            0 <= k2 < k implies !(
                                                        #[trigger] self.placements@[k2]).covers(
                                                            self.placements@[k].seed,
                                                        ) by {
                                                            assert(self.placements@[k2]
                                                                == pre.placements@[k2]);
                                                            assert(!(pre.placements@[k2]).covers(
                                                                pre.placements@[k].seed,
                                                            ));
                                                        }
                                                    }
                                                }
                                                assert forall|k: int|
                                                    oldlen <= k < newlen implies ramps@[k - oldlen]
                                                    == ramp_prim_spec(
                                                    cfg0,
                                                    #[trigger] self.placements@[k],
                                                    majority_in(
                                                        g0,
                                                        w0,
                                                        l0,
                                                        h0,
                                                        self.placements@[k],
                                                    ),
                                                ) by {
                                                    if k < newlen - 1 {
                                                        assert(self.placements@[k]
                                                            == pre.placements@[k]);
                                                    }
                                                }
                                                // The new seed is the scan cell itself; earlier
                                                // seeds sit strictly before it.
                                                assert forall|k: int|
                                                    oldlen <= k < newlen implies visited_lt(
                                                    fl,
                                                    h0,
                                                    (#[trigger] self.placements@[k]).seed,
                                                    z as int,
                                                    y as int,
                                                    x as int + 1,
                                                ) by {
                                                    if k < newlen - 1 {
                                                        assert(self.placements@[k]
                                                            == pre.placements@[k]);
                                                        assert(visited_lt(
                                                            fl,
                                                            h0,
                                                            pre.placements@[k].seed,
                                                            z as int,
                                                            y as int,
                                                            x as int,
                                                        ));
                                                    }
                                                }
                                                assert forall|k1: int, k2: int|
                                                    oldlen <= k1 < k2 < newlen implies pass_before(
                                                    fl,
                                                    h0,
                                                    (#[trigger] self.placements@[k1]).seed,
                                                    (#[trigger] self.placements@[k2]).seed,
                                                ) by {
                                                    assert(self.placements@[k1]
                                                        == pre.placements@[k1]);
                                                    if k2 < newlen - 1 {
                                                        assert(self.placements@[k2]
                                                            == pre.placements@[k2]);
                                                        assert(pass_before(
                                                            fl,
                                                            h0,
                                                            pre.placements@[k1].seed,
                                                            pre.placements@[k2].seed,
                                                        ));
                                                    } else {
                                                        assert(visited_lt(
                                                            fl,
                                                            h0,
                                                            pre.placements@[k1].seed,
                                                            z as int,
                                                            y as int,
                                                            x as int,
                                                        ));
                                                    }
                                                }
                                                // Recorded gap failures survive the placement;
                                                // the region past the new seed is unscanned.
                                                assert forall|k: int, c: (int, int, int)|
                                                    {
                                                        &&& oldlen <= k <= newlen
                                                        &&& (k == oldlen || pass_before(
                                                            fl,
                                                            h0,
                                                            self.placements@[k - 1].seed,
                                                            c,
                                                        ))
                                                        &&& (k == newlen ==> visited_lt(
                                                            fl,
                                                            h0,
                                                            c,
                                                            z as int,
                                                            y as int,
                                                            x as int + 1,
                                                        ))
                                                        &&& (k < newlen ==> pass_before(
                                                            fl,
                                                            h0,
                                                            c,
                                                            self.placements@[k].seed,
                                                        ))
                                                        &&& old(self).in_bounds(c)
                                                        &&& old(self).occupied(c)
                                                    } implies gap_failed(
                                                    *old(self),
                                                    self.placements@,
                                                    k,
                                                    c,
                                                    fl,
                                                ) by {
                                                    if k < newlen {
                                                        if k > oldlen {
                                                            assert(self.placements@[k - 1]
                                                                == pre.placements@[k - 1]);
                                                        }
                                                        if k < newlen - 1 {
                                                            assert(self.placements@[k]
                                                                == pre.placements@[k]);
                                                        }
                                                        assert(gap_failed(
                                                            *old(self),
                                                            pre.placements@,
                                                            k,
                                                            c,
                                                            fl,
                                                        ));
                                                        lemma_gap_push(
                                                            *old(self),
                                                            pre.placements@,
                                                            p,
                                                            k,
                                                            c,
                                                            fl,
                                                        );
                                                    } else {
                                                        assert(pass_before(fl, h0, pos@, c));
                                                        assert(visited_lt(
                                                            fl,
                                                            h0,
                                                            c,
                                                            z as int,
                                                            y as int,
                                                            x as int + 1,
                                                        ));
                                                        assert(false);
                                                    }
                                                }
                                            }
                                        }
                                    },
                                    None => {
                                        proof {
                                            if old(self).occupied(pos@) {
                                                lemma_gap_here(
                                                    *old(self),
                                                    *self,
                                                    pos@,
                                                    gen_floor_else_ceil,
                                                );
                                            }
                                            if self.placements@.len() == oldlen && old(
                                                self,
                                            ).occupied(pos@) {
                                                self.lemma_best_rotation_congruent(
                                                    *old(self),
                                                    pos@,
                                                    gen_floor_else_ceil,
                                                );
                                                self.lemma_fit_congruent(
                                                    *old(self),
                                                    pos@,
                                                    rot,
                                                    gen_floor_else_ceil,
                                                );
                                                assert(old(self).pass_failed(
                                                    pos@,
                                                    gen_floor_else_ceil,
                                                ));
                                            }
                                        }
                                    },
                                }
                            },
                            None => {
                                proof {
                                    if old(self).occupied(pos@) {
                                        lemma_gap_here(
                                            *old(self),
                                            *self,
                                            pos@,
                                            gen_floor_else_ceil,
                                        );
                                    }
                                    if self.placements@.len() == oldlen && old(self).occupied(
                                        pos@,
                                    ) {
                                        self.lemma_best_rotation_congruent(
                                            *old(self),
                                            pos@,
                                            gen_floor_else_ceil,
                                        );
                                        assert(old(self).pass_failed(pos@, gen_floor_else_ceil));
                                    }
                                }
                            },
                        }
                    } else {
                        proof {
                            if old(self).occupied(pos@) {
                                assert(self.occupied(pos@));
                                assert(self.claimed_at(pos@));
                                lemma_gap_here(*old(self), *self, pos@, gen_floor_else_ceil);
                                if self.placements@.len() == oldlen {
                                    assert(old(self).claimed_at(pos@));
                                    assert(old(self).pass_failed(pos@, gen_floor_else_ceil));
                                }
                            }
                        }
                    }
                    x += 1;
                }
                y += 1;
            }
            z += 1;
        }

        proof {
            if ramps@.len() == 0 {
                assert forall|c: (int, int, int)|
                    old(self).in_bounds(c) && old(self).occupied(c) implies #[trigger] old(
                    self,
                ).pass_failed(c, gen_floor_else_ceil) by {
                    assert(visited_lt(fl, h0, c, h as int, 0, 0));
                }
            }
            if ramps@.len() > 0 && (forall|c: (int, int, int)|
                old(self).in_bounds(c) ==> !old(self).occupied(c)) {
                assert(sweep_entry_ok(g0, w0, l0, h0, self.placements@, oldlen, fl));
                let seed = self.placements@[oldlen].seed;
                assert(old(self).in_bounds(seed));
                assert(old(self).occupied(seed));
                assert(false);
            }
            assert forall|c: (int, int, int)|
                #![trigger self.claimed_at(c)]
                self.claimed_at(c) implies old(self).claimed_at(c) || self.ramp_covered(c) by {
                if self.in_bounds(c) {
                    assert(self.claimed_at(c) <==> self.ramp_covered(c));
                }
            }
            // With the whole grid scanned, the gap facts need no frontier.
            let newlen = self.placements@.len() as int;
            assert forall|k: int, c: (int, int, int)|
                {
                    &&& oldlen <= k <= newlen
                    &&& (k == oldlen || pass_before(fl, h0, self.placements@[k - 1].seed, c))
                    &&& (k < newlen ==> pass_before(fl, h0, c, self.placements@[k].seed))
                    &&& old(self).in_bounds(c)
                    &&& old(self).occupied(c)
                } implies gap_failed(*old(self), self.placements@, k, c, fl) by {
                if k == newlen {
                    assert(visited_lt(fl, h0, c, h as int, 0, 0));
                }
            }
        }

        ramps
    }

    /// Writes every ramp-claimed cell back into the grid as empty. This is
    /// the one deferred commit after the two sweep passes.
    pub fn remove_occupied_voxels(&mut self)
        requires
            old(self).inv(),
        ensures
            final(self).inv(),
            final(self).size == old(self).size,
            final(self).config == old(self).config,
            final(self).claimed@ == old(self).claimed@,
            final(self).placements == old(self).placements,
            final(self).boxes == old(self).boxes,
            final(self).grid@.len() == old(self).grid@.len(),
            forall|c: (int, int, int)|
                #![trigger final(self).cell(c)]
                final(self).cell(c) == (if old(self).claimed_at(c) {
                    None::<u8>
                } else {
                    old(self).cell(c)
                }),
    {
        let n: usize = self.grid.len();
        let mut idx: usize = 0;
        while idx < n
            invariant
                self.wf(),
                self.size == old(self).size,
                self.config == old(self).config,
                self.claimed@ == old(self).claimed@,
                self.placements == old(self).placements,
                self.boxes == old(self).boxes,
                n == self.grid@.len(),
                self.grid@.len() == old(self).grid@.len(),
                idx <= n,
                forall|i: int|
                    0 <= i < idx ==> self.grid@[i] == (if old(self).claimed@[i] {
                        None::<u8>
                    } else {
                        old(self).grid@[i]
                    }),
                forall|i: int| idx <= i < n ==> self.grid@[i] == old(self).grid@[i],
            decreases n - idx,
        {
            if self.claimed[idx] {
                self.grid[idx] = None;
            }
            idx += 1;
        }
        proof {
            assert forall|c: (int, int, int)|
                self.cell(c) == (if old(self).claimed_at(c) {
                    None::<u8>
                } else {
                    old(self).cell(c)
                }) by {
                if self.in_bounds(c) {
                    lemma_index_bounds(self.gw(), self.gl(), self.gh(), c.0, c.1, c.2);
                }
            }
            assert forall|c: (int, int, int)|
                self.in_bounds(c) implies (self.claimed_at(c) <==> self.ramp_covered(c)) by {
                assert(old(self).claimed_at(c) <==> old(self).ramp_covered(c));
            }
        }
    }
}

} // verus!
