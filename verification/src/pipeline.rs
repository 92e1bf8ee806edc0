//! The full conversion: floor-pass ramp sweep, ceiling-pass ramp sweep, the
//! one deferred occupancy commit, then the greedy box filler, emitting
//! primitives in exactly that order. Every cell occupied at the start ends
//! inside some ramp footprint or inside exactly one box, no box overlaps a
//! ramp footprint or another box, and the grid comes out empty.

use vstd::prelude::*;
use crate::fill::{box_wf, boxes_disjoint, covered_from, fill_entry_ok};
use crate::grid::{bounds_in, cell_in, Rampifier};
use crate::primitive::{box_prim_spec, ramp_prim_spec, Placement, Primitive};
use crate::ramps::majority_in;
use crate::sweep::sweep_entry_ok;

verus! {

/// What the pipeline guarantees of the `k`-th recorded ramp placement: its
/// seed was an occupied in-bounds cell of the original grid, and no earlier
/// placement's footprint covers it — a claimed cell is never re-seeded.
pub open spec fn ramp_entry_ok(
    g: Seq<Option<u8>>,
    w: int,
    l: int,
    h: int,
    ps: Seq<Placement>,
    k: int,
) -> bool {
    let p = ps[k];
    &&& bounds_in(w, l, h, p.seed)
    &&& cell_in(g, w, l, h, p.seed) is Some
    &&& 1 <= p.run && 1 <= p.rise
    &&& forall|k2: int| 0 <= k2 < k ==> !(#[trigger] ps[k2]).covers(p.seed)
}

impl Rampifier {
    /// What the pipeline guarantees of the `k`-th emitted box: well-formed,
    /// and every cell it covers was occupied in the original grid with the
    /// box's material and lies in no ramp footprint — boxes overlap neither
    /// ramps nor, being pairwise disjoint, each other.
    pub open spec fn box_entry_full(self, g0: Seq<Option<u8>>, k: int) -> bool {
        let b = self.boxes@[k];
        &&& box_wf(b, self.gw(), self.gl(), self.gh())
        &&& forall|c: (int, int, int)|
            #[trigger] b.covers(c) ==> !self.claimed_at(c) && cell_in(
                g0,
                self.gw(),
                self.gl(),
                self.gh(),
                c,
            ) == Some(b.m)
    }

    /// Runs the whole conversion on a freshly constructed engine: the floor
    /// ramp pass, the ceiling ramp pass, the deferred removal of claimed
    /// cells, and the greedy box fill, returning the primitives in that
    /// order. Afterward every originally occupied cell is claimed by a ramp
    /// or covered by exactly one box, and the grid is entirely empty.
    #[verifier::rlimit(30)]
    pub fn generate_all(&mut self) -> (prims: Vec<Primitive>)
        requires
            old(self).inv(),
            old(self).limits_ok(),
            old(self).scale_ok(),
            old(self).fresh(),
        ensures
            final(self).inv(),
            final(self).size == old(self).size,
            final(self).config == old(self).config,
            final(self).placements@.len() + final(self).boxes@.len() == prims@.len(),
            // Ramps come first, each exactly the primitive of its recorded
            // placement, colored by majority vote over the original grid.
            forall|k: int|
                0 <= k < final(self).placements@.len() ==> prims@[k] == ramp_prim_spec(
                    old(self).config,
                    #[trigger] final(self).placements@[k],
                    majority_in(
                        old(self).grid@,
                        old(self).gw(),
                        old(self).gl(),
                        old(self).gh(),
                        final(self).placements@[k],
                    ),
                ),
            forall|k: int|
                0 <= k < final(self).placements@.len() ==> #[trigger] ramp_entry_ok(
                    old(self).grid@,
                    old(self).gw(),
                    old(self).gl(),
                    old(self).gh(),
                    final(self).placements@,
                    k,
                ),
            // Boxes follow, each exactly the primitive of its grid-space box.
            forall|k: int|
                0 <= k < final(self).boxes@.len() ==> prims@[final(self).placements@.len() + k]
                    == box_prim_spec(old(self).config, #[trigger] final(self).boxes@[k]),
            forall|k: int|
                0 <= k < final(self).boxes@.len() ==> final(self).box_entry_full(
                    old(self).grid@,
                    k,
                ),
            forall|k1: int, k2: int|
                0 <= k1 < k2 < final(self).boxes@.len() ==> #[trigger] boxes_disjoint(
                    final(self).boxes@,
                    k1,
                    k2,
                ),
            // Every originally occupied cell is covered: claimed by a ramp
            // footprint or covered by a box.
            forall|c: (int, int, int)|
                #![trigger old(self).cell(c)]
                old(self).in_bounds(c) && old(self).occupied(c) ==> final(self).claimed_at(c)
                    || covered_from(final(self).boxes@, 0, c),
            // No cell is left occupied.
            forall|c: (int, int, int)|
                #![trigger final(self).cell(c)]
                old(self).in_bounds(c) ==> final(self).cell(c) is None,
            (forall|c: (int, int, int)|
                old(self).in_bounds(c) ==> !old(self).occupied(c)) ==> prims@.len() == 0,
            // A run that places no ramps rightly found no ramp opportunity
            // in either pass.
            final(self).placements@.len() == 0 ==> forall|c: (int, int, int)|
                old(self).in_bounds(c) && old(self).occupied(c) ==> #[trigger] old(
                    self,
                ).pass_failed(c, true),
            final(self).placements@.len() == 0 ==> forall|c: (int, int, int)|
                old(self).in_bounds(c) && old(self).occupied(c) ==> #[trigger] old(
                    self,
                ).pass_failed(c, false),
    {
        let ghost g0 = self.grid@;
        let ghost w0: int = self.gw();
        let ghost l0: int = self.gl();
        let ghost h0: int = self.gh();
        let ghost cfg0 = self.config;

        let mut prims = self.generate_ramps(true);
        let ghost s1 = *self;
        let mut ceil = self.generate_ramps(false);
        let ghost s2 = *self;
        let ghost n1: int = s1.placements@.len() as int;
        let ghost n2: int = s2.placements@.len() as int;
        proof {
            assert forall|c: (int, int, int)|
                s1.in_bounds(c) && !old(self).occupied(c) implies !s1.occupied(c) by {}
        }
        prims.append(&mut ceil);

        self.remove_occupied_voxels();
        let ghost s3 = *self;

        let mut boxes = self.fill_boxes();
        let ghost n3: int = self.boxes@.len() as int;
        proof {
            // The ramp placements survive both later stages untouched.
            assert(self.placements@ == s2.placements@);
            assert(prims@.len() == n2);

            // Each placement keeps the sweep guarantees over the original
            // grid, whichever pass recorded it.
            assert forall|k: int|
                0 <= k < n2 implies #[trigger] ramp_entry_ok(
                g0,
                w0,
                l0,
                h0,
                self.placements@,
                k,
            ) by {
                if k < n1 {
                    assert(sweep_entry_ok(g0, w0, l0, h0, s1.placements@, k, true));
                    assert forall|k2: int|
                        0 <= k2 < k implies !(#[trigger] self.placements@[k2]).covers(
                        self.placements@[k].seed,
                    ) by {
                        assert(s2.placements@[k2] == s1.placements@[k2]);
                        assert(!(s1.placements@[k2]).covers(s1.placements@[k].seed));
                    }
                } else {
                    assert(sweep_entry_ok(g0, w0, l0, h0, s2.placements@, k, false));
                    assert(cell_in(s1.grid@, w0, l0, h0, s2.placements@[k].seed) is Some);
                }
            }

            // Each ramp primitive is the one its placement determines.
            assert forall|k: int|
                0 <= k < n2 implies prims@[k] == ramp_prim_spec(
                cfg0,
                #[trigger] self.placements@[k],
                majority_in(g0, w0, l0, h0, self.placements@[k]),
            ) by {
                if k < n1 {
                    assert(s2.placements@[k] == s1.placements@[k]);
                }
            }

            // Each box covers only unclaimed cells that held its material
            // in the original grid.
            assert forall|k: int|
                0 <= k < n3 implies self.box_entry_full(g0, k) by {
                assert(fill_entry_ok(s3.grid@, w0, l0, h0, self.boxes@, k));
                let b = self.boxes@[k];
                assert forall|c: (int, int, int)|
                    #[trigger] b.covers(c) implies !self.claimed_at(c) && cell_in(
                    g0,
                    w0,
                    l0,
                    h0,
                    c,
                ) == Some(b.m) by {
                    assert(cell_in(s3.grid@, w0, l0, h0, c) == Some(b.m));
                    assert(s3.cell(c) == Some(b.m));
                    assert(s3.cell(c) == (if s2.claimed_at(c) {
                        None::<u8>
                    } else {
                        s2.cell(c)
                    }));
                    assert(self.claimed_at(c) == s2.claimed_at(c));
                }
            }

            // Every originally occupied cell was claimed by the sweep or
            // survived to the filler, which covered it.
            assert forall|c: (int, int, int)|
                self.in_bounds(c) && cell_in(g0, w0, l0, h0, c) is Some implies self.claimed_at(c)
                || covered_from(self.boxes@, 0, c) by {
                assert(s2.cell(c) == cell_in(g0, w0, l0, h0, c));
                assert(s3.cell(c) == (if s2.claimed_at(c) {
                    None::<u8>
                } else {
                    s2.cell(c)
                }));
                if !s2.claimed_at(c) {
                    assert(s3.in_bounds(c) && s3.occupied(c));
                    assert(covered_from(self.boxes@, s3.boxes@.len() as int, c));
                    assert(s3.boxes@.len() == 0);
                }
                assert(self.claimed_at(c) == s2.claimed_at(c));
            }

            // If neither pass placed a ramp, each pass certified failure of
            // the decision chain at every occupied cell, and the ceiling
            // pass ran over a state reading identically to the initial one.
            if n2 == 0 {
                assert(n1 == 0);
                assert(s1.claimed@ == old(self).claimed@);
                assert(s2.claimed@ == s1.claimed@);
                assert forall|c: (int, int, int)|
                    old(self).in_bounds(c) && old(self).occupied(c) implies #[trigger] old(
                    self,
                ).pass_failed(c, true) && old(self).pass_failed(c, false) by {
                    assert(old(self).pass_failed(c, true));
                    assert(s1.in_bounds(c) && s1.occupied(c));
                    assert(s1.pass_failed(c, false));
                    s1.lemma_best_rotation_congruent(*old(self), c, false);
                    assert(s1.claimed_at(c) == old(self).claimed_at(c));
                    match s1.best_rotation_spec(c, false) {
                        None => {},
                        Some(rot) => {
                            s1.lemma_fit_congruent(*old(self), c, rot, false);
                        },
                    }
                }
            }

            // An entirely empty grid yields nothing from any stage.
            if forall|c: (int, int, int)|
                old(self).in_bounds(c) ==> !old(self).occupied(c) {
                assert(prims@.len() == 0);
                assert forall|c: (int, int, int)|
                    s3.in_bounds(c) implies !(#[trigger] s3.occupied(c)) by {
                    assert(s3.cell(c) == (if s2.claimed_at(c) {
                        None::<u8>
                    } else {
                        s2.cell(c)
                    }));
                    assert(s2.cell(c) == cell_in(g0, w0, l0, h0, c));
                    assert(!old(self).occupied(c));
                }
                assert(boxes@.len() == 0);
            }
        }

        proof {
            if self.placements@.len() == 0 {
                assert(n2 == 0);
                assert forall|c: (int, int, int)|
                    old(self).in_bounds(c) && old(self).occupied(c) implies #[trigger] old(
                    self,
                ).pass_failed(c, true) by {}
                assert forall|c: (int, int, int)|
                    old(self).in_bounds(c) && old(self).occupied(c) implies #[trigger] old(
                    self,
                ).pass_failed(c, false) by {
                    assert(old(self).pass_failed(c, true));
                }
            }
        }
        prims.append(&mut boxes);
        prims
    }
}

} // verus!
