//! The greedy box filler: for every remaining occupied cell in scan order,
//! grow a candidate box — height first, then width, then length — while
//! every covered cell holds the seed's material and stays inside the grid,
//! then clear the covered cells and emit one box primitive.

use vstd::prelude::*;
use crate::grid::{cell_in, lemma_index_bounds, lemma_index_injective, Rampifier};
use crate::primitive::{box_prim_fits, box_prim_spec, GridBox, Primitive};

verus! {

/// Whether `c` lies in the axis-aligned box at `p` of extent `s`.
pub open spec fn in_box(p: (int, int, int), s: (int, int, int), c: (int, int, int)) -> bool {
    &&& p.0 <= c.0 < p.0 + s.0
    &&& p.1 <= c.1 < p.1 + s.1
    &&& p.2 <= c.2 < p.2 + s.2
}

/// The box cells visited before reaching offsets `(i, j, k)` in the scan
/// of a box: all cells lexicographically below them.
pub open spec fn box_prefix(
    p: (int, int, int),
    s: (int, int, int),
    c: (int, int, int),
    i: int,
    j: int,
    k: int,
) -> bool {
    &&& in_box(p, s, c)
    &&& (c.0 - p.0 < i || (c.0 - p.0 == i && (c.1 - p.1 < j || (c.1 - p.1 == j && c.2 - p.2
        < k))))
}

/// The maximum box extent the filler grows to, per axis.
pub const MAX_BOX: usize = 64;

/// A well-formed emitted box: positive extents within the growth cap,
/// entirely inside a W x L x H grid.
pub open spec fn box_wf(b: GridBox, w: int, l: int, h: int) -> bool {
    &&& 0 <= b.x && b.x + b.w <= w
    &&& 0 <= b.y && b.y + b.l <= l
    &&& 0 <= b.z && b.z + b.h <= h
    &&& 1 <= b.w <= MAX_BOX
    &&& 1 <= b.l <= MAX_BOX
    &&& 1 <= b.h <= MAX_BOX
}

/// What the filler guarantees of the `k`-th emitted box: well-formed, and
/// every cell it covers held exactly the box's material in the grid the
/// filler started from — a box never crosses a material boundary and never
/// covers an empty cell.
pub open spec fn fill_entry_ok(
    g: Seq<Option<u8>>,
    w: int,
    l: int,
    h: int,
    bs: Seq<GridBox>,
    k: int,
) -> bool {
    let b = bs[k];
    &&& box_wf(b, w, l, h)
    &&& forall|c: (int, int, int)| #[trigger] b.covers(c) ==> cell_in(g, w, l, h, c) == Some(b.m)
}

/// Whether the footprints of the `k1`-th and `k2`-th boxes are disjoint in
/// grid space.
pub open spec fn boxes_disjoint(bs: Seq<GridBox>, k1: int, k2: int) -> bool {
    forall|c: (int, int, int)| !((#[trigger] bs[k1].covers(c)) && bs[k2].covers(c))
}

/// Whether some box from index `from` on covers `c`.
pub open spec fn covered_from(bs: Seq<GridBox>, from: int, c: (int, int, int)) -> bool {
    exists|k: int| from <= k < bs.len() && (#[trigger] bs[k]).covers(c)
}

/// Whether some box with index in `[from, to)` covers `c`.
pub open spec fn covered_range(bs: Seq<GridBox>, from: int, to: int, c: (int, int, int)) -> bool {
    exists|k: int| from <= k < to && k < bs.len() && (#[trigger] bs[k]).covers(c)
}

/// Whether a box of extent `s` seeded at `p` could still be placed when the
/// boxes `[from, to)` had already been emitted: inside the grid, every cell
/// holding material `m` in the filler's entry grid, and none covered yet.
pub open spec fn growable(
    g: Seq<Option<u8>>,
    w: int,
    l: int,
    h: int,
    bs: Seq<GridBox>,
    from: int,
    to: int,
    m: u8,
    p: (int, int, int),
    s: (int, int, int),
) -> bool {
    &&& p.0 + s.0 <= w
    &&& p.1 + s.1 <= l
    &&& p.2 + s.2 <= h
    &&& forall|c: (int, int, int)|
        in_box(p, s, c) ==> #[trigger] cell_in(g, w, l, h, c) == Some(m) && !covered_range(
            bs,
            from,
            to,
            c,
        )
}

/// The growth of the `k`-th emitted box was maximal, in the fixed priority
/// order: height could grow no further at unit width and length, then width
/// no further at the grown height, then length no further at the grown
/// width and height — each stopped by the grid edge, an empty or foreign
/// cell, a cell an earlier box already covered, or the growth cap.
pub open spec fn fill_entry_max(
    g: Seq<Option<u8>>,
    w: int,
    l: int,
    h: int,
    bs: Seq<GridBox>,
    from: int,
    k: int,
) -> bool {
    let b = bs[k];
    let p = (b.x, b.y, b.z);
    &&& (b.h == MAX_BOX || !growable(g, w, l, h, bs, from, k, b.m, p, (1, 1, b.h + 1)))
    &&& (b.w == MAX_BOX || !growable(g, w, l, h, bs, from, k, b.m, p, (b.w + 1, 1, b.h)))
    &&& (b.l == MAX_BOX || !growable(g, w, l, h, bs, from, k, b.m, p, (b.w, b.l + 1, b.h)))
}

/// The fixed scan order of the filler: z outermost, then y, then x.
pub open spec fn scan_lt(c: (int, int, int), d: (int, int, int)) -> bool {
    ||| c.2 < d.2
    ||| (c.2 == d.2 && c.1 < d.1)
    ||| (c.2 == d.2 && c.1 == d.1 && c.0 < d.0)
}

/// The `k`-th box was seeded at the scan-least remaining cell: every
/// occupied cell before its seed in scan order was already covered by an
/// earlier box.
pub open spec fn fill_entry_first(
    g: Seq<Option<u8>>,
    w: int,
    l: int,
    h: int,
    bs: Seq<GridBox>,
    from: int,
    k: int,
) -> bool {
    let b = bs[k];
    forall|c: (int, int, int)|
        #![trigger cell_in(g, w, l, h, c)]
        crate::grid::bounds_in(w, l, h, c) && scan_lt(c, (b.x, b.y, b.z)) && cell_in(g, w, l, h, c)
            is Some ==> covered_range(bs, from, k, c)
}

/// Range coverage below `to` ignores an appended box.
proof fn lemma_covered_range_push(
    bs: Seq<GridBox>,
    gb: GridBox,
    from: int,
    to: int,
    c: (int, int, int),
)
    requires
        0 <= from,
        to <= bs.len(),
    ensures
        covered_range(bs.push(gb), from, to, c) == covered_range(bs, from, to, c),
{
    if covered_range(bs.push(gb), from, to, c) {
        let k = choose|k: int|
            from <= k < to && k < bs.push(gb).len() && (#[trigger] bs.push(gb)[k]).covers(c);
        assert(bs[k].covers(c));
    }
    if covered_range(bs, from, to, c) {
        let k = choose|k: int|
            from <= k < to && k < bs.len() && (#[trigger] bs[k]).covers(c);
        assert(bs.push(gb)[k].covers(c));
    }
}

/// Growth possibility below `to` ignores an appended box.
proof fn lemma_growable_push(
    g: Seq<Option<u8>>,
    w: int,
    l: int,
    h: int,
    bs: Seq<GridBox>,
    gb: GridBox,
    from: int,
    to: int,
    m: u8,
    p: (int, int, int),
    s: (int, int, int),
)
    requires
        0 <= from,
        to <= bs.len(),
    ensures
        growable(g, w, l, h, bs.push(gb), from, to, m, p, s) == growable(
            g,
            w,
            l,
            h,
            bs,
            from,
            to,
            m,
            p,
            s,
        ),
{
    assert forall|c: (int, int, int)|
        covered_range(bs.push(gb), from, to, c) == covered_range(bs, from, to, c) by {
        lemma_covered_range_push(bs, gb, from, to, c);
    }
}

/// Coverage from `from` on is exactly range coverage up to the length.
proof fn lemma_covered_from_is_range(bs: Seq<GridBox>, from: int, c: (int, int, int))
    ensures
        covered_from(bs, from, c) == covered_range(bs, from, bs.len() as int, c),
{
}

impl Rampifier {
    /// Whether a box of the given size seeded at `pos` stays inside the
    /// grid and covers only cells of material `value`.
    pub open spec fn boxable(self, m: u8, p: (int, int, int), s: (int, int, int)) -> bool {
        &&& p.0 + s.0 <= self.gw()
        &&& p.1 + s.1 <= self.gl()
        &&& p.2 + s.2 <= self.gh()
        &&& forall|c: (int, int, int)| in_box(p, s, c) ==> #[trigger] self.cell(c) == Some(m)
    }

    /// Whether every cell of the candidate box holds exactly `value`.
    pub(crate) fn can_box(
        &self,
        value: u8,
        pos: (usize, usize, usize),
        size: (usize, usize, usize),
    ) -> (r: bool)
        requires
            self.wf(),
            self.in_bounds((pos.0 as int, pos.1 as int, pos.2 as int)),
            size.0 <= 65 && size.1 <= 65 && size.2 <= 65,
        ensures
            r == self.boxable(
                value,
                (pos.0 as int, pos.1 as int, pos.2 as int),
                (size.0 as int, size.1 as int, size.2 as int),
            ),
    {
        let ghost p = (pos.0 as int, pos.1 as int, pos.2 as int);
        let ghost s = (size.0 as int, size.1 as int, size.2 as int);

        if pos.0 + size.0 > self.size.0 {
            return false;
        }
        if pos.1 + size.1 > self.size.1 {
            return false;
        }
        if pos.2 + size.2 > self.size.2 {
            return false;
        }

        let mut i: usize = 0;
        while i < size.0
            invariant
                self.wf(),
                p == (pos.0 as int, pos.1 as int, pos.2 as int),
                s == (size.0 as int, size.1 as int, size.2 as int),
                p.0 + s.0 <= self.gw(),
                p.1 + s.1 <= self.gl(),
                p.2 + s.2 <= self.gh(),
                i <= size.0,
                forall|c: (int, int, int)|
                    box_prefix(p, s, c, i as int, 0, 0) ==> #[trigger] self.cell(c) == Some(value),
            decreases size.0 - i,
        {
            let mut j: usize = 0;
            while j < size.1
                invariant
                    self.wf(),
                    p == (pos.0 as int, pos.1 as int, pos.2 as int),
                    s == (size.0 as int, size.1 as int, size.2 as int),
                    p.0 + s.0 <= self.gw(),
                    p.1 + s.1 <= self.gl(),
                    p.2 + s.2 <= self.gh(),
                    i < size.0,
                    j <= size.1,
                    forall|c: (int, int, int)|
                        box_prefix(p, s, c, i as int, j as int, 0) ==> #[trigger] self.cell(c)
                            == Some(value),
                decreases size.1 - j,
            {
                let mut k: usize = 0;
                while k < size.2
                    invariant
                        self.wf(),
                        p == (pos.0 as int, pos.1 as int, pos.2 as int),
                        s == (size.0 as int, size.1 as int, size.2 as int),
                        p.0 + s.0 <= self.gw(),
                        p.1 + s.1 <= self.gl(),
                        p.2 + s.2 <= self.gh(),
                        i < size.0,
                        j < size.1,
                        k <= size.2,
                        forall|c: (int, int, int)|
                            box_prefix(p, s, c, i as int, j as int, k as int) ==> #[trigger] self.cell(
                                c,
                            ) == Some(value),
                    decreases size.2 - k,
                {
                    let cc = (pos.0 + i, pos.1 + j, pos.2 + k);
                    match self.get_point(cc) {
                        Some(v) => {
                            if v != value {
                                return false;
                            }
                        },
                        None => {
                            return false;
                        },
                    }
                    k += 1;
                }
                j += 1;
            }
            i += 1;
        }
        true
    }

    /// Clears every cell of a box back to empty air.
    pub(crate) fn box_remove(&mut self, pos: (usize, usize, usize), size: (usize, usize, usize))
        requires
            old(self).wf(),
            pos.0 + size.0 <= old(self).gw(),
            pos.1 + size.1 <= old(self).gl(),
            pos.2 + size.2 <= old(self).gh(),
            size.0 <= 65 && size.1 <= 65 && size.2 <= 65,
        ensures
            final(self).wf(),
            final(self).size == old(self).size,
            final(self).config == old(self).config,
            final(self).claimed@ == old(self).claimed@,
            final(self).placements == old(self).placements,
            final(self).boxes == old(self).boxes,
            final(self).grid@.len() == old(self).grid@.len(),
            forall|c: (int, int, int)|
                #![trigger final(self).cell(c)]
                final(self).cell(c) == (if in_box(
                    (pos.0 as int, pos.1 as int, pos.2 as int),
                    (size.0 as int, size.1 as int, size.2 as int),
                    c,
                ) {
                    None::<u8>
                } else {
                    old(self).cell(c)
                }),
    {
        let ghost p = (pos.0 as int, pos.1 as int, pos.2 as int);
        let ghost s = (size.0 as int, size.1 as int, size.2 as int);

        let mut i: usize = 0;
        while i < size.0
            invariant
                self.wf(),
                self.size == old(self).size,
                self.config == old(self).config,
                self.claimed@ == old(self).claimed@,
                self.placements == old(self).placements,
                self.boxes == old(self).boxes,
                self.grid@.len() == old(self).grid@.len(),
                p == (pos.0 as int, pos.1 as int, pos.2 as int),
                s == (size.0 as int, size.1 as int, size.2 as int),
                p.0 + s.0 <= self.gw(),
                p.1 + s.1 <= self.gl(),
                p.2 + s.2 <= self.gh(),
                s.0 <= 65 && s.1 <= 65 && s.2 <= 65,
                i <= size.0,
                forall|c: (int, int, int)|
                    #![trigger self.cell(c)]
                    self.cell(c) == (if box_prefix(p, s, c, i as int, 0, 0) {
                        None::<u8>
                    } else {
                        old(self).cell(c)
                    }),
            decreases size.0 - i,
        {
            let mut j: usize = 0;
            while j < size.1
                invariant
                    self.wf(),
                    self.size == old(self).size,
                    self.config == old(self).config,
                    self.claimed@ == old(self).claimed@,
                    self.placements == old(self).placements,
                    self.boxes == old(self).boxes,
                    self.grid@.len() == old(self).grid@.len(),
                    p == (pos.0 as int, pos.1 as int, pos.2 as int),
                    s == (size.0 as int, size.1 as int, size.2 as int),
                    p.0 + s.0 <= self.gw(),
                    p.1 + s.1 <= self.gl(),
                    p.2 + s.2 <= self.gh(),
                    s.0 <= 65 && s.1 <= 65 && s.2 <= 65,
                    i < size.0,
                    j <= size.1,
                    forall|c: (int, int, int)|
                        #![trigger self.cell(c)]
                        self.cell(c) == (if box_prefix(p, s, c, i as int, j as int, 0) {
                            None::<u8>
                        } else {
                            old(self).cell(c)
                        }),
                decreases size.1 - j,
            {
                let mut k: usize = 0;
                while k < size.2
                    invariant
                        self.wf(),
                        self.size == old(self).size,
                        self.config == old(self).config,
                        self.claimed@ == old(self).claimed@,
                        self.placements == old(self).placements,
                        self.boxes == old(self).boxes,
                        self.grid@.len() == old(self).grid@.len(),
                        p == (pos.0 as int, pos.1 as int, pos.2 as int),
                        s == (size.0 as int, size.1 as int, size.2 as int),
                        p.0 + s.0 <= self.gw(),
                        p.1 + s.1 <= self.gl(),
                        p.2 + s.2 <= self.gh(),
                        s.0 <= 65 && s.1 <= 65 && s.2 <= 65,
                        i < size.0,
                        j < size.1,
                        k <= size.2,
                        forall|c: (int, int, int)|
                            #![trigger self.cell(c)]
                            self.cell(c) == (if box_prefix(p, s, c, i as int, j as int, k as int) {
                                None::<u8>
                            } else {
                                old(self).cell(c)
                            }),
                    decreases size.2 - k,
                {
                    let cc = (pos.0 + i, pos.1 + j, pos.2 + k);
                    let index: usize = self.grid_index(cc);
                    let ghost pre = *self;
                    self.grid[index] = None;
                    proof {
                        let target = (cc.0 as int, cc.1 as int, cc.2 as int);
                        assert forall|c: (int, int, int)|
                            self.cell(c) == (if box_prefix(p, s, c, i as int, j as int, k as int
                                + 1) {
                                None::<u8>
                            } else {
                                old(self).cell(c)
                            }) by {
                            assert(pre.cell(c) == (if box_prefix(p, s, c, i as int, j as int, k as int) {
                                None::<u8>
                            } else {
                                old(self).cell(c)
                            }));
                            if self.in_bounds(c) {
                                lemma_index_bounds(self.gw(), self.gl(), self.gh(), c.0, c.1, c.2);
                                if c != target && self.index_of(c) == self.index_of(target) {
                                    lemma_index_injective(
                                        self.gw(),
                                        self.gl(),
                                        self.gh(),
                                        c.0,
                                        c.1,
                                        c.2,
                                        target.0,
                                        target.1,
                                        target.2,
                                    );
                                }
                            }
                        }
                    }
                    k += 1;
                }
                j += 1;
            }
            i += 1;
        }
    }
}


/// No grid cell is covered by two emitted boxes: together with the
/// coverage guarantee of the filler, every cell occupied when the filler
/// started is covered by exactly one emitted box.
pub proof fn lemma_box_cover_unique(
    bs: Seq<GridBox>,
    from: int,
    k1: int,
    k2: int,
    c: (int, int, int),
)
    requires
        forall|i: int, j: int|
            from <= i < j < bs.len() ==> #[trigger] boxes_disjoint(bs, i, j),
        from <= k1 < bs.len(),
        from <= k2 < bs.len(),
        bs[k1].covers(c),
        bs[k2].covers(c),
    ensures
        k1 == k2,
{
    if k1 < k2 {
        assert(boxes_disjoint(bs, k1, k2));
    } else if k2 < k1 {
        assert(boxes_disjoint(bs, k2, k1));
    }
}

/// A cell covered from `from` on stays covered when a box is appended.
proof fn lemma_covered_push(bs: Seq<GridBox>, gb: GridBox, from: int, c: (int, int, int))
    requires
        covered_from(bs, from, c),
        0 <= from,
    ensures
        covered_from(bs.push(gb), from, c),
{
    let k = choose|k: int| from <= k < bs.len() && (#[trigger] bs[k]).covers(c);
    assert(bs.push(gb)[k].covers(c));
}

/// A cell covered after appending a box was covered before, or the new box
/// covers it.
proof fn lemma_covered_push_inv(bs: Seq<GridBox>, gb: GridBox, from: int, c: (int, int, int))
    requires
        covered_from(bs.push(gb), from, c),
        0 <= from <= bs.len(),
    ensures
        covered_from(bs, from, c) || gb.covers(c),
{
    let k = choose|k: int|
        from <= k < bs.push(gb).len() && (#[trigger] bs.push(gb)[k]).covers(c);
    if k < bs.len() {
        assert(bs[k].covers(c));
    }
}

impl Rampifier {
    /// A well-formed box yields world coordinates within machine range.
    proof fn lemma_box_fits(self, b: GridBox)
        by (nonlinear_arith)
        requires
            self.scale_ok(),
            box_wf(b, self.gw(), self.gl(), self.gh()),
        ensures
            box_prim_fits(self.config, b),
    {
    }

    /// The primitive of one filled box: grid coordinates scaled by the
    /// physical unit size, colored by the seed cell's material.
    fn make_box_prim(
        &self,
        x: usize,
        y: usize,
        z: usize,
        bw: usize,
        bl: usize,
        bh: usize,
        val: u8,
    ) -> (r: Primitive)
        requires
            self.wf(),
            self.scale_ok(),
            box_wf(
                GridBox {
                    x: x as int,
                    y: y as int,
                    z: z as int,
                    w: bw as int,
                    l: bl as int,
                    h: bh as int,
                    m: val,
                },
                self.gw(),
                self.gl(),
                self.gh(),
            ),
        ensures
            r == box_prim_spec(
                self.config,
                GridBox {
                    x: x as int,
                    y: y as int,
                    z: z as int,
                    w: bw as int,
                    l: bl as int,
                    h: bh as int,
                    m: val,
                },
            ),
    {
        let ghost gb = GridBox {
            x: x as int,
            y: y as int,
            z: z as int,
            w: bw as int,
            l: bl as int,
            h: bh as int,
            m: val,
        };
        proof {
            self.lemma_box_fits(gb);
        }
        let uw = self.config.brick_size.0;
        let ul = self.config.brick_size.1;
        let uh = self.config.brick_size.2;
        let sx = (bw as u32) * uw;
        let sy = (bl as u32) * ul;
        let sz = (bh as u32) * uh;
        let px = ((x as i64) * 2 * (uw as i64) + (sx as i64)) as i32;
        let py = ((y as i64) * 2 * (ul as i64) + (sy as i64)) as i32;
        let pz = ((z as i64) * 2 * (uh as i64) + (sz as i64)) as i32;
        Primitive {
            asset_name_index: self.config.brick_index,
            position: (px, py, pz),
            size: (sx, sy, sz),
            direction: crate::primitive::Direction::ZPositive,
            rotation: crate::primitive::Rotation::Deg0,
            color_index: val as u32,
        }
    }
}



impl Rampifier {
    /// A box the greedy growth could not place is not growable: some cell
    /// of it lies outside the grid, was empty or foreign at entry, or is
    /// already covered.
    proof fn lemma_stopped_growth(
        self,
        g0: Seq<Option<u8>>,
        oldb: int,
        m: u8,
        p: (int, int, int),
        s: (int, int, int),
    )
        requires
            0 <= oldb <= self.boxes@.len(),
            forall|c: (int, int, int)|
                #![trigger self.cell(c)]
                self.cell(c) == (if covered_from(self.boxes@, oldb, c) {
                    None::<u8>
                } else {
                    cell_in(g0, self.gw(), self.gl(), self.gh(), c)
                }),
            !self.boxable(m, p, s),
        ensures
            !growable(
                g0,
                self.gw(),
                self.gl(),
                self.gh(),
                self.boxes@,
                oldb,
                self.boxes@.len() as int,
                m,
                p,
                s,
            ),
    {
        if growable(
            g0,
            self.gw(),
            self.gl(),
            self.gh(),
            self.boxes@,
            oldb,
            self.boxes@.len() as int,
            m,
            p,
            s,
        ) {
            assert forall|c: (int, int, int)| in_box(p, s, c) implies #[trigger] self.cell(c)
                == Some(m) by {
                assert(cell_in(g0, self.gw(), self.gl(), self.gh(), c) == Some(m));
                lemma_covered_from_is_range(self.boxes@, oldb, c);
            }
            assert(self.boxable(m, p, s));
            assert(false);
        }
    }

    /// Runs after the ramp commit, over the same fixed scan order: covers
    /// every remaining occupied cell with maximal axis-aligned boxes of
    /// uniform material, grown height first, then width, then length, and
    /// clears the covered cells. Every cell occupied at entry ends covered
    /// by exactly one emitted box (their footprints never overlap), every
    /// covered cell was occupied at entry with the box's material, the grid
    /// is left entirely empty, and an entirely empty grid yields no boxes.
    pub fn fill_boxes(&mut self) -> (bricks: Vec<Primitive>)
        requires
            old(self).inv(),
            old(self).scale_ok(),
        ensures
            final(self).inv(),
            final(self).size == old(self).size,
            final(self).config == old(self).config,
            final(self).claimed@ == old(self).claimed@,
            final(self).placements == old(self).placements,
            final(self).grid@.len() == old(self).grid@.len(),
            old(self).boxes@.len() + bricks@.len() == final(self).boxes@.len(),
            forall|k: int|
                0 <= k < old(self).boxes@.len() ==> final(self).boxes@[k] == old(self).boxes@[k],
            forall|k: int|
                old(self).boxes@.len() <= k < final(self).boxes@.len() ==> #[trigger] fill_entry_ok(
                    old(self).grid@,
                    old(self).gw(),
                    old(self).gl(),
                    old(self).gh(),
                    final(self).boxes@,
                    k,
                ),
            forall|k: int|
                old(self).boxes@.len() <= k < final(self).boxes@.len()
                    ==> bricks@[k - old(self).boxes@.len()] == box_prim_spec(
                    old(self).config,
                    #[trigger] final(self).boxes@[k],
                ),
            forall|k1: int, k2: int|
                old(self).boxes@.len() <= k1 < k2 < final(self).boxes@.len()
                    ==> #[trigger] boxes_disjoint(final(self).boxes@, k1, k2),
            forall|k: int|
                old(self).boxes@.len() <= k < final(self).boxes@.len() ==> #[trigger] fill_entry_max(
                    old(self).grid@,
                    old(self).gw(),
                    old(self).gl(),
                    old(self).gh(),
                    final(self).boxes@,
                    old(self).boxes@.len() as int,
                    k,
                ),
            forall|k: int|
                old(self).boxes@.len() <= k < final(self).boxes@.len()
                    ==> #[trigger] fill_entry_first(
                    old(self).grid@,
                    old(self).gw(),
                    old(self).gl(),
                    old(self).gh(),
                    final(self).boxes@,
                    old(self).boxes@.len() as int,
                    k,
                ),
            forall|c: (int, int, int)|
                #![trigger old(self).cell(c)]
                old(self).in_bounds(c) && old(self).occupied(c) ==> covered_from(
                    final(self).boxes@,
                    old(self).boxes@.len() as int,
                    c,
                ),
            forall|c: (int, int, int)|
                #![trigger final(self).cell(c)]
                old(self).in_bounds(c) ==> final(self).cell(c) is None,
            (forall|c: (int, int, int)|
                old(self).in_bounds(c) ==> !old(self).occupied(c)) ==> bricks@.len() == 0,
    {
        let ghost g0 = self.grid@;
        let ghost w0: int = self.gw();
        let ghost l0: int = self.gl();
        let ghost h0: int = self.gh();
        let ghost cfg0 = self.config;
        let ghost oldb: int = self.boxes@.len() as int;

        let mut bricks: Vec<Primitive> = Vec::new();

        let w: usize = self.size.0;
        let l: usize = self.size.1;
        let h: usize = self.size.2;

        let mut z: usize = 0;
        while z < h
            invariant
                self.inv(),
                self.scale_ok(),
                self.size == old(self).size,
                self.config == cfg0,
                self.claimed@ == old(self).claimed@,
                self.placements == old(self).placements,
                self.grid@.len() == old(self).grid@.len(),
                g0 == old(self).grid@,
                w0 == old(self).gw(),
                l0 == old(self).gl(),
                h0 == old(self).gh(),
                cfg0 == old(self).config,
                oldb == old(self).boxes@.len(),
                w == self.size.0 && l == self.size.1 && h == self.size.2,
                z <= h,
                oldb + bricks@.len() == self.boxes@.len(),
                forall|k: int| 0 <= k < oldb ==> self.boxes@[k] == old(self).boxes@[k],
                forall|k: int|
                    oldb <= k < self.boxes@.len() ==> #[trigger] fill_entry_ok(
                        g0,
                        w0,
                        l0,
                        h0,
                        self.boxes@,
                        k,
                    ),
                forall|k: int|
                    oldb <= k < self.boxes@.len() ==> bricks@[k - oldb] == box_prim_spec(
                        cfg0,
                        #[trigger] self.boxes@[k],
                    ),
                forall|k1: int, k2: int|
                    oldb <= k1 < k2 < self.boxes@.len() ==> #[trigger] boxes_disjoint(
                        self.boxes@,
                        k1,
                        k2,
                    ),
                forall|k: int|
                    oldb <= k < self.boxes@.len() ==> #[trigger] fill_entry_max(
                        g0,
                        w0,
                        l0,
                        h0,
                        self.boxes@,
                        oldb,
                        k,
                    ),
                forall|k: int|
                    oldb <= k < self.boxes@.len() ==> #[trigger] fill_entry_first(
                        g0,
                        w0,
                        l0,
                        h0,
                        self.boxes@,
                        oldb,
                        k,
                    ),
                forall|c: (int, int, int)|
                    #![trigger self.cell(c)]
                    self.cell(c) == (if covered_from(self.boxes@, oldb, c) {
                        None::<u8>
                    } else {
                        cell_in(g0, w0, l0, h0, c)
                    }),
                forall|c: (int, int, int)|
                    #![trigger cell_in(g0, w0, l0, h0, c)]
                    crate::grid::bounds_in(w0, l0, h0, c) && c.2 < z && cell_in(g0, w0, l0, h0, c)
                        is Some ==> covered_from(self.boxes@, oldb, c),
            decreases h - z,
        {
            let mut y: usize = 0;
            while y < l
                invariant
                    self.inv(),
                    self.scale_ok(),
                    self.size == old(self).size,
                    self.config == cfg0,
                    self.claimed@ == old(self).claimed@,
                    self.placements == old(self).placements,
                    self.grid@.len() == old(self).grid@.len(),
                    g0 == old(self).grid@,
                    w0 == old(self).gw(),
                    l0 == old(self).gl(),
                    h0 == old(self).gh(),
                    cfg0 == old(self).config,
                    oldb == old(self).boxes@.len(),
                    w == self.size.0 && l == self.size.1 && h == self.size.2,
                    z < h,
                    y <= l,
                    oldb + bricks@.len() == self.boxes@.len(),
                    forall|k: int| 0 <= k < oldb ==> self.boxes@[k] == old(self).boxes@[k],
                    forall|k: int|
                        oldb <= k < self.boxes@.len() ==> #[trigger] fill_entry_ok(
                            g0,
                            w0,
                            l0,
                            h0,
                            self.boxes@,
                            k,
                        ),
                    forall|k: int|
                        oldb <= k < self.boxes@.len() ==> bricks@[k - oldb] == box_prim_spec(
                            cfg0,
                            #[trigger] self.boxes@[k],
                        ),
                    forall|k1: int, k2: int|
                        oldb <= k1 < k2 < self.boxes@.len() ==> #[trigger] boxes_disjoint(
                            self.boxes@,
                            k1,
                            k2,
                        ),
                    forall|k: int|
                        oldb <= k < self.boxes@.len() ==> #[trigger] fill_entry_max(
                            g0,
                            w0,
                            l0,
                            h0,
                            self.boxes@,
                            oldb,
                            k,
                        ),
                    forall|k: int|
                        oldb <= k < self.boxes@.len() ==> #[trigger] fill_entry_first(
                            g0,
                            w0,
                            l0,
                            h0,
                            self.boxes@,
                            oldb,
                            k,
                        ),
                    forall|c: (int, int, int)|
                        #![trigger self.cell(c)]
                        self.cell(c) == (if covered_from(self.boxes@, oldb, c) {
                            None::<u8>
                        } else {
                            cell_in(g0, w0, l0, h0, c)
                        }),
                    forall|c: (int, int, int)|
                        #![trigger cell_in(g0, w0, l0, h0, c)]
                        crate::grid::bounds_in(w0, l0, h0, c) && (c.2 < z || (c.2 == z && c.1 < y))
                            && cell_in(g0, w0, l0, h0, c) is Some ==> covered_from(
                            self.boxes@,
                            oldb,
                            c,
                        ),
                decreases l - y,
            {
                let mut x: usize = 0;
                while x < w
                    invariant
                        self.inv(),
                        self.scale_ok(),
                        self.size == old(self).size,
                        self.config == cfg0,
                        self.claimed@ == old(self).claimed@,
                        self.placements == old(self).placements,
                        self.grid@.len() == old(self).grid@.len(),
                        g0 == old(self).grid@,
                        w0 == old(self).gw(),
                        l0 == old(self).gl(),
                        h0 == old(self).gh(),
                        cfg0 == old(self).config,
                        oldb == old(self).boxes@.len(),
                        w == self.size.0 && l == self.size.1 && h == self.size.2,
                        z < h,
                        y < l,
                        x <= w,
                        oldb + bricks@.len() == self.boxes@.len(),
                        forall|k: int| 0 <= k < oldb ==> self.boxes@[k] == old(self).boxes@[k],
                        forall|k: int|
                            oldb <= k < self.boxes@.len() ==> #[trigger] fill_entry_ok(
                                g0,
                                w0,
                                l0,
                                h0,
                                self.boxes@,
                                k,
                            ),
                        forall|k: int|
                            oldb <= k < self.boxes@.len() ==> bricks@[k - oldb] == box_prim_spec(
                                cfg0,
                                #[trigger] self.boxes@[k],
                            ),
                        forall|k1: int, k2: int|
                            oldb <= k1 < k2 < self.boxes@.len() ==> #[trigger] boxes_disjoint(
                                self.boxes@,
                                k1,
                                k2,
                            ),
                        forall|k: int|
                            oldb <= k < self.boxes@.len() ==> #[trigger] fill_entry_max(
                                g0,
                                w0,
                                l0,
                                h0,
                                self.boxes@,
                                oldb,
                                k,
                            ),
                        forall|k: int|
                            oldb <= k < self.boxes@.len() ==> #[trigger] fill_entry_first(
                                g0,
                                w0,
                                l0,
                                h0,
                                self.boxes@,
                                oldb,
                                k,
                            ),
                        forall|c: (int, int, int)|
                            #![trigger self.cell(c)]
                            self.cell(c) == (if covered_from(self.boxes@, oldb, c) {
                                None::<u8>
                            } else {
                                cell_in(g0, w0, l0, h0, c)
                            }),
                        forall|c: (int, int, int)|
                            #![trigger cell_in(g0, w0, l0, h0, c)]
                            crate::grid::bounds_in(w0, l0, h0, c) && (c.2 < z || (c.2 == z && (c.1
                                < y || (c.1 == y && c.0 < x)))) && cell_in(g0, w0, l0, h0, c)
                                is Some ==> covered_from(self.boxes@, oldb, c),
                    decreases w - x,
                {
                    match self.get_point((x, y, z)) {
                        Some(val) => {
                            let ghost p = (x as int, y as int, z as int);
                            proof {
                                assert forall|c: (int, int, int)|
                                    in_box(p, (1int, 1int, 1int), c) implies #[trigger] self.cell(c)
                                    == Some(val) by {
                                    assert(c == p);
                                }
                                assert(self.boxable(val, p, (1int, 1int, 1int)));
                            }

                            let mut hh: usize = 1;
                            while self.can_box(val, (x, y, z), (1, 1, hh)) && hh <= MAX_BOX
                                invariant
                                    self.inv(),
                                    w == self.size.0 && l == self.size.1 && h == self.size.2,
                                    x < w && y < l && z < h,
                                    1 <= hh <= 65,
                                    p == (x as int, y as int, z as int),
                                    self.boxable(val, p, (1int, 1int, 1int)),
                                    hh >= 2 ==> self.boxable(val, p, (1int, 1int, hh - 1)),
                                decreases 66 - hh,
                            {
                                hh += 1;
                            }
                            let hh = hh - 1;

                            if hh > 0 {
                                let mut ww: usize = 1;
                                while self.can_box(val, (x, y, z), (ww, 1, hh)) && ww <= MAX_BOX
                                    invariant
                                        self.inv(),
                                        w == self.size.0 && l == self.size.1 && h == self.size.2,
                                        x < w && y < l && z < h,
                                        1 <= ww <= 65,
                                        1 <= hh <= 64,
                                        p == (x as int, y as int, z as int),
                                        self.boxable(val, p, (1int, 1int, hh as int)),
                                        ww >= 2 ==> self.boxable(val, p, (ww - 1, 1int, hh as int)),
                                    decreases 66 - ww,
                                {
                                    ww += 1;
                                }
                                let ww = ww - 1;

                                if ww > 0 {
                                    let mut ll: usize = 1;
                                    while self.can_box(val, (x, y, z), (ww, ll, hh)) && ll <= MAX_BOX
                                        invariant
                                            self.inv(),
                                            w == self.size.0 && l == self.size.1 && h == self.size.2,
                                            x < w && y < l && z < h,
                                            1 <= ll <= 65,
                                            1 <= ww <= 64,
                                            1 <= hh <= 64,
                                            p == (x as int, y as int, z as int),
                                            self.boxable(val, p, (ww as int, 1int, hh as int)),
                                            ll >= 2 ==> self.boxable(
                                                val,
                                                p,
                                                (ww as int, ll - 1, hh as int),
                                            ),
                                        decreases 66 - ll,
                                    {
                                        ll += 1;
                                    }
                                    let ll = ll - 1;

                                    if ll > 0 {
                                        let ghost gb = GridBox {
                                            x: x as int,
                                            y: y as int,
                                            z: z as int,
                                            w: ww as int,
                                            l: ll as int,
                                            h: hh as int,
                                            m: val,
                                        };
                                        let ghost s = (ww as int, ll as int, hh as int);
                                        let ghost pre = *self;
                                        proof {
                                            assert(self.boxable(val, p, s));
                                            if hh != 64 {
                                                assert(!self.boxable(val, p, (1int, 1int, hh + 1)));
                                            }
                                            if ww != 64 {
                                                assert(!self.boxable(val, p, (ww + 1, 1int, hh as int)));
                                            }
                                            if ll != 64 {
                                                assert(!self.boxable(val, p, (ww as int, ll + 1, hh as int)));
                                            }
                                        }
                                        let prim = self.make_box_prim(x, y, z, ww, ll, hh, val);
                                        self.box_remove((x, y, z), (ww, ll, hh));
                                        let ghost s2 = *self;
                                        bricks.push(prim);
                                        proof {
                                            self.boxes@ = self.boxes@.push(gb);
                                            let newb = self.boxes@.len() as int;

                                            assert(self.boxes@[newb - 1] == gb);
                                            assert forall|c: (int, int, int)|
                                                #[trigger] gb.covers(c) implies in_box(p, s, c) by {}

                                            // The new box covers only cells that held the seed
                                            // material at entry and were uncovered so far.
                                            assert forall|c: (int, int, int)|
                                                #[trigger] gb.covers(c) implies cell_in(
                                                g0,
                                                w0,
                                                l0,
                                                h0,
                                                c,
                                            ) == Some(val) && !covered_from(pre.boxes@, oldb, c) by {
                                                assert(in_box(p, s, c));
                                                assert(pre.cell(c) == Some(val));
                                                assert(pre.cell(c) == (if covered_from(
                                                    pre.boxes@,
                                                    oldb,
                                                    c,
                                                ) {
                                                    None::<u8>
                                                } else {
                                                    cell_in(g0, w0, l0, h0, c)
                                                }));
                                            }
                                            assert(fill_entry_ok(g0, w0, l0, h0, self.boxes@, newb - 1));

                                            // Earlier entries are untouched by the push.
                                            assert forall|k: int|
                                                oldb <= k < newb - 1 implies #[trigger] fill_entry_ok(
                                                g0,
                                                w0,
                                                l0,
                                                h0,
                                                self.boxes@,
                                                k,
                                            ) by {
                                                assert(fill_entry_ok(g0, w0, l0, h0, pre.boxes@, k));
                                                assert(self.boxes@[k] == pre.boxes@[k]);
                                            }
                                            assert forall|k1: int, k2: int|
                                                oldb <= k1 < k2 < newb implies #[trigger] boxes_disjoint(
                                                self.boxes@,
                                                k1,
                                                k2,
                                            ) by {
                                                if k2 < newb - 1 {
                                                    assert(boxes_disjoint(pre.boxes@, k1, k2));
                                                    assert(self.boxes@[k1] == pre.boxes@[k1]);
                                                    assert(self.boxes@[k2] == pre.boxes@[k2]);
                                                } else {
                                                    assert(self.boxes@[k1] == pre.boxes@[k1]);
                                                    assert forall|c: (int, int, int)|
                                                        !((#[trigger] self.boxes@[k1].covers(c))
                                                        && self.boxes@[k2].covers(c)) by {
                                                        if self.boxes@[k1].covers(c) && gb.covers(c) {
                                                            assert(covered_from(pre.boxes@, oldb, c));
                                                        }
                                                    }
                                                }
                                            }

                                            // The grid now reads empty exactly on the covered cells.
                                            assert forall|c: (int, int, int)|
                                                self.cell(c) == (if covered_from(
                                                self.boxes@,
                                                oldb,
                                                c,
                                            ) {
                                                None::<u8>
                                            } else {
                                                cell_in(g0, w0, l0, h0, c)
                                            }) by {
                                                assert(s2.cell(c) == (if in_box(p, s, c) {
                                                    None::<u8>
                                                } else {
                                                    pre.cell(c)
                                                }));
                                                assert(self.cell(c) == s2.cell(c));
                                                assert(pre.cell(c) == (if covered_from(
                                                    pre.boxes@,
                                                    oldb,
                                                    c,
                                                ) {
                                                    None::<u8>
                                                } else {
                                                    cell_in(g0, w0, l0, h0, c)
                                                }));
                                                if in_box(p, s, c) {
                                                    assert(gb.covers(c));
                                                    assert(covered_from(self.boxes@, oldb, c));
                                                } else {
                                                    if covered_from(pre.boxes@, oldb, c) {
                                                        lemma_covered_push(pre.boxes@, gb, oldb, c);
                                                    } else if covered_from(self.boxes@, oldb, c) {
                                                        lemma_covered_push_inv(pre.boxes@, gb, oldb, c);
                                                        assert(gb.covers(c));
                                                        assert(false);
                                                    }
                                                }
                                            }

                                            // The growth of every box, the new one included,
                                            // was maximal in the fixed priority order.
                                            assert forall|k: int|
                                                oldb <= k < newb implies #[trigger] fill_entry_max(
                                                g0,
                                                w0,
                                                l0,
                                                h0,
                                                self.boxes@,
                                                oldb,
                                                k,
                                            ) by {
                                                if k < newb - 1 {
                                                    assert(fill_entry_max(
                                                        g0,
                                                        w0,
                                                        l0,
                                                        h0,
                                                        pre.boxes@,
                                                        oldb,
                                                        k,
                                                    ));
                                                    assert(self.boxes@[k] == pre.boxes@[k]);
                                                    let b = pre.boxes@[k];
                                                    lemma_growable_push(
                                                        g0, w0, l0, h0, pre.boxes@, gb, oldb, k,
                                                        b.m, (b.x, b.y, b.z), (1int, 1int, b.h + 1),
                                                    );
                                                    lemma_growable_push(
                                                        g0, w0, l0, h0, pre.boxes@, gb, oldb, k,
                                                        b.m, (b.x, b.y, b.z), (b.w + 1, 1int, b.h),
                                                    );
                                                    lemma_growable_push(
                                                        g0, w0, l0, h0, pre.boxes@, gb, oldb, k,
                                                        b.m, (b.x, b.y, b.z), (b.w, b.l + 1, b.h),
                                                    );
                                                } else {
                                                    if hh != 64 {
                                                        pre.lemma_stopped_growth(
                                                            g0, oldb, val, p, (1int, 1int, hh + 1),
                                                        );
                                                        lemma_growable_push(
                                                            g0, w0, l0, h0, pre.boxes@, gb, oldb,
                                                            newb - 1, val, p, (1int, 1int, hh + 1),
                                                        );
                                                    }
                                                    if ww != 64 {
                                                        pre.lemma_stopped_growth(
                                                            g0, oldb, val, p, (ww + 1, 1int, hh as int),
                                                        );
                                                        lemma_growable_push(
                                                            g0, w0, l0, h0, pre.boxes@, gb, oldb,
                                                            newb - 1, val, p, (ww + 1, 1int, hh as int),
                                                        );
                                                    }
                                                    if ll != 64 {
                                                        pre.lemma_stopped_growth(
                                                            g0, oldb, val, p, (ww as int, ll + 1, hh as int),
                                                        );
                                                        lemma_growable_push(
                                                            g0, w0, l0, h0, pre.boxes@, gb, oldb,
                                                            newb - 1, val, p, (ww as int, ll + 1, hh as int),
                                                        );
                                                    }
                                                    assert(fill_entry_max(
                                                        g0,
                                                        w0,
                                                        l0,
                                                        h0,
                                                        self.boxes@,
                                                        oldb,
                                                        newb - 1,
                                                    ));
                                                }
                                            }

                                            // Every box, the new one included, was seeded at
                                            // the scan-least remaining occupied cell.
                                            assert forall|k: int|
                                                oldb <= k < newb implies #[trigger] fill_entry_first(
                                                g0,
                                                w0,
                                                l0,
                                                h0,
                                                self.boxes@,
                                                oldb,
                                                k,
                                            ) by {
                                                if k < newb - 1 {
                                                    assert(fill_entry_first(
                                                        g0,
                                                        w0,
                                                        l0,
                                                        h0,
                                                        pre.boxes@,
                                                        oldb,
                                                        k,
                                                    ));
                                                    assert(self.boxes@[k] == pre.boxes@[k]);
                                                    assert forall|c: (int, int, int)|
                                                        covered_range(pre.boxes@, oldb, k, c)
                                                        == covered_range(
                                                        self.boxes@,
                                                        oldb,
                                                        k,
                                                        c,
                                                    ) by {
                                                        lemma_covered_range_push(
                                                            pre.boxes@, gb, oldb, k, c,
                                                        );
                                                    }
                                                } else {
                                                    assert(self.boxes@[k] == gb);
                                                    assert forall|c: (int, int, int)|
                                                        crate::grid::bounds_in(w0, l0, h0, c)
                                                        && scan_lt(c, p) && (#[trigger] cell_in(
                                                        g0,
                                                        w0,
                                                        l0,
                                                        h0,
                                                        c,
                                                    )) is Some implies covered_range(
                                                        self.boxes@,
                                                        oldb,
                                                        newb - 1,
                                                        c,
                                                    ) by {
                                                        assert(covered_from(pre.boxes@, oldb, c));
                                                        lemma_covered_from_is_range(
                                                            pre.boxes@, oldb, c,
                                                        );
                                                        lemma_covered_range_push(
                                                            pre.boxes@, gb, oldb, newb - 1, c,
                                                        );
                                                    }
                                                }
                                            }

                                            // Neither the claimed bitmap nor the recorded
                                            // placements changed, so the claim invariant holds.
                                            assert forall|c: (int, int, int)|
                                                self.in_bounds(c) implies (self.claimed_at(c)
                                                <==> self.ramp_covered(c)) by {
                                                assert(pre.claimed_at(c) <==> pre.ramp_covered(c));
                                                assert(self.claimed_at(c) == pre.claimed_at(c));
                                                if pre.ramp_covered(c) {
                                                    let k = choose|k: int|
                                                        0 <= k < pre.placements@.len() && (
                                                        #[trigger] pre.placements@[k]).covers(c);
                                                    assert((self.placements@[k]).covers(c));
                                                    assert(self.ramp_covered(c));
                                                }
                                                if self.ramp_covered(c) {
                                                    let k = choose|k: int|
                                                        0 <= k < self.placements@.len() && (
                                                        #[trigger] self.placements@[k]).covers(c);
                                                    assert((pre.placements@[k]).covers(c));
                                                    assert(pre.ramp_covered(c));
                                                }
                                            }

                                            // The scanned region stays covered, and the current
                                            // cell is covered by the new box.
                                            assert forall|c: (int, int, int)|
                                                crate::grid::bounds_in(w0, l0, h0, c) && (c.2 < z
                                                || (c.2 == z && (c.1 < y || (c.1 == y && c.0 < x
                                                + 1)))) && (#[trigger] cell_in(g0, w0, l0, h0, c))
                                                is Some implies covered_from(
                                                self.boxes@,
                                                oldb,
                                                c,
                                            ) by {
                                                if c == p {
                                                    assert(gb.covers(c));
                                                    assert(covered_from(self.boxes@, oldb, c));
                                                } else if c.2 < z || (c.2 == z && (c.1 < y || (c.1
                                                    == y && c.0 < x))) {
                                                    lemma_covered_push(pre.boxes@, gb, oldb, c);
                                                }
                                            }
                                        }
                                    }
                                }
                            }
                        },
                        None => {
                            proof {
                                let p = (x as int, y as int, z as int);
                                assert(self.cell(p) is None);
                                if cell_in(g0, w0, l0, h0, p) is Some {
                                    assert(covered_from(self.boxes@, oldb, p));
                                }
                            }
                        },
                    }
                    x += 1;
                }
                y += 1;
            }
            z += 1;
        }

        proof {
            if bricks@.len() > 0 && (forall|c: (int, int, int)|
                old(self).in_bounds(c) ==> !old(self).occupied(c)) {
                assert(fill_entry_ok(g0, w0, l0, h0, self.boxes@, oldb));
                let b0 = self.boxes@[oldb];
                let corner = (b0.x, b0.y, b0.z);
                assert(b0.covers(corner));
                assert(cell_in(g0, w0, l0, h0, corner) == Some(b0.m));
                assert(old(self).occupied(corner));
                assert(false);
            }
            assert forall|c: (int, int, int)|
                old(self).in_bounds(c) implies #[trigger] self.cell(c) is None by {
                if cell_in(g0, w0, l0, h0, c) is Some {
                    assert(covered_from(self.boxes@, oldb, c));
                }
            }
        }

        bricks
    }
}


} // verus!
