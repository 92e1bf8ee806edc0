//! The voxel grid and its occupancy bookkeeping: a flat buffer of optional
//! material ids addressed as `x + y*W + z*W*L`, bounds-checked accessors that
//! treat out-of-range probes as empty air, and the set of cells already
//! claimed by placed ramps, tracked as a bitmap over grid indices.

use vstd::prelude::*;
use crate::config::RampifierConfig;
use crate::primitive::{GridBox, Placement};
use crate::vox::VoxVector;

verus! {

/// Upper bound on each grid dimension and on the configured run/rise limits,
/// so that every coordinate offset the sweep forms stays well inside the
/// machine integer ranges, whatever the pointer width.
pub const MAX_DIM: usize = 0x1000_0000;

/// The conversion engine. It exclusively owns the voxel grid from
/// construction until `move_grid` returns the buffer to the caller.
pub struct Rampifier {
    /// Grid dimensions (W, L, H).
    pub size: (usize, usize, usize),
    /// The flat voxel buffer: `None` is air, `Some(m)` a cell of material m.
    pub grid: Vec<Option<u8>>,
    /// The limits and selectors driving the conversion.
    pub config: RampifierConfig,
    /// Bitmap over grid indices: cells claimed by placed ramps.
    pub claimed: Vec<bool>,
    /// Every ramp placed so far, in grid space, in order of placement.
    pub placements: Ghost<Seq<Placement>>,
    /// Every box emitted by the filler so far, in grid space, in order.
    pub boxes: Ghost<Seq<GridBox>>,
}

/// Whether a signed coordinate lies inside a W x L x H grid.
pub open spec fn bounds_in(w: int, l: int, h: int, c: (int, int, int)) -> bool {
    0 <= c.0 < w && 0 <= c.1 < l && 0 <= c.2 < h
}

/// The flat index of a coordinate in a W x L grid plane: `x + y*W + z*W*L`.
pub open spec fn index_in(w: int, l: int, c: (int, int, int)) -> int {
    c.0 + c.1 * w + c.2 * (w * l)
}

/// The cell of a flat buffer at a signed coordinate; out-of-range probes
/// read as empty.
pub open spec fn cell_in(g: Seq<Option<u8>>, w: int, l: int, h: int, c: (int, int, int)) -> Option<
    u8,
> {
    if bounds_in(w, l, h, c) {
        g[index_in(w, l, c)]
    } else {
        None
    }
}

/// `0 <= x + y*w + z*(w*l) < w*l*h` for in-bounds coordinates, with the
/// bounds on the partial products that the flat-index computation forms.
pub proof fn lemma_index_bounds(w: int, l: int, h: int, x: int, y: int, z: int)
    by (nonlinear_arith)
    requires
        0 <= x < w,
        0 <= y < l,
        0 <= z < h,
    ensures
        0 <= y * w <= w * l * h,
        0 <= z * w <= w * l * h,
        (z * w) * l == z * (w * l),
        0 <= z * (w * l) <= w * l * h,
        0 <= x + y * w + z * (w * l) < w * l * h,
        w * l <= w * l * h,
{
}

/// Two distinct in-bounds coordinates never share a flat index.
pub proof fn lemma_index_injective(
    w: int,
    l: int,
    h: int,
    x1: int,
    y1: int,
    z1: int,
    x2: int,
    y2: int,
    z2: int,
)
    requires
        0 <= x1 < w,
        0 <= y1 < l,
        0 <= z1 < h,
        0 <= x2 < w,
        0 <= y2 < l,
        0 <= z2 < h,
        x1 + y1 * w + z1 * (w * l) == x2 + y2 * w + z2 * (w * l),
    ensures
        x1 == x2 && y1 == y2 && z1 == z2,
{
    assert(0 <= x1 + y1 * w < w * l) by (nonlinear_arith)
        requires
            0 <= x1 < w,
            0 <= y1 < l,
    ;
    assert(0 <= x2 + y2 * w < w * l) by (nonlinear_arith)
        requires
            0 <= x2 < w,
            0 <= y2 < l,
    ;
    assert(z1 == z2) by (nonlinear_arith)
        requires
            0 <= x1 + y1 * w < w * l,
            0 <= x2 + y2 * w < w * l,
            x1 + y1 * w + z1 * (w * l) == x2 + y2 * w + z2 * (w * l),
    ;
    assert(y1 == y2) by (nonlinear_arith)
        requires
            0 <= x1 < w,
            0 <= x2 < w,
            x1 + y1 * w == x2 + y2 * w,
    ;
}

impl Rampifier {
    /// Grid width, as a mathematical integer.
    pub open spec fn gw(self) -> int {
        self.size.0 as int
    }

    /// Grid length.
    pub open spec fn gl(self) -> int {
        self.size.1 as int
    }

    /// Grid height.
    pub open spec fn gh(self) -> int {
        self.size.2 as int
    }

    /// Total cell count W*L*H.
    pub open spec fn cells(self) -> int {
        self.gw() * self.gl() * self.gh()
    }

    /// Whether a signed coordinate lies inside the grid.
    pub open spec fn in_bounds(self, c: (int, int, int)) -> bool {
        bounds_in(self.gw(), self.gl(), self.gh(), c)
    }

    /// The flat index of a coordinate: `x + y*W + z*W*L`.
    pub open spec fn index_of(self, c: (int, int, int)) -> int {
        index_in(self.gw(), self.gl(), c)
    }

    /// The cell at a signed coordinate; out-of-range probes read as empty.
    pub open spec fn cell(self, c: (int, int, int)) -> Option<u8> {
        cell_in(self.grid@, self.gw(), self.gl(), self.gh(), c)
    }

    /// Whether the cell at a coordinate holds a material.
    pub open spec fn occupied(self, c: (int, int, int)) -> bool {
        self.cell(c) is Some
    }

    /// Whether the cell at a coordinate is claimed by a placed ramp.
    pub open spec fn claimed_at(self, c: (int, int, int)) -> bool {
        self.in_bounds(c) && self.claimed@[self.index_of(c)]
    }

    /// Whether some recorded ramp placement covers a coordinate.
    pub open spec fn ramp_covered(self, c: (int, int, int)) -> bool {
        exists|k: int|
            0 <= k < self.placements@.len() && (#[trigger] self.placements@[k]).covers(c)
    }

    /// Structural well-formedness: the buffers span exactly W*L*H cells and
    /// the dimensions are small enough for offset arithmetic.
    pub open spec fn wf(self) -> bool {
        &&& self.grid@.len() == self.cells()
        &&& self.claimed@.len() == self.cells()
        &&& self.size.0 <= MAX_DIM
        &&& self.size.1 <= MAX_DIM
        &&& self.size.2 <= MAX_DIM
    }

    /// The claimed bitmap holds exactly the in-bounds cells covered by the
    /// recorded ramp placements.
    pub open spec fn claim_inv(self) -> bool {
        forall|c: (int, int, int)|
            #![trigger self.claimed_at(c)]
            #![trigger self.ramp_covered(c)]
            self.in_bounds(c) ==> (self.claimed_at(c) <==> self.ramp_covered(c))
    }

    /// The full invariant carried by every operation.
    pub open spec fn inv(self) -> bool {
        self.wf() && self.claim_inv()
    }

    /// The configured limits are small enough for offset arithmetic.
    pub open spec fn limits_ok(self) -> bool {
        &&& self.config.ramp_max_run <= MAX_DIM
        &&& self.config.ramp_max_rise <= MAX_DIM
    }

    /// Whether two engines read identically: same dimensions, same grid
    /// contents, same claimed cells and same configuration. Every sweep
    /// decision is a function of this view alone.
    pub open spec fn same_view(self, other: Rampifier) -> bool {
        &&& self.size == other.size
        &&& self.grid@ == other.grid@
        &&& self.claimed@ == other.claimed@
        &&& self.config == other.config
    }

    /// Whether no recorded placements or boxes exist yet and no cell is
    /// claimed: the state right after construction.
    pub open spec fn fresh(self) -> bool {
        &&& self.placements@.len() == 0
        &&& self.boxes@.len() == 0
        &&& forall|c: (int, int, int)| !(#[trigger] self.claimed_at(c))
    }

    /// Takes exclusive ownership of the grid buffer. The buffer must span
    /// exactly W*L*H cells; an inconsistent length is rejected here, at
    /// construction, rather than surfacing as an out-of-range sweep access.
    pub fn new(size: (usize, usize, usize), grid: Vec<Option<u8>>, config: RampifierConfig) -> (r:
        Self)
        requires
            grid@.len() == size.0 * size.1 * size.2,
            size.0 <= MAX_DIM,
            size.1 <= MAX_DIM,
            size.2 <= MAX_DIM,
        ensures
            r.inv(),
            r.fresh(),
            r.size == size,
            r.grid@ == grid@,
            r.config == config,
    {
        let n: usize = grid.len();
        let mut claimed: Vec<bool> = Vec::new();
        let mut i: usize = 0;
        while i < n
            invariant
                claimed@.len() == i,
                i <= n,
                forall|j: int| 0 <= j < i ==> !(#[trigger] claimed@[j]),
            decreases n - i,
        {
            claimed.push(false);
            i += 1;
        }
        let r = Self {
            size,
            grid,
            config,
            claimed,
            placements: Ghost(Seq::empty()),
            boxes: Ghost(Seq::empty()),
        };
        proof {
            assert forall|c: (int, int, int)| !(#[trigger] r.claimed_at(c)) by {
                if r.in_bounds(c) {
                    lemma_index_bounds(r.gw(), r.gl(), r.gh(), c.0, c.1, c.2);
                }
            }
        }
        r
    }

    /// Returns the grid buffer to the caller, consuming the engine.
    pub fn move_grid(self) -> (r: Vec<Option<u8>>)
        ensures
            r@ == self.grid@,
    {
        self.grid
    }

    /// Replaces the configuration.
    pub fn with_config(self, config: RampifierConfig) -> (r: Self)
        ensures
            r.size == self.size,
            r.grid@ == self.grid@,
            r.claimed@ == self.claimed@,
            r.placements == self.placements,
            r.boxes == self.boxes,
            r.config == config,
    {
        let mut s = self;
        s.config = config;
        s
    }

    /// The flat index of an in-bounds coordinate.
    pub fn grid_index(&self, pos: (usize, usize, usize)) -> (r: usize)
        requires
            self.wf(),
            self.in_bounds((pos.0 as int, pos.1 as int, pos.2 as int)),
        ensures
            r == self.index_of((pos.0 as int, pos.1 as int, pos.2 as int)),
            r < self.grid@.len(),
    {
        let n: usize = self.grid.len();
        proof {
            lemma_index_bounds(
                self.gw(),
                self.gl(),
                self.gh(),
                pos.0 as int,
                pos.1 as int,
                pos.2 as int,
            );
            assert(self.cells() <= n);
        }
        pos.0 + pos.1 * self.size.0 + pos.2 * self.size.0 * self.size.1
    }

    /// The cell at an in-bounds unsigned coordinate.
    pub fn get_point(&self, pos: (usize, usize, usize)) -> (r: Option<u8>)
        requires
            self.wf(),
            self.in_bounds((pos.0 as int, pos.1 as int, pos.2 as int)),
        ensures
            r == self.cell((pos.0 as int, pos.1 as int, pos.2 as int)),
    {
        let i = self.grid_index(pos);
        self.grid[i]
    }

    /// Whether a signed coordinate lies inside the grid.
    pub fn is_bounded(&self, pos: VoxVector) -> (r: bool)
        requires
            self.wf(),
        ensures
            r == self.in_bounds(pos@),
    {
        let VoxVector(x, y, z) = pos;
        let (w, l, h) = self.size;
        x >= 0 && y >= 0 && z >= 0 && x < w as isize && y < l as isize && z < h as isize
    }

    /// The cell at a signed coordinate; out-of-range reads as empty air.
    pub fn get_point_safe(&self, pos: VoxVector) -> (r: Option<u8>)
        requires
            self.wf(),
        ensures
            r == self.cell(pos@),
    {
        if self.is_bounded(pos) {
            return self.get_point((pos.0 as usize, pos.1 as usize, pos.2 as usize));
        }
        None
    }

    /// Whether the cell at a signed coordinate is claimed by a placed ramp.
    pub fn ramp_exists(&self, pos: VoxVector) -> (r: bool)
        requires
            self.wf(),
        ensures
            r == self.claimed_at(pos@),
    {
        if self.is_bounded(pos) {
            let current_index = self.grid_index(
                (pos.0 as usize, pos.1 as usize, pos.2 as usize),
            );
            proof {
                lemma_index_bounds(self.gw(), self.gl(), self.gh(), pos.0 as int, pos.1 as int, pos.2 as int);
            }
            return self.claimed[current_index];
        }
        false
    }

    /// Whether a voxel exists at a signed coordinate.
    pub fn vox_exists(&self, pos: VoxVector) -> (r: bool)
        requires
            self.wf(),
        ensures
            r == self.occupied(pos@),
    {
        self.get_point_safe(pos).is_some()
    }

    /// Whether a voxel exists at a coordinate already known to be in bounds.
    pub fn vox_exists_unsafe(&self, pos: VoxVector) -> (r: bool)
        requires
            self.wf(),
            self.in_bounds(pos@),
        ensures
            r == self.occupied(pos@),
    {
        let i = self.grid_index((pos.0 as usize, pos.1 as usize, pos.2 as usize));
        self.grid[i].is_some()
    }
}

} // verus!
