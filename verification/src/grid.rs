//! The mathematical model of a board: a torus of cells in row-major order,
//! and one generation of Life on it.

use crate::cell::{CellState, CellView};
use vstd::prelude::*;

verus! {

/// The successor of `i` on a ring of `n` positions.
pub open spec fn succ_mod(i: int, n: int) -> int {
    (i + 1) % n
}

/// The predecessor of `i` on a ring of `n` positions.
pub open spec fn pred_mod(i: int, n: int) -> int {
    (n + i - 1) % n
}

/// A rectangular grid of cells, stored row by row.
pub struct Grid {
    pub width: nat,
    pub height: nat,
    pub cells: Seq<CellView>,
}

impl Grid {
    /// Both sides are positive and there is one cell per position.
    pub open spec fn wf(self) -> bool {
        &&& self.width > 0
        &&& self.height > 0
        &&& self.cells.len() == self.width * self.height
    }

    /// Whether `(x, y)` is a position of the grid.
    pub open spec fn contains(self, x: int, y: int) -> bool {
        0 <= x < self.width && 0 <= y < self.height
    }

    /// Where the cell at `(x, y)` is stored.
    pub open spec fn index(self, x: int, y: int) -> int {
        y * self.width + x
    }

    /// The cell at `(x, y)`.
    pub open spec fn cell(self, x: int, y: int) -> CellView {
        self.cells[self.index(x, y)]
    }

    /// The number of live cells among the eight neighbours of `(x, y)`, each
    /// coordinate wrapping round its own side.
    pub open spec fn neighbors(self, x: int, y: int) -> nat {
        let up = succ_mod(y, self.height as int);
        let down = pred_mod(y, self.height as int);
        let right = succ_mod(x, self.width as int);
        let left = pred_mod(x, self.width as int);
        self.cell(x, up).liveness() + self.cell(right, up).liveness() + self.cell(
            right,
            y,
        ).liveness() + self.cell(right, down).liveness() + self.cell(x, down).liveness()
            + self.cell(left, down).liveness() + self.cell(left, y).liveness() + self.cell(
            left,
            up,
        ).liveness()
    }

    /// The number of live neighbours of the cell stored at `i`.
    pub open spec fn neighbors_at(self, i: int) -> nat {
        self.neighbors(i % self.width as int, i / self.width as int)
    }

    /// The grid after every cell's next state was decided from the committed
    /// states of its neighbours.
    pub open spec fn evaluated(self) -> Grid {
        Grid {
            width: self.width,
            height: self.height,
            cells: Seq::new(
                self.cells.len(),
                |i: int| self.cells[i].readied(self.neighbors_at(i)),
            ),
        }
    }

    /// Whether every cell carries a decision.
    pub open spec fn resolved(self) -> bool {
        forall|i: int| 0 <= i < self.cells.len() ==> (#[trigger] self.cells[i]).resolved()
    }

    /// Whether no cell carries a decision.
    pub open spec fn fresh(self) -> bool {
        forall|i: int|
            0 <= i < self.cells.len() ==> (#[trigger] self.cells[i]).pending == CellState::Unknown
    }

    /// The grid after every cell's decision was committed. Meaningful only
    /// for a resolved grid.
    pub open spec fn committed(self) -> Grid {
        Grid {
            width: self.width,
            height: self.height,
            cells: Seq::new(self.cells.len(), |i: int| self.cells[i].committed()),
        }
    }

    /// The next generation: decide, then commit.
    pub open spec fn next_generation(self) -> Grid {
        self.evaluated().committed()
    }
}

/// A position of the grid is stored inside the cell sequence, and the
/// position can be read back from the place.
pub proof fn lemma_index_in_bounds(g: Grid, x: int, y: int)
    requires
        g.wf(),
        g.contains(x, y),
    ensures
        0 <= g.index(x, y) < g.cells.len(),
        g.index(x, y) % g.width as int == x,
        g.index(x, y) / g.width as int == y,
{
    let w = g.width as int;
    let h = g.height as int;
    assert(0 <= y * w && y * w + w <= h * w) by (nonlinear_arith)
        requires
            0 <= y < h,
            0 < w,
    ;
    vstd::arithmetic::div_mod::lemma_fundamental_div_mod_converse(y * w + x, w, y, x);
}

/// Every place of the cell sequence holds a position of the grid.
pub proof fn lemma_coords_in_bounds(g: Grid, i: int)
    requires
        g.wf(),
        0 <= i < g.cells.len(),
    ensures
        g.contains(i % g.width as int, i / g.width as int),
        g.index(i % g.width as int, i / g.width as int) == i,
{
    let w = g.width as int;
    let h = g.height as int;
    vstd::arithmetic::div_mod::lemma_fundamental_div_mod(i, w);
    assert(0 <= i / w < h) by (nonlinear_arith)
        requires
            0 <= i < w * h,
            0 < w,
            i == w * (i / w) + i % w,
            0 <= i % w < w,
    ;
}

/// On a ring, successor and predecessor stay on the ring, and wrap only at
/// its two ends.
pub proof fn lemma_ring(i: int, n: int)
    requires
        0 <= i < n,
    ensures
        0 <= succ_mod(i, n) < n,
        0 <= pred_mod(i, n) < n,
        succ_mod(i, n) == if i + 1 == n { 0 } else { i + 1 },
        pred_mod(i, n) == if i == 0 { n - 1 } else { i - 1 },
{
    if i + 1 == n {
        vstd::arithmetic::div_mod::lemma_mod_self_0(n);
    } else {
        vstd::arithmetic::div_mod::lemma_small_mod((i + 1) as nat, n as nat);
    }
    if i == 0 {
        vstd::arithmetic::div_mod::lemma_small_mod((n - 1) as nat, n as nat);
    } else {
        vstd::arithmetic::div_mod::lemma_mod_add_multiples_vanish(i - 1, n);
        vstd::arithmetic::div_mod::lemma_small_mod((i - 1) as nat, n as nat);
    }
}

/// The eight neighbours of a position are positions of the grid, each stored
/// inside the cell sequence.
pub proof fn lemma_neighbors_in_bounds(g: Grid, x: int, y: int)
    requires
        g.wf(),
        g.contains(x, y),
    ensures
        g.contains(succ_mod(x, g.width as int), y),
        g.contains(pred_mod(x, g.width as int), y),
        g.contains(x, succ_mod(y, g.height as int)),
        g.contains(x, pred_mod(y, g.height as int)),
        forall|a: int, b: int| g.contains(a, b) ==> 0 <= #[trigger] g.index(a, b) < g.cells.len(),
{
    lemma_ring(x, g.width as int);
    lemma_ring(y, g.height as int);
    assert forall|a: int, b: int| g.contains(a, b) implies 0 <= #[trigger] g.index(a, b)
        < g.cells.len() by {
        lemma_index_in_bounds(g, a, b);
    }
}

/// A neighbour count reads committed states only: two grids of one shape
/// whose cells agree on being alive give every position the same count,
/// whatever is pending in either.
pub proof fn lemma_neighbors_ignore_pending(a: Grid, b: Grid, x: int, y: int)
    requires
        a.wf(),
        b.wf(),
        a.width == b.width,
        a.height == b.height,
        a.contains(x, y),
        forall|i: int| 0 <= i < a.cells.len() ==> a.cells[i].alive == b.cells[i].alive,
    ensures
        a.neighbors(x, y) == b.neighbors(x, y),
{
    lemma_neighbors_in_bounds(a, x, y);
    let up = succ_mod(y, a.height as int);
    let down = pred_mod(y, a.height as int);
    let right = succ_mod(x, a.width as int);
    let left = pred_mod(x, a.width as int);
    assert(a.contains(x, up) && a.contains(right, up) && a.contains(right, y) && a.contains(
        right,
        down,
    ));
    assert(a.contains(x, down) && a.contains(left, down) && a.contains(left, y) && a.contains(
        left,
        up,
    ));
    assert(a.cell(x, up).alive == b.cell(x, up).alive);
    assert(a.cell(right, up).alive == b.cell(right, up).alive);
    assert(a.cell(right, y).alive == b.cell(right, y).alive);
    assert(a.cell(right, down).alive == b.cell(right, down).alive);
    assert(a.cell(x, down).alive == b.cell(x, down).alive);
    assert(a.cell(left, down).alive == b.cell(left, down).alive);
    assert(a.cell(left, y).alive == b.cell(left, y).alive);
    assert(a.cell(left, up).alive == b.cell(left, up).alive);
}

} // verus!
