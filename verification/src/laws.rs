//! What holds of every board: the rule seen from one cell, the joined edges,
//! and the order in which the two phases must be called.

use crate::cell::{survives, CellState};
use crate::grid::{lemma_index_in_bounds, lemma_ring, pred_mod, succ_mod, Grid};
use vstd::prelude::*;

verus! {

/// One generation seen from one cell: the cell lives in the next generation
/// exactly when the rule says so of its state and of its live neighbours in
/// this one, and nothing is pending for it afterwards. The shape of the grid
/// does not change.
pub proof fn lemma_next_generation_cell(g: Grid, x: int, y: int)
    requires
        g.wf(),
        g.contains(x, y),
    ensures
        g.next_generation().wf(),
        g.next_generation().width == g.width,
        g.next_generation().height == g.height,
        g.next_generation().cell(x, y).alive == survives(g.cell(x, y).alive, g.neighbors(x, y)),
        g.next_generation().cell(x, y).pending == CellState::Unknown,
{
    lemma_index_in_bounds(g, x, y);
}

/// Underpopulation: a live cell with fewer than two live neighbours is dead
/// after one generation.
pub proof fn law_underpopulation(g: Grid, x: int, y: int)
    requires
        g.wf(),
        g.contains(x, y),
        g.cell(x, y).alive,
        g.neighbors(x, y) <= 1,
    ensures
        !g.next_generation().cell(x, y).alive,
{
    lemma_next_generation_cell(g, x, y);
}

/// Overpopulation: a live cell with four or more live neighbours is dead
/// after one generation.
pub proof fn law_overpopulation(g: Grid, x: int, y: int)
    requires
        g.wf(),
        g.contains(x, y),
        g.cell(x, y).alive,
        g.neighbors(x, y) >= 4,
    ensures
        !g.next_generation().cell(x, y).alive,
{
    lemma_next_generation_cell(g, x, y);
}

/// Birth: a dead cell with exactly three live neighbours is alive after one
/// generation.
pub proof fn law_birth(g: Grid, x: int, y: int)
    requires
        g.wf(),
        g.contains(x, y),
        !g.cell(x, y).alive,
        g.neighbors(x, y) == 3,
    ensures
        g.next_generation().cell(x, y).alive,
{
    lemma_next_generation_cell(g, x, y);
}

/// Joined edges: the corner `(0, 0)` has the opposite corner as its
/// neighbour to the lower left and counts it when it is alive, and the last
/// cell of the first row has `(0, 0)` as its right neighbour and counts it
/// when it is alive.
pub proof fn law_toroidal_wrap(g: Grid)
    requires
        g.wf(),
    ensures
        pred_mod(0, g.width as int) == g.width - 1,
        pred_mod(0, g.height as int) == g.height - 1,
        succ_mod(g.width - 1, g.width as int) == 0,
        g.cell(g.width - 1, g.height - 1).alive ==> g.neighbors(0, 0) >= 1,
        g.cell(0, 0).alive ==> g.neighbors(g.width - 1, 0) >= 1,
{
    lemma_ring(0, g.width as int);
    lemma_ring(0, g.height as int);
    lemma_ring(g.width - 1, g.width as int);
}

/// A grid on which nothing was decided cannot be committed.
pub proof fn law_commit_needs_evaluate(g: Grid)
    requires
        g.wf(),
        g.fresh(),
    ensures
        !g.resolved(),
        forall|i: int| 0 <= i < g.cells.len() ==> !(#[trigger] g.cells[i]).resolved(),
{
    lemma_index_in_bounds(g, 0, 0);
    assert(!g.cells[0].resolved());
}

/// Deciding makes a grid ready to be committed, whatever was pending
/// before, and leaves every committed state as it was.
pub proof fn law_evaluate_resolves(g: Grid)
    requires
        g.wf(),
    ensures
        g.evaluated().wf(),
        g.evaluated().resolved(),
        forall|i: int|
            0 <= i < g.cells.len() ==> (#[trigger] g.evaluated().cells[i]).alive
                == g.cells[i].alive,
{
}

/// Committing leaves nothing pending, so a second commit without a decision
/// in between fails.
pub proof fn law_commit_once(g: Grid)
    requires
        g.wf(),
        g.resolved(),
    ensures
        g.committed().wf(),
        g.committed().fresh(),
        !g.committed().resolved(),
{
    law_commit_needs_evaluate(g.committed());
}

} // verus!
