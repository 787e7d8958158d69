//! Known patterns and how they move: the block, the blinker and the glider.

use crate::cell::{survives, CellState, CellView};
use crate::grid::{lemma_coords_in_bounds, lemma_index_in_bounds, lemma_ring, pred_mod, succ_mod, Grid};
use vstd::prelude::*;

verus! {

/// The grid of the given shape on which exactly the positions that `alive`
/// holds of are alive, and nothing is pending.
pub open spec fn grid_from(width: nat, height: nat, alive: spec_fn(int, int) -> bool) -> Grid {
    Grid {
        width,
        height,
        cells: Seq::new(
            width * height,
            |i: int|
                CellView {
                    alive: alive(i % width as int, i / width as int),
                    pending: CellState::Unknown,
                },
        ),
    }
}

/// 1 where `alive` holds of `(x, y)`, else 0.
pub open spec fn one_if(alive: spec_fn(int, int) -> bool, x: int, y: int) -> nat {
    if alive(x, y) {
        1
    } else {
        0
    }
}

/// The number of positions among the eight neighbours of `(x, y)` on a
/// torus of the given shape that `alive` holds of.
pub open spec fn count_around(
    width: nat,
    height: nat,
    alive: spec_fn(int, int) -> bool,
    x: int,
    y: int,
) -> nat {
    let up = succ_mod(y, height as int);
    let down = pred_mod(y, height as int);
    let right = succ_mod(x, width as int);
    let left = pred_mod(x, width as int);
    one_if(alive, x, up) + one_if(alive, right, up) + one_if(alive, right, y) + one_if(
        alive,
        right,
        down,
    ) + one_if(alive, x, down) + one_if(alive, left, down) + one_if(alive, left, y) + one_if(
        alive,
        left,
        up,
    )
}

impl Grid {
    /// The grid `n` generations later.
    pub open spec fn after(self, n: nat) -> Grid
        decreases n,
    {
        if n == 0 {
            self
        } else {
            self.next_generation().after((n - 1) as nat)
        }
    }
}

/// On a grid given by a predicate, a cell is alive where the predicate
/// holds, and its neighbour count is the count of the predicate around it.
pub proof fn lemma_grid_from(
    width: nat,
    height: nat,
    alive: spec_fn(int, int) -> bool,
    x: int,
    y: int,
)
    requires
        0 <= x < width,
        0 <= y < height,
    ensures
        grid_from(width, height, alive).wf(),
        grid_from(width, height, alive).cell(x, y) == (CellView {
            alive: alive(x, y),
            pending: CellState::Unknown,
        }),
        grid_from(width, height, alive).neighbors(x, y) == count_around(
            width,
            height,
            alive,
            x,
            y,
        ),
{
    let g = grid_from(width, height, alive);
    lemma_ring(x, width as int);
    lemma_ring(y, height as int);
    let up = succ_mod(y, height as int);
    let down = pred_mod(y, height as int);
    let right = succ_mod(x, width as int);
    let left = pred_mod(x, width as int);
    lemma_index_in_bounds(g, x, y);
    lemma_index_in_bounds(g, x, up);
    lemma_index_in_bounds(g, right, up);
    lemma_index_in_bounds(g, right, y);
    lemma_index_in_bounds(g, right, down);
    lemma_index_in_bounds(g, x, down);
    lemma_index_in_bounds(g, left, down);
    lemma_index_in_bounds(g, left, y);
    lemma_index_in_bounds(g, left, up);
}

/// One generation of a grid given by a predicate: where `next` holds
/// exactly of the positions that the rule keeps or makes alive, the next
/// generation is the grid given by `next`.
pub proof fn lemma_generation_of(
    width: nat,
    height: nat,
    alive: spec_fn(int, int) -> bool,
    next: spec_fn(int, int) -> bool,
)
    requires
        width > 0,
        height > 0,
        forall|x: int, y: int|
            0 <= x < width && 0 <= y < height ==> #[trigger] next(x, y) == survives(
                alive(x, y),
                count_around(width, height, alive, x, y),
            ),
    ensures
        grid_from(width, height, alive).next_generation() == grid_from(width, height, next),
{
    let g = grid_from(width, height, alive);
    let n = g.next_generation();
    let m = grid_from(width, height, next);
    assert forall|i: int| 0 <= i < n.cells.len() implies n.cells[i] == m.cells[i] by {
        lemma_coords_in_bounds(g, i);
        let x = i % width as int;
        let y = i / width as int;
        lemma_grid_from(width, height, alive, x, y);
    }
    assert(n.cells =~= m.cells);
}

/// Whether `i` is `at` or the position after it on a ring of `n`.
pub open spec fn in_pair(i: int, at: int, n: int) -> bool {
    i == at || i == succ_mod(at, n)
}

/// The positions of two columns and two rows that start at `(x0, y0)`.
pub open spec fn block_cells(width: nat, height: nat, x0: int, y0: int) -> spec_fn(int, int) -> bool {
    |x: int, y: int| in_pair(x, x0, width as int) && in_pair(y, y0, height as int)
}

/// The block: two by two live cells with the corner `(x0, y0)`, all else
/// dead. On the torus it may reach over an edge.
pub open spec fn block(width: nat, height: nat, x0: int, y0: int) -> Grid {
    grid_from(width, height, block_cells(width, height, x0, y0))
}

/// One generation leaves the block as it is.
proof fn lemma_block_step(width: nat, height: nat, x0: int, y0: int)
    requires
        width >= 3,
        height >= 3,
        0 <= x0 < width,
        0 <= y0 < height,
    ensures
        block(width, height, x0, y0).next_generation() == block(width, height, x0, y0),
{
    let alive = block_cells(width, height, x0, y0);
    lemma_ring(x0, width as int);
    lemma_ring(y0, height as int);
    assert forall|x: int, y: int| 0 <= x < width && 0 <= y < height implies #[trigger] alive(
        x,
        y,
    ) == survives(alive(x, y), count_around(width, height, alive, x, y)) by {
        lemma_ring(x, width as int);
        lemma_ring(y, height as int);
    }
    lemma_generation_of(width, height, alive, alive);
}

/// Still life: on a torus of at least three columns and three rows the
/// block is unchanged after any number of generations.
pub proof fn law_block_is_still(width: nat, height: nat, x0: int, y0: int, n: nat)
    requires
        width >= 3,
        height >= 3,
        0 <= x0 < width,
        0 <= y0 < height,
    ensures
        block(width, height, x0, y0).after(n) == block(width, height, x0, y0),
    decreases n,
{
    if n > 0 {
        lemma_block_step(width, height, x0, y0);
        law_block_is_still(width, height, x0, y0, (n - 1) as nat);
    }
}

/// Whether `i` is `at` or next to it on a ring of `n`.
pub open spec fn near(i: int, at: int, n: int) -> bool {
    i == at || i == succ_mod(at, n) || i == pred_mod(at, n)
}

/// The positions of row `y0` at and beside column `x0`.
pub open spec fn flat_cells(width: nat, x0: int, y0: int) -> spec_fn(int, int) -> bool {
    |x: int, y: int| y == y0 && near(x, x0, width as int)
}

/// The positions of column `x0` at and beside row `y0`.
pub open spec fn upright_cells(height: nat, x0: int, y0: int) -> spec_fn(int, int) -> bool {
    |x: int, y: int| x == x0 && near(y, y0, height as int)
}

/// The blinker lying flat: three live cells in row `y0`, the middle one in
/// column `x0`, all else dead.
pub open spec fn blinker_flat(width: nat, height: nat, x0: int, y0: int) -> Grid {
    grid_from(width, height, flat_cells(width, x0, y0))
}

/// The blinker standing upright: three live cells in column `x0`, the
/// middle one in row `y0`, all else dead.
pub open spec fn blinker_upright(width: nat, height: nat, x0: int, y0: int) -> Grid {
    grid_from(width, height, upright_cells(height, x0, y0))
}

/// One generation stands the flat blinker upright.
pub proof fn lemma_blinker_rises(width: nat, height: nat, x0: int, y0: int)
    requires
        width >= 4,
        height >= 3,
        0 <= x0 < width,
        0 <= y0 < height,
    ensures
        blinker_flat(width, height, x0, y0).next_generation() == blinker_upright(
            width,
            height,
            x0,
            y0,
        ),
{
    let flat = flat_cells(width, x0, y0);
    let upright = upright_cells(height, x0, y0);
    lemma_ring(x0, width as int);
    lemma_ring(y0, height as int);
    assert forall|x: int, y: int| 0 <= x < width && 0 <= y < height implies #[trigger] upright(
        x,
        y,
    ) == survives(flat(x, y), count_around(width, height, flat, x, y)) by {
        lemma_ring(x, width as int);
        lemma_ring(y, height as int);
    }
    lemma_generation_of(width, height, flat, upright);
}

/// One generation lays the upright blinker flat.
pub proof fn lemma_blinker_falls(width: nat, height: nat, x0: int, y0: int)
    requires
        width >= 3,
        height >= 4,
        0 <= x0 < width,
        0 <= y0 < height,
    ensures
        blinker_upright(width, height, x0, y0).next_generation() == blinker_flat(
            width,
            height,
            x0,
            y0,
        ),
{
    let flat = flat_cells(width, x0, y0);
    let upright = upright_cells(height, x0, y0);
    lemma_ring(x0, width as int);
    lemma_ring(y0, height as int);
    assert forall|x: int, y: int| 0 <= x < width && 0 <= y < height implies #[trigger] flat(
        x,
        y,
    ) == survives(upright(x, y), count_around(width, height, upright, x, y)) by {
        lemma_ring(x, width as int);
        lemma_ring(y, height as int);
    }
    lemma_generation_of(width, height, upright, flat);
}

/// Blinker: on a torus of at least four columns and four rows, three live
/// cells in a row are back where they started after exactly two
/// generations, and not after one.
pub proof fn law_blinker_has_period_two(width: nat, height: nat, x0: int, y0: int)
    requires
        width >= 4,
        height >= 4,
        0 <= x0 < width,
        0 <= y0 < height,
    ensures
        blinker_flat(width, height, x0, y0).after(2) == blinker_flat(width, height, x0, y0),
        blinker_flat(width, height, x0, y0).after(1) != blinker_flat(width, height, x0, y0),
{
    let flat = blinker_flat(width, height, x0, y0);
    let upright = blinker_upright(width, height, x0, y0);
    lemma_blinker_rises(width, height, x0, y0);
    lemma_blinker_falls(width, height, x0, y0);
    assert(flat.after(1) == upright) by {
        assert(upright.after(0) == upright);
    }
    assert(flat.after(2) == flat) by {
        assert(flat.after(0) == flat);
        assert(upright.after(1) == flat);
    }
    assert(upright != flat) by {
        lemma_ring(x0, width as int);
        let beside = succ_mod(x0, width as int);
        lemma_grid_from(width, height, flat_cells(width, x0, y0), beside, y0);
        lemma_grid_from(width, height, upright_cells(height, x0, y0), beside, y0);
        assert(flat.cell(beside, y0).alive);
        assert(!upright.cell(beside, y0).alive);
    }
}

/// How far `i` lies after `at` on a ring of `n`.
pub open spec fn offset(i: int, at: int, n: int) -> int {
    if i >= at {
        i - at
    } else {
        i - at + n
    }
}

/// The glider in each of its four phases, by the offsets of its five live
/// cells from a corner. Phase 0 is the shape that comes back.
pub open spec fn glider_shape(phase: nat, dx: int, dy: int) -> bool {
    if phase == 0 {
        (dx == 1 && dy == 0) || (dx == 2 && dy == 1) || (dx == 0 && dy == 2) || (dx == 1 && dy
            == 2) || (dx == 2 && dy == 2)
    } else if phase == 1 {
        (dx == 0 && dy == 1) || (dx == 2 && dy == 1) || (dx == 1 && dy == 2) || (dx == 2 && dy
            == 2) || (dx == 1 && dy == 3)
    } else if phase == 2 {
        (dx == 2 && dy == 1) || (dx == 0 && dy == 2) || (dx == 2 && dy == 2) || (dx == 1 && dy
            == 3) || (dx == 2 && dy == 3)
    } else {
        (dx == 1 && dy == 1) || (dx == 2 && dy == 2) || (dx == 3 && dy == 2) || (dx == 1 && dy
            == 3) || (dx == 2 && dy == 3)
    }
}

/// The positions of a glider in the given phase whose corner is `(x0, y0)`.
pub open spec fn glider_cells(width: nat, height: nat, x0: int, y0: int, phase: nat) -> spec_fn(
    int,
    int,
) -> bool {
    |x: int, y: int|
        glider_shape(phase, offset(x, x0, width as int), offset(y, y0, height as int))
}

/// The glider: five live cells in the given phase with the corner
/// `(x0, y0)`, all else dead.
pub open spec fn glider(width: nat, height: nat, x0: int, y0: int, phase: nat) -> Grid {
    grid_from(width, height, glider_cells(width, height, x0, y0, phase))
}

/// Offsets follow the ring: the neighbours of a position lie at the
/// neighbouring offsets, and moving the corner one forward moves every
/// offset one back.
pub proof fn lemma_offset_ring(i: int, at: int, n: int)
    requires
        0 <= i < n,
        0 <= at < n,
    ensures
        0 <= offset(i, at, n) < n,
        offset(succ_mod(i, n), at, n) == succ_mod(offset(i, at, n), n),
        offset(pred_mod(i, n), at, n) == pred_mod(offset(i, at, n), n),
        offset(i, succ_mod(at, n), n) == pred_mod(offset(i, at, n), n),
{
    lemma_ring(i, n);
    lemma_ring(at, n);
    lemma_ring(offset(i, at, n), n);
}

/// One generation takes the glider from one phase to the next, the corner
/// staying where it is.
pub proof fn lemma_glider_turns(width: nat, height: nat, x0: int, y0: int, phase: nat)
    requires
        width >= 5,
        height >= 5,
        0 <= x0 < width,
        0 <= y0 < height,
        phase < 3,
    ensures
        glider(width, height, x0, y0, phase).next_generation() == glider(
            width,
            height,
            x0,
            y0,
            phase + 1,
        ),
{
    let now = glider_cells(width, height, x0, y0, phase);
    let next = glider_cells(width, height, x0, y0, phase + 1);
    assert forall|x: int, y: int| 0 <= x < width && 0 <= y < height implies #[trigger] next(
        x,
        y,
    ) == survives(now(x, y), count_around(width, height, now, x, y)) by {
        lemma_ring(x, width as int);
        lemma_ring(y, height as int);
        lemma_offset_ring(x, x0, width as int);
        lemma_offset_ring(y, y0, height as int);
        lemma_ring(offset(x, x0, width as int), width as int);
        lemma_ring(offset(y, y0, height as int), height as int);
    }
    lemma_generation_of(width, height, now, next);
}

/// One generation takes the glider from its last phase back to its first,
/// the corner one further along both axes.
pub proof fn lemma_glider_lands(width: nat, height: nat, x0: int, y0: int)
    requires
        width >= 5,
        height >= 5,
        0 <= x0 < width,
        0 <= y0 < height,
    ensures
        glider(width, height, x0, y0, 3).next_generation() == glider(
            width,
            height,
            succ_mod(x0, width as int),
            succ_mod(y0, height as int),
            0,
        ),
{
    let x1 = succ_mod(x0, width as int);
    let y1 = succ_mod(y0, height as int);
    let now = glider_cells(width, height, x0, y0, 3);
    let next = glider_cells(width, height, x1, y1, 0);
    assert forall|x: int, y: int| 0 <= x < width && 0 <= y < height implies #[trigger] next(
        x,
        y,
    ) == survives(now(x, y), count_around(width, height, now, x, y)) by {
        lemma_ring(x, width as int);
        lemma_ring(y, height as int);
        lemma_offset_ring(x, x0, width as int);
        lemma_offset_ring(y, y0, height as int);
        lemma_ring(offset(x, x0, width as int), width as int);
        lemma_ring(offset(y, y0, height as int), height as int);
    }
    lemma_generation_of(width, height, now, next);
}

/// Glider: on a torus of at least five columns and five rows the glider is
/// back in its first shape after four generations, moved by one column and
/// one row.
pub proof fn law_glider_moves(width: nat, height: nat, x0: int, y0: int)
    requires
        width >= 5,
        height >= 5,
        0 <= x0 < width,
        0 <= y0 < height,
    ensures
        glider(width, height, x0, y0, 0).after(4) == glider(
            width,
            height,
            succ_mod(x0, width as int),
            succ_mod(y0, height as int),
            0,
        ),
{
    let landed = glider(
        width,
        height,
        succ_mod(x0, width as int),
        succ_mod(y0, height as int),
        0,
    );
    lemma_glider_turns(width, height, x0, y0, 0);
    lemma_glider_turns(width, height, x0, y0, 1);
    lemma_glider_turns(width, height, x0, y0, 2);
    lemma_glider_lands(width, height, x0, y0);
    assert(landed.after(0) == landed);
    assert(glider(width, height, x0, y0, 3).after(1) == landed);
    assert(glider(width, height, x0, y0, 2).after(2) == landed);
    assert(glider(width, height, x0, y0, 1).after(3) == landed);
}

/// A glider in phase 1, 2 or 3 is not the moved glider: it has a live cell
/// where the moved glider has none.
proof fn lemma_glider_differs(width: nat, height: nat, x0: int, y0: int, phase: nat)
    requires
        width >= 5,
        height >= 5,
        0 <= x0 < width,
        0 <= y0 < height,
        1 <= phase <= 3,
    ensures
        glider(width, height, x0, y0, phase) != glider(
            width,
            height,
            succ_mod(x0, width as int),
            succ_mod(y0, height as int),
            0,
        ),
{
    let w = width as int;
    let h = height as int;
    let x1 = succ_mod(x0, w);
    let y1 = succ_mod(y0, h);
    let y2 = succ_mod(y1, h);
    lemma_ring(x0, w);
    lemma_ring(y0, h);
    lemma_ring(y1, h);
    let x = if phase == 3 {
        x1
    } else {
        x0
    };
    let y = if phase == 2 {
        y2
    } else {
        y1
    };
    lemma_grid_from(width, height, glider_cells(width, height, x0, y0, phase), x, y);
    lemma_grid_from(width, height, glider_cells(width, height, x1, y1, 0), x, y);
    assert(glider(width, height, x0, y0, phase).cell(x, y).alive);
    assert(!glider(width, height, x1, y1, 0).cell(x, y).alive);
}

/// The glider needs all four generations: after one, two or three it is
/// not yet the moved glider.
pub proof fn law_glider_not_sooner(width: nat, height: nat, x0: int, y0: int, n: nat)
    requires
        width >= 5,
        height >= 5,
        0 <= x0 < width,
        0 <= y0 < height,
        1 <= n <= 3,
    ensures
        glider(width, height, x0, y0, 0).after(n) != glider(
            width,
            height,
            succ_mod(x0, width as int),
            succ_mod(y0, height as int),
            0,
        ),
{
    lemma_glider_turns(width, height, x0, y0, 0);
    lemma_glider_turns(width, height, x0, y0, 1);
    lemma_glider_turns(width, height, x0, y0, 2);
    lemma_glider_differs(width, height, x0, y0, n);
    let first = glider(width, height, x0, y0, 1);
    let second = glider(width, height, x0, y0, 2);
    let third = glider(width, height, x0, y0, 3);
    assert(first.after(0) == first);
    assert(second.after(0) == second);
    assert(third.after(0) == third);
    assert(first.after(1) == second);
    assert(second.after(1) == third);
    assert(first.after(2) == third);
}

} // verus!
