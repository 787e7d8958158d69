//! The executable board and the two-phase generation update.

use crate::cell::{CellState, CellView, LifeCell, StateChangeError};
use crate::grid::{
    lemma_coords_in_bounds, lemma_index_in_bounds, lemma_neighbors_ignore_pending, lemma_ring,
    pred_mod, succ_mod, Grid,
};
use crate::text::{body, grid_of, parse, read_header, read_rows, LoadError};
use vstd::arithmetic::div_mod::lemma_div_by_multiple;
use vstd::prelude::*;

verus! {

/// Raised when a position outside the board is written.
#[derive(Clone, Copy, Debug, PartialEq, Eq, Structural)]
pub struct OutOfBounds;

impl OutOfBounds {
    /// A short description of the error.
    pub fn description(&self) -> (text: &'static str)
        ensures
            text@ == "Coordinates out of bounds"@,
    {
        "Coordinates out of bounds"
    }
}

/// A board of fixed size whose edges are joined to the opposite edges.
pub struct GameBoard {
    width: usize,
    height: usize,
    tiles: Vec<LifeCell>,
}

impl View for GameBoard {
    type V = Grid;

    closed spec fn view(&self) -> Grid {
        Grid {
            width: self.width as nat,
            height: self.height as nat,
            cells: self.tiles@.map_values(|cell: LifeCell| cell@),
        }
    }
}

/// The successor of `i` on a ring of `n` positions.
fn ring_succ(i: usize, n: usize) -> (j: usize)
    requires
        i < n,
    ensures
        j == succ_mod(i as int, n as int),
        j < n,
{
    proof {
        lemma_ring(i as int, n as int);
    }
    if i + 1 == n {
        0
    } else {
        i + 1
    }
}

/// The predecessor of `i` on a ring of `n` positions.
fn ring_pred(i: usize, n: usize) -> (j: usize)
    requires
        i < n,
    ensures
        j == pred_mod(i as int, n as int),
        j < n,
{
    proof {
        lemma_ring(i as int, n as int);
    }
    if i == 0 {
        n - 1
    } else {
        i - 1
    }
}

impl GameBoard {
    #[verifier::type_invariant]
    spec fn one_tile_per_position(self) -> bool {
        &&& self.width > 0
        &&& self.height > 0
        &&& self.tiles.len() == self.width * self.height
    }

    /// A board of `width` by `height` cells, all dead and none decided.
    pub fn new(width: usize, height: usize) -> (board: GameBoard)
        requires
            width > 0,
            height > 0,
            width * height <= usize::MAX,
        ensures
            board@.wf(),
            board@.width == width,
            board@.height == height,
            forall|i: int|
                0 <= i < board@.cells.len() ==> board@.cells[i] == (CellView {
                    alive: false,
                    pending: CellState::Unknown,
                }),
    {
        let tile_number = width * height;
        let mut tiles: Vec<LifeCell> = Vec::with_capacity(tile_number);
        let mut i: usize = 0;
        while i < tile_number
            invariant
                i <= tile_number,
                tiles.len() == i,
                forall|j: int|
                    0 <= j < i ==> (#[trigger] tiles[j])@ == (CellView {
                        alive: false,
                        pending: CellState::Unknown,
                    }),
            decreases tile_number - i,
        {
            tiles.push(LifeCell::dead(CellState::Unknown));
            i += 1;
        }
        GameBoard { width, height, tiles }
    }

    /// Reads a board from its text form: the width and the height on the
    /// first line, then one line per row. Nothing is pending on the board.
    pub fn from_text(text: &[u8]) -> (result: Result<GameBoard, LoadError>)
        ensures
            match result {
                Ok(board) => parse(text@) == Ok::<Grid, LoadError>(board@),
                Err(error) => parse(text@) == Err::<Grid, LoadError>(error),
            },
    {
        match read_header(text) {
            None => Err(LoadError::BadHeader),
            Some((width, height)) => {
                if width == 0 || height == 0 {
                    return Err(LoadError::EmptyBoard);
                }
                match read_rows(text, width) {
                    None => Err(LoadError::RowLength),
                    Some(tiles) => {
                        let ghost lines = body(text@);
                        proof {
                            lemma_div_by_multiple(lines.len() as int, width as int);
                            assert(lines.len() * width == width * lines.len()) by (nonlinear_arith);
                        }
                        if tiles.len() / width != height {
                            Err(LoadError::RowCount)
                        } else {
                            let board = GameBoard { width, height, tiles };
                            assert(board@.cells =~= grid_of(width as nat, lines).cells);
                            Ok(board)
                        }
                    },
                }
            },
        }
    }

    /// The number of columns.
    pub fn width(&self) -> (width: usize)
        ensures
            width == self@.width,
            self@.wf(),
    {
        proof {
            use_type_invariant(self);
        }
        self.width
    }

    /// The number of rows.
    pub fn height(&self) -> (height: usize)
        ensures
            height == self@.height,
            self@.wf(),
    {
        proof {
            use_type_invariant(self);
        }
        self.height
    }

    /// The cell at a position known to be on the board.
    pub(crate) fn tile(&self, x: usize, y: usize) -> (cell: LifeCell)
        requires
            self@.contains(x as int, y as int),
        ensures
            cell@ == self@.cell(x as int, y as int),
    {
        proof {
            use_type_invariant(self);
            lemma_index_in_bounds(self@, x as int, y as int);
        }
        self.tiles[y * self.width + x]
    }

    /// A copy of the cell at `(x, y)`, or `None` off the board.
    pub fn get(&self, x: usize, y: usize) -> (found: Option<LifeCell>)
        ensures
            found is Some <==> self@.contains(x as int, y as int),
            found matches Some(cell) ==> cell@ == self@.cell(x as int, y as int),
    {
        proof {
            use_type_invariant(self);
        }
        if x < self.width && y < self.height {
            Some(self.tile(x, y))
        } else {
            None
        }
    }

    /// Overwrites the cell at `(x, y)`. Off the board nothing is written.
    pub fn set(&mut self, x: usize, y: usize, value: LifeCell) -> (result: Result<(), OutOfBounds>)
        ensures
            result is Ok <==> old(self)@.contains(x as int, y as int),
            result is Ok ==> final(self)@ == (Grid {
                cells: old(self)@.cells.update(old(self)@.index(x as int, y as int), value@),
                ..old(self)@
            }),
            result is Err ==> final(self)@ == old(self)@,
    {
        proof {
            use_type_invariant(&*self);
        }
        if x < self.width && y < self.height {
            proof {
                lemma_index_in_bounds(self@, x as int, y as int);
            }
            let index = y * self.width + x;
            self.tiles[index] = value;
            assert(self@.cells =~= old(self)@.cells.update(index as int, value@));
            Ok(())
        } else {
            Err(OutOfBounds)
        }
    }

    /// The position of the cell stored at `index`.
    pub fn coords(&self, index: usize) -> (position: (usize, usize))
        ensures
            position.0 == index as int % self@.width as int,
            position.1 == index as int / self@.width as int,
    {
        proof {
            use_type_invariant(self);
        }
        (index % self.width, index / self.width)
    }

    /// The number of live cells among the eight neighbours of the cell stored
    /// at `index`.
    pub fn count_neighbors(&self, index: usize) -> (count: u32)
        requires
            index < self@.cells.len(),
        ensures
            count == self@.neighbors_at(index as int),
            count <= 8,
    {
        proof {
            use_type_invariant(self);
            lemma_coords_in_bounds(self@, index as int);
        }
        let (x, y) = self.coords(index);
        let up = ring_succ(y, self.height);
        let down = ring_pred(y, self.height);
        let right = ring_succ(x, self.width);
        let left = ring_pred(x, self.width);
        self.tile(x, up).count() + self.tile(right, up).count() + self.tile(right, y).count()
            + self.tile(right, down).count() + self.tile(x, down).count() + self.tile(
            left,
            down,
        ).count() + self.tile(left, y).count() + self.tile(left, up).count()
    }

    /// First phase of a generation: decides every cell's next state from the
    /// committed states of its neighbours. Committed states are not touched,
    /// so the order in which the cells are visited does not matter.
    pub fn ready(&mut self)
        ensures
            final(self)@ == old(self)@.evaluated(),
    {
        proof {
            use_type_invariant(&*self);
        }
        let tile_number = self.tiles.len();
        let mut i: usize = 0;
        while i < tile_number
            invariant
                i <= tile_number,
                old(self)@.wf(),
                self@.wf(),
                self@.width == old(self)@.width,
                self@.height == old(self)@.height,
                self@.cells.len() == tile_number,
                forall|j: int|
                    0 <= j < i ==> #[trigger] self@.cells[j] == old(self)@.cells[j].readied(
                        old(self)@.neighbors_at(j),
                    ),
                forall|j: int| i <= j < tile_number ==> #[trigger] self@.cells[j] == old(self)@.cells[j],
            decreases tile_number - i,
        {
            proof {
                use_type_invariant(&*self);
                lemma_coords_in_bounds(self@, i as int);
                lemma_neighbors_ignore_pending(
                    self@,
                    old(self)@,
                    i as int % self@.width as int,
                    i as int / self@.width as int,
                );
            }
            let count = self.count_neighbors(i);
            let cell = self.tiles[i].ready(count);
            let ghost before = self@;
            assert(self.tiles[i as int]@ == before.cells[i as int]);
            self.tiles[i] = cell;
            assert(self@.cells =~= before.cells.update(i as int, cell@));
            i += 1;
        }
        assert(self@.cells =~= old(self)@.evaluated().cells);
    }

    /// Second phase of a generation: commits every cell's decision and
    /// leaves nothing pending. Fails, and changes nothing, when some cell
    /// carries no decision.
    pub fn step(&mut self) -> (result: Result<(), StateChangeError>)
        ensures
            result is Ok <==> old(self)@.resolved(),
            result is Ok ==> final(self)@ == old(self)@.committed(),
            result is Err ==> final(self)@ == old(self)@,
    {
        proof {
            use_type_invariant(&*self);
        }
        let tile_number = self.tiles.len();
        let mut checked: usize = 0;
        while checked < tile_number
            invariant
                checked <= tile_number,
                *self == *old(self),
                self@.cells.len() == tile_number,
                forall|j: int| 0 <= j < checked ==> (#[trigger] self@.cells[j]).resolved(),
            decreases tile_number - checked,
        {
            match self.tiles[checked].pending() {
                CellState::Unknown => {
                    assert(!self@.cells[checked as int].resolved());
                    return Err(StateChangeError);
                },
                _ => {},
            }
            checked += 1;
        }
        let mut i: usize = 0;
        while i < tile_number
            invariant
                i <= tile_number,
                old(self)@.resolved(),
                self@.width == old(self)@.width,
                self@.height == old(self)@.height,
                self@.cells.len() == tile_number,
                old(self)@.cells.len() == tile_number,
                forall|j: int|
                    0 <= j < i ==> #[trigger] self@.cells[j] == old(self)@.cells[j].committed(),
                forall|j: int| i <= j < tile_number ==> #[trigger] self@.cells[j] == old(self)@.cells[j],
            decreases tile_number - i,
        {
            proof {
                use_type_invariant(&*self);
            }
            assert(self@.cells[i as int].resolved());
            let ghost before = self@;
            match self.tiles[i].step() {
                Ok(cell) => {
                    self.tiles[i] = cell;
                    assert(self@.cells =~= before.cells.update(i as int, cell@));
                },
                Err(error) => {
                    return Err(error);
                },
            }
            i += 1;
        }
        assert(self@.cells =~= old(self)@.committed().cells);
        Ok(())
    }
}

} // verus!
