//! A single cell: its committed state and the decision pending for the next
//! generation.

use vstd::prelude::*;

verus! {

/// The state of a cell. `Unknown` only ever appears as a pending state: it
/// marks a cell whose next state has not been decided yet.
#[derive(Clone, Copy, Debug, PartialEq, Eq, Structural)]
pub enum CellState {
    Alive,
    Dead,
    Unknown,
}

/// Raised when a cell is asked to commit a next state that was never decided.
#[derive(Clone, Copy, Debug, PartialEq, Eq, Structural)]
pub struct StateChangeError;

/// The mathematical value of a cell: whether it lives in the committed
/// generation, and what has been decided for the next one.
pub struct CellView {
    pub alive: bool,
    pub pending: CellState,
}

/// The fixed rule B3/S23: a live cell survives with two or three live
/// neighbours, a dead cell is born with exactly three.
pub open spec fn survives(alive: bool, neighbors: nat) -> bool {
    if alive {
        neighbors == 2 || neighbors == 3
    } else {
        neighbors == 3
    }
}

/// The resolved state that stands for `alive`.
pub open spec fn state_of(alive: bool) -> CellState {
    if alive {
        CellState::Alive
    } else {
        CellState::Dead
    }
}

/// A cell with committed state `now` and pending state `next`.
#[derive(Clone, Copy, Debug, PartialEq, Eq, Structural)]
pub struct LifeCell {
    now: CellState,
    next: CellState,
}

impl View for LifeCell {
    type V = CellView;

    closed spec fn view(&self) -> CellView {
        CellView { alive: self.now == CellState::Alive, pending: self.next }
    }
}

impl CellView {
    /// 1 for a live cell, 0 for a dead one. Only the committed state counts.
    pub open spec fn liveness(self) -> nat {
        if self.alive {
            1
        } else {
            0
        }
    }

    /// The cell after its next state was decided against `neighbors`.
    pub open spec fn readied(self, neighbors: nat) -> CellView {
        CellView { alive: self.alive, pending: state_of(survives(self.alive, neighbors)) }
    }

    /// Whether a next state has been decided.
    pub open spec fn resolved(self) -> bool {
        self.pending != CellState::Unknown
    }

    /// The cell after its pending state was committed. Meaningful only for a
    /// resolved cell.
    pub open spec fn committed(self) -> CellView {
        CellView { alive: self.pending == CellState::Alive, pending: CellState::Unknown }
    }
}

impl StateChangeError {
    /// A short description of the error.
    pub fn description(&self) -> (text: &'static str)
        ensures
            text@ == "Cannot change cell to state Unknown"@,
    {
        "Cannot change cell to state Unknown"
    }
}

impl CellState {
    /// Turns a decided state into a cell of the next generation: the state
    /// becomes the committed one and nothing is pending. Fails exactly on
    /// `Unknown`.
    pub fn realize(&self) -> (result: Result<LifeCell, StateChangeError>)
        ensures
            *self == CellState::Unknown <==> result is Err,
            result matches Ok(cell) ==> cell@ == (CellView {
                alive: *self == CellState::Alive,
                pending: CellState::Unknown,
            }),
    {
        match *self {
            CellState::Alive => Ok(LifeCell::alive(CellState::Unknown)),
            CellState::Dead => Ok(LifeCell::dead(CellState::Unknown)),
            CellState::Unknown => Err(StateChangeError),
        }
    }
}

impl LifeCell {
    #[verifier::type_invariant]
    spec fn committed_state_is_resolved(self) -> bool {
        self.now != CellState::Unknown
    }

    /// A live cell with pending state `next`.
    pub fn alive(next: CellState) -> (cell: LifeCell)
        ensures
            cell@ == (CellView { alive: true, pending: next }),
    {
        LifeCell { now: CellState::Alive, next }
    }

    /// A dead cell with pending state `next`.
    pub fn dead(next: CellState) -> (cell: LifeCell)
        ensures
            cell@ == (CellView { alive: false, pending: next }),
    {
        LifeCell { now: CellState::Dead, next }
    }

    /// The committed state: `Alive` or `Dead`, never `Unknown`.
    pub fn current(self) -> (state: CellState)
        ensures
            state == state_of(self@.alive),
    {
        proof {
            use_type_invariant(&self);
        }
        self.now
    }

    /// The state decided for the next generation, `Unknown` if none was.
    pub fn pending(self) -> (state: CellState)
        ensures
            state == self@.pending,
    {
        self.next
    }

    /// What this cell adds to a neighbour count. Reads the committed state
    /// only, so a count is the same however many neighbours already carry a
    /// decision.
    pub fn count(self) -> (n: u32)
        ensures
            n == self@.liveness(),
    {
        match self.now {
            CellState::Alive => 1,
            _ => 0,
        }
    }

    /// The state this cell takes in the next generation, given the number of
    /// its live neighbours. The cell is not changed.
    pub fn decide(self, neighbors: u32) -> (state: CellState)
        ensures
            state == state_of(survives(self@.alive, neighbors as nat)),
    {
        proof {
            use_type_invariant(&self);
        }
        match self.now {
            CellState::Alive if neighbors == 2 || neighbors == 3 => CellState::Alive,
            CellState::Dead if neighbors == 3 => CellState::Alive,
            _ => CellState::Dead,
        }
    }

    /// This cell with its next state decided against `neighbors`. An earlier
    /// decision is overwritten.
    pub fn ready(self, neighbors: u32) -> (cell: LifeCell)
        ensures
            cell@ == self@.readied(neighbors as nat),
    {
        let next = self.decide(neighbors);
        match self.now {
            CellState::Alive => LifeCell { now: CellState::Alive, next },
            _ => LifeCell { now: CellState::Dead, next },
        }
    }

    /// The cell of the next generation: the pending state committed, nothing
    /// pending. Fails exactly when no next state was decided.
    pub fn step(self) -> (result: Result<LifeCell, StateChangeError>)
        ensures
            result is Ok <==> self@.resolved(),
            result matches Ok(cell) ==> cell@ == self@.committed(),
    {
        self.next.realize()
    }
}

} // verus!
