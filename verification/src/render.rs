//! The picture of a board: two characters per cell, one line per row.
//!
//! Between the two phases of a generation a cell shows what is about to
//! happen to it: it stays alive, dies, is born, or stays dead.

use crate::board::GameBoard;
use crate::cell::{CellState, CellView, LifeCell};
use crate::grid::Grid;
use vstd::prelude::*;

verus! {

/// The two characters that stand for a cell: full blocks for one that stays
/// alive, dark shade for one that dies, light shade for one that is born,
/// blanks for one that stays dead. A cell with nothing decided shows as a
/// single question mark.
pub open spec fn glyph_of(cell: CellView) -> Seq<char> {
    match (cell.alive, cell.pending) {
        (true, CellState::Alive) => "\u{2588}\u{2588}"@,
        (true, CellState::Dead) => "\u{2593}\u{2593}"@,
        (false, CellState::Alive) => "\u{2591}\u{2591}"@,
        (false, CellState::Dead) => "  "@,
        (_, CellState::Unknown) => "?"@,
    }
}

impl Grid {
    /// The picture of the first `n` cells of row `y`.
    pub open spec fn rendered_row(self, y: int, n: nat) -> Seq<char>
        decreases n,
    {
        if n == 0 {
            Seq::empty()
        } else {
            self.rendered_row(y, (n - 1) as nat) + glyph_of(self.cell(n - 1, y))
        }
    }

    /// The picture of the first `m` rows, each closed by a newline.
    pub open spec fn rendered_rows(self, m: nat) -> Seq<char>
        decreases m,
    {
        if m == 0 {
            Seq::empty()
        } else {
            self.rendered_rows((m - 1) as nat) + self.rendered_row(m - 1, self.width) + "\n"@
        }
    }

    /// The picture of the whole grid.
    pub open spec fn rendered(self) -> Seq<char> {
        self.rendered_rows(self.height)
    }
}

/// `String::push_str` of std, which vstd does not specify. Its
/// documentation says that it appends the given slice onto the end of the
/// string; the contract says that and no more.
pub assume_specification[ String::push_str ](text: &mut String, string: &str)
    ensures
        final(text)@ == old(text)@ + string@,
;

impl LifeCell {
    /// The two characters that stand for this cell.
    pub fn glyph(self) -> (text: &'static str)
        ensures
            text@ == glyph_of(self@),
    {
        match (self.current(), self.pending()) {
            (CellState::Alive, CellState::Alive) => "\u{2588}\u{2588}",
            (CellState::Alive, CellState::Dead) => "\u{2593}\u{2593}",
            (CellState::Dead, CellState::Alive) => "\u{2591}\u{2591}",
            (CellState::Dead, CellState::Dead) => "  ",
            _ => "?",
        }
    }
}

impl GameBoard {
    /// The picture of the board: row after row, each cell by its glyph and
    /// each row closed by a newline.
    pub fn render(&self) -> (picture: String)
        ensures
            picture@ == self@.rendered(),
    {
        let width = self.width();
        let height = self.height();
        let mut picture = String::new();
        let mut y: usize = 0;
        while y < height
            invariant
                y <= height,
                width == self@.width,
                height == self@.height,
                picture@ == self@.rendered_rows(y as nat),
            decreases height - y,
        {
            let ghost above = picture@;
            let mut x: usize = 0;
            while x < width
                invariant
                    x <= width,
                    y < height,
                    width == self@.width,
                    height == self@.height,
                    picture@ == above + self@.rendered_row(y as int, x as nat),
                decreases width - x,
            {
                let cell = self.tile(x, y);
                picture.push_str(cell.glyph());
                x += 1;
            }
            picture.push_str("\n");
            y += 1;
        }
        picture
    }
}

} // verus!
