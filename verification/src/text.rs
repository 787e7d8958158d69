//! The text form of a board.
//!
//! The first line holds the width and the height, two decimal numbers
//! separated by white space. Every following line is one row: `=` marks a
//! live cell, any other byte a dead one.

use crate::cell::{CellState, CellView, LifeCell};
use crate::grid::Grid;
use vstd::arithmetic::div_mod::lemma_fundamental_div_mod_converse;
use vstd::prelude::*;

verus! {

/// `=`, the byte that marks a live cell.
pub const READ_ALIVE: u8 = 61;

/// `-`, the byte that marks a dead cell. Any byte but `=` is read as one.
pub const READ_DEAD: u8 = 45;

/// The byte that ends a line.
pub const NEWLINE: u8 = 10;

/// The byte that may stand before the end of a line and is then not part of
/// the row.
pub const CARRIAGE_RETURN: u8 = 13;

/// The horizontal tab, the first of the five control bytes that count as
/// white space; the carriage return is the last.
pub const TAB: u8 = 9;

/// The space.
pub const SPACE: u8 = 32;

/// `+`, which may stand before a number.
pub const PLUS: u8 = 43;

/// `0`, the first digit.
pub const DIGIT_ZERO: u8 = 48;

/// `9`, the last digit.
pub const DIGIT_NINE: u8 = 57;

/// Why a text is not a board.
#[derive(Clone, Copy, Debug, PartialEq, Eq, Structural)]
pub enum LoadError {
    /// The first line does not start with two numbers that fit a `usize`.
    BadHeader,
    /// The width or the height is zero.
    EmptyBoard,
    /// Some row is not exactly as long as the width.
    RowLength,
    /// The number of rows is not the height.
    RowCount,
}

/// White space as far as ASCII has it: the space, and tab to carriage return.
pub open spec fn is_space(byte: u8) -> bool {
    byte == SPACE || (TAB <= byte && byte <= CARRIAGE_RETURN)
}

/// The decimal digits.
pub open spec fn is_digit(byte: u8) -> bool {
    DIGIT_ZERO <= byte && byte <= DIGIT_NINE
}

/// The number of bytes from `from` up to the next newline, or up to the end
/// of the text where no newline follows.
pub open spec fn line_len(text: Seq<u8>, from: int) -> nat
    decreases text.len() - from,
{
    if from < 0 || from >= text.len() || text[from] == NEWLINE {
        0
    } else {
        1 + line_len(text, from + 1)
    }
}

/// The number of bytes from `from` on, and before `to`, that are all white
/// space (`spaces`) or all something else (`!spaces`).
pub open spec fn run_len(text: Seq<u8>, from: int, to: int, spaces: bool) -> nat
    decreases to - from,
{
    if from < 0 || from >= to || from >= text.len() || is_space(text[from]) != spaces {
        0
    } else {
        1 + run_len(text, from + 1, to, spaces)
    }
}

/// The value of a digit, 0 for any other byte.
pub open spec fn digit_value(byte: u8) -> nat {
    if is_digit(byte) {
        (byte - DIGIT_ZERO) as nat
    } else {
        0
    }
}

/// The number that a sequence of digits writes in base ten.
pub open spec fn decimal(digits: Seq<u8>) -> nat
    decreases digits.len(),
{
    if digits.len() == 0 {
        0
    } else {
        decimal(digits.drop_last()) * 10 + digit_value(digits.last())
    }
}

/// A word without the plus sign that may stand before its digits.
pub open spec fn unsigned(word: Seq<u8>) -> Seq<u8> {
    if word.len() > 0 && word[0] == PLUS {
        word.skip(1)
    } else {
        word
    }
}

/// The number that `word` writes: at least one digit, nothing but digits
/// after an optional plus sign, and a value that fits a `usize`.
pub open spec fn number(word: Seq<u8>) -> Option<usize> {
    let digits = unsigned(word);
    if digits.len() > 0 && (forall|i: int| 0 <= i < digits.len() ==> is_digit(#[trigger] digits[i]))
        && decimal(digits) <= usize::MAX {
        Some(decimal(digits) as usize)
    } else {
        None
    }
}

/// The width and the height that the first line gives: its first two words,
/// read as numbers. Further words on the line are not looked at.
pub open spec fn header(text: Seq<u8>) -> Option<(usize, usize)> {
    let end = line_len(text, 0) as int;
    let first = run_len(text, 0, end, true) as int;
    let first_end = first + run_len(text, first, end, false);
    let second = first_end + run_len(text, first_end, end, true);
    let second_end = second + run_len(text, second, end, false);
    match (number(text.subrange(first, first_end)), number(text.subrange(second, second_end))) {
        (Some(width), Some(height)) => Some((width, height)),
        _ => None,
    }
}

/// The row that stands in `text` from `from` up to `end`, where the line
/// ends. A carriage return just before a newline belongs to the line's end.
pub open spec fn row(text: Seq<u8>, from: int, end: int) -> Seq<u8> {
    if end < text.len() && from < end && text[end - 1] == CARRIAGE_RETURN {
        text.subrange(from, end - 1)
    } else {
        text.subrange(from, end)
    }
}

/// The rows that stand in `text` from `from` on, one per line. A newline at
/// the very end of the text starts no further row.
pub open spec fn rows(text: Seq<u8>, from: int) -> Seq<Seq<u8>>
    decreases text.len() - from,
{
    if from < 0 || from >= text.len() {
        Seq::empty()
    } else {
        let end = from + line_len(text, from);
        if end < text.len() {
            seq![row(text, from, end)] + rows(text, end + 1)
        } else {
            seq![row(text, from, end)]
        }
    }
}

/// The rows of a board's text: all lines after the first.
pub open spec fn body(text: Seq<u8>) -> Seq<Seq<u8>> {
    rows(text, line_len(text, 0) as int + 1)
}

/// The cell that a byte of a row stands for. Nothing is pending for it.
pub open spec fn cell_of(byte: u8) -> CellView {
    CellView { alive: byte == READ_ALIVE, pending: CellState::Unknown }
}

/// The grid that rows of equal length `width` spell out.
pub open spec fn grid_of(width: nat, lines: Seq<Seq<u8>>) -> Grid {
    Grid {
        width,
        height: lines.len(),
        cells: Seq::new(
            width * lines.len(),
            |i: int| cell_of(lines[i / width as int][i % width as int]),
        ),
    }
}

/// The board that `text` describes, or why it describes none.
pub open spec fn parse(text: Seq<u8>) -> Result<Grid, LoadError> {
    match header(text) {
        None => Err(LoadError::BadHeader),
        Some((width, height)) => {
            let lines = body(text);
            if width == 0 || height == 0 {
                Err(LoadError::EmptyBoard)
            } else if exists|k: int| 0 <= k < lines.len() && (#[trigger] lines[k]).len() != width {
                Err(LoadError::RowLength)
            } else if lines.len() != height {
                Err(LoadError::RowCount)
            } else {
                Ok(grid_of(width as nat, lines))
            }
        },
    }
}

/// A prefix of a digit sequence writes a number no greater than the whole.
proof fn lemma_decimal_prefix(digits: Seq<u8>, k: int)
    requires
        0 <= k <= digits.len(),
    ensures
        decimal(digits.take(k)) <= decimal(digits),
    decreases digits.len(),
{
    if k == digits.len() {
        assert(digits.take(k) =~= digits);
    } else {
        lemma_decimal_prefix(digits.drop_last(), k);
        assert(digits.drop_last().take(k) =~= digits.take(k));
    }
}

fn byte_is_space(byte: u8) -> (space: bool)
    ensures
        space == is_space(byte),
{
    byte == SPACE || (TAB <= byte && byte <= CARRIAGE_RETURN)
}

/// Where the line that holds `from` ends: at the next newline, or at the end
/// of the text.
fn find_line_end(text: &[u8], from: usize) -> (end: usize)
    requires
        from <= text.len(),
    ensures
        end == from + line_len(text@, from as int),
        end <= text.len(),
{
    let mut end = from;
    while end < text.len() && text[end] != NEWLINE
        invariant
            from <= end <= text.len(),
            line_len(text@, from as int) == (end - from) + line_len(text@, end as int),
        decreases text.len() - end,
    {
        end += 1;
    }
    end
}

/// Where the run of white space (`spaces`), or of anything else, that starts
/// at `from` ends; `to` at the latest.
fn find_run_end(text: &[u8], from: usize, to: usize, spaces: bool) -> (end: usize)
    requires
        from <= to <= text.len(),
    ensures
        end == from + run_len(text@, from as int, to as int, spaces),
        from <= end <= to,
{
    let mut end = from;
    while end < to && byte_is_space(text[end]) == spaces
        invariant
            from <= end <= to <= text.len(),
            run_len(text@, from as int, to as int, spaces) == (end - from) + run_len(
                text@,
                end as int,
                to as int,
                spaces,
            ),
        decreases to - end,
    {
        end += 1;
    }
    end
}

/// Reads the word that stands in `text` from `from` up to `to` as a number.
fn read_number(text: &[u8], from: usize, to: usize) -> (value: Option<usize>)
    requires
        from <= to <= text.len(),
    ensures
        value == number(text@.subrange(from as int, to as int)),
{
    let start = if from < to && text[from] == PLUS {
        from + 1
    } else {
        from
    };
    let ghost digits = text@.subrange(start as int, to as int);
    if start == to {
        return None;
    }
    let mut value: usize = 0;
    let mut i = start;
    while i < to
        invariant
            start <= i <= to <= text.len(),
            digits == text@.subrange(start as int, to as int),
            digits == unsigned(text@.subrange(from as int, to as int)),
            forall|k: int| 0 <= k < i - start ==> is_digit(#[trigger] digits[k]),
            value == decimal(digits.take(i - start)),
        decreases to - i,
    {
        let byte = text[i];
        if byte < DIGIT_ZERO || byte > DIGIT_NINE {
            assert(!is_digit(digits[i - start]));
            return None;
        }
        let digit = (byte - DIGIT_ZERO) as usize;
        proof {
            assert(digits.take(i - start + 1).drop_last() =~= digits.take(i - start));
            lemma_decimal_prefix(digits, i - start + 1);
        }
        if value > (usize::MAX - digit) / 10 {
            return None;
        }
        value = value * 10 + digit;
        i += 1;
    }
    assert(digits.take(to - start) =~= digits);
    Some(value)
}

/// Reads the width and the height from the first line.
pub(crate) fn read_header(text: &[u8]) -> (dimensions: Option<(usize, usize)>)
    ensures
        dimensions == header(text@),
{
    let end = find_line_end(text, 0);
    let first = find_run_end(text, 0, end, true);
    let first_end = find_run_end(text, first, end, false);
    let second = find_run_end(text, first_end, end, true);
    let second_end = find_run_end(text, second, end, false);
    match read_number(text, first, first_end) {
        None => None,
        Some(width) => match read_number(text, second, second_end) {
            None => None,
            Some(height) => Some((width, height)),
        },
    }
}

/// Reads the rows of a board of the given width: one cell per byte, row
/// after row. Gives `None` when some row is not `width` bytes long.
pub(crate) fn read_rows(text: &[u8], width: usize) -> (read: Option<Vec<LifeCell>>)
    requires
        width > 0,
    ensures
        read is None <==> exists|k: int|
            0 <= k < body(text@).len() && (#[trigger] body(text@)[k]).len() != width,
        read matches Some(tiles) ==> {
            &&& tiles.len() == body(text@).len() * width
            &&& forall|i: int|
                0 <= i < tiles.len() ==> (#[trigger] tiles[i])@ == cell_of(
                    body(text@)[i / width as int][i % width as int],
                )
        },
{
    let ghost lines = body(text@);
    let header_end = find_line_end(text, 0);
    let mut from = if header_end < text.len() {
        header_end + 1
    } else {
        header_end
    };
    let mut tiles: Vec<LifeCell> = Vec::new();
    let ghost mut count: int = 0;
    while from < text.len()
        invariant
            from <= text.len(),
            width > 0,
            lines == body(text@),
            0 <= count <= lines.len(),
            lines.skip(count) == rows(text@, from as int),
            forall|k: int| 0 <= k < count ==> (#[trigger] lines[k]).len() == width,
            tiles.len() == count * width,
            forall|i: int|
                0 <= i < tiles.len() ==> (#[trigger] tiles[i])@ == cell_of(
                    lines[i / width as int][i % width as int],
                ),
        decreases text.len() - from,
    {
        let end = find_line_end(text, from);
        let row_end = if end < text.len() && from < end && text[end - 1] == CARRIAGE_RETURN {
            end - 1
        } else {
            end
        };
        let next = if end < text.len() {
            end + 1
        } else {
            end
        };
        proof {
            assert(lines.skip(count).len() >= 1);
            assert(lines.skip(count)[0] == lines[count]);
            assert(lines.skip(count + 1) =~= lines.skip(count).skip(1));
        }
        if row_end - from != width {
            return None;
        }
        let mut at = from;
        while at < row_end
            invariant
                from <= at <= row_end <= text.len(),
                row_end - from == width,
                0 <= count < lines.len(),
                lines[count] == text@.subrange(from as int, row_end as int),
                tiles.len() == count * width + (at - from),
                forall|i: int|
                    0 <= i < tiles.len() ==> (#[trigger] tiles[i])@ == cell_of(
                        lines[i / width as int][i % width as int],
                    ),
            decreases row_end - at,
        {
            let cell = if text[at] == READ_ALIVE {
                LifeCell::alive(CellState::Unknown)
            } else {
                LifeCell::dead(CellState::Unknown)
            };
            proof {
                lemma_fundamental_div_mod_converse(
                    tiles.len() as int,
                    width as int,
                    count,
                    at - from,
                );
            }
            tiles.push(cell);
            at += 1;
        }
        proof {
            assert(count * width + width == (count + 1) * width) by (nonlinear_arith);
            count = count + 1;
        }
        from = next;
    }
    Some(tiles)
}

} // verus!
