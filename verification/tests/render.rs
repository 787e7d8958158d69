use game_of_life::{CellState, GameBoard, LifeCell};

const LIVES: &str = "\u{2588}\u{2588}";
const DIES: &str = "\u{2593}\u{2593}";
const GROWS: &str = "\u{2591}\u{2591}";
const STAYS_DEAD: &str = "  ";

#[test]
fn undecided_board_renders_as_question_marks() {
    let board = GameBoard::new(3, 2);
    assert_eq!(board.render(), "???\n???\n");
}

#[test]
fn readied_empty_board_renders_as_blanks() {
    let mut board = GameBoard::new(2, 2);
    board.ready();
    assert_eq!(board.render(), "    \n    \n");
}

#[test]
fn every_row_ends_in_a_newline() {
    let mut board = GameBoard::new(1, 3);
    board.ready();
    assert_eq!(board.render(), "  \n  \n  \n");
}

#[test]
fn blinker_between_the_phases_shows_all_four_glyphs() {
    let mut board = GameBoard::new(5, 5);
    for x in 1..4 {
        board.set(x, 2, LifeCell::alive(CellState::Unknown)).unwrap();
    }
    board.ready();
    let blank = STAYS_DEAD.repeat(5);
    let born = format!("{}{}{}{}{}", STAYS_DEAD, STAYS_DEAD, GROWS, STAYS_DEAD, STAYS_DEAD);
    let middle = format!("{}{}{}{}{}", STAYS_DEAD, DIES, LIVES, DIES, STAYS_DEAD);
    let expected = format!("{}\n{}\n{}\n{}\n{}\n", blank, born, middle, born, blank);
    assert_eq!(board.render(), expected);
}

#[test]
fn render_after_step_shows_question_marks_again() {
    let mut board = GameBoard::new(3, 3);
    board.set(0, 0, LifeCell::alive(CellState::Unknown)).unwrap();
    board.ready();
    let blank = STAYS_DEAD.repeat(3);
    let first = format!("{}{}{}", DIES, STAYS_DEAD, STAYS_DEAD);
    assert_eq!(board.render(), format!("{}\n{}\n{}\n", first, blank, blank));
    board.step().unwrap();
    assert_eq!(board.render(), "???\n???\n???\n");
}

#[test]
fn render_is_the_glyphs_of_the_cells_in_order() {
    let mut board = GameBoard::new(2, 2);
    board.set(0, 0, LifeCell::alive(CellState::Alive)).unwrap();
    board.set(1, 0, LifeCell::alive(CellState::Dead)).unwrap();
    board.set(0, 1, LifeCell::dead(CellState::Alive)).unwrap();
    board.set(1, 1, LifeCell::dead(CellState::Unknown)).unwrap();
    let mut expected = String::new();
    for y in 0..2 {
        for x in 0..2 {
            expected.push_str(board.get(x, y).unwrap().glyph());
        }
        expected.push('\n');
    }
    assert_eq!(board.render(), expected);
    assert_eq!(board.render(), format!("{}{}\n{}?\n", LIVES, DIES, GROWS));
}

#[test]
fn cell_on_a_one_row_torus_is_its_own_neighbour_above_and_below() {
    let mut board = GameBoard::new(2, 1);
    board.set(0, 0, LifeCell::alive(CellState::Unknown)).unwrap();
    assert_eq!(board.count_neighbors(0), 2);
    board.ready();
    assert_eq!(board.render(), format!("{}{}\n", LIVES, STAYS_DEAD));
}
