use game_of_life::text::{READ_ALIVE, READ_DEAD};
use game_of_life::{CellState, GameBoard, LifeCell, LoadError};

fn alive_map(board: &GameBoard) -> Vec<Vec<bool>> {
    let mut rows = Vec::new();
    for y in 0..board.height() {
        let mut row = Vec::new();
        for x in 0..board.width() {
            let cell = board.get(x, y).unwrap();
            assert_eq!(cell.pending(), CellState::Unknown);
            row.push(cell.current() == CellState::Alive);
        }
        rows.push(row);
    }
    rows
}

fn error_of(text: &str) -> LoadError {
    match GameBoard::from_text(text.as_bytes()) {
        Ok(_) => panic!("a board was read from {:?}", text),
        Err(error) => error,
    }
}

#[test]
fn markers_are_the_equals_sign_and_the_hyphen() {
    assert_eq!(READ_ALIVE, b'=');
    assert_eq!(READ_DEAD, b'-');
}

#[test]
fn text_gives_the_board_row_by_row() {
    let board = GameBoard::from_text(b"3 2\n=-=\n-=-\n").unwrap();
    assert_eq!(board.width(), 3);
    assert_eq!(board.height(), 2);
    assert_eq!(alive_map(&board), vec![vec![true, false, true], vec![false, true, false]]);
    assert_eq!(board.get(0, 0), Some(LifeCell::alive(CellState::Unknown)));
    assert_eq!(board.get(1, 0), Some(LifeCell::dead(CellState::Unknown)));
}

#[test]
fn loaded_board_has_nothing_pending() {
    let mut board = GameBoard::from_text(b"2 2\n==\n==\n").unwrap();
    assert!(board.step().is_err());
    board.ready();
    assert!(board.step().is_ok());
}

#[test]
fn last_row_needs_no_newline() {
    let board = GameBoard::from_text(b"2 2\n=-\n-=").unwrap();
    assert_eq!(alive_map(&board), vec![vec![true, false], vec![false, true]]);
}

#[test]
fn lines_may_end_in_carriage_return_and_newline() {
    let board = GameBoard::from_text(b"2 2\r\n=-\r\n-=\r\n").unwrap();
    assert_eq!(board.width(), 2);
    assert_eq!(board.height(), 2);
    assert_eq!(alive_map(&board), vec![vec![true, false], vec![false, true]]);
}

#[test]
fn carriage_return_without_newline_is_part_of_the_row() {
    assert_eq!(error_of("2 1\n=-\r"), LoadError::RowLength);
    let board = GameBoard::from_text(b"3 1\n=-\r").unwrap();
    assert_eq!(alive_map(&board), vec![vec![true, false, false]]);
}

#[test]
fn only_one_carriage_return_belongs_to_the_line_end() {
    let board = GameBoard::from_text(b"2 1\n=\r\r\n").unwrap();
    assert_eq!(alive_map(&board), vec![vec![true, false]]);
}

#[test]
fn header_words_may_be_parted_by_any_white_space() {
    let board = GameBoard::from_text(b" \t 2 \t\x0b\x0c 1  \r\n=-\n").unwrap();
    assert_eq!(board.width(), 2);
    assert_eq!(board.height(), 1);
}

#[test]
fn header_numbers_may_carry_a_plus_sign_and_leading_zeros() {
    let board = GameBoard::from_text(b"+2 0001\n==\n").unwrap();
    assert_eq!(board.width(), 2);
    assert_eq!(board.height(), 1);
}

#[test]
fn further_words_of_the_header_are_not_looked_at() {
    let board = GameBoard::from_text(b"2 1 glider x\n-=\n").unwrap();
    assert_eq!(alive_map(&board), vec![vec![false, true]]);
}

#[test]
fn width_comes_first_and_height_second() {
    let board = GameBoard::from_text(b"1 3\n=\n-\n=\n").unwrap();
    assert_eq!(board.width(), 1);
    assert_eq!(board.height(), 3);
    assert_eq!(alive_map(&board), vec![vec![true], vec![false], vec![true]]);
}

#[test]
fn any_byte_but_the_live_marker_reads_as_dead() {
    let board = GameBoard::from_text(b"6 1\n=x -.=\n").unwrap();
    assert_eq!(alive_map(&board), vec![vec![true, false, false, false, false, true]]);
}

#[test]
fn bytes_above_ascii_count_one_cell_each() {
    let board = GameBoard::from_text("3 1\n=\u{e9}\n".as_bytes()).unwrap();
    assert_eq!(alive_map(&board), vec![vec![true, false, false]]);
    assert_eq!(error_of("2 1\n=\u{e9}\n"), LoadError::RowLength);
}

#[test]
fn empty_text_has_no_header() {
    assert_eq!(error_of(""), LoadError::BadHeader);
    assert_eq!(error_of("\n"), LoadError::BadHeader);
    assert_eq!(error_of("   \n==\n"), LoadError::BadHeader);
}

#[test]
fn header_with_one_number_is_bad() {
    assert_eq!(error_of("3\n===\n"), LoadError::BadHeader);
    assert_eq!(error_of("3 \n===\n"), LoadError::BadHeader);
}

#[test]
fn header_must_stand_on_the_first_line() {
    assert_eq!(error_of("3\n1\n===\n"), LoadError::BadHeader);
    assert_eq!(error_of("\n3 1\n===\n"), LoadError::BadHeader);
}

#[test]
fn header_words_that_are_no_numbers_are_bad() {
    assert_eq!(error_of("a 1\n=\n"), LoadError::BadHeader);
    assert_eq!(error_of("1 b\n=\n"), LoadError::BadHeader);
    assert_eq!(error_of("-1 1\n=\n"), LoadError::BadHeader);
    assert_eq!(error_of("1 1x\n=\n"), LoadError::BadHeader);
    assert_eq!(error_of("1.0 1\n=\n"), LoadError::BadHeader);
    assert_eq!(error_of("+ 1\n=\n"), LoadError::BadHeader);
    assert_eq!(error_of("++1 1\n=\n"), LoadError::BadHeader);
    assert_eq!(error_of("1,1\n=\n"), LoadError::BadHeader);
}

#[test]
fn header_number_too_large_for_the_machine_is_bad() {
    assert_eq!(error_of("340282366920938463463374607431768211456 1\n=\n"), LoadError::BadHeader);
    assert_eq!(error_of("1 99999999999999999999999999999999999999999\n=\n"), LoadError::BadHeader);
}

#[test]
fn largest_number_of_the_machine_is_read() {
    let text = format!("{} 1\n=\n", usize::MAX);
    assert_eq!(error_of(&text), LoadError::RowLength);
    let text = format!("1 {}\n=\n", usize::MAX);
    assert_eq!(error_of(&text), LoadError::RowCount);
}

#[test]
fn zero_width_or_height_is_an_empty_board() {
    assert_eq!(error_of("0 3\n"), LoadError::EmptyBoard);
    assert_eq!(error_of("3 0\n"), LoadError::EmptyBoard);
    assert_eq!(error_of("0 0"), LoadError::EmptyBoard);
    assert_eq!(error_of("0 0\n\n\n"), LoadError::EmptyBoard);
}

#[test]
fn row_that_is_too_short_or_too_long_is_refused() {
    assert_eq!(error_of("3 2\n===\n==\n"), LoadError::RowLength);
    assert_eq!(error_of("3 2\n====\n===\n"), LoadError::RowLength);
    assert_eq!(error_of("3 2\n===\n\n===\n"), LoadError::RowLength);
}

#[test]
fn blank_line_at_the_end_is_a_row_of_no_cells() {
    assert_eq!(error_of("3 1\n===\n\n"), LoadError::RowLength);
}

#[test]
fn row_length_is_told_before_row_count() {
    assert_eq!(error_of("3 1\n===\n==\n"), LoadError::RowLength);
    assert_eq!(error_of("3 5\n==\n"), LoadError::RowLength);
}

#[test]
fn too_few_or_too_many_rows_are_refused() {
    assert_eq!(error_of("3 2\n===\n"), LoadError::RowCount);
    assert_eq!(error_of("3 2\n===\n===\n===\n"), LoadError::RowCount);
    assert_eq!(error_of("3 2\n"), LoadError::RowCount);
    assert_eq!(error_of("3 2"), LoadError::RowCount);
}

#[test]
fn loaded_glider_moves_like_a_seeded_one() {
    let text = b"6 6\n-=----\n--=---\n===---\n------\n------\n------\n";
    let mut board = GameBoard::from_text(text).unwrap();
    for _ in 0..4 {
        board.ready();
        board.step().unwrap();
    }
    let expected = vec![
        vec![false, false, false, false, false, false],
        vec![false, false, true, false, false, false],
        vec![false, false, false, true, false, false],
        vec![false, true, true, true, false, false],
        vec![false, false, false, false, false, false],
        vec![false, false, false, false, false, false],
    ];
    assert_eq!(alive_map(&board), expected);
}
