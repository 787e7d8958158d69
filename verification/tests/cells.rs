use game_of_life::{CellState, LifeCell, StateChangeError};

#[test]
fn alive_cell_is_alive_with_the_given_pending_state() {
    let cell = LifeCell::alive(CellState::Unknown);
    assert_eq!(cell.current(), CellState::Alive);
    assert_eq!(cell.pending(), CellState::Unknown);
    let cell = LifeCell::alive(CellState::Dead);
    assert_eq!(cell.current(), CellState::Alive);
    assert_eq!(cell.pending(), CellState::Dead);
}

#[test]
fn dead_cell_is_dead_with_the_given_pending_state() {
    let cell = LifeCell::dead(CellState::Unknown);
    assert_eq!(cell.current(), CellState::Dead);
    assert_eq!(cell.pending(), CellState::Unknown);
    let cell = LifeCell::dead(CellState::Alive);
    assert_eq!(cell.current(), CellState::Dead);
    assert_eq!(cell.pending(), CellState::Alive);
}

#[test]
fn count_reads_the_committed_state_only() {
    assert_eq!(LifeCell::alive(CellState::Unknown).count(), 1);
    assert_eq!(LifeCell::alive(CellState::Dead).count(), 1);
    assert_eq!(LifeCell::alive(CellState::Alive).count(), 1);
    assert_eq!(LifeCell::dead(CellState::Unknown).count(), 0);
    assert_eq!(LifeCell::dead(CellState::Alive).count(), 0);
    assert_eq!(LifeCell::dead(CellState::Dead).count(), 0);
}

#[test]
fn live_cell_survives_with_two_or_three_neighbours_only() {
    let cell = LifeCell::alive(CellState::Unknown);
    let expected = [
        CellState::Dead,
        CellState::Dead,
        CellState::Alive,
        CellState::Alive,
        CellState::Dead,
        CellState::Dead,
        CellState::Dead,
        CellState::Dead,
        CellState::Dead,
    ];
    for neighbours in 0..9u32 {
        assert_eq!(cell.decide(neighbours), expected[neighbours as usize]);
    }
}

#[test]
fn dead_cell_is_born_with_exactly_three_neighbours() {
    let cell = LifeCell::dead(CellState::Unknown);
    for neighbours in 0..9u32 {
        let expected = if neighbours == 3 { CellState::Alive } else { CellState::Dead };
        assert_eq!(cell.decide(neighbours), expected);
    }
}

#[test]
fn decide_does_not_depend_on_what_is_pending() {
    for neighbours in 0..9u32 {
        let fresh = LifeCell::alive(CellState::Unknown).decide(neighbours);
        assert_eq!(LifeCell::alive(CellState::Alive).decide(neighbours), fresh);
        assert_eq!(LifeCell::alive(CellState::Dead).decide(neighbours), fresh);
    }
}

#[test]
fn decide_does_not_change_the_cell() {
    let cell = LifeCell::alive(CellState::Unknown);
    let _ = cell.decide(0);
    assert_eq!(cell, LifeCell::alive(CellState::Unknown));
}

#[test]
fn ready_stores_the_decision_and_keeps_the_committed_state() {
    assert_eq!(LifeCell::alive(CellState::Unknown).ready(1), LifeCell::alive(CellState::Dead));
    assert_eq!(LifeCell::alive(CellState::Unknown).ready(2), LifeCell::alive(CellState::Alive));
    assert_eq!(LifeCell::alive(CellState::Unknown).ready(3), LifeCell::alive(CellState::Alive));
    assert_eq!(LifeCell::alive(CellState::Unknown).ready(4), LifeCell::alive(CellState::Dead));
    assert_eq!(LifeCell::dead(CellState::Unknown).ready(3), LifeCell::dead(CellState::Alive));
    assert_eq!(LifeCell::dead(CellState::Unknown).ready(2), LifeCell::dead(CellState::Dead));
}

#[test]
fn ready_overwrites_an_earlier_decision() {
    let cell = LifeCell::alive(CellState::Unknown).ready(3);
    assert_eq!(cell.pending(), CellState::Alive);
    let again = cell.ready(8);
    assert_eq!(again.current(), CellState::Alive);
    assert_eq!(again.pending(), CellState::Dead);
}

#[test]
fn step_commits_the_pending_state() {
    assert_eq!(LifeCell::alive(CellState::Dead).step(), Ok(LifeCell::dead(CellState::Unknown)));
    assert_eq!(LifeCell::alive(CellState::Alive).step(), Ok(LifeCell::alive(CellState::Unknown)));
    assert_eq!(LifeCell::dead(CellState::Alive).step(), Ok(LifeCell::alive(CellState::Unknown)));
    assert_eq!(LifeCell::dead(CellState::Dead).step(), Ok(LifeCell::dead(CellState::Unknown)));
}

#[test]
fn step_fails_on_a_cell_that_was_never_readied() {
    assert_eq!(LifeCell::alive(CellState::Unknown).step(), Err(StateChangeError));
    assert_eq!(LifeCell::dead(CellState::Unknown).step(), Err(StateChangeError));
}

#[test]
fn step_twice_fails_the_second_time() {
    let once = LifeCell::dead(CellState::Unknown).ready(3).step().unwrap();
    assert_eq!(once, LifeCell::alive(CellState::Unknown));
    assert_eq!(once.step(), Err(StateChangeError));
}

#[test]
fn realize_makes_a_cell_of_a_decided_state() {
    assert_eq!(CellState::Alive.realize(), Ok(LifeCell::alive(CellState::Unknown)));
    assert_eq!(CellState::Dead.realize(), Ok(LifeCell::dead(CellState::Unknown)));
}

#[test]
fn realize_fails_on_unknown() {
    assert_eq!(CellState::Unknown.realize(), Err(StateChangeError));
}

#[test]
fn state_change_error_describes_itself() {
    assert_eq!(StateChangeError.description(), "Cannot change cell to state Unknown");
}

#[test]
fn glyph_shows_what_is_about_to_happen() {
    assert_eq!(LifeCell::alive(CellState::Alive).glyph(), "\u{2588}\u{2588}");
    assert_eq!(LifeCell::alive(CellState::Dead).glyph(), "\u{2593}\u{2593}");
    assert_eq!(LifeCell::dead(CellState::Alive).glyph(), "\u{2591}\u{2591}");
    assert_eq!(LifeCell::dead(CellState::Dead).glyph(), "  ");
}

#[test]
fn glyph_of_an_undecided_cell_is_a_question_mark() {
    assert_eq!(LifeCell::alive(CellState::Unknown).glyph(), "?");
    assert_eq!(LifeCell::dead(CellState::Unknown).glyph(), "?");
}
