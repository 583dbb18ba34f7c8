use game_of_life::cell::{Cell, ALIVE_SYMBOL, DEAD_SYMBOL};
use game_of_life::rules::decide;

#[test]
fn new_cell_has_nothing_pending() {
    let cell = Cell::new(3, 4, true);
    assert_eq!(cell.x, 3);
    assert_eq!(cell.y, 4);
    assert!(cell.alive);
    assert_eq!(cell.next_state, None);
    assert!(cell.neighbours.is_none());
}

#[test]
fn symbols_are_o_and_space() {
    assert_eq!(ALIVE_SYMBOL, 'o');
    assert_eq!(DEAD_SYMBOL, ' ');
    assert_eq!(Cell::new(0, 0, true).to_char(), 'o');
    assert_eq!(Cell::new(0, 0, false).to_char(), ' ');
}

#[test]
fn pending_state_does_not_touch_the_current_state() {
    let mut cell = Cell::new(0, 0, false);
    cell.next_state_is(Some(true));
    assert!(!cell.alive);
    assert_eq!(cell.next_state, Some(true));
    assert_eq!(cell.to_char(), ' ');
}

#[test]
fn last_pending_state_wins() {
    let mut cell = Cell::new(0, 0, true);
    cell.next_state_is(Some(false));
    cell.next_state_is(Some(true));
    assert_eq!(cell.next_state, Some(true));
    cell.next_state_is(None);
    assert_eq!(cell.next_state, None);
    cell.next_state_is(Some(false));
    cell.apply_pending_state();
    assert!(!cell.alive);
}

#[test]
fn applying_sets_the_state_and_clears_the_slot() {
    let mut cell = Cell::new(2, 5, false);
    cell.next_state_is(Some(true));
    cell.apply_pending_state();
    assert!(cell.alive);
    assert_eq!(cell.next_state, None);
    assert_eq!(cell.x, 2);
    assert_eq!(cell.y, 5);
    cell.next_state_is(Some(false));
    cell.apply_pending_state();
    assert!(!cell.alive);
    assert_eq!(cell.next_state, None);
}

#[test]
fn applying_nothing_changes_nothing() {
    let mut alive = Cell::new(0, 0, true);
    alive.apply_pending_state();
    assert!(alive.alive);
    assert_eq!(alive.next_state, None);
    let mut dead = Cell::new(0, 0, false);
    dead.apply_pending_state();
    assert!(!dead.alive);
    assert_eq!(dead.next_state, None);
}

#[test]
fn dead_cell_comes_alive_with_exactly_three() {
    assert_eq!(decide(false, 3), Some(true));
}

#[test]
fn dead_cell_is_left_alone_otherwise() {
    for n in [0u8, 1, 2, 4, 5, 6, 7, 8] {
        assert_eq!(decide(false, n), None);
    }
}

#[test]
fn live_cell_dies_of_too_few_or_too_many() {
    for n in [0u8, 1, 4, 5, 6, 7, 8] {
        assert_eq!(decide(true, n), Some(false));
    }
}

#[test]
fn live_cell_is_left_alone_with_two_or_three() {
    assert_eq!(decide(true, 2), None);
    assert_eq!(decide(true, 3), None);
}
