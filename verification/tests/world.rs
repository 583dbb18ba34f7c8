use game_of_life::cell::Cell;
use game_of_life::world::{World, ALIVE_ODDS};

fn world_of(rows: &[&str]) -> World {
    let height = rows.len() as u32;
    let width = rows[0].len() as u32;
    let mut states = Vec::new();
    for row in rows {
        assert_eq!(row.len() as u32, width);
        for symbol in row.chars() {
            states.push(symbol == 'o');
        }
    }
    World::from_states(width, height, &states)
}

fn text_of(rows: &[&str]) -> String {
    let mut text = String::new();
    for row in rows {
        text.push_str(row);
        text.push('\n');
    }
    text
}

#[test]
fn from_states_places_cells_row_by_row() {
    let world = World::from_states(3, 2, &vec![true, false, false, false, false, true]);
    assert_eq!(world.width(), 3);
    assert_eq!(world.height(), 2);
    assert_eq!(world.tick_count(), 0);
    assert!(world.cell_at(0, 0).unwrap().alive);
    assert!(!world.cell_at(1, 0).unwrap().alive);
    assert!(!world.cell_at(2, 0).unwrap().alive);
    assert!(!world.cell_at(0, 1).unwrap().alive);
    assert!(!world.cell_at(1, 1).unwrap().alive);
    assert!(world.cell_at(2, 1).unwrap().alive);
    for y in 0..2 {
        for x in 0..3 {
            let cell = world.cell_at(x, y).unwrap();
            assert_eq!(cell.x as i64, x);
            assert_eq!(cell.y as i64, y);
            assert_eq!(cell.next_state, None);
        }
    }
}

#[test]
fn cell_at_outside_the_grid_is_nothing() {
    let world = world_of(&["ooo", "ooo"]);
    assert!(world.cell_at(-1, 0).is_none());
    assert!(world.cell_at(0, -1).is_none());
    assert!(world.cell_at(3, 0).is_none());
    assert!(world.cell_at(0, 2).is_none());
    assert!(world.cell_at(-1, -1).is_none());
    assert!(world.cell_at(3, 2).is_none());
    assert!(world.cell_at(4294967295, 0).is_none());
    assert!(world.cell_at(4294967296, 0).is_none());
    assert!(world.cell_at(i64::MAX, i64::MIN).is_none());
    assert!(world.cell_at(2, 1).is_some());
}

#[test]
fn neighbours_are_cached_at_construction() {
    let world = world_of(&["   ", "   ", "   "]);
    for y in 0..3 {
        for x in 0..3 {
            assert!(world.cell_at(x, y).unwrap().neighbours.is_some());
        }
    }
    let random = World::new(4, 3);
    for y in 0..3 {
        for x in 0..4 {
            let cell = random.cell_at(x, y).unwrap();
            assert!(cell.neighbours.is_some());
            assert_eq!(cell.next_state, None);
        }
    }
}

#[test]
fn neighbours_come_in_the_order_of_the_directions() {
    let world = world_of(&["   ", "   ", "   "]);
    let centre = world.cell_at(1, 1).unwrap();
    assert_eq!(centre.neighbours, Some(vec![6, 7, 8, 3, 5, 0, 1, 2]));
    assert_eq!(world.neighbours_around(centre), vec![6, 7, 8, 3, 5, 0, 1, 2]);
    let corner = world.cell_at(0, 0).unwrap();
    assert_eq!(corner.neighbours, Some(vec![3, 4, 1]));
    let last = world.cell_at(2, 2).unwrap();
    assert_eq!(last.neighbours, Some(vec![7, 4, 5]));
    let left = world.cell_at(0, 1).unwrap();
    assert_eq!(left.neighbours, Some(vec![6, 7, 4, 0, 1]));
}

#[test]
fn neighbours_of_a_cell_that_has_not_looked_them_up() {
    let world = world_of(&["    ", "    "]);
    assert_eq!(world.neighbours_around(&Cell::new(3, 0, false)), vec![6, 7, 2]);
    assert_eq!(world.neighbours_around(&Cell::new(4, 0, false)), vec![7, 3]);
    assert_eq!(world.neighbours_around(&Cell::new(9, 9, false)), Vec::<usize>::new());
    assert_eq!(world.neighbours_around(&Cell::new(u32::MAX, u32::MAX, false)), Vec::<usize>::new());
}

#[test]
fn corner_cells_have_three_neighbours_and_edge_cells_five() {
    let world = world_of(&["ooooo", "ooooo", "ooooo", "ooooo"]);
    for y in 0..4i64 {
        for x in 0..5i64 {
            let cell = world.cell_at(x, y).unwrap();
            let on_side = x == 0 || x == 4;
            let on_top = y == 0 || y == 3;
            let expected = if on_side && on_top {
                3
            } else if on_side || on_top {
                5
            } else {
                8
            };
            assert_eq!(world.neighbours_around(cell).len(), expected);
            assert_eq!(cell.neighbours.as_ref().unwrap().len(), expected);
            assert_eq!(world.alive_neighbours_around(cell) as usize, expected);
        }
    }
}

#[test]
fn single_cell_world_has_no_neighbours() {
    let mut world = world_of(&["o"]);
    let cell = world.cell_at(0, 0).unwrap();
    assert_eq!(cell.neighbours, Some(vec![]));
    assert_eq!(world.alive_neighbours_around(cell), 0);
    assert_eq!(world.render(), "o\n");
    world.tick();
    assert_eq!(world.render(), " \n");
}

#[test]
fn single_row_does_not_wrap_around() {
    let mut world = world_of(&["oo  o"]);
    assert_eq!(world.alive_neighbours_around(world.cell_at(0, 0).unwrap()), 1);
    assert_eq!(world.alive_neighbours_around(world.cell_at(4, 0).unwrap()), 0);
    assert_eq!(world.alive_neighbours_around(world.cell_at(2, 0).unwrap()), 1);
    world.tick();
    assert_eq!(world.render(), "     \n");
}

#[test]
fn alive_neighbours_are_counted_around_the_cell() {
    let world = world_of(&["o o", " o ", "o  "]);
    assert_eq!(world.alive_neighbours_around(world.cell_at(1, 1).unwrap()), 3);
    assert_eq!(world.alive_neighbours_around(world.cell_at(0, 0).unwrap()), 1);
    assert_eq!(world.alive_neighbours_around(world.cell_at(1, 0).unwrap()), 3);
    assert_eq!(world.alive_neighbours_around(world.cell_at(2, 2).unwrap()), 1);
    assert_eq!(world.alive_neighbours_around(world.cell_at(0, 1).unwrap()), 3);
    assert_eq!(world.alive_neighbours_around(&Cell::new(1, 1, false)), 3);
    assert_eq!(world.alive_neighbours_around(&Cell::new(3, 0, false)), 1);
    assert_eq!(world.alive_neighbours_around(&Cell::new(7, 7, true)), 0);
}

#[test]
fn render_has_one_line_per_row() {
    let world = world_of(&["o  o", " oo ", "    "]);
    assert_eq!(world.render(), "o  o\n oo \n    \n");
}

#[test]
fn render_shape_holds_for_random_worlds() {
    for (width, height) in [(1u32, 1u32), (7, 3), (3, 7), (150, 40)] {
        let world = World::new(width, height);
        assert_eq!(world.width(), width);
        assert_eq!(world.height(), height);
        assert_eq!(world.tick_count(), 0);
        let text = world.render();
        assert_eq!(text.len() as u32, height * (width + 1));
        assert!(text.ends_with('\n'));
        let lines: Vec<&str> = text.lines().collect();
        assert_eq!(lines.len() as u32, height);
        for (y, line) in lines.iter().enumerate() {
            assert_eq!(line.chars().count() as u32, width);
            for (x, symbol) in line.chars().enumerate() {
                assert!(symbol == 'o' || symbol == ' ');
                let cell = world.cell_at(x as i64, y as i64).unwrap();
                assert_eq!(symbol, cell.to_char());
            }
        }
    }
}

#[test]
fn render_does_not_change_the_world() {
    let world = world_of(&["o o", " o "]);
    let first = world.render();
    let second = world.render();
    assert_eq!(first, second);
    assert_eq!(world.tick_count(), 0);
}

#[test]
fn random_worlds_differ() {
    assert_eq!(ALIVE_ODDS, 5);
    let first = World::new(100, 100).render();
    let second = World::new(100, 100).render();
    assert_ne!(first, second);
    let alive = first.chars().filter(|symbol| *symbol == 'o').count();
    assert!(alive > 1000 && alive < 3000);
}

#[test]
fn tick_count_goes_up_by_one() {
    let mut world = world_of(&["o o", " o ", "o  "]);
    assert_eq!(world.tick_count(), 0);
    for expected in 1..=10u32 {
        world.tick();
        assert_eq!(world.tick_count(), expected);
    }
}

#[test]
fn tick_leaves_nothing_pending() {
    let mut world = world_of(&["o o ", " oo ", "o  o"]);
    world.tick();
    for y in 0..3 {
        for x in 0..4 {
            let cell = world.cell_at(x, y).unwrap();
            assert_eq!(cell.next_state, None);
            assert!(cell.neighbours.is_some());
        }
    }
}

#[test]
fn dead_cell_with_three_live_neighbours_comes_alive() {
    let mut world = world_of(&["oo ", "o  ", "   "]);
    world.tick();
    assert!(world.cell_at(1, 1).unwrap().alive);
    assert_eq!(world.render(), text_of(&["oo ", "oo ", "   "]));
}

#[test]
fn live_cell_with_two_or_three_live_neighbours_survives() {
    let mut world = world_of(&["o  ", " o ", "  o"]);
    world.tick();
    assert_eq!(world.render(), text_of(&["   ", " o ", "   "]));
    let mut world = world_of(&["o o", " o ", "  o"]);
    world.tick();
    assert!(world.cell_at(1, 1).unwrap().alive);
}

#[test]
fn live_cell_with_more_than_three_live_neighbours_dies() {
    let mut world = world_of(&["o o", " o ", "o o"]);
    world.tick();
    assert_eq!(world.render(), text_of(&[" o ", "o o", " o "]));
}

#[test]
fn dead_cell_without_three_live_neighbours_stays_dead() {
    let mut world = world_of(&["oo ", "   ", " oo"]);
    world.tick();
    assert!(!world.cell_at(1, 1).unwrap().alive);
    assert_eq!(world.render(), text_of(&["   ", "o o", "   "]));
}

#[test]
fn decisions_are_made_on_the_old_generation() {
    let mut world = world_of(&["ooo", "ooo", "ooo"]);
    world.tick();
    assert_eq!(world.render(), text_of(&["o o", "   ", "o o"]));
    world.tick();
    assert_eq!(world.render(), text_of(&["   ", "   ", "   "]));
}
