use game_of_life::world::World;

fn world_of(rows: &[&str]) -> World {
    let height = rows.len() as u32;
    let width = rows[0].len() as u32;
    let mut states = Vec::new();
    for row in rows {
        assert_eq!(row.len() as u32, width);
        for symbol in row.chars() {
            states.push(symbol == 'o');
        }
    }
    World::from_states(width, height, &states)
}

fn text_of(rows: &[&str]) -> String {
    let mut text = String::new();
    for row in rows {
        text.push_str(row);
        text.push('\n');
    }
    text
}

#[test]
fn dead_world_stays_dead() {
    let rows = ["     ", "     ", "     ", "     "];
    let mut world = world_of(&rows);
    for _ in 0..20 {
        world.tick();
        assert_eq!(world.render(), text_of(&rows));
    }
    assert_eq!(world.tick_count(), 20);
}

#[test]
fn lone_cell_dies_and_stays_dead() {
    let mut world = world_of(&["     ", "     ", "  o  ", "     ", "     "]);
    let dead = text_of(&["     ", "     ", "     ", "     ", "     "]);
    for _ in 0..5 {
        world.tick();
        assert_eq!(world.render(), dead);
    }
}

#[test]
fn isolated_cell_dies_while_others_live_on() {
    let mut world = world_of(&["o     ", "      ", "   oo ", "   oo ", "      "]);
    world.tick();
    assert_eq!(world.render(), text_of(&["      ", "      ", "   oo ", "   oo ", "      "]));
}

#[test]
fn block_is_a_still_life() {
    let rows = ["      ", "  oo  ", "  oo  ", "      ", "      "];
    let mut world = world_of(&rows);
    for _ in 0..25 {
        world.tick();
        assert_eq!(world.render(), text_of(&rows));
    }
}

#[test]
fn block_in_a_corner_is_a_still_life() {
    let rows = ["oo  ", "oo  ", "    "];
    let mut world = world_of(&rows);
    for _ in 0..5 {
        world.tick();
        assert_eq!(world.render(), text_of(&rows));
    }
}

#[test]
fn blinker_has_period_two() {
    let flat = ["     ", "     ", " ooo ", "     ", "     "];
    let upright = ["     ", "  o  ", "  o  ", "  o  ", "     "];
    let mut world = world_of(&flat);
    for _ in 0..6 {
        world.tick();
        assert_eq!(world.render(), text_of(&upright));
        world.tick();
        assert_eq!(world.render(), text_of(&flat));
    }
    assert_eq!(world.tick_count(), 12);
}

#[test]
fn blinker_without_room_starves_at_the_edge() {
    let mut world = world_of(&["ooo  ", "     ", "     "]);
    world.tick();
    assert_eq!(world.render(), text_of(&[" o   ", " o   ", "     "]));
    world.tick();
    assert_eq!(world.render(), text_of(&["     ", "     ", "     "]));
}

#[test]
fn glider_moves_one_cell_diagonally_in_four_generations() {
    let mut world = world_of(&[
        " o      ",
        "  o     ",
        "ooo     ",
        "        ",
        "        ",
        "        ",
    ]);
    for _ in 0..4 {
        world.tick();
    }
    assert_eq!(
        world.render(),
        text_of(&["        ", "  o     ", "   o    ", " ooo    ", "        ", "        "])
    );
}
