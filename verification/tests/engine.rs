use life_game::model::{Cell, LifeGame, LifeGameError, Pattern};

/// Whether the cell at (x, y) is alive.
fn alive(game: &LifeGame, x: i32, y: i32) -> bool {
    game.get_cell(x, y).unwrap().is_alive()
}

/// Assert that exactly the listed coordinates are alive, over the whole grid.
fn assert_alive_exactly(game: &LifeGame, expected: &[(i32, i32)]) {
    let w: i32 = game.get_width() as i32;
    let h: i32 = game.get_height() as i32;
    for y in 0..h {
        for x in 0..w {
            let want: bool = expected.contains(&(x, y));
            assert_eq!(
                alive(game, x, y),
                want,
                "cell ({}, {}) expected alive = {}",
                x,
                y,
                want
            );
        }
    }
}

/// Mark a list of cells alive through the mutable accessor.
fn seed(game: &mut LifeGame, cells: &[(i32, i32)]) {
    for &(x, y) in cells {
        game.get_cell_mut(x, y).unwrap().set_alive(true);
    }
}

#[test]
fn cell_accessors() {
    let mut c = Cell::new(3, 4, false);
    assert_eq!(c.get_position(), (3, 4));
    assert!(!c.is_alive());
    c.set_alive(true);
    assert!(c.is_alive());
    assert_eq!(c.get_position(), (3, 4));
}

#[test]
fn new_rejects_zero_width() {
    let r = LifeGame::new(0, 5);
    assert_eq!(r.unwrap_err(), LifeGameError::InvalidDimensions);
}

#[test]
fn new_rejects_zero_height() {
    let r = LifeGame::new(5, 0);
    assert_eq!(r.unwrap_err(), LifeGameError::InvalidDimensions);
}

#[test]
fn new_grid_is_dead_at_generation_zero() {
    let game = LifeGame::new(8, 8).unwrap();
    assert_eq!(game.get_width(), 8);
    assert_eq!(game.get_height(), 8);
    assert_eq!(game.get_generation(), 0);
    assert!(!game.keep_alive());
    assert_alive_exactly(&game, &[]);
}

#[test]
fn get_index_is_row_major_over_the_grid() {
    let game = LifeGame::new(5, 4).unwrap();
    assert_eq!(game.get_index(0, 0), 0);
    assert_eq!(game.get_index(4, 0), 4);
    assert_eq!(game.get_index(0, 1), 5);
    assert_eq!(game.get_index(3, 2), 13);
    assert_eq!(game.get_index(4, 3), 19);
}

#[test]
fn get_index_is_injective_and_total_in_bounds() {
    let game = LifeGame::new(5, 4).unwrap();
    let mut seen: Vec<usize> = Vec::new();
    for y in 0..4i32 {
        for x in 0..5i32 {
            let index: usize = game.get_index(x, y);
            assert!(index < 20);
            assert!(!seen.contains(&index), "index {} repeated", index);
            seen.push(index);
        }
    }
    assert_eq!(seen.len(), 20);
}

#[test]
fn get_index_wraps_by_whole_grid_translations() {
    let game = LifeGame::new(8, 8).unwrap();
    for y in -2i32..10i32 {
        for x in -2i32..10i32 {
            assert_eq!(game.get_index(x, y), game.get_index(x + 8, y));
            assert_eq!(game.get_index(x, y), game.get_index(x, y + 8));
        }
    }
}

#[test]
fn get_index_wraps_negative_coordinates_euclidean() {
    let game = LifeGame::new(8, 8).unwrap();
    assert_eq!(game.get_index(-1, -1), 63);
    assert_eq!(game.get_index(-1, 0), 7);
    assert_eq!(game.get_index(0, -1), 56);
    assert_eq!(game.get_index(-9, 0), 7);
    assert_eq!(game.get_index(17, 2), 17);
}

#[test]
fn get_cell_mut_toggles_a_single_cell() {
    let mut game = LifeGame::new(8, 8).unwrap();
    game.get_cell_mut(3, 4).unwrap().set_alive(true);
    assert!(alive(&game, 3, 4));
    assert_alive_exactly(&game, &[(3, 4)]);
    game.get_cell_mut(3, 4).unwrap().set_alive(false);
    assert_alive_exactly(&game, &[]);
    // the same cell through wrapped coordinates
    game.get_cell_mut(3 - 8, 4 + 8).unwrap().set_alive(true);
    assert!(alive(&game, 3, 4));
}

#[test]
fn live_cell_with_two_or_three_neighbors_survives() {
    // (2, 1) in a horizontal line has exactly 2 alive neighbors.
    let mut game = LifeGame::new(8, 8).unwrap();
    seed(&mut game, &[(1, 1), (2, 1), (3, 1)]);
    game.next_generation();
    assert!(alive(&game, 2, 1));

    // every cell of a 2x2 block has exactly 3 alive neighbors: a still life.
    let mut block = LifeGame::new(8, 8).unwrap();
    seed(&mut block, &[(1, 1), (2, 1), (1, 2), (2, 2)]);
    block.next_generation();
    assert_alive_exactly(&block, &[(1, 1), (2, 1), (1, 2), (2, 2)]);
}

#[test]
fn live_cell_with_other_neighbor_counts_dies() {
    // the ends of a horizontal line have exactly 1 alive neighbor.
    let mut game = LifeGame::new(8, 8).unwrap();
    seed(&mut game, &[(1, 1), (2, 1), (3, 1)]);
    game.next_generation();
    assert!(!alive(&game, 1, 1));
    assert!(!alive(&game, 3, 1));

    // the center of a plus shape has 4 alive neighbors.
    let mut plus = LifeGame::new(8, 8).unwrap();
    seed(&mut plus, &[(3, 3), (2, 3), (4, 3), (3, 2), (3, 4)]);
    plus.next_generation();
    assert!(!alive(&plus, 3, 3));
}

#[test]
fn dead_cell_with_exactly_three_neighbors_is_born() {
    let mut game = LifeGame::new(8, 8).unwrap();
    seed(&mut game, &[(1, 1), (2, 1), (3, 1)]);
    assert!(!alive(&game, 2, 0));
    assert!(!alive(&game, 2, 2));
    game.next_generation();
    assert!(alive(&game, 2, 0));
    assert!(alive(&game, 2, 2));
}

#[test]
fn dead_cell_without_three_neighbors_stays_dead() {
    let mut game = LifeGame::new(8, 8).unwrap();
    seed(&mut game, &[(1, 1), (2, 1)]);
    game.next_generation();
    // every cell near the pair has at most 2 alive neighbors: all dead.
    assert_alive_exactly(&game, &[]);
}

#[test]
fn isolated_cell_dies_and_generation_increments() {
    let mut game = LifeGame::new(8, 8).unwrap();
    seed(&mut game, &[(4, 4)]);
    assert_eq!(game.get_generation(), 0);
    game.next_generation();
    assert_eq!(game.get_generation(), 1);
    assert_alive_exactly(&game, &[]);
    assert!(!game.keep_alive());
}

#[test]
fn blinker_oscillates_with_period_two() {
    let mut game = LifeGame::new(8, 8).unwrap();
    game.set_initialize_pattern(Pattern::Blinker);
    assert_alive_exactly(&game, &[(1, 1), (2, 1), (3, 1)]);
    game.next_generation();
    assert_alive_exactly(&game, &[(2, 0), (2, 1), (2, 2)]);
    game.next_generation();
    assert_alive_exactly(&game, &[(1, 1), (2, 1), (3, 1)]);
    assert_eq!(game.get_generation(), 2);
}

#[test]
fn toad_oscillates_with_period_two() {
    let mut game = LifeGame::new(8, 8).unwrap();
    game.set_initialize_pattern(Pattern::Toad);
    assert_alive_exactly(&game, &[(2, 1), (3, 1), (4, 1), (1, 2), (2, 2), (3, 2)]);
    game.next_generation();
    assert_alive_exactly(&game, &[(3, 0), (1, 1), (4, 1), (1, 2), (4, 2), (2, 3)]);
    game.next_generation();
    assert_alive_exactly(&game, &[(2, 1), (3, 1), (4, 1), (1, 2), (2, 2), (3, 2)]);
}

#[test]
fn beacon_oscillates_with_period_two() {
    let mut game = LifeGame::new(8, 8).unwrap();
    game.set_initialize_pattern(Pattern::Beacon);
    let full: [(i32, i32); 8] = [
        (2, 1),
        (3, 1),
        (2, 2),
        (3, 2),
        (4, 3),
        (5, 3),
        (4, 4),
        (5, 4),
    ];
    assert_alive_exactly(&game, &full);
    game.next_generation();
    assert_alive_exactly(&game, &[(2, 1), (3, 1), (2, 2), (5, 3), (4, 4), (5, 4)]);
    game.next_generation();
    assert_alive_exactly(&game, &full);
}

#[test]
fn glider_translates_by_one_one_after_four_steps() {
    let mut game = LifeGame::new(8, 8).unwrap();
    game.set_initialize_pattern(Pattern::Glider);
    assert_alive_exactly(&game, &[(2, 1), (3, 2), (1, 3), (2, 3), (3, 3)]);
    for _ in 0..4 {
        game.next_generation();
    }
    assert_alive_exactly(&game, &[(3, 2), (4, 3), (2, 4), (3, 4), (4, 4)]);
    assert_eq!(game.get_generation(), 4);
}

#[test]
fn keep_alive_reports_extinction() {
    let mut game = LifeGame::new(8, 8).unwrap();
    game.next_generation();
    assert!(!game.keep_alive());

    let mut glider = LifeGame::new(8, 8).unwrap();
    glider.set_initialize_pattern(Pattern::Glider);
    glider.next_generation();
    assert!(glider.keep_alive());
    glider.next_generation();
    assert!(glider.keep_alive());
}

#[test]
fn reset_clears_cells_and_generation() {
    let mut game = LifeGame::new(8, 8).unwrap();
    game.set_initialize_pattern(Pattern::Glider);
    game.next_generation();
    game.next_generation();
    assert_eq!(game.get_generation(), 2);
    game.reset();
    assert_eq!(game.get_generation(), 0);
    assert_alive_exactly(&game, &[]);
}

#[test]
fn pattern_application_clears_previous_state() {
    let mut game = LifeGame::new(8, 8).unwrap();
    seed(&mut game, &[(6, 6), (7, 7), (0, 5)]);
    game.next_generation();
    game.set_initialize_pattern(Pattern::Blinker);
    assert_eq!(game.get_generation(), 0);
    assert_alive_exactly(&game, &[(1, 1), (2, 1), (3, 1)]);
}

#[test]
fn reset_generation_keeps_cells() {
    let mut game = LifeGame::new(8, 8).unwrap();
    game.set_initialize_pattern(Pattern::Blinker);
    game.next_generation();
    assert_eq!(game.get_generation(), 1);
    game.reset_generation();
    assert_eq!(game.get_generation(), 0);
    assert_alive_exactly(&game, &[(2, 0), (2, 1), (2, 2)]);
}

#[test]
fn pattern_offsets_outside_a_small_grid_are_dropped() {
    let mut game = LifeGame::new(2, 2).unwrap();
    game.set_initialize_pattern(Pattern::Blinker);
    // only (1, 1) fits; (2, 1) and (3, 1) are dropped, not wrapped.
    assert_alive_exactly(&game, &[(1, 1)]);
}

#[test]
fn one_by_one_grid_wraps_every_neighbor_to_itself() {
    let mut game = LifeGame::new(1, 1).unwrap();
    seed(&mut game, &[(0, 0)]);
    // the cell's 8 wrapped neighbors are all the cell itself: 8 is not 2 or 3.
    game.next_generation();
    assert!(!alive(&game, 0, 0));
    assert!(!game.keep_alive());
}
