use game_of_life::{Cell, Universe};

#[test]
fn universe_set_cells() {
    let mut uni = Universe::new(2, 2);
    uni.set_cells(&[(0, 1), (1, 0)], Cell::Alive);
    assert_eq!(
        uni.cells(),
        [Cell::Dead, Cell::Alive, Cell::Alive, Cell::Dead]
    );
}

#[test]
fn universe_tick() {
    let mut uni = Universe::new(5, 5);
    uni.set_cells(&[(1, 2), (2, 2), (3, 2)], Cell::Alive);
    assert_eq!(
        uni.cells(),
        [
            // Row 0.
            Cell::Dead,
            Cell::Dead,
            Cell::Dead,
            Cell::Dead,
            Cell::Dead,
            // Row 1.
            Cell::Dead,
            Cell::Dead,
            Cell::Alive,
            Cell::Dead,
            Cell::Dead,
            // Row 2.
            Cell::Dead,
            Cell::Dead,
            Cell::Alive,
            Cell::Dead,
            Cell::Dead,
            // Row 3.
            Cell::Dead,
            Cell::Dead,
            Cell::Alive,
            Cell::Dead,
            Cell::Dead,
            // Row 4.
            Cell::Dead,
            Cell::Dead,
            Cell::Dead,
            Cell::Dead,
            Cell::Dead,
        ]
    );
    uni.tick();
    assert_eq!(
        uni.cells(),
        [
            // Row 0.
            Cell::Dead,
            Cell::Dead,
            Cell::Dead,
            Cell::Dead,
            Cell::Dead,
            // Row 1.
            Cell::Dead,
            Cell::Dead,
            Cell::Dead,
            Cell::Dead,
            Cell::Dead,
            // Row 2.
            Cell::Dead,
            Cell::Alive,
            Cell::Alive,
            Cell::Alive,
            Cell::Dead,
            // Row 3.
            Cell::Dead,
            Cell::Dead,
            Cell::Dead,
            Cell::Dead,
            Cell::Dead,
            // Row 4.
            Cell::Dead,
            Cell::Dead,
            Cell::Dead,
            Cell::Dead,
            Cell::Dead,
        ]
    );
}

#[test]
fn new_grid_dimensions_and_storage() {
    let uni = Universe::new(3, 7);
    assert_eq!(uni.width(), 3);
    assert_eq!(uni.height(), 7);
    let cells = uni.cells();
    assert_eq!(cells.len(), 21);
    assert!(cells.iter().all(|c| *c == Cell::Dead));
    // 21 cells pack into ceil(21 / 8) == 3 bytes.
    assert_eq!(uni.cells_len(), 3);
    let raw = uni.cells_ptr();
    assert_eq!(raw.len(), 3);
    assert!(raw.iter().all(|b| *b == 0));
}

#[test]
fn set_cell_round_trip() {
    let mut uni = Universe::new(4, 3);
    uni.set_cell(2, 1, Cell::Alive);
    assert_eq!(uni.cell(2, 1), Cell::Alive);
    for row in 0..3 {
        for col in 0..4 {
            if (row, col) != (2, 1) {
                assert_eq!(uni.cell(row, col), Cell::Dead);
            }
        }
    }
    uni.set_cell(2, 1, Cell::Dead);
    assert_eq!(uni.cell(2, 1), Cell::Dead);
}

#[test]
fn raw_storage_shows_live_bits() {
    let mut uni = Universe::new(4, 2);
    uni.set_cell(0, 0, Cell::Alive);
    uni.set_cell(1, 3, Cell::Alive);
    // Cells 0 and 7 are alive: bits 0 and 7 of the single byte.
    assert_eq!(uni.cells_ptr(), &vec![0b1000_0001u8]);
    assert_eq!(uni.cells_len(), 1);
}

#[test]
fn tick_matches_directly_seeded_grid() {
    let mut ticked = Universe::new(5, 5);
    ticked.set_cells(&[(1, 2), (2, 2), (3, 2)], Cell::Alive);
    ticked.tick();

    let mut seeded = Universe::new(5, 5);
    seeded.set_cells(&[(2, 1), (2, 2), (2, 3)], Cell::Alive);

    assert_eq!(ticked.cells(), seeded.cells());
}

#[test]
fn dead_grid_stays_dead() {
    let mut uni = Universe::new(4, 6);
    for _ in 0..5 {
        uni.tick();
        assert!(uni.cells().iter().all(|c| *c == Cell::Dead));
    }
}

#[test]
fn block_is_a_still_life() {
    let mut uni = Universe::new(5, 5);
    uni.set_cells(&[(1, 1), (1, 2), (2, 1), (2, 2)], Cell::Alive);
    let before = uni.cells();
    uni.tick();
    assert_eq!(uni.cells(), before);
    uni.tick();
    assert_eq!(uni.cells(), before);
}

#[test]
fn blinker_wraps_across_edge() {
    let mut uni = Universe::new(5, 5);
    uni.set_cells(&[(4, 2), (0, 2), (1, 2)], Cell::Alive);
    uni.tick();
    let mut expected = Universe::new(5, 5);
    expected.set_cells(&[(0, 1), (0, 2), (0, 3)], Cell::Alive);
    assert_eq!(uni.cells(), expected.cells());
}

#[test]
fn full_column_floods_then_clears_on_torus() {
    // On a 3x3 torus a full live column gives every outside cell exactly
    // three live neighbors, so one tick fills the grid and the next
    // overpopulates every cell.
    let mut uni = Universe::new(3, 3);
    uni.set_cells(&[(0, 0), (1, 0), (2, 0)], Cell::Alive);
    uni.tick();
    assert!(uni.cells().iter().all(|c| *c == Cell::Alive));
    uni.tick();
    assert!(uni.cells().iter().all(|c| *c == Cell::Dead));
}

#[test]
fn init_sets_cells_from_draws() {
    let mut uni = Universe::new(2, 2);
    uni.init(&[true, false, false, true]);
    assert_eq!(
        uni.cells(),
        [Cell::Alive, Cell::Dead, Cell::Dead, Cell::Alive]
    );
    // A second fill overwrites the first completely.
    uni.init(&[false, true, true, false]);
    assert_eq!(
        uni.cells(),
        [Cell::Dead, Cell::Alive, Cell::Alive, Cell::Dead]
    );
}

#[test]
fn init_pattern_follows_modular_rule() {
    let mut uni = Universe::new(3, 3);
    uni.init_pattern();
    let expected: Vec<Cell> = (0..9)
        .map(|i| {
            if i % 2 == 0 || i % 7 == 0 {
                Cell::Alive
            } else {
                Cell::Dead
            }
        })
        .collect();
    assert_eq!(uni.cells(), expected);
}

#[test]
fn later_set_cells_entries_override_earlier() {
    let mut uni = Universe::new(2, 2);
    uni.set_cell(0, 0, Cell::Alive);
    // The same coordinate listed twice still ends at the written value.
    uni.set_cells(&[(0, 0), (0, 0)], Cell::Dead);
    assert_eq!(uni.cell(0, 0), Cell::Dead);
}
