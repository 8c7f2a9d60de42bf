use game_of_life::{Cell, Universe};

fn cells_of(u: &Universe) -> Vec<Cell> {
    u.get_cells().to_vec()
}

#[test]
fn new_dimensions() {
    let u = Universe::new(4, 3);
    assert_eq!(u.width(), 4);
    assert_eq!(u.height(), 3);
}

#[test]
fn new_all_dead() {
    let u = Universe::new(4, 3);
    let cells = u.get_cells();
    assert_eq!(cells.len(), 12);
    assert!(cells.iter().all(|c| *c == Cell::Dead));
}

#[test]
fn cell_toggle_roundtrip() {
    let mut c = Cell::Dead;
    c.toggle();
    assert_eq!(c, Cell::Alive);
    c.toggle();
    assert_eq!(c, Cell::Dead);
}

#[test]
fn cell_weight_coercion() {
    assert_eq!(Cell::Alive.weight(), 1);
    assert_eq!(Cell::Dead.weight(), 0);
}

#[test]
fn toggle_cell_flips_only_target() {
    let mut u = Universe::new(4, 4);
    u.toggle_cell(1, 2);
    let cells = cells_of(&u);
    for row in 0..4u32 {
        for col in 0..4u32 {
            let idx = (row * 4 + col) as usize;
            if row == 1 && col == 2 {
                assert_eq!(cells[idx], Cell::Alive);
            } else {
                assert_eq!(cells[idx], Cell::Dead);
            }
        }
    }
    u.toggle_cell(1, 2);
    assert!(u.get_cells().iter().all(|c| *c == Cell::Dead));
}

#[test]
fn cells_and_get_cells_agree() {
    let mut u = Universe::new(3, 3);
    u.toggle_cell(0, 1);
    u.toggle_cell(2, 2);
    assert_eq!(u.cells(), u.get_cells());
}

#[test]
fn set_cells_alive_duplicates_and_order() {
    let mut a = Universe::new(4, 4);
    let mut b = Universe::new(4, 4);
    a.set_cells_alive(&vec![(0, 0), (1, 1), (0, 0), (3, 2)]);
    b.set_cells_alive(&vec![(3, 2), (1, 1), (0, 0)]);
    assert_eq!(cells_of(&a), cells_of(&b));
    let cells = cells_of(&a);
    assert_eq!(cells[0], Cell::Alive);
    assert_eq!(cells[5], Cell::Alive);
    assert_eq!(cells[14], Cell::Alive);
    assert_eq!(cells.iter().filter(|c| **c == Cell::Alive).count(), 3);
}

#[test]
fn set_cells_alive_keeps_existing() {
    let mut u = Universe::new(3, 3);
    u.toggle_cell(0, 0);
    u.set_cells_alive(&vec![(2, 2)]);
    let cells = cells_of(&u);
    assert_eq!(cells[0], Cell::Alive);
    assert_eq!(cells[8], Cell::Alive);
    assert_eq!(cells.iter().filter(|c| **c == Cell::Alive).count(), 2);
}

#[test]
fn determinism_same_seed_same_sequence() {
    let seed = vec![(0, 1), (1, 2), (2, 0), (2, 1), (2, 2)];
    let mut a = Universe::new(6, 6);
    let mut b = Universe::new(6, 6);
    a.set_cells_alive(&seed);
    b.set_cells_alive(&seed);
    for _ in 0..5 {
        a.tick();
        b.tick();
        assert_eq!(cells_of(&a), cells_of(&b));
    }
}

#[test]
fn tick_exposes_fresh_generation() {
    // After tick() the exposed buffer is exactly the generation computed
    // from the old one: the blinker's vertical phase, nothing in between.
    let mut u = Universe::new(5, 5);
    u.set_cells_alive(&vec![(2, 1), (2, 2), (2, 3)]);
    u.tick();
    let cells = cells_of(&u);
    for row in 0..5u32 {
        for col in 0..5u32 {
            let idx = (row * 5 + col) as usize;
            let expected = col == 2 && (1..=3).contains(&row);
            assert_eq!(cells[idx] == Cell::Alive, expected);
        }
    }
}
