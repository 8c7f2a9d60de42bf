use game_of_life::{Cell, Universe};

fn alive_at(u: &Universe, row: u32, col: u32) -> bool {
    u.get_cells()[(row * u.width() + col) as usize] == Cell::Alive
}

fn alive_count(u: &Universe) -> usize {
    u.get_cells().iter().filter(|c| **c == Cell::Alive).count()
}

#[test]
fn block_is_still_life() {
    let mut u = Universe::new(6, 6);
    u.set_cells_alive(&vec![(2, 2), (2, 3), (3, 2), (3, 3)]);
    let before = u.get_cells().to_vec();
    u.tick();
    assert_eq!(u.get_cells(), before.as_slice());
    u.tick();
    assert_eq!(u.get_cells(), before.as_slice());
}

#[test]
fn blinker_oscillates_with_period_two() {
    let mut u = Universe::new(5, 5);
    u.set_cells_alive(&vec![(2, 1), (2, 2), (2, 3)]);
    let horizontal = u.get_cells().to_vec();
    u.tick();
    for row in 0..5u32 {
        for col in 0..5u32 {
            let expected = col == 2 && (1..=3).contains(&row);
            assert_eq!(alive_at(&u, row, col), expected);
        }
    }
    u.tick();
    assert_eq!(u.get_cells(), horizontal.as_slice());
}

#[test]
fn lone_cell_dies_of_isolation() {
    let mut u = Universe::new(3, 3);
    u.toggle_cell(1, 1);
    u.tick();
    assert_eq!(alive_count(&u), 0);

    let mut v = Universe::new(4, 4);
    v.toggle_cell(0, 0);
    v.tick();
    assert_eq!(alive_count(&v), 0);
}

#[test]
fn dead_cell_with_three_neighbors_is_born() {
    let mut u = Universe::new(5, 5);
    u.set_cells_alive(&vec![(1, 1), (1, 2), (2, 1)]);
    u.tick();
    assert!(alive_at(&u, 2, 2));
}

#[test]
fn dead_cell_with_two_neighbors_stays_dead() {
    let mut u = Universe::new(5, 5);
    u.set_cells_alive(&vec![(1, 1), (1, 2)]);
    u.tick();
    assert!(!alive_at(&u, 2, 1));
    assert!(!alive_at(&u, 2, 2));
}

#[test]
fn dead_cell_with_four_neighbors_stays_dead() {
    let mut u = Universe::new(5, 5);
    u.set_cells_alive(&vec![(1, 1), (1, 2), (1, 3), (2, 1)]);
    u.tick();
    assert!(!alive_at(&u, 2, 2));
}

#[test]
fn overcrowded_cell_dies() {
    let mut u = Universe::new(5, 5);
    u.set_cells_alive(&vec![(1, 1), (1, 2), (1, 3), (2, 1), (2, 2)]);
    u.tick();
    assert!(!alive_at(&u, 2, 2));
    assert!(!alive_at(&u, 1, 2));
}

#[test]
fn corner_counts_diagonal_neighbors_across_both_seams() {
    // Three alive cells wrap-adjacent to (0, 0): it is born, and each of
    // them keeps exactly two wrapped neighbors, so the corner quad closes
    // into a block that spans all four borders.
    let mut u = Universe::new(4, 4);
    u.set_cells_alive(&vec![(3, 3), (3, 0), (0, 3)]);
    u.tick();
    assert!(alive_at(&u, 0, 0));
    assert!(alive_at(&u, 3, 3));
    assert!(alive_at(&u, 3, 0));
    assert!(alive_at(&u, 0, 3));
    assert_eq!(alive_count(&u), 4);
}

#[test]
fn wrapped_corner_block_is_still_life() {
    let mut u = Universe::new(4, 4);
    u.set_cells_alive(&vec![(0, 0), (3, 3), (3, 0), (0, 3)]);
    let before = u.get_cells().to_vec();
    u.tick();
    assert_eq!(u.get_cells(), before.as_slice());
}

#[test]
fn render_exact_glyphs() {
    let mut u = Universe::new(2, 2);
    u.toggle_cell(0, 0);
    assert_eq!(u.render(), "◼◻\n◻◻\n");
}

#[test]
fn render_shape_lines_and_widths() {
    let mut u = Universe::new(4, 3);
    u.set_cells_alive(&vec![(0, 1), (1, 3), (2, 0)]);
    let text = u.render();
    let lines: Vec<&str> = text.split_terminator('\n').collect();
    assert_eq!(lines.len(), 3);
    for line in lines {
        assert_eq!(line.chars().count(), 4);
    }
    assert!(text.ends_with('\n'));
    assert_eq!(text.chars().filter(|c| *c == '◼').count(), 3);
}
