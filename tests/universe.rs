use game_of_life::{Cell, GridError, Universe, DEFAULT_HEIGHT, DEFAULT_WIDTH};

fn grid(width: u32, height: u32, alive: &[(u32, u32)]) -> Universe {
    let mut cells = vec![Cell::Dead; (width * height) as usize];
    for &(row, column) in alive {
        cells[(row * width + column) as usize] = Cell::Alive;
    }
    Universe::from_cells(width, height, cells).unwrap()
}

fn alive_positions(u: &Universe) -> Vec<(u32, u32)> {
    let mut out = Vec::new();
    for (i, cell) in u.cells().iter().enumerate() {
        if *cell == Cell::Alive {
            let i = i as u32;
            out.push((i / u.width(), i % u.width()));
        }
    }
    out
}

#[test]
fn new_follows_seed_rule() {
    let u = Universe::new();
    assert_eq!(u.width(), 64);
    assert_eq!(u.height(), 64);
    assert_eq!(DEFAULT_WIDTH, 64);
    assert_eq!(DEFAULT_HEIGHT, 64);
    let cells = u.cells();
    assert_eq!(cells.len(), 64 * 64);
    for (i, cell) in cells.iter().enumerate() {
        let expected = if i % 2 == 0 || i % 7 == 0 { Cell::Alive } else { Cell::Dead };
        assert_eq!(*cell, expected, "index {}", i);
    }
    assert_eq!(cells[0], Cell::Alive);
    assert_eq!(cells[1], Cell::Dead);
    assert_eq!(cells[7], Cell::Alive);
    assert_eq!(cells[21], Cell::Alive);
    assert_eq!(cells[9], Cell::Dead);
}

#[test]
fn tick_keeps_dimensions() {
    let mut u = Universe::new();
    for _ in 0..5 {
        u.tick();
        assert_eq!(u.width(), 64);
        assert_eq!(u.height(), 64);
        assert_eq!(u.cells().len(), 64 * 64);
    }
    let mut v = grid(7, 3, &[(0, 0), (1, 1), (2, 6)]);
    for _ in 0..4 {
        v.tick();
        assert_eq!(v.width(), 7);
        assert_eq!(v.height(), 3);
    }
}

#[test]
fn neighbor_counts_stay_within_eight() {
    let u = Universe::new();
    for row in 0..u.height() {
        for column in 0..u.width() {
            assert!(u.live_neighbor_count(row, column) <= 8);
        }
    }
    let full = Universe::from_cells(3, 3, vec![Cell::Alive; 9]).unwrap();
    for row in 0..3 {
        for column in 0..3 {
            assert_eq!(full.live_neighbor_count(row, column), 8);
        }
    }
    let empty = grid(4, 4, &[]);
    assert_eq!(empty.live_neighbor_count(2, 1), 0);
}

#[test]
fn single_cell_grid_sees_itself_eight_times() {
    let u = grid(1, 1, &[(0, 0)]);
    assert_eq!(u.live_neighbor_count(0, 0), 8);
}

#[test]
fn corners_wrap_around() {
    let u = grid(5, 4, &[(0, 0)]);
    assert_eq!(u.live_neighbor_count(3, 0), 1);
    assert_eq!(u.live_neighbor_count(0, 4), 1);
    assert_eq!(u.live_neighbor_count(3, 4), 1);
    assert_eq!(u.live_neighbor_count(2, 2), 0);
    assert_eq!(u.live_neighbor_count(0, 0), 0);
}

#[test]
fn isolated_cell_dies() {
    let mut u = grid(3, 3, &[(1, 1)]);
    u.tick();
    assert!(alive_positions(&u).is_empty());
}

#[test]
fn blinker_oscillates_with_period_two() {
    let horizontal = vec![(1, 0), (1, 1), (1, 2)];
    let vertical = vec![(0, 1), (1, 1), (2, 1)];
    let mut u = grid(5, 5, &horizontal);
    u.tick();
    assert_eq!(alive_positions(&u), vertical);
    u.tick();
    assert_eq!(alive_positions(&u), horizontal);
}

#[test]
fn rule_table_is_exact() {
    // In a 3x3 torus the other eight cells are exactly the neighbours of the centre.
    let others = [(0, 0), (0, 1), (0, 2), (1, 0), (1, 2), (2, 0), (2, 1), (2, 2)];
    for n in 0..=8usize {
        for centre_alive in [false, true] {
            let mut alive: Vec<(u32, u32)> = others[..n].to_vec();
            if centre_alive {
                alive.push((1, 1));
            }
            let mut u = grid(3, 3, &alive);
            assert_eq!(u.live_neighbor_count(1, 1) as usize, n);
            u.tick();
            let expected = if centre_alive {
                if n == 2 || n == 3 { Cell::Alive } else { Cell::Dead }
            } else if n == 3 {
                Cell::Alive
            } else {
                Cell::Dead
            };
            assert_eq!(u.cells()[4], expected, "n = {}, alive = {}", n, centre_alive);
        }
    }
}

#[test]
fn block_is_a_still_life() {
    let block = vec![(2, 2), (2, 3), (3, 2), (3, 3)];
    let mut u = grid(6, 6, &block);
    for _ in 0..6 {
        u.tick();
        assert_eq!(alive_positions(&u), block);
    }
}

#[test]
fn block_across_the_corner_is_a_still_life() {
    let block = vec![(0, 0), (0, 4), (3, 0), (3, 4)];
    let mut u = grid(5, 4, &block);
    for _ in 0..3 {
        u.tick();
        assert_eq!(alive_positions(&u), block);
    }
}

#[test]
fn accessors_are_idempotent() {
    let u = Universe::new();
    assert_eq!(u.width(), u.width());
    assert_eq!(u.height(), u.height());
    let first: Vec<Cell> = u.cells().to_vec();
    let second: Vec<Cell> = u.cells().to_vec();
    assert_eq!(first, second);
    assert_eq!(u.render(), u.render());
}

#[test]
fn render_draws_one_line_per_row() {
    let u = grid(3, 2, &[(0, 1), (1, 0), (1, 2)]);
    assert_eq!(u.render(), "◻◼◻\n◼◻◼\n");
    let lines: Vec<String> = Universe::new().render().lines().map(String::from).collect();
    assert_eq!(lines.len(), 64);
    assert!(lines.iter().all(|l| l.chars().count() == 64));
    assert!(lines[0].starts_with("◼◻◼◻◼◻◼◼"));
}

#[test]
fn from_cells_rejects_zero_dimensions() {
    assert_eq!(
        Universe::from_cells(0, 3, vec![]).unwrap_err(),
        GridError::InvalidDimension
    );
    assert_eq!(
        Universe::from_cells(3, 0, vec![]).unwrap_err(),
        GridError::InvalidDimension
    );
}

#[test]
fn from_cells_rejects_wrong_cell_count() {
    assert_eq!(
        Universe::from_cells(3, 3, vec![Cell::Dead; 8]).unwrap_err(),
        GridError::CellCountMismatch
    );
    assert_eq!(
        Universe::from_cells(2, 2, vec![Cell::Alive; 5]).unwrap_err(),
        GridError::CellCountMismatch
    );
    let u = Universe::from_cells(2, 3, vec![Cell::Alive; 6]).unwrap();
    assert_eq!(u.width(), 2);
    assert_eq!(u.height(), 3);
}
