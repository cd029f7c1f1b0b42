use game_of_life::Cell;
use game_of_life::GridError;
use game_of_life::Universe;

fn blank(size: u32) -> Universe {
    let flags: Vec<bool> = Vec::new();
    Universe::new(Some(true), Some(size), &flags)
}

fn at(u: &Universe, row: u32, col: u32) -> Cell {
    u.get_cells()[(row * u.width() + col) as usize]
}

fn live_coords(u: &Universe) -> Vec<(u32, u32)> {
    let mut out = Vec::new();
    for row in 0..u.height() {
        for col in 0..u.width() {
            if at(u, row, col) == Cell::Alive {
                out.push((row, col));
            }
        }
    }
    out
}

fn all_coords(size: u32) -> Vec<(u32, u32)> {
    let mut out = Vec::new();
    for row in 0..size {
        for col in 0..size {
            out.push((row, col));
        }
    }
    out
}

#[test]
fn new_blank_is_all_dead() {
    let u = blank(4);
    assert_eq!(u.width(), 4);
    assert_eq!(u.height(), 4);
    assert_eq!(u.get_cells().len(), 16);
    assert!(u.get_cells().iter().all(|&c| c == Cell::Dead));
}

#[test]
fn new_defaults_to_size_32() {
    let flags: Vec<bool> = Vec::new();
    let u = Universe::new(Some(true), None, &flags);
    assert_eq!(u.width(), 32);
    assert_eq!(u.height(), 32);
    assert_eq!(u.get_cells().len(), 32 * 32);
}

#[test]
fn new_seeded_matches_flags() {
    let flags = vec![true, false, false, true];
    let u = Universe::new(Some(false), Some(2), &flags);
    assert_eq!(
        u.get_cells(),
        &[Cell::Alive, Cell::Dead, Cell::Dead, Cell::Alive]
    );
}

#[test]
fn buffer_length_is_width_times_height_after_every_operation() {
    let flags = vec![true, false, true, false, true, false, true, false, true];
    let mut u = Universe::new(Some(false), Some(3), &flags);
    assert_eq!(u.get_cells().len(), (u.width() * u.height()) as usize);

    u.tick();
    assert_eq!(u.get_cells().len(), (u.width() * u.height()) as usize);

    u.set_cells(&[(0, 0), (2, 2)]).unwrap();
    assert_eq!(u.get_cells().len(), (u.width() * u.height()) as usize);

    u.toggle_cell(1, 1).unwrap();
    assert_eq!(u.get_cells().len(), (u.width() * u.height()) as usize);

    u.set_glider(0, 0);
    assert_eq!(u.get_cells().len(), (u.width() * u.height()) as usize);

    u.set_width(5);
    assert_eq!(u.width(), 5);
    assert_eq!(u.get_cells().len(), (u.width() * u.height()) as usize);

    u.set_height(2);
    assert_eq!(u.height(), 2);
    assert_eq!(u.get_cells().len(), (u.width() * u.height()) as usize);
}

#[test]
fn reads_without_mutation_are_identical() {
    let flags = vec![true, false, false, true];
    let u = Universe::new(Some(false), Some(2), &flags);
    let first: Vec<Cell> = u.cells().to_vec();
    let second: Vec<Cell> = u.cells().to_vec();
    assert_eq!(first, second);
    assert_eq!(u.get_cells(), first.as_slice());
}

#[test]
fn toroidal_wraparound_counts_corner_neighbors() {
    let mut u = blank(4);
    u.set_cells(&[(0, 0), (3, 3), (3, 0), (0, 3)]).unwrap();
    assert_eq!(u.live_neighbor_count(0, 0), 3);
}

#[test]
fn underpopulated_cells_die() {
    // A single live cell has no live neighbor.
    let mut u = blank(5);
    u.set_cells(&[(2, 2)]).unwrap();
    u.tick();
    assert!(u.get_cells().iter().all(|&c| c == Cell::Dead));

    // Each cell of an isolated pair has exactly one live neighbor.
    let mut u = blank(5);
    u.set_cells(&[(2, 2), (2, 3)]).unwrap();
    u.tick();
    assert!(u.get_cells().iter().all(|&c| c == Cell::Dead));
}

#[test]
fn block_still_life_never_changes() {
    let block = [(1, 1), (1, 2), (2, 1), (2, 2)];
    let mut u = blank(4);
    u.set_cells(&block).unwrap();
    for _ in 0..6 {
        u.tick();
        assert_eq!(live_coords(&u), block.to_vec());
    }
}

#[test]
fn l_tromino_reproduces_into_block() {
    let mut u = blank(5);
    u.set_cells(&[(1, 1), (1, 2), (2, 1)]).unwrap();
    // The dead cell at (2, 2) has exactly three live neighbors.
    assert_eq!(at(&u, 2, 2), Cell::Dead);
    assert_eq!(u.live_neighbor_count(2, 2), 3);
    u.tick();
    assert_eq!(at(&u, 2, 2), Cell::Alive);
    assert_eq!(live_coords(&u), vec![(1, 1), (1, 2), (2, 1), (2, 2)]);
}

#[test]
fn glider_translates_diagonally_in_four_generations() {
    let mut u = blank(8);
    u.set_glider(0, 0);
    assert_eq!(
        live_coords(&u),
        vec![(0, 1), (1, 2), (2, 0), (2, 1), (2, 2)]
    );
    for _ in 0..4 {
        u.tick();
    }
    assert_eq!(
        live_coords(&u),
        vec![(1, 2), (2, 3), (3, 1), (3, 2), (3, 3)]
    );
}

#[test]
fn glider_offsets_wrap_around_the_edges() {
    let mut u = blank(4);
    u.set_glider(3, 3);
    assert_eq!(
        live_coords(&u),
        vec![(0, 1), (1, 0), (1, 1), (1, 3), (3, 0)]
    );
}

#[test]
fn resize_to_same_width_clears_all_cells() {
    let mut u = blank(3);
    u.set_cells(&all_coords(3)).unwrap();
    assert!(u.get_cells().iter().all(|&c| c == Cell::Alive));
    u.set_width(3);
    assert_eq!(u.width(), 3);
    assert_eq!(u.height(), 3);
    assert_eq!(u.get_cells().len(), 9);
    assert!(u.get_cells().iter().all(|&c| c == Cell::Dead));
}

#[test]
fn resize_to_same_height_clears_all_cells() {
    let mut u = blank(3);
    u.set_cells(&all_coords(3)).unwrap();
    u.set_height(3);
    assert_eq!(u.get_cells().len(), 9);
    assert!(u.get_cells().iter().all(|&c| c == Cell::Dead));
}

#[test]
fn resize_changes_one_dimension_only() {
    let mut u = blank(3);
    u.set_width(5);
    assert_eq!(u.width(), 5);
    assert_eq!(u.height(), 3);
    assert_eq!(u.get_cells().len(), 15);
    u.set_height(2);
    assert_eq!(u.width(), 5);
    assert_eq!(u.height(), 2);
    assert_eq!(u.get_cells().len(), 10);
}

#[test]
fn toggle_cell_flips_exactly_one_cell() {
    let mut u = blank(3);
    // Arguments are (col, row): toggle the cell at row 2, column 1.
    u.toggle_cell(1, 2).unwrap();
    assert_eq!(at(&u, 2, 1), Cell::Alive);
    assert_eq!(live_coords(&u), vec![(2, 1)]);
    u.toggle_cell(1, 2).unwrap();
    assert!(u.get_cells().iter().all(|&c| c == Cell::Dead));
}

#[test]
fn toggle_cell_rejects_out_of_bounds() {
    let mut u = blank(3);
    u.set_cells(&[(0, 0)]).unwrap();
    let before: Vec<Cell> = u.get_cells().to_vec();
    assert_eq!(u.toggle_cell(3, 0), Err(GridError::OutOfBounds));
    assert_eq!(u.toggle_cell(0, 3), Err(GridError::OutOfBounds));
    assert_eq!(u.get_cells(), before.as_slice());
}

#[test]
fn set_cells_sets_only_the_listed_coordinates() {
    let mut u = blank(3);
    u.set_cells(&[(0, 2), (1, 0)]).unwrap();
    assert_eq!(live_coords(&u), vec![(0, 2), (1, 0)]);
}

#[test]
fn set_cells_rejects_out_of_bounds_and_changes_nothing() {
    let mut u = blank(3);
    assert_eq!(
        u.set_cells(&[(0, 0), (1, 3)]),
        Err(GridError::OutOfBounds)
    );
    assert!(u.get_cells().iter().all(|&c| c == Cell::Dead));
}

#[test]
fn render_draws_one_glyph_per_cell_and_one_line_per_row() {
    let mut u = blank(2);
    u.set_cells(&[(0, 0)]).unwrap();
    let expected = format!("{}{}\n{}{}\n", '\u{25fc}', '\u{25fb}', '\u{25fb}', '\u{25fb}');
    assert_eq!(u.render(), expected);
}

#[test]
fn tick_after_edit_uses_the_edited_generation() {
    // An edit must re-mirror the scratch buffer: a block stamped after a
    // step still behaves as a still life.
    let mut u = blank(4);
    u.set_cells(&[(0, 0)]).unwrap();
    u.tick();
    u.set_cells(&[(1, 1), (1, 2), (2, 1), (2, 2)]).unwrap();
    u.tick();
    assert_eq!(live_coords(&u), vec![(1, 1), (1, 2), (2, 1), (2, 2)]);
}
