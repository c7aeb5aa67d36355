use game_of_life::{Cell, OutOfBounds, World};

#[test]
fn new_grid_is_all_dead() {
    let world = World::new(5, 4);
    assert_eq!(world.get_width(), 5);
    assert_eq!(world.get_height(), 4);
    for row in 0..4 {
        for col in 0..5 {
            assert_eq!(world.get_cell(row, col).unwrap(), Cell::Dead);
        }
    }
}

#[test]
fn default_seed_pattern() {
    let world = World::default();
    // flat position i is alive iff i % 2 == 0 or i % 7 == 0
    assert_eq!(world.cells[0], Cell::Alive); // 0 divides both
    assert_eq!(world.cells[1], Cell::Dead);
    assert_eq!(world.cells[2], Cell::Alive); // even
    assert_eq!(world.cells[7], Cell::Alive); // multiple of 7
    assert_eq!(world.cells[9], Cell::Dead);
    assert_eq!(world.cells[35], Cell::Alive); // multiple of 7
    assert_eq!(world.cells[64], Cell::Alive); // even, start of row 1
    assert_eq!(world.cells.len(), 64 * 64);
}

#[test]
fn wasm_create_is_the_default_grid() {
    let world = World::wasm_create();
    let default_world = World::default();
    assert_eq!(world.get_width(), 64);
    assert_eq!(world.get_height(), 64);
    assert_eq!(world.cells, default_world.cells);
}

#[test]
fn index_reports_out_of_bounds_context() {
    let world = World::default();
    let err = world.index(0, 1000).unwrap_err();
    assert_eq!(
        err,
        OutOfBounds { row: 0, column: 1000, height: 64, width: 64 }
    );
    let err = world.index(64, 0).unwrap_err();
    assert_eq!(err, OutOfBounds { row: 64, column: 0, height: 64, width: 64 });
}

#[test]
fn get_cell_checks_bounds() {
    let world = World::new(3, 3);
    assert_eq!(world.get_cell(2, 2).unwrap(), Cell::Dead);
    let err = world.get_cell(3, 0).unwrap_err();
    assert_eq!(err, OutOfBounds { row: 3, column: 0, height: 3, width: 3 });
    let err = world.get_cell(0, 3).unwrap_err();
    assert_eq!(err, OutOfBounds { row: 0, column: 3, height: 3, width: 3 });
}

#[test]
fn neighbor_count_wraps_around_edges() {
    let mut world = World::new(3, 3);
    world.cells[0] = Cell::Alive; // corner (0, 0)
    // (0, 0) is a wrapped neighbor of the opposite corner (2, 2)
    assert_eq!(world.count_neighbors(2, 2).unwrap(), 1);
    // a cell is not its own neighbor
    assert_eq!(world.count_neighbors(0, 0).unwrap(), 0);
}

#[test]
fn neighbor_count_reaches_eight() {
    let mut world = World::new(3, 3);
    for idx in 0..9 {
        world.cells[idx] = Cell::Alive;
    }
    assert_eq!(world.count_neighbors(1, 1).unwrap(), 8);
}

#[test]
fn one_by_one_grid_counts_duplicated_offsets() {
    // On a 1x1 grid the offset lists {0, 0, 1} repeat wrapped positions, so
    // the single cell is seen five times; the toroidal formula keeps that.
    let mut world = World::new(1, 1);
    world.cells[0] = Cell::Alive;
    assert_eq!(world.count_neighbors(0, 0).unwrap(), 5);
}

#[test]
fn dead_grid_stays_dead() -> Result<(), OutOfBounds> {
    let mut world = World::new(4, 4);
    for _generation in 0..5 {
        world.tick()?;
        for row in 0..4 {
            for col in 0..4 {
                assert_eq!(world.get_cell(row, col).unwrap(), Cell::Dead);
            }
        }
    }
    Ok(())
}

#[test]
fn tick_preserves_dimensions() -> Result<(), OutOfBounds> {
    let mut world = World::default();
    world.tick()?;
    assert_eq!(world.get_width(), 64);
    assert_eq!(world.get_height(), 64);

    let mut small = World::new(7, 2);
    small.tick()?;
    assert_eq!(small.get_width(), 7);
    assert_eq!(small.get_height(), 2);
    Ok(())
}

#[test]
fn wasm_tick_advances_a_generation() {
    // same starvation scenario as tick: a lone live cell dies
    let mut world = World::new(3, 3);
    world.cells[4] = Cell::Alive;
    world.wasm_tick();
    for cell in world.cells {
        assert_eq!(cell, Cell::Dead);
    }
}

#[test]
fn render_draws_rows_of_glyphs() {
    let mut world = World::new(2, 2);
    assert_eq!(world.wasm_render(), "\u{25fb}\u{25fb}\n\u{25fb}\u{25fb}\n");
    world.cells[0] = Cell::Alive;
    world.cells[3] = Cell::Alive;
    assert_eq!(world.wasm_render(), "\u{25fc}\u{25fb}\n\u{25fb}\u{25fc}\n");
}

#[test]
fn well_formedness_is_decidable_at_run_time() {
    let world = World::new(3, 3);
    assert!(world.is_well_formed());
    let broken = World { width: 3, height: 3, cells: Vec::new() };
    assert!(!broken.is_well_formed());
    let degenerate = World { width: 0, height: 0, cells: Vec::new() };
    assert!(!degenerate.is_well_formed());
}
