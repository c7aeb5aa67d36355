use game_of_life::{Cell, OutOfBounds, World};

#[test]
fn test_default_constructor() {
    let world = World::default();
    assert_eq!(world.get_width(), 64);
    assert_eq!(world.get_height(), 64);
}

#[test]
fn test_nondefault_constructor() {
    let world = World::new(128, 16);
    assert_eq!(world.get_width(), 128);
    assert_eq!(world.get_height(), 16);
}

#[test]
fn test_indexing() {
    let world = World::default();
    assert_eq!(world.index(0, 0).unwrap(), 0);
    assert_eq!(world.index(0, 63).unwrap(), 63);
    assert_eq!(world.index(2, 0).unwrap(), 128);
}

#[test]
#[should_panic]
fn test_invalid_indexing() {
    let world = World::default();
    world.index(0, 1000).unwrap();
}

#[test]
fn test_counting_neighbors() {
    let mut world = World::new(3, 3); // make an itty bitty world

    // add a single neighbor, check that we get one
    world.cells[0] = Cell::Alive;
    assert_eq!(world.count_neighbors(1, 1).unwrap(), 1);

    // add another neighbor, should now have 2!
    let mut update_index = world.index(2, 0).unwrap();
    world.cells[update_index] = Cell::Alive; // add another
    assert_eq!(world.count_neighbors(1, 1).unwrap(), 2);

    // if the cell itself is alive that shouldn't effect the count
    update_index = world.index(1, 1).unwrap();
    world.cells[update_index] = Cell::Alive;
    assert_eq!(world.count_neighbors(1, 1).unwrap(), 2);
}

#[test]
fn test_extinction_starvation() -> Result<(), OutOfBounds> {
    let mut world = World::new(3, 3); // make an itty bitty world
    world.cells[4] = Cell::Alive;
    world.tick()?;
    for cell in world.cells {
        assert_eq!(cell, Cell::Dead);
    }
    Ok(())
}

#[test]
fn test_extinction_overpopulation() -> Result<(), OutOfBounds> {
    let mut world = World::new(3, 3); // make an itty bitty world
    world.cells[0] = Cell::Alive;
    world.cells[2] = Cell::Alive;
    world.cells[6] = Cell::Alive;
    world.cells[8] = Cell::Alive;
    world.cells[4] = Cell::Alive;

    world.tick()?;
    assert_eq!(world.cells[4], Cell::Dead);
    Ok(())
}

#[test]
fn test_continued_life() -> Result<(), OutOfBounds> {
    let mut world = World::new(3, 3); // make an itty bitty world
    for idx in 0..3 {
        world.cells[idx] = Cell::Alive;
    }
    world.cells[4] = Cell::Alive;

    world.tick()?;
    assert_eq!(world.cells[4], Cell::Alive);
    Ok(())
}

#[test]
fn test_creating_life() -> Result<(), OutOfBounds> {
    let mut world = World::new(3, 3); // make an itty bitty world
    for idx in 0..3 {
        world.cells[idx] = Cell::Alive;
    }

    world.tick()?;
    assert_eq!(world.cells[4], Cell::Alive);
    Ok(())
}
