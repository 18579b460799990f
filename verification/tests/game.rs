use game_of_life::game::{Cell, Universe};

#[test]
fn test_new_universe() {
    let universe = Universe::new(8, 8);

    assert_eq!(64, universe.cells.len(), "cells length must be correct");
    assert_eq!(8, universe.width, "width must be correct");
    assert_eq!(8, universe.height, "height must be correct");
    assert_eq!(
        64,
        universe
            .cells
            .iter()
            .filter(|cell| cell == &&Cell::Dead)
            .count(),
        "all cells must be dead"
    );
}

#[test]
fn test_get_index() {
    let universe = Universe::new(8, 8);

    assert_eq!(Some(0), universe.get_index(0, 0));
    assert_eq!(Some(63), universe.get_index(7, 7));
    assert_eq!(None, universe.get_index(8, 0));
}

#[test]
fn test_get_cell() {
    let mut universe = Universe::new(8, 8);
    universe.cells[0] = Cell::Alive;

    assert_eq!(Some(Cell::Alive), universe.get_cell(0, 0));
    assert_eq!(Some(Cell::Dead), universe.get_cell(7, 7));
    assert_eq!(Some(Cell::Dead), universe.get_cell(1, 5));
}

#[test]
fn test_alive_neighbor_count() {
    let mut universe = Universe::new(8, 8);
    universe.cells[0] = Cell::Alive;
    universe.cells[1] = Cell::Alive;
    universe.cells[8] = Cell::Alive;
    universe.cells[9] = Cell::Alive;
    universe.cells[10] = Cell::Alive;

    assert_eq!(3, universe.alive_neighbor_count(0, 0));
    assert_eq!(4, universe.alive_neighbor_count(1, 1));
    assert_eq!(1, universe.alive_neighbor_count(2, 3));
    assert_eq!(1, universe.alive_neighbor_count(7, 7));
    assert_eq!(0, universe.alive_neighbor_count(6, 6));
}

#[test]
fn test_next_generation() {
    let mut universe = Universe::new(8, 8);
    universe.cells[8] = Cell::Alive;
    universe.cells[9] = Cell::Alive;
    universe.cells[10] = Cell::Alive;

    let mut expected_universe = Universe::new(8, 8);
    expected_universe.cells[1] = Cell::Alive;
    expected_universe.cells[9] = Cell::Alive;
    expected_universe.cells[17] = Cell::Alive;

    universe.next_generation();

    assert_eq!(universe.cells, expected_universe.cells);
}

#[test]
fn test_cell_value() {
    assert_eq!(1, Cell::Alive.value());
    assert_eq!(0, Cell::Dead.value());
}

#[test]
fn test_bounds_rejection() {
    let mut universe = Universe::new(8, 8);

    assert_eq!(None, universe.get_cell(8, 0));
    assert_eq!(None, universe.get_cell(100, 100));
    assert_eq!(None, universe.get_index(usize::MAX / 8, 0));

    assert!(!universe.set_cell(8, 0, Cell::Alive));
    assert_eq!(
        64,
        universe
            .cells
            .iter()
            .filter(|cell| cell == &&Cell::Dead)
            .count(),
        "a rejected write must leave the grid unchanged"
    );
}

#[test]
fn test_set_then_get() {
    let mut universe = Universe::new(8, 8);

    assert!(universe.set_cell(3, 5, Cell::Alive));
    assert_eq!(Some(Cell::Alive), universe.get_cell(3, 5));
    assert_eq!(Some(Cell::Dead), universe.get_cell(5, 3));

    assert!(universe.set_cell(3, 5, Cell::Dead));
    assert_eq!(Some(Cell::Dead), universe.get_cell(3, 5));
}

#[test]
fn test_underpopulation() {
    // A lone alive cell has 0 alive neighbors; a pair of adjacent alive
    // cells have 1 each. All of them die.
    let mut universe = Universe::new(8, 8);
    universe.set_cell(3, 3, Cell::Alive);
    universe.set_cell(3, 4, Cell::Alive);

    assert_eq!(1, universe.alive_neighbor_count(3, 3));
    assert_eq!(1, universe.alive_neighbor_count(3, 4));

    universe.next_generation();

    assert_eq!(
        64,
        universe
            .cells
            .iter()
            .filter(|cell| cell == &&Cell::Dead)
            .count(),
        "underpopulated cells must die"
    );
}

#[test]
fn test_overpopulation() {
    // The center of a plus shape has 4 alive neighbors and dies.
    let mut universe = Universe::new(8, 8);
    universe.set_cell(3, 3, Cell::Alive);
    universe.set_cell(2, 3, Cell::Alive);
    universe.set_cell(4, 3, Cell::Alive);
    universe.set_cell(3, 2, Cell::Alive);
    universe.set_cell(3, 4, Cell::Alive);

    assert_eq!(4, universe.alive_neighbor_count(3, 3));

    universe.next_generation();

    assert_eq!(Some(Cell::Dead), universe.get_cell(3, 3));
}

#[test]
fn test_survival() {
    // Every cell of a 2x2 block has exactly 3 alive neighbors; the block is
    // a still life.
    let mut universe = Universe::new(8, 8);
    universe.set_cell(3, 3, Cell::Alive);
    universe.set_cell(3, 4, Cell::Alive);
    universe.set_cell(4, 3, Cell::Alive);
    universe.set_cell(4, 4, Cell::Alive);

    assert_eq!(3, universe.alive_neighbor_count(3, 3));

    let before = universe.cells.clone();
    universe.next_generation();

    assert_eq!(before, universe.cells, "a block must survive unchanged");
}

#[test]
fn test_reproduction() {
    // The dead cells above and below the middle of a horizontal triple have
    // exactly 3 alive neighbors and come alive.
    let mut universe = Universe::new(8, 8);
    universe.set_cell(3, 3, Cell::Alive);
    universe.set_cell(3, 4, Cell::Alive);
    universe.set_cell(3, 5, Cell::Alive);

    assert_eq!(3, universe.alive_neighbor_count(2, 4));
    assert_eq!(3, universe.alive_neighbor_count(4, 4));

    universe.next_generation();

    assert_eq!(Some(Cell::Alive), universe.get_cell(2, 4));
    assert_eq!(Some(Cell::Alive), universe.get_cell(4, 4));
}

#[test]
fn test_single_cell_torus() {
    // On a 1x1 grid both wrapped deltas height-1 and width-1 are zero, so 4
    // of the 9 delta pairs are the skipped self-delta; the other 5 all wrap
    // back to the cell itself. An alive cell sees 5 alive neighbors and dies
    // of overpopulation.
    let mut universe = Universe::new(1, 1);
    universe.set_cell(0, 0, Cell::Alive);

    assert_eq!(5, universe.alive_neighbor_count(0, 0));

    universe.next_generation();

    assert_eq!(Some(Cell::Dead), universe.get_cell(0, 0));
}

#[test]
fn test_one_row_torus() {
    // On a one-row grid the wrapped delta height-1 is zero, so the pair
    // (height-1, 0) is a self-delta and skipped, while the row delta 1 wraps
    // back to row 0. A lone alive cell counts itself once (through the pair
    // (1, 0)) and dies of underpopulation; each horizontally adjacent cell
    // sees it three times (twice through the duplicated zero row delta, once
    // through the wrapping row delta 1) and is born.
    let mut universe = Universe::new(4, 1);
    universe.set_cell(0, 2, Cell::Alive);

    assert_eq!(1, universe.alive_neighbor_count(0, 2));
    assert_eq!(3, universe.alive_neighbor_count(0, 1));
    assert_eq!(3, universe.alive_neighbor_count(0, 3));

    let mut expected = Universe::new(4, 1);
    expected.set_cell(0, 1, Cell::Alive);
    expected.set_cell(0, 3, Cell::Alive);

    universe.next_generation();

    assert_eq!(expected.cells, universe.cells);
}

#[test]
fn test_wrapped_coordinates() {
    // alive_neighbor_count is total: an out-of-range coordinate is reduced
    // modulo the dimensions and counts as the in-range cell it wraps to.
    let mut universe = Universe::new(8, 8);
    universe.cells[0] = Cell::Alive;
    universe.cells[1] = Cell::Alive;
    universe.cells[8] = Cell::Alive;
    universe.cells[9] = Cell::Alive;
    universe.cells[10] = Cell::Alive;

    assert_eq!(
        universe.alive_neighbor_count(1, 1),
        universe.alive_neighbor_count(9, 17)
    );
    assert_eq!(3, universe.alive_neighbor_count(8, 8));
}

#[test]
fn test_blinker_snapshot() {
    // A vertical blinker turns horizontal in one step. The whole-grid result
    // holds only if every neighbor count is taken against the pre-step grid:
    // an in-place sweep would kill (1, 2) first and then miscount the
    // neighbors of the cells visited later.
    let mut universe = Universe::new(5, 5);
    universe.set_cell(1, 2, Cell::Alive);
    universe.set_cell(2, 2, Cell::Alive);
    universe.set_cell(3, 2, Cell::Alive);

    let mut expected = Universe::new(5, 5);
    expected.set_cell(2, 1, Cell::Alive);
    expected.set_cell(2, 2, Cell::Alive);
    expected.set_cell(2, 3, Cell::Alive);

    universe.next_generation();

    assert_eq!(expected.cells, universe.cells);
}
