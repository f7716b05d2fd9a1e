use game_of_life::board::next_state;
use game_of_life::cell::Cell;
use game_of_life::grid::{Grid, GridError, Point};

fn grid(width: usize, height: usize, points: &[(usize, usize)]) -> Grid {
    let mut grid = Grid::new(width, height).unwrap();
    let points: Vec<Point> = points.iter().map(|&p| Point::from(p)).collect();
    grid.set_state(&points).unwrap();
    grid
}

fn alive_points(grid: &Grid) -> Vec<(usize, usize)> {
    let mut points = Vec::new();
    for y in 0..grid.height() {
        for x in 0..grid.width() {
            if grid.get(Point { x, y }).unwrap() {
                points.push((x, y));
            }
        }
    }
    points
}

#[test]
fn cell_holds_its_state() {
    let mut cell = Cell::new(false);
    assert!(!cell.is_alive());
    cell.set_state(true);
    assert!(cell.is_alive());
    assert!(Cell::new(true).is_alive());
}

#[test]
fn point_from_pair() {
    let point = Point::from((4, 7));
    assert_eq!(point.x, 4);
    assert_eq!(point.y, 7);
    assert_eq!(point, Point { x: 4, y: 7 });
}

#[test]
fn new_grid_is_dead() {
    let grid = Grid::new(5, 3).unwrap();
    assert_eq!(grid.width(), 5);
    assert_eq!(grid.height(), 3);
    assert_eq!(grid.states(), vec![false; 15]);
}

#[test]
fn new_rejects_zero_extents() {
    assert_eq!(Grid::new(0, 3).err(), Some(GridError::Configuration));
    assert_eq!(Grid::new(3, 0).err(), Some(GridError::Configuration));
    assert_eq!(Grid::new(0, 0).err(), Some(GridError::Configuration));
}

#[test]
fn new_rejects_extents_beyond_the_machine() {
    assert_eq!(Grid::new(usize::MAX, 2).err(), Some(GridError::Configuration));
}

#[test]
fn coords_and_index_on_a_wide_grid() {
    let grid = Grid::new(5, 3).unwrap();
    assert_eq!(grid.coords_to_index(Point { x: 0, y: 0 }), 0);
    assert_eq!(grid.coords_to_index(Point { x: 4, y: 0 }), 4);
    assert_eq!(grid.coords_to_index(Point { x: 0, y: 1 }), 5);
    assert_eq!(grid.coords_to_index(Point { x: 2, y: 2 }), 12);
    assert_eq!(grid.coords_to_index(Point { x: 4, y: 2 }), 14);
    assert_eq!(grid.index_to_coords(12), Point { x: 2, y: 2 });
    assert_eq!(grid.index_to_coords(5), Point { x: 0, y: 1 });
    assert_eq!(grid.index_to_coords(14), Point { x: 4, y: 2 });
}

#[test]
fn coords_and_index_are_inverses() {
    for (width, height) in [(1, 1), (1, 6), (6, 1), (3, 5), (5, 3), (4, 4)] {
        let grid = Grid::new(width, height).unwrap();
        for index in 0..width * height {
            let pos = grid.index_to_coords(index);
            assert!(grid.contains(pos));
            assert_eq!(grid.coords_to_index(pos), index);
        }
        for y in 0..height {
            for x in 0..width {
                let index = grid.coords_to_index(Point { x, y });
                assert!(index < width * height);
                assert_eq!(grid.index_to_coords(index), Point { x, y });
            }
        }
    }
}

#[test]
fn contains_tells_the_extents() {
    let grid = Grid::new(5, 3).unwrap();
    assert!(grid.contains(Point { x: 4, y: 2 }));
    assert!(!grid.contains(Point { x: 5, y: 2 }));
    assert!(!grid.contains(Point { x: 4, y: 3 }));
    assert!(!grid.contains(Point { x: 3, y: 4 }));
}

#[test]
fn get_and_set() {
    let mut grid = Grid::new(5, 3).unwrap();
    assert_eq!(grid.get(Point { x: 4, y: 1 }), Ok(false));
    assert_eq!(grid.set(Point { x: 4, y: 1 }, true), Ok(()));
    assert_eq!(grid.get(Point { x: 4, y: 1 }), Ok(true));
    assert_eq!(grid.get(Point { x: 1, y: 2 }), Ok(false));
    assert_eq!(alive_points(&grid), vec![(4, 1)]);
    assert_eq!(grid.states()[9], true);
    assert_eq!(grid.set(Point { x: 4, y: 1 }, false), Ok(()));
    assert_eq!(grid.states(), vec![false; 15]);
}

#[test]
fn get_and_set_reject_positions_off_the_grid() {
    let mut grid = grid(5, 3, &[(1, 1)]);
    assert_eq!(grid.get(Point { x: 5, y: 0 }), Err(GridError::OutOfBounds));
    assert_eq!(grid.get(Point { x: 0, y: 3 }), Err(GridError::OutOfBounds));
    assert_eq!(grid.set(Point { x: 5, y: 0 }, true), Err(GridError::OutOfBounds));
    assert_eq!(grid.set(Point { x: 3, y: 4 }, true), Err(GridError::OutOfBounds));
    assert_eq!(alive_points(&grid), vec![(1, 1)]);
}

#[test]
fn set_state_resets_then_seeds() {
    let mut grid = grid(4, 3, &[(0, 0), (3, 2)]);
    assert_eq!(alive_points(&grid), vec![(0, 0), (3, 2)]);
    let seeds = [Point { x: 1, y: 1 }, Point { x: 2, y: 0 }, Point { x: 1, y: 1 }];
    assert_eq!(grid.set_state(&seeds), Ok(()));
    assert_eq!(alive_points(&grid), vec![(2, 0), (1, 1)]);
    assert_eq!(grid.set_state(&[]), Ok(()));
    assert_eq!(alive_points(&grid), vec![]);
}

#[test]
fn set_state_rejects_a_point_off_the_grid() {
    let mut grid = grid(4, 3, &[(0, 0), (3, 2)]);
    let seeds = [Point { x: 1, y: 1 }, Point { x: 4, y: 0 }];
    assert_eq!(grid.set_state(&seeds), Err(GridError::OutOfBounds));
    assert_eq!(alive_points(&grid), vec![(0, 0), (3, 2)]);
}

#[test]
fn fill_state_takes_row_major_values() {
    let mut grid = Grid::new(3, 2).unwrap();
    let values = [true, false, false, false, true, true];
    assert_eq!(grid.fill_state(&values), Ok(()));
    assert_eq!(grid.states(), values.to_vec());
    assert_eq!(alive_points(&grid), vec![(0, 0), (1, 1), (2, 1)]);
    assert_eq!(grid.fill_state(&[true; 5]), Err(GridError::Configuration));
    assert_eq!(grid.fill_state(&[true; 7]), Err(GridError::Configuration));
    assert_eq!(grid.states(), values.to_vec());
}

#[test]
fn rule_table() {
    for neighbours in 0..=8u8 {
        assert_eq!(next_state(true, neighbours), neighbours == 2 || neighbours == 3);
        assert_eq!(next_state(false, neighbours), neighbours == 3);
    }
}

#[test]
fn live_neighbours_counts_the_ring() {
    let full = grid(3, 3, &[(0, 0), (1, 0), (2, 0), (0, 1), (1, 1), (2, 1), (0, 2), (1, 2), (2, 2)]);
    assert_eq!(full.live_neighbours(Point { x: 1, y: 1 }), 8);
    assert_eq!(full.live_neighbours(Point { x: 0, y: 0 }), 3);
    assert_eq!(full.live_neighbours(Point { x: 1, y: 0 }), 5);
    assert_eq!(full.live_neighbours(Point { x: 2, y: 2 }), 3);
    let one = grid(4, 3, &[(2, 1)]);
    assert_eq!(one.live_neighbours(Point { x: 2, y: 1 }), 0);
    assert_eq!(one.live_neighbours(Point { x: 1, y: 0 }), 1);
    assert_eq!(one.live_neighbours(Point { x: 3, y: 2 }), 1);
    assert_eq!(one.live_neighbours(Point { x: 0, y: 1 }), 0);
}

#[test]
fn edges_are_clipped_not_wrapped() {
    // On a torus the cell at (0, 1) would see the three cells of the last column.
    let grid = grid(4, 3, &[(3, 0), (3, 1), (3, 2)]);
    assert_eq!(grid.live_neighbours(Point { x: 0, y: 1 }), 0);
    assert_eq!(grid.cell_next_state(grid.coords_to_index(Point { x: 0, y: 1 })), false);
    assert_eq!(grid.live_neighbours(Point { x: 2, y: 1 }), 3);
    // The same holds from the first row to the last.
    let grid = grid_rows();
    assert_eq!(grid.live_neighbours(Point { x: 1, y: 3 }), 0);
}

fn grid_rows() -> Grid {
    grid(3, 4, &[(0, 0), (1, 0), (2, 0)])
}

#[test]
fn cell_next_state_follows_the_rule() {
    let grid = grid(4, 4, &[(1, 0), (0, 1), (1, 1)]);
    // Dead with three live neighbours: born.
    assert!(grid.cell_next_state(grid.coords_to_index(Point { x: 0, y: 0 })));
    // Alive with two live neighbours: stays.
    assert!(grid.cell_next_state(grid.coords_to_index(Point { x: 1, y: 1 })));
    // Dead with two live neighbours: stays dead.
    assert!(!grid.cell_next_state(grid.coords_to_index(Point { x: 2, y: 0 })));
    let crowded = grid_crowded();
    // Alive with four live neighbours: dies.
    assert!(!crowded.cell_next_state(crowded.coords_to_index(Point { x: 1, y: 1 })));
    let lonely = self::grid(3, 3, &[(1, 1), (0, 0)]);
    // Alive with one live neighbour: dies.
    assert!(!lonely.cell_next_state(lonely.coords_to_index(Point { x: 1, y: 1 })));
}

fn grid_crowded() -> Grid {
    grid(3, 3, &[(1, 1), (0, 0), (2, 0), (0, 2), (2, 2)])
}

#[test]
fn update_on_a_grid_that_is_not_square() {
    // A blinker on a grid wider than high, where rows and columns must not be confused.
    let mut grid = grid(7, 3, &[(4, 1), (5, 1), (6, 1)]);
    grid.update();
    assert_eq!(alive_points(&grid), vec![(5, 0), (5, 1), (5, 2)]);
    grid.update();
    assert_eq!(alive_points(&grid), vec![(4, 1), (5, 1), (6, 1)]);
}

#[test]
fn cells_are_a_view_of_the_grid() {
    let grid = grid(3, 2, &[(2, 0), (0, 1)]);
    let alive: Vec<bool> = grid.cells().iter().map(|cell| cell.is_alive()).collect();
    assert_eq!(alive, vec![false, false, true, true, false, false]);
    assert_eq!(alive, grid.states());
}
