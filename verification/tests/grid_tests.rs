use conlife::{Grid, Object, OutOfBoundsError};

const GLIDER: &str = "(0,2) (1,2) (2,2) (1,0) (2,1)";

#[test]
fn empty_grid_advance() {
    let mut grid = Grid::new(16, 16);
    let initial_cells = grid.cells.clone();
    grid.advance();
    assert_eq!(initial_cells, grid.cells);
}

#[test]
fn full_grid_advance() {
    let mut grid = Grid::new(8, 8);
    // set all cells to be alive
    for row in grid.cells.iter_mut() {
        for cell in row {
            cell.alive = true;
        }
    }
    grid.advance();
    // only corner cells should survive
    for (y, row) in grid.cells.iter().enumerate() {
        for (x, cell) in row.iter().enumerate() {
            if [0, grid.width - 1].contains(&(x as u32)) && [0, grid.height - 1].contains(&(y as u32))
            {
                assert!(cell.alive);
            } else {
                assert!(!cell.alive);
            }
        }
    }
}

#[test]
fn grid_load_glider() {
    let mut grid = Grid::new(8, 8);
    let glider = Object::from_string(GLIDER).expect("Failed to load glider");
    grid.load_object(&glider, (0, 0)).unwrap();

    let alive = vec![(0, 2), (1, 2), (2, 2), (1, 0), (2, 1)];

    for (y, row) in grid.cells.iter().enumerate() {
        for (x, cell) in row.iter().enumerate() {
            let coord = (x, y);
            assert_eq!(cell.alive, alive.contains(&coord));
        }
    }
}

#[test]
fn load_glider_at_offset() {
    let mut grid = Grid::new(64, 64);
    let glider = Object::from_string(GLIDER).expect("Failed to load glider");
    let offset = (1, 1);
    grid.load_object(&glider, offset).unwrap();

    let alive: Vec<(usize, usize)> = glider
        .coordinates
        .iter()
        .map(|(x, y)| (x + offset.0, y + offset.1))
        .collect();

    for (y, row) in grid.cells.iter().enumerate() {
        for (x, cell) in row.iter().enumerate() {
            let coord = (x, y);
            assert_eq!(cell.alive, alive.contains(&coord));
        }
    }
}

#[test]
fn glider_advance() {
    let mut grid = Grid::new(8, 8);
    let glider = Object::from_string(GLIDER).expect("Failed to load glider");
    grid.load_object(&glider, (0, 0)).unwrap();
    grid.advance();

    let alive = vec![(0, 1), (1, 2), (1, 3), (2, 1), (2, 2)];

    for (y, row) in grid.cells.iter().enumerate() {
        for (x, cell) in row.iter().enumerate() {
            let coord = (x, y);
            assert_eq!(cell.alive, alive.contains(&coord));
        }
    }
}

#[test]
fn new_grid_is_all_dead() {
    let grid = Grid::new(5, 7);
    assert_eq!(grid.width, 5);
    assert_eq!(grid.height, 7);
    assert_eq!(grid.cells.len(), 7);
    for row in grid.cells.iter() {
        assert_eq!(row.len(), 5);
        for cell in row {
            assert!(!cell.alive);
        }
    }
}

#[test]
fn dead_grid_stays_dead_rectangular() {
    let mut grid = Grid::new(5, 7);
    grid.advance();
    grid.advance();
    assert!(grid.alive_cells().is_empty());
}

// For every neighbour count 0 to 8, the next state of the centre cell of a
// 5x5 grid follows the rule table, whether the centre starts dead or alive.
#[test]
fn rule_table_every_neighbour_count() {
    let around = [
        (1usize, 1usize),
        (2, 1),
        (3, 1),
        (1, 2),
        (3, 2),
        (1, 3),
        (2, 3),
        (3, 3),
    ];
    for k in 0..=8usize {
        for centre_alive in [false, true] {
            let mut grid = Grid::new(5, 5);
            for &(x, y) in around.iter().take(k) {
                grid.cells[y][x].alive = true;
            }
            grid.cells[2][2].alive = centre_alive;
            grid.advance();
            let expected = match k {
                0 | 1 => false,
                2 => centre_alive,
                3 => true,
                _ => false,
            };
            assert_eq!(grid.cells[2][2].alive, expected, "k = {k}, centre = {centre_alive}");
        }
    }
}

#[test]
fn load_out_of_bounds_coordinate_reports_error() {
    let mut grid = Grid::new(4, 4);
    let object = Object::from_string("(3,0) (5,1)").unwrap();
    let result = grid.load_object(&object, (0, 0));
    assert_eq!(result, Err(OutOfBoundsError { x: 5, y: 1 }));
    // all-or-nothing: the grid is untouched
    assert!(grid.alive_cells().is_empty());
}

#[test]
fn load_offset_pushes_out_of_bounds() {
    let mut grid = Grid::new(8, 8);
    let glider = Object::from_string(GLIDER).unwrap();
    let result = grid.load_object(&glider, (6, 6));
    // the first pattern coordinate, (0,2), lands at y = 8, outside the grid
    assert_eq!(result, Err(OutOfBoundsError { x: 0, y: 2 }));
    assert!(grid.alive_cells().is_empty());
}

#[test]
fn alive_cells_row_major_order() {
    let mut grid = Grid::new(3, 3);
    let object = Object::from_string("(1,1) (2,0) (0,1)").unwrap();
    grid.load_object(&object, (0, 0)).unwrap();
    assert_eq!(grid.alive_cells(), vec![(2, 0), (0, 1), (1, 1)]);
}

// Corner cells have exactly 3 precomputed neighbours, edge cells 5, and
// interior cells 8, each in bounds and distinct from the cell's own position.
#[test]
fn neighbour_lists_have_expected_sizes() {
    let grid = Grid::new(4, 4);
    for y in 0..4usize {
        for x in 0..4usize {
            let on_x_edge = x == 0 || x == 3;
            let on_y_edge = y == 0 || y == 3;
            let expected = if on_x_edge && on_y_edge {
                3
            } else if on_x_edge || on_y_edge {
                5
            } else {
                8
            };
            let list = &grid.cells[y][x].neighbour_indices;
            assert_eq!(list.len(), expected, "cell ({x}, {y})");
            for &(nx, ny) in list {
                assert!(nx < 4 && ny < 4);
                assert!((nx, ny) != (x, y));
            }
        }
    }
}

#[test]
fn blinker_oscillates() {
    let mut grid = Grid::new(5, 5);
    let blinker = Object::from_string("(1,2) (2,2) (3,2)").unwrap();
    grid.load_object(&blinker, (0, 0)).unwrap();
    grid.advance();
    assert_eq!(grid.alive_cells(), vec![(2, 1), (2, 2), (2, 3)]);
    grid.advance();
    assert_eq!(grid.alive_cells(), vec![(1, 2), (2, 2), (3, 2)]);
}
