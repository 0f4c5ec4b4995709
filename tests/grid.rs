use neighborgrid::{Grid, GridError, GridOptions, IntoGrid, Origin};

fn rows_0_to_14() -> Vec<Vec<i32>> {
    vec![
        vec![0, 1, 2],
        vec![3, 4, 5],
        vec![6, 7, 8],
        vec![9, 10, 11],
        vec![12, 13, 14],
    ]
}

fn center_grid() -> Grid<i32> {
    let gridoptions = GridOptions {
        origin: Origin::Center,
        inverted_y: false,
        ..GridOptions::default()
    };
    let grid = Grid::new(rows_0_to_14(), Some(gridoptions));
    grid.unwrap()
}

fn wrap_grid(wrap_x: bool, wrap_y: bool) -> Grid<i32> {
    let gridoptions = GridOptions {
        wrap_x,
        wrap_y,
        neighbor_ybased: false,
        ..GridOptions::default()
    };
    let grid = Grid::new(rows_0_to_14(), Some(gridoptions));
    grid.unwrap()
}

#[test]
fn should_contain_large_size() -> Result<(), GridError> {
    let vec = vec![vec![1; u16::MAX as usize]; 1000];
    let grid = vec.into_grid()?;
    assert_eq!(grid.rows(), 1000);
    assert_eq!(grid.columns(), usize::from(u16::MAX));

    let vec = vec![vec![1; 1000]; u16::MAX as usize];
    let grid = vec.into_grid()?;
    assert_eq!(grid.rows(), u16::MAX as usize);
    assert_eq!(grid.columns(), 1000);

    Ok(())
}

#[test]
fn should_get_item() {
    let grid = center_grid();
    assert_eq!(grid.get((0, 0)).unwrap(), &7i32);
    assert_eq!(grid.get((-1, 1)).unwrap(), &3i32);
    assert_eq!(grid.get(1).unwrap(), &1i32);
    assert_eq!(grid.get((-2, 0)), None);
}

#[test]
fn should_get_mut_item() {
    let mut grid = center_grid();
    let v = grid.get_mut((0, 0)).unwrap();
    assert_eq!(*v, 7i32);
    *v = 12i32;
    assert_eq!(*v, 12i32);
    let v = grid.get((0, 0)).unwrap();
    assert_eq!(*v, 12i32);
}

#[test]
fn should_get_up() {
    let grid = center_grid();
    assert_eq!(grid.get_up((0, 0)), Some(&4i32));
    assert_eq!(grid.get_up((-1, 1)), Some(&0i32));
    assert_eq!(grid.get_up(1), None);
    assert_eq!(grid.get_up((-2, 0)), None);
}

#[test]
fn should_get_down() {
    let grid = center_grid();
    assert_eq!(grid.get_down((0, 0)), Some(&10i32));
    assert_eq!(grid.get_down((-1, 1)), Some(&6i32));
    assert_eq!(grid.get_down(12), None);
    assert_eq!(grid.get_down((-2, 0)), None);
}

#[test]
fn should_get_left() {
    let grid = center_grid();
    assert_eq!(grid.get_left((0, 0)), Some(&6i32));
    assert_eq!(grid.get_left((1, 1)), Some(&4i32));
    assert_eq!(grid.get_left(12), None);
    assert_eq!(grid.get_left((-2, 0)), None);
}

#[test]
fn should_get_right() {
    let grid = center_grid();
    assert_eq!(grid.get_right((0, 0)), Some(&8i32));
    assert_eq!(grid.get_right((-1, -1)), Some(&10i32));
    assert_eq!(grid.get_right(11), None);
    assert_eq!(grid.get_right((-2, 0)), None);
}

#[test]
fn should_get_up_wrap() {
    let grid = wrap_grid(false, true);
    assert_eq!(grid.get_up((0, 1)), Some(&0i32));
    assert_eq!(grid.get_up((0, 0)), Some(&12i32));
    assert_eq!(grid.get_up((0, 2)), Some(&3i32));
}

#[test]
fn should_get_down_wrap() {
    let grid = wrap_grid(false, true);
    assert_eq!(grid.get_down((0, 3)), Some(&12i32));
    assert_eq!(grid.get_down((0, 4)), Some(&0i32));
    assert_eq!(grid.get_down((0, 0)), Some(&3i32));
}

#[test]
fn should_get_left_wrap() {
    let grid = wrap_grid(true, false);
    assert_eq!(grid.get_left((1, 0)), Some(&0i32));
    assert_eq!(grid.get_left((0, 0)), Some(&2i32));
    assert_eq!(grid.get_left((2, 0)), Some(&1i32));
}

#[test]
fn should_get_right_wrap() {
    let grid = wrap_grid(true, false);
    assert_eq!(grid.get_right((1, 0)), Some(&2i32));
    assert_eq!(grid.get_right((2, 0)), Some(&0i32));
    assert_eq!(grid.get_right((0, 0)), Some(&1i32));
}

#[test]
fn basic_quadrant() {
    let vec = vec![vec![0, 1], vec![2, 3]];

    let grid = Grid::new(vec, None).unwrap();
    assert_eq!(grid.nrant((0, 0), 1).unwrap(), 0);
    assert_eq!(grid.nrant((1, 0), 1).unwrap(), 0);
    assert_eq!(grid.nrant((0, 1), 1).unwrap(), 0);
    assert_eq!(grid.nrant((1, 1), 1).unwrap(), 0);

    assert_eq!(grid.nrant((0, 0), 2).unwrap(), 0);
    assert_eq!(grid.nrant((1, 0), 2).unwrap(), 1);
    assert_eq!(grid.nrant((0, 1), 2).unwrap(), 2);
    assert_eq!(grid.nrant((1, 1), 2).unwrap(), 3);
}

#[test]
fn uneven_quadrant() {
    let vec = vec![vec![0, 1, 2], vec![3, 4, 5]];

    let grid = Grid::new(vec, None).unwrap();

    assert_eq!(grid.nrant((0, 0), 2).unwrap(), 0);
    assert_eq!(grid.nrant((1, 0), 2).unwrap(), 0);
    assert_eq!(grid.nrant((2, 0), 2).unwrap(), 1);
    assert_eq!(grid.nrant((0, 1), 2).unwrap(), 2);
    assert_eq!(grid.nrant((1, 1), 2).unwrap(), 2);
    assert_eq!(grid.nrant((2, 1), 2).unwrap(), 3);
}

#[test]
fn nrant_start() {
    let vec = vec![vec![0, 1], vec![2, 3]];

    let grid = Grid::new(vec, None).unwrap();
    assert_eq!(grid.nrant_start(0, 1), 0);
    assert_eq!(grid.nrant_start(1, 1), 0);
    assert_eq!(grid.nrant_start(2, 1), 0);
    assert_eq!(grid.nrant_start(3, 1), 0);

    assert_eq!(grid.nrant_start(0, 2), 0);
    assert_eq!(grid.nrant_start(1, 2), 1);
    assert_eq!(grid.nrant_start(2, 2), 2);
    assert_eq!(grid.nrant_start(3, 2), 3);
}

#[test]
fn uneven_quadrant_start() {
    let vec = vec![vec![0, 1, 2], vec![3, 4, 5]];

    let grid = Grid::new(vec, None).unwrap();

    assert_eq!(grid.nrant_start(0, 2), 0);
    assert_eq!(grid.nrant_start(1, 2), 0);
    assert_eq!(grid.nrant_start(2, 2), 2);
    assert_eq!(grid.nrant_start(3, 2), 3);
    assert_eq!(grid.nrant_start(4, 2), 3);
    assert_eq!(grid.nrant_start(5, 2), 5);
}

#[test]
fn grid_should_return_none_outside_bounds() {
    let grid = center_grid();
    let mut iter = grid.row_iter((2, 0));
    assert_eq!(iter.next(), None);
    assert_eq!(iter.next(), None);
}

#[test]
fn grid_should_return_none_outside_bounds_mut() {
    let mut grid = center_grid();
    let mut iter = grid.row_iter_mut((2, 0));
    assert_eq!(iter.next(), None);
    assert_eq!(iter.next(), None);
}

#[test]
fn grid_should_iter_mutably() {
    let mut grid = center_grid();
    let mut cells = grid.row_iter_mut((0, 1));
    while let Some(cell) = cells.next() {
        *cell += 1;
    }
    let mut iter = grid.row_iter((0, 1));
    assert_eq!(iter.next(), Some(&4));
    assert_eq!(iter.next(), Some(&5));
    assert_eq!(iter.next(), Some(&6));
    assert_eq!(iter.next(), None);
}

#[test]
fn should_return_none_outside_bounds() {
    let grid = center_grid();
    let mut iter = grid.col_iter((-4, 0));
    assert_eq!(iter.next(), None);
    assert_eq!(iter.next(), None);
}

#[test]
fn should_return_none_outside_bounds_mut() {
    let mut grid = center_grid();
    let mut iter = grid.col_iter_mut((-4, 0));
    assert_eq!(iter.next(), None);
    assert_eq!(iter.next(), None);
}

#[test]
fn should_iter_mutably() {
    let mut grid = center_grid();
    let mut cells = grid.col_iter_mut((0, 1));
    while let Some(cell) = cells.next() {
        *cell += 1;
    }
    let mut iter = grid.col_iter((0, 1));
    assert_eq!(iter.next(), Some(&2));
    assert_eq!(iter.next(), Some(&5));
    assert_eq!(iter.next(), Some(&8));
    assert_eq!(iter.next(), Some(&11));
    assert_eq!(iter.next(), Some(&14));
    assert_eq!(iter.next(), None);
}

#[test]
fn test_all_around() {
    let vec = vec![
        vec![0, 1, 2, 3],
        vec![4, 5, 6, 7],
        vec![8, 9, 10, 11],
        vec![12, 13, 14, 15],
        vec![16, 17, 18, 19],
    ];

    // A centred grid needs odd extents: four columns are refused.
    let gridoptions = GridOptions {
        origin: Origin::Center,
        inverted_y: false,
        ..GridOptions::default()
    };
    let refused = Grid::new(vec.clone(), Some(gridoptions));
    assert!(matches!(refused, Err(GridError::InvalidSize)));

    // The same cell (the one holding 4) addressed from the upper-left corner.
    let gridoptions = GridOptions {
        origin: Origin::UpperLeft,
        inverted_y: true,
        neighbor_ybased: false,
        ..GridOptions::default()
    };
    let grid = Grid::new(vec, Some(gridoptions)).expect("failed to import 2d vec");
    let neighbors = grid
        .all_around_neighbors((0, 1))
        .expect("was not a valid coodinate"); // Neighbors of the item with 4 in it.
    assert_eq!(neighbors.upleft, None);
    assert_eq!(neighbors.up, Some(&0));
    assert_eq!(neighbors.upright, Some(&1));
    assert_eq!(neighbors.left, None);
    assert_eq!(neighbors.right, Some(&5));
    assert_eq!(neighbors.downleft, None);
    assert_eq!(neighbors.down, Some(&8));
    assert_eq!(neighbors.downright, Some(&9));
}

#[test]
fn all_around_with_wrap() {
    let vec = vec![
        vec![0, 1, 2, 3],
        vec![4, 5, 6, 7],
        vec![8, 9, 10, 11],
        vec![12, 13, 14, 15],
        vec![16, 17, 18, 19],
    ];
    let gridoptions = GridOptions {
        origin: Origin::UpperLeft,
        inverted_y: true,
        neighbor_ybased: false,
        wrap_x: true,
        wrap_y: true,
    };
    let grid = Grid::new(vec, Some(gridoptions)).unwrap();
    let neighbors = grid.all_around_neighbors((0, 1)).unwrap();
    assert_eq!(neighbors.upleft, Some(&3));
    assert_eq!(neighbors.up, Some(&0));
    assert_eq!(neighbors.upright, Some(&1));
    assert_eq!(neighbors.left, Some(&7));
    assert_eq!(neighbors.right, Some(&5));
    assert_eq!(neighbors.downleft, Some(&11));
    assert_eq!(neighbors.down, Some(&8));
    assert_eq!(neighbors.downright, Some(&9));
    assert!(matches!(grid.all_around_neighbors((9, 9)), Err(GridError::IndexOutOfBounds)));
}

#[test]
fn xy_neighbors_on_center_grid() {
    let grid = center_grid();
    let neighbors = grid.xy_neighbors((-1, -2)).unwrap();
    assert_eq!(neighbors.up, Some(&9));
    assert_eq!(neighbors.down, None);
    assert_eq!(neighbors.left, None);
    assert_eq!(neighbors.right, Some(&13));

    let gridoptions = GridOptions {
        origin: Origin::Center,
        inverted_y: false,
        wrap_x: true,
        wrap_y: true,
        ..GridOptions::default()
    };
    let grid = Grid::new(rows_0_to_14(), Some(gridoptions)).unwrap();
    let neighbors = grid.xy_neighbors((-1, -2)).unwrap();
    assert_eq!(neighbors.up, Some(&9));
    assert_eq!(neighbors.down, Some(&0));
    assert_eq!(neighbors.left, Some(&14));
    assert_eq!(neighbors.right, Some(&13));
    assert!(matches!(grid.xy_neighbors((5, 5)), Err(GridError::IndexOutOfBounds)));
}

#[test]
fn up_follows_logical_y_when_inverted() {
    let options = GridOptions {
        origin: Origin::LowerLeft,
        inverted_y: true,
        neighbor_ybased: true,
        ..GridOptions::default()
    };
    let grid = Grid::new(rows_0_to_14(), Some(options)).unwrap();
    assert_eq!(grid.get_up((2, -1)), Some(&14));
    assert_eq!(grid.get((2, -4)), Some(&2));
    assert_eq!(grid.get_up((2, -4)), Some(&5));

    let options = GridOptions {
        neighbor_ybased: false,
        ..options
    };
    let grid = Grid::new(rows_0_to_14(), Some(options)).unwrap();
    assert_eq!(grid.get_up((2, -1)), Some(&8));
    assert_eq!(grid.get_up((2, -4)), None);
}

#[test]
fn diagonal_getters() {
    let grid = Grid::new(rows_0_to_14(), None).unwrap();
    let options = GridOptions {
        neighbor_ybased: false,
        ..GridOptions::default()
    };
    let raw = Grid::new(rows_0_to_14(), Some(options)).unwrap();
    // Default options: "up" is toward greater y, the next storage row.
    assert_eq!(grid.get_upleft((1, 2)), Some(&9));
    assert_eq!(grid.get_upright((1, 2)), Some(&11));
    assert_eq!(grid.get_downleft((1, 2)), Some(&3));
    assert_eq!(grid.get_downright((1, 2)), Some(&5));
    assert_eq!(raw.get_upleft((1, 2)), Some(&3));
    assert_eq!(raw.get_downright((1, 2)), Some(&11));
    assert_eq!(raw.get_upleft((0, 0)), None);
    assert_eq!(raw.get_downright((2, 4)), None);
}

#[test]
fn mutable_neighbor_getters() {
    let options = GridOptions {
        neighbor_ybased: false,
        ..GridOptions::default()
    };
    let mut grid = Grid::new(rows_0_to_14(), Some(options)).unwrap();
    *grid.get_up_mut((1, 1)).unwrap() += 100;
    *grid.get_down_mut((1, 1)).unwrap() += 100;
    *grid.get_left_mut((1, 1)).unwrap() += 100;
    *grid.get_right_mut((1, 1)).unwrap() += 100;
    *grid.get_upleft_mut((1, 1)).unwrap() += 100;
    *grid.get_upright_mut((1, 1)).unwrap() += 100;
    *grid.get_downleft_mut((1, 1)).unwrap() += 100;
    *grid.get_downright_mut((1, 1)).unwrap() += 100;
    assert!(grid.get_up_mut((0, 0)).is_none());
    assert!(grid.get_downright_mut((2, 4)).is_none());
    let mut all = grid.iter();
    let mut seen = vec![];
    while let Some(v) = all.next() {
        seen.push(*v);
    }
    assert_eq!(seen, vec![100, 101, 102, 103, 4, 105, 106, 107, 108, 9, 10, 11, 12, 13, 14]);
}

#[test]
fn swap_cells() {
    let mut grid = Grid::new(rows_0_to_14(), None).unwrap();
    assert!(grid.swap((0, 0), (2, 4)).is_ok());
    assert_eq!(grid.get(0), Some(&14));
    assert_eq!(grid.get(14), Some(&0));
    assert!(matches!(grid.swap((0, 0), (3, 0)), Err(GridError::IndexOutOfBounds)));
    assert_eq!(grid.get(0), Some(&14));
}

#[test]
fn coordinate_ranges() {
    let grid = center_grid();
    assert_eq!((grid.min_x(), grid.max_x()), (-1, 1));
    assert_eq!((grid.min_y(), grid.max_y()), (-2, 2));

    let grid = Grid::new(rows_0_to_14(), None).unwrap();
    assert_eq!((grid.min_x(), grid.max_x()), (0, 2));
    assert_eq!((grid.min_y(), grid.max_y()), (0, 4));
    assert!(grid.get((grid.max_x(), grid.max_y())).is_some());
    assert!(grid.get((grid.max_x() + 1, grid.max_y())).is_none());

    let options = GridOptions {
        origin: Origin::LowerRight,
        inverted_y: false,
        ..GridOptions::default()
    };
    let grid = Grid::new(rows_0_to_14(), Some(options)).unwrap();
    assert_eq!((grid.min_x(), grid.max_x()), (-2, 0));
    assert_eq!((grid.min_y(), grid.max_y()), (0, 4));
    assert_eq!(grid.get((grid.min_x(), grid.max_y())), Some(&0));
}

#[test]
fn nrant_errors() {
    let grid = Grid::new(rows_0_to_14(), None).unwrap();
    assert!(matches!(grid.nrant((0, 0), 0), Err(GridError::InvalidDivisionSize)));
    assert!(matches!(grid.nrant((0, 0), 6), Err(GridError::InvalidDivisionSize)));
    assert!(matches!(grid.nrant((0, 9), 2), Err(GridError::IndexOutOfBounds)));
    assert_eq!(grid.nrant((0, 4), 5).unwrap(), 20);
    assert_eq!(grid.quadrant((2, 4)).unwrap(), 3);
}

#[test]
fn ragged_region_start_uses_region_height() {
    // Five rows in two row blocks of three: the second block starts on row three.
    let grid = Grid::new(rows_0_to_14(), None).unwrap();
    assert_eq!(grid.nrant(9, 2).unwrap(), 2);
    assert_eq!(grid.nrant_start(9, 2), 9);
    assert_eq!(grid.nrant_start(14, 2), 11);
}
