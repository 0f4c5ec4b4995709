use neighborgrid::{adjust_from_origin, xy_to_index, Coordinates, Grid, GridError, GridOptions, Index, Origin};

type Result<T> = std::result::Result<T, GridError>;

fn plain_options(origin: Origin) -> GridOptions {
    GridOptions {
        origin,
        inverted_y: false,
        ..GridOptions::default()
    }
}

fn inverted_options(origin: Origin) -> GridOptions {
    GridOptions {
        origin,
        inverted_y: true,
        ..GridOptions::default()
    }
}

fn basic_items() -> Vec<i32> {
    vec![0, 1, 2, 3, 4, 5, 6, 7, 8, 9, 10, 11]
}

fn basic_grid() -> Grid<i32> {
    Grid::new_from_1d(basic_items(), 3, 4, Some(plain_options(Origin::UpperLeft))).unwrap()
}

fn center_items() -> Vec<i32> {
    let mut items = basic_items();
    items.append(&mut vec![12, 13, 14]);
    items
}

fn center_origin() -> Grid<i32> {
    Grid::new_from_1d(center_items(), 3, 5, Some(plain_options(Origin::Center))).unwrap()
}

fn origin_grid(origin: Origin) -> Grid<i32> {
    Grid::new_from_1d(basic_items(), 3, 4, Some(plain_options(origin))).unwrap()
}

fn inverted_grid(origin: Origin) -> Grid<i32> {
    if origin == Origin::Center {
        Grid::new_from_1d(center_items(), 3, 5, Some(inverted_options(origin))).unwrap()
    } else {
        Grid::new_from_1d(basic_items(), 3, 4, Some(inverted_options(origin))).unwrap()
    }
}

fn cell(grid: &Grid<i32>, index: usize) -> i32 {
    *grid.get(index).unwrap()
}

#[test]
fn default_origin() {
    let grid = basic_grid();
    assert_eq!(grid.origin(), Origin::UpperLeft);
}

#[test]
fn center_origin_xy() {
    let grid = center_origin();
    let (x, y) = adjust_from_origin(&grid, 0, 0);
    assert_eq!(x, 1);
    assert_eq!(y, 2);

    let (x, y) = adjust_from_origin(&grid, -1, 2);
    assert_eq!(x, 0);
    assert_eq!(y, 0);

    let (x, y) = adjust_from_origin(&grid, 1, -2);
    assert_eq!(x, 2);
    assert_eq!(y, 4);
}

#[test]
fn upperleft_xy() {
    let grid = origin_grid(Origin::UpperLeft);
    let (x, y) = adjust_from_origin(&grid, 0, 0);
    assert_eq!(x, 0);
    assert_eq!(y, 0);

    let (x, y) = adjust_from_origin(&grid, 1, -2);
    assert_eq!(x, 1);
    assert_eq!(y, 2);
}

#[test]
fn upperright_xy() {
    let grid = origin_grid(Origin::UpperRight);
    let (x, y) = adjust_from_origin(&grid, 0, 0);
    assert_eq!(x, 2);
    assert_eq!(y, 0);

    let (x, y) = adjust_from_origin(&grid, -1, -2);
    assert_eq!(x, 1);
    assert_eq!(y, 2);
}

#[test]
fn lowerleft_xy() {
    let grid = origin_grid(Origin::LowerLeft);
    let (x, y) = adjust_from_origin(&grid, 0, 0);
    assert_eq!(x, 0);
    assert_eq!(y, 3);

    let (x, y) = adjust_from_origin(&grid, 1, 2);
    assert_eq!(x, 1);
    assert_eq!(y, 1);
}

#[test]
fn lowerright_xy() {
    let grid = origin_grid(Origin::LowerRight);
    let (x, y) = adjust_from_origin(&grid, 0, 0);
    assert_eq!(x, 2);
    assert_eq!(y, 3);

    let (x, y) = adjust_from_origin(&grid, -1, 2);
    assert_eq!(x, 1);
    assert_eq!(y, 1);
}

#[test]
fn xy_to_index_test() {
    let grid = basic_grid();
    let index = xy_to_index(&grid, 1, -2);
    assert_eq!(index, 7);

    let index = xy_to_index(&grid, 3, -2);
    assert_eq!(index, 9);
}

#[test]
fn xy_to_index_center() {
    let grid = center_origin();
    let index = xy_to_index(&grid, 1, 2);
    assert_eq!(index, 2);

    let index = xy_to_index(&grid, -1, -2);
    assert_eq!(index, 12);
}

#[test]
fn should_err_on_outofbounds() {
    let grid = center_origin();
    let index = (2, 0).grid_index(&grid);
    assert!(matches!(index, Err(GridError::IndexOutOfBounds)));

    let index = Coordinates { x: -3, y: 0 }.grid_index(&grid);
    assert!(matches!(index, Err(GridError::IndexOutOfBounds)));

    let index = (1, 0).grid_index(&grid);
    assert!(matches!(index, Ok(x) if x == 8));
}

fn check(grid: &Grid<i32>, xy: (isize, isize), expected: i32) -> Result<()> {
    let index = xy.grid_index(grid)?;
    assert_eq!(cell(grid, index), expected);
    let output: (isize, isize) = Index::output(index, grid);
    assert_eq!(output, xy);
    Ok(())
}

#[test]
fn should_convert_index_upperleft() -> Result<()> {
    let grid = origin_grid(Origin::UpperLeft);
    check(&grid, (0, 0), 0)?;
    check(&grid, (1, 0), 1)?;
    check(&grid, (0, -1), 3)?;
    check(&grid, (2, -3), 11)?;

    let grid = inverted_grid(Origin::UpperLeft);
    check(&grid, (0, 0), 0)?;
    check(&grid, (1, 0), 1)?;
    check(&grid, (0, 1), 3)?;
    check(&grid, (2, 3), 11)?;
    Ok(())
}

#[test]
fn should_convert_index_upperright() -> Result<()> {
    let grid = origin_grid(Origin::UpperRight);
    check(&grid, (0, 0), 2)?;
    check(&grid, (-1, 0), 1)?;
    check(&grid, (0, -1), 5)?;
    check(&grid, (-2, -3), 9)?;

    let grid = inverted_grid(Origin::UpperRight);
    check(&grid, (0, 0), 2)?;
    check(&grid, (-1, 0), 1)?;
    check(&grid, (0, 1), 5)?;
    check(&grid, (-2, 3), 9)?;
    Ok(())
}

#[test]
fn should_convert_index_lowerleft() -> Result<()> {
    let grid = origin_grid(Origin::LowerLeft);
    check(&grid, (0, 0), 9)?;
    check(&grid, (1, 0), 10)?;
    check(&grid, (0, 1), 6)?;
    check(&grid, (2, 3), 2)?;

    let grid = inverted_grid(Origin::LowerLeft);
    check(&grid, (0, 0), 9)?;
    check(&grid, (1, 0), 10)?;
    check(&grid, (0, -1), 6)?;
    check(&grid, (2, -3), 2)?;
    Ok(())
}

#[test]
fn should_convert_index_lowerright() -> Result<()> {
    let grid = origin_grid(Origin::LowerRight);
    check(&grid, (0, 0), 11)?;
    check(&grid, (-1, 0), 10)?;
    check(&grid, (0, 1), 8)?;
    check(&grid, (-2, 3), 0)?;

    let grid = inverted_grid(Origin::LowerRight);
    check(&grid, (0, 0), 11)?;
    check(&grid, (-1, 0), 10)?;
    check(&grid, (0, -1), 8)?;
    check(&grid, (-2, -3), 0)?;
    Ok(())
}

#[test]
fn should_convert_index_center() -> Result<()> {
    let grid = center_origin();
    check(&grid, (0, 0), 7)?;
    check(&grid, (-1, 0), 6)?;
    check(&grid, (0, 1), 4)?;
    check(&grid, (-1, 2), 0)?;

    let grid = inverted_grid(Origin::Center);
    check(&grid, (0, 0), 7)?;
    check(&grid, (-1, 0), 6)?;
    check(&grid, (0, -1), 4)?;
    check(&grid, (-1, -2), 0)?;
    Ok(())
}

#[test]
fn coodinate_index() -> Result<()> {
    let grid = center_origin();
    let index = (0, 0).grid_index(&grid)?;
    let cord_index = Coordinates { x: 0, y: 0 }.grid_index(&grid)?;
    assert_eq!(index, cord_index);

    let index = (-1, 2).grid_index(&grid)?;
    let cord_index = Coordinates { x: -1, y: 2 }.grid_index(&grid)?;
    assert_eq!(index, cord_index);

    let cord_index = Coordinates { x: -2, y: 2 }.grid_index(&grid);
    assert!(matches!(cord_index, Err(GridError::IndexOutOfBounds)));
    Ok(())
}

#[test]
fn usize_index() -> Result<()> {
    let grid = basic_grid();
    let index = 5usize.grid_index(&grid)?;
    assert_eq!(index, 5);

    let index = 11usize.grid_index(&grid)?;
    assert_eq!(index, 11);

    let cord_index = 12usize.grid_index(&grid);
    assert!(matches!(cord_index, Err(GridError::IndexOutOfBounds)));
    Ok(())
}

#[test]
fn coordinates_output_matches_pair() {
    let grid = inverted_grid(Origin::LowerRight);
    for index in 0..grid.size() {
        let pair: (isize, isize) = Index::output(index, &grid);
        let named: Coordinates = Index::output(index, &grid);
        assert_eq!((named.x, named.y), pair);
        assert_eq!(named.grid_index(&grid).unwrap(), index);
    }
}
