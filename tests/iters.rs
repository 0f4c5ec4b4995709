use neighborgrid::xyneightbor::AllAroundNeighbor;
use neighborgrid::{ColIter, Grid, GridOptions, MutColIter, MutRowIter, NrantIterator, Origin, RowIter, XyNeighbor};

fn center_grid() -> Grid<i32> {
    let vec = vec![
        vec![0, 1, 2],
        vec![3, 4, 5],
        vec![6, 7, 8],
        vec![9, 10, 11],
        vec![12, 13, 14],
    ];
    let gridoptions = GridOptions {
        origin: Origin::Center,
        ..GridOptions::default()
    };
    let grid = Grid::new(vec, Some(gridoptions));
    grid.unwrap()
}

#[test]
fn should_iter_over_row() {
    let grid = center_grid();
    let mut iter = RowIter::new(&grid, 3);
    assert_eq!(iter.next(), Some(&3));
    assert_eq!(iter.next(), Some(&4));
    assert_eq!(iter.next(), Some(&5));
    assert_eq!(iter.next(), None);

    let mut iter = RowIter::new(&grid, 4);
    assert_eq!(iter.next(), Some(&3));
    assert_eq!(iter.next(), Some(&4));
    assert_eq!(iter.next(), Some(&5));
    assert_eq!(iter.next(), None);

    let mut iter = RowIter::new(&grid, 5);
    assert_eq!(iter.next(), Some(&3));
    assert_eq!(iter.next(), Some(&4));
    assert_eq!(iter.next(), Some(&5));
    assert_eq!(iter.next(), None);

    let mut iter = RowIter::new(&grid, 12);
    assert_eq!(iter.next(), Some(&12));
    assert_eq!(iter.next(), Some(&13));
    assert_eq!(iter.next(), Some(&14));
    assert_eq!(iter.next(), None);
}

#[test]
fn should_mut_iter_over_row() {
    let mut grid = center_grid();
    let mut iter = MutRowIter::new(&mut grid, 3);
    assert_eq!(iter.next(), Some(&mut 3));
    assert_eq!(iter.next(), Some(&mut 4));
    assert_eq!(iter.next(), Some(&mut 5));
    assert_eq!(iter.next(), None);

    let mut iter = MutRowIter::new(&mut grid, 3);
    while let Some(value) = iter.next() {
        *value += 1;
    }
    let mut iter = MutRowIter::new(&mut grid, 3);
    assert_eq!(iter.next(), Some(&mut 4));
    assert_eq!(iter.next(), Some(&mut 5));
    assert_eq!(iter.next(), Some(&mut 6));
    assert_eq!(iter.next(), None);
}

#[test]
fn should_iter_over_col() {
    let grid = center_grid();
    let mut iter = ColIter::new(&grid, 3);
    assert_eq!(iter.next(), Some(&0));
    assert_eq!(iter.next(), Some(&3));
    assert_eq!(iter.next(), Some(&6));
    assert_eq!(iter.next(), Some(&9));
    assert_eq!(iter.next(), Some(&12));
    assert_eq!(iter.next(), None);

    let mut iter = ColIter::new(&grid, 1);
    assert_eq!(iter.next(), Some(&1));
    assert_eq!(iter.next(), Some(&4));
    assert_eq!(iter.next(), Some(&7));
    assert_eq!(iter.next(), Some(&10));
    assert_eq!(iter.next(), Some(&13));
    assert_eq!(iter.next(), None);

    let mut iter = ColIter::new(&grid, 2);
    assert_eq!(iter.next(), Some(&2));
    assert_eq!(iter.next(), Some(&5));
    assert_eq!(iter.next(), Some(&8));
    assert_eq!(iter.next(), Some(&11));
    assert_eq!(iter.next(), Some(&14));
    assert_eq!(iter.next(), None);
}

#[test]
fn should_mut_iter_over_col() {
    let mut grid = center_grid();
    let mut iter = MutColIter::new(&mut grid, 3);
    assert_eq!(iter.next(), Some(&mut 0));
    assert_eq!(iter.next(), Some(&mut 3));
    assert_eq!(iter.next(), Some(&mut 6));
    assert_eq!(iter.next(), Some(&mut 9));
    assert_eq!(iter.next(), Some(&mut 12));
    assert_eq!(iter.next(), None);

    let mut iter = MutColIter::new(&mut grid, 3);
    while let Some(value) = iter.next() {
        *value += 1;
    }
    let mut iter = MutColIter::new(&mut grid, 3);
    assert_eq!(iter.next(), Some(&mut 1));
    assert_eq!(iter.next(), Some(&mut 4));
    assert_eq!(iter.next(), Some(&mut 7));
    assert_eq!(iter.next(), Some(&mut 10));
    assert_eq!(iter.next(), Some(&mut 13));
    assert_eq!(iter.next(), None);
}

#[test]
fn should_iterate_over_quad() {
    let vec = vec![vec![0, 1, 2], vec![3, 4, 5]];

    let grid = Grid::new(vec, None).unwrap();

    let mut iter = NrantIterator::new(&grid, 2, 0);
    assert_eq!(iter.next(), Some(Some(&0)));
    assert_eq!(iter.next(), Some(Some(&1)));
    assert_eq!(iter.next(), None);

    let mut iter = NrantIterator::new(&grid, 2, 1);
    assert_eq!(iter.next(), Some(Some(&0)));
    assert_eq!(iter.next(), Some(Some(&1)));
    assert_eq!(iter.next(), None);

    let mut iter = NrantIterator::new(&grid, 2, 2);
    assert_eq!(iter.next(), Some(Some(&2)));
    assert_eq!(iter.next(), Some(None));
    assert_eq!(iter.next(), None);
}

fn one_to_81() -> Grid<i32> {
    let mut vec = vec![];
    for i in 1..=81 {
        vec.push(i);
    }
    Grid::new_from_1d(vec, 9, 9, None).unwrap()
}

#[test]
fn ssudoku_test() {
    let grid = one_to_81();

    let mut iter = NrantIterator::new(&grid, 3, 10);
    assert_eq!(iter.next(), Some(Some(&1)));
    assert_eq!(iter.next(), Some(Some(&2)));
    assert_eq!(iter.next(), Some(Some(&3)));
    assert_eq!(iter.next(), Some(Some(&10)));
    assert_eq!(iter.next(), Some(Some(&11)));
    assert_eq!(iter.next(), Some(Some(&12)));
    assert_eq!(iter.next(), Some(Some(&19)));
    assert_eq!(iter.next(), Some(Some(&20)));
    assert_eq!(iter.next(), Some(Some(&21)));
    assert_eq!(iter.next(), None);

    let mut iter = NrantIterator::new(&grid, 3, 80);
    assert_eq!(iter.next(), Some(Some(&61)));
    assert_eq!(iter.next(), Some(Some(&62)));
    assert_eq!(iter.next(), Some(Some(&63)));
    assert_eq!(iter.next(), Some(Some(&70)));
    assert_eq!(iter.next(), Some(Some(&71)));
    assert_eq!(iter.next(), Some(Some(&72)));
    assert_eq!(iter.next(), Some(Some(&79)));
    assert_eq!(iter.next(), Some(Some(&80)));
    assert_eq!(iter.next(), Some(Some(&81)));
    assert_eq!(iter.next(), None);
}

#[test]
fn test_noop() {
    let grid = one_to_81();
    let mut iter = grid.quadrant_iter((10, 10));
    assert_eq!(iter.next(), None);
}

#[test]
fn nrant_iter_through_grid() {
    let grid = one_to_81();
    let mut iter = grid.nrant_iter(3, (1, 1));
    let mut seen = vec![];
    while let Some(slot) = iter.next() {
        seen.push(*slot.unwrap());
    }
    assert_eq!(seen, vec![1, 2, 3, 10, 11, 12, 19, 20, 21]);
    let mut iter = grid.nrant_iter(0, (1, 1));
    assert_eq!(iter.next(), None);
    let mut iter = grid.nrant_iter(10, (1, 1));
    assert_eq!(iter.next(), None);
}

#[test]
fn ragged_bottom_rows_yield_empty_slots() {
    // Five rows cut in two: row blocks of three, so the lower window overruns by one row.
    let grid = Grid::new_from_1d((0..15).collect(), 3, 5, None).unwrap();
    let mut iter = grid.nrant_iter(2, 14usize);
    let mut seen = vec![];
    while let Some(slot) = iter.next() {
        seen.push(slot.copied());
    }
    assert_eq!(seen, vec![Some(11), None, Some(14), None, None, None]);
}

#[test]
fn xyneightbor_test() {
    let neigh = XyNeighbor {
        up: Some(&1),
        left: None,
        right: Some(&3),
        down: Some(&4),
    };

    let mut iter = neigh.iter();
    assert_eq!(iter.next(), Some(&Some(&1)));
    assert_eq!(iter.next(), Some(&None));
    assert_eq!(iter.next(), Some(&Some(&3)));
    assert_eq!(iter.next(), Some(&Some(&4)));
    assert_eq!(iter.next(), None);
}

#[test]
fn all_around_neightbor_test() {
    let neigh = AllAroundNeighbor {
        upleft: Some(&1),
        up: Some(&2),
        upright: None,
        left: Some(&3),
        right: Some(&4),
        downleft: None,
        down: Some(&5),
        downright: Some(&6),
    };

    let mut iter = neigh.iter();
    assert_eq!(iter.next(), Some(&Some(&1)));
    assert_eq!(iter.next(), Some(&Some(&2)));
    assert_eq!(iter.next(), Some(&None));
    assert_eq!(iter.next(), Some(&Some(&3)));
    assert_eq!(iter.next(), Some(&Some(&4)));
    assert_eq!(iter.next(), Some(&None));
    assert_eq!(iter.next(), Some(&Some(&5)));
    assert_eq!(iter.next(), Some(&Some(&6)));
    assert_eq!(iter.next(), None);
}

#[test]
fn whole_grid_mutable_walk() {
    let mut grid = center_grid();
    let mut cells = grid.iter_mut();
    while let Some(v) = cells.next() {
        *v *= 2;
    }
    assert_eq!(grid.get(14), Some(&28));
    assert_eq!(grid.get(0), Some(&0));
    assert_eq!(grid.get((0, 0)), Some(&14));
}
