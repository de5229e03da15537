use rpeg::array2::Array2;
use rpeg::sudoku::Array2 as Grid;

#[test]
fn new_fills_every_cell() {
    let a: Array2<i32> = Array2::new(3, 2, 7);
    assert_eq!(a.width(), 3);
    assert_eq!(a.height(), 2);
    for (_, _, v) in a.iter_row_major() {
        assert_eq!(v, 7);
    }
}

#[test]
fn from_row_major_checks_length() {
    let ok = Array2::from_row_major(2, 2, vec![1, 2, 3, 4]);
    assert!(ok.is_ok());
    let bad = Array2::from_row_major(2, 2, vec![1, 2, 3]);
    assert!(bad.is_err());
}

#[test]
fn from_col_major_transposes() {
    // Column-major [1, 2, 3, 4, 5, 6] for a 3x2 grid: columns are
    // [1, 2], [3, 4], [5, 6].
    let a = Array2::from_col_major(3, 2, vec![1, 2, 3, 4, 5, 6]).unwrap();
    assert_eq!(*a.get(0, 0).unwrap(), 1);
    assert_eq!(*a.get(0, 1).unwrap(), 2);
    assert_eq!(*a.get(1, 0).unwrap(), 3);
    assert_eq!(*a.get(2, 1).unwrap(), 6);
}

#[test]
fn get_is_bounds_checked() {
    let a = Array2::from_row_major(2, 2, vec![10, 11, 12, 13]).unwrap();
    assert_eq!(a.get(1, 1), Some(&13));
    assert_eq!(a.get(2, 0), None);
    assert_eq!(a.get(0, 2), None);
}

#[test]
fn get_mut_writes_one_cell() {
    let mut a = Array2::from_row_major(2, 2, vec![10, 11, 12, 13]).unwrap();
    *a.get_mut(0, 1) = 99;
    assert_eq!(*a.get(0, 1).unwrap(), 99);
    assert_eq!(*a.get(0, 0).unwrap(), 10);
    assert_eq!(*a.get(1, 1).unwrap(), 13);
}

#[test]
fn iter_orders_agree_with_layout() {
    let a = Array2::from_row_major(2, 2, vec![1, 2, 3, 4]).unwrap();
    let row_major: Vec<(usize, usize, i32)> = a.iter_row_major();
    assert_eq!(row_major, vec![(0, 0, 1), (1, 0, 2), (0, 1, 3), (1, 1, 4)]);
    let col_major: Vec<(usize, usize, i32)> = a.iter_col_major();
    assert_eq!(col_major, vec![(0, 0, 1), (0, 1, 3), (1, 0, 2), (1, 1, 4)]);
}

#[test]
fn rotate90_turns_clockwise() {
    // 2x1 grid [1, 2] becomes a 1x2 grid with 2 above 1... precisely:
    // the cell at (c, r) moves to column height-1-r, row c.
    let a = Array2::from_row_major(2, 1, vec![1, 2]).unwrap();
    let b = a.rotate90();
    assert_eq!(b.width(), 1);
    assert_eq!(b.height(), 2);
    assert_eq!(*b.get(0, 0).unwrap(), 1);
    assert_eq!(*b.get(0, 1).unwrap(), 2);
    let sq = Array2::from_row_major(2, 2, vec![1, 2, 3, 4]).unwrap();
    let r = sq.rotate90();
    assert_eq!(r.iter_row_major(), vec![(0, 0, 3), (1, 0, 1), (0, 1, 4), (1, 1, 2)]);
}

#[test]
fn rotate180_reverses() {
    let a = Array2::from_row_major(3, 2, vec![1, 2, 3, 4, 5, 6]).unwrap();
    let b = a.rotate180();
    assert_eq!(b.width(), 3);
    assert_eq!(b.height(), 2);
    let items: Vec<i32> = b.iter_row_major().into_iter().map(|t| t.2).collect();
    assert_eq!(items, vec![6, 5, 4, 3, 2, 1]);
}

#[test]
fn grid_constructors_and_getters() {
    let g: Grid<i32> = Grid::new(vec![1, 2, 3, 4, 5, 6], 2, 3);
    assert_eq!(*g.width(), 3);
    assert_eq!(*g.height(), 2);
    assert_eq!(g.elements(), &vec![1, 2, 3, 4, 5, 6]);
    let rm = Grid::from_row_major(vec![1, 2, 3, 4], 2, 2);
    assert_eq!(rm.iter_row_major(), vec![1, 2, 3, 4]);
    let cm = Grid::from_col_major(vec![1, 2, 3, 4, 5, 6], 3, 2);
    assert_eq!(cm.iter_row_major(), vec![1, 3, 5, 2, 4, 6]);
    assert_eq!(cm.iter_col_major(), vec![1, 2, 3, 4, 5, 6]);
}

#[test]
fn find_element_reports_first_position() {
    let g: Grid<i32> = Grid::new(vec![4, 9, 9, 7], 2, 2);
    assert_eq!(g.find_element(&9), Some((0, 1)));
    assert_eq!(g.find_element(&7), Some((1, 1)));
    assert_eq!(g.find_element(&5), None);
}

fn solved_grid() -> Grid<i32> {
    let cells: Vec<i32> = vec![
        5, 3, 4, 6, 7, 8, 9, 1, 2,
        6, 7, 2, 1, 9, 5, 3, 4, 8,
        1, 9, 8, 3, 4, 2, 5, 6, 7,
        8, 5, 9, 7, 6, 1, 4, 2, 3,
        4, 2, 6, 8, 5, 3, 7, 9, 1,
        7, 1, 3, 9, 2, 4, 8, 5, 6,
        9, 6, 1, 5, 3, 7, 2, 8, 4,
        2, 8, 7, 4, 1, 9, 6, 3, 5,
        3, 4, 5, 2, 8, 6, 1, 7, 9,
    ];
    Grid::new(cells, 9, 9)
}

#[test]
fn solved_sudoku_is_valid() {
    let g = solved_grid();
    let conv = |x: &i32| Some(*x as usize);
    assert!(g.valid_row(0, conv));
    assert!(g.valid_col(0, conv));
    assert!(g.valid_subgrid(0, 0, conv));
    assert!(g.valid_sudoku(conv));
}

#[test]
fn duplicate_digit_fails_its_groups() {
    let mut cells: Vec<i32> = vec![
        5, 3, 4, 6, 7, 8, 9, 1, 2,
        6, 7, 2, 1, 9, 5, 3, 4, 8,
        1, 9, 8, 3, 4, 2, 5, 6, 7,
        8, 5, 9, 7, 6, 1, 4, 2, 3,
        4, 2, 6, 8, 5, 3, 7, 9, 1,
        7, 1, 3, 9, 2, 4, 8, 5, 6,
        9, 6, 1, 5, 3, 7, 2, 8, 4,
        2, 8, 7, 4, 1, 9, 6, 3, 5,
        3, 4, 5, 2, 8, 6, 1, 7, 9,
    ];
    // Make the first row hold two fives.
    cells[1] = 5;
    let g = Grid::new(cells, 9, 9);
    let conv = |x: &i32| Some(*x as usize);
    assert!(!g.valid_row(0, conv));
    assert!(!g.valid_sudoku(conv));
}

#[test]
fn out_of_range_cells_are_invalid() {
    let mut cells: Vec<i32> = vec![1; 81];
    cells[0] = 0;
    let g = Grid::new(cells, 9, 9);
    let conv = |x: &i32| Some(*x as usize);
    assert!(!g.valid_row(0, conv));
    // A conversion returning None also makes the group invalid.
    let g2: Grid<i32> = Grid::new(vec![1, 2, 3, 4, 5, 6, 7, 8, 9], 1, 9);
    assert!(g2.valid_row(0, |x: &i32| Some(*x as usize)));
    assert!(!g2.valid_row(0, |_x: &i32| None));
}
