use const_alg::iter::{Col, ColMut, IntoLine, Row, RowMut};
use const_alg::matrix::Matrix;

fn owned_rev<const N: usize>(mut line: IntoLine<i32, N>) -> Vec<i32> {
    let mut out = Vec::new();
    while let Some(x) = line.next_back() {
        out.push(x);
    }
    out
}

fn row_rev<'a, const N: usize, const M: usize>(mut line: Row<'a, i32, N, M>) -> Vec<&'a i32> {
    let mut out = Vec::new();
    while let Some(x) = line.next_back() {
        out.push(x);
    }
    out
}

fn col_rev<'a, const N: usize, const M: usize>(mut line: Col<'a, i32, N, M>) -> Vec<&'a i32> {
    let mut out = Vec::new();
    while let Some(x) = line.next_back() {
        out.push(x);
    }
    out
}

fn row_mut_all<const N: usize, const M: usize>(mut line: RowMut<'_, i32, N, M>) -> Vec<i32> {
    let mut out = Vec::new();
    while let Some(x) = line.next() {
        out.push(*x);
    }
    out
}

fn row_mut_rev<const N: usize, const M: usize>(mut line: RowMut<'_, i32, N, M>) -> Vec<i32> {
    let mut out = Vec::new();
    while let Some(x) = line.next_back() {
        out.push(*x);
    }
    out
}

fn col_mut_all<const N: usize, const M: usize>(mut line: ColMut<'_, i32, N, M>) -> Vec<i32> {
    let mut out = Vec::new();
    while let Some(x) = line.next() {
        out.push(*x);
    }
    out
}

fn col_mut_rev<const N: usize, const M: usize>(mut line: ColMut<'_, i32, N, M>) -> Vec<i32> {
    let mut out = Vec::new();
    while let Some(x) = line.next_back() {
        out.push(*x);
    }
    out
}

#[test]
fn test_iter() {
    let mut m = Matrix([[1, 2, 3], [3, 4, 5], [5, 6, 7]]);

    let mut iter = m.into_rows();

    assert_eq!(iter.nth(0).unwrap().collect(), [1, 2, 3]);

    assert_eq!(iter.nth(1).unwrap().collect(), [5, 6, 7]);

    assert!(iter.next().is_none());

    let mut iter = m.into_cols();

    assert_eq!(iter.nth(0).unwrap().collect(), [1, 3, 5]);

    assert_eq!(iter.nth(1).unwrap().collect(), [3, 5, 7]);

    assert!(iter.next().is_none());

    let mut iter = m.rows_mut();

    assert_eq!(row_mut_all(iter.nth(0).unwrap()), [1, 2, 3]);

    assert_eq!(row_mut_all(iter.nth(1).unwrap()), [5, 6, 7]);

    assert!(iter.next().is_none());

    let mut iter = m.cols_mut();

    assert_eq!(col_mut_all(iter.nth(0).unwrap()), [1, 3, 5]);

    assert_eq!(col_mut_all(iter.nth(1).unwrap()), [3, 5, 7]);

    assert!(iter.next().is_none());

    let mut iter = m.rows();

    assert_eq!(iter.nth(0).unwrap().collect(), [&1, &2, &3]);

    assert_eq!(iter.nth(1).unwrap().collect(), [&5, &6, &7]);

    assert!(iter.next().is_none());

    let mut iter = m.cols();

    assert_eq!(iter.nth(0).unwrap().collect(), [&1, &3, &5]);

    assert_eq!(iter.nth(1).unwrap().collect(), [&3, &5, &7]);

    assert!(iter.next().is_none());

    let mut iter = m.into_rows();

    assert_eq!(owned_rev(iter.nth_back(0).unwrap()), [7, 6, 5]);

    assert_eq!(owned_rev(iter.nth_back(1).unwrap()), [3, 2, 1]);

    assert!(iter.next_back().is_none());

    let mut iter = m.into_cols();

    assert_eq!(owned_rev(iter.nth_back(0).unwrap()), [7, 5, 3]);

    assert_eq!(owned_rev(iter.nth_back(1).unwrap()), [5, 3, 1]);

    assert!(iter.next_back().is_none());

    let mut iter = m.rows_mut();

    assert_eq!(row_mut_rev(iter.nth_back(0).unwrap()), [7, 6, 5]);

    assert_eq!(row_mut_rev(iter.nth_back(1).unwrap()), [3, 2, 1]);

    assert!(iter.next_back().is_none());

    let mut iter = m.cols_mut();

    assert_eq!(col_mut_rev(iter.nth_back(0).unwrap()), [7, 5, 3]);

    assert_eq!(col_mut_rev(iter.nth_back(1).unwrap()), [5, 3, 1]);

    assert!(iter.next_back().is_none());

    let mut iter = m.rows();

    assert_eq!(row_rev(iter.nth_back(0).unwrap()), [&7, &6, &5]);

    assert_eq!(row_rev(iter.nth_back(1).unwrap()), [&3, &2, &1]);

    assert!(iter.next_back().is_none());

    let mut iter = m.cols();

    assert_eq!(col_rev(iter.nth_back(0).unwrap()), [&7, &5, &3]);

    assert_eq!(col_rev(iter.nth_back(1).unwrap()), [&5, &3, &1]);

    assert!(iter.next_back().is_none());
}

#[test]
fn rows_and_cols_in_order() {
    let m = Matrix([[1, 2, 3], [3, 4, 5], [5, 6, 7]]);
    let mut rows = m.rows();
    assert_eq!(rows.size_hint(), (3, Some(3)));
    assert_eq!(rows.next().unwrap().collect(), [&1, &2, &3]);
    assert_eq!(rows.next().unwrap().collect(), [&3, &4, &5]);
    assert_eq!(rows.size_hint(), (1, Some(1)));
    assert_eq!(rows.next().unwrap().collect(), [&5, &6, &7]);
    assert!(rows.next().is_none());
    assert!(rows.next().is_none());
    let mut cols = m.cols();
    assert_eq!(cols.next().unwrap().collect(), [&1, &3, &5]);
    assert_eq!(cols.next().unwrap().collect(), [&2, &4, &6]);
    assert_eq!(cols.next().unwrap().collect(), [&3, &5, &7]);
    assert!(cols.next().is_none());
}

#[test]
fn rows_and_cols_in_reverse() {
    let m = Matrix([[1, 2, 3], [3, 4, 5], [5, 6, 7]]);
    let mut rows = m.rows();
    assert_eq!(rows.next_back().unwrap().collect(), [&5, &6, &7]);
    assert_eq!(rows.next_back().unwrap().collect(), [&3, &4, &5]);
    assert_eq!(rows.next_back().unwrap().collect(), [&1, &2, &3]);
    assert!(rows.next_back().is_none());
    let mut cols = m.cols();
    assert_eq!(cols.next_back().unwrap().collect(), [&3, &5, &7]);
    assert_eq!(cols.next_back().unwrap().collect(), [&2, &4, &6]);
    assert_eq!(cols.next_back().unwrap().collect(), [&1, &3, &5]);
    assert!(cols.next_back().is_none());
}

#[test]
fn cols_of_a_wide_matrix() {
    let m = Matrix([[1, 2, 3, 4], [5, 6, 7, 8]]);
    let mut cols = m.cols();
    assert_eq!(cols.size_hint(), (4, Some(4)));
    assert_eq!(cols.nth(3).unwrap().collect(), [&4, &8]);
    assert!(cols.next().is_none());
    let mut cols = m.into_cols();
    assert_eq!(cols.size_hint(), (4, Some(4)));
    assert_eq!(cols.nth_back(3).unwrap().collect(), [1, 5]);
    assert!(cols.next().is_none());
    assert_eq!(cols.size_hint(), (0, Some(0)));
}

#[test]
fn cursors_meet_in_the_middle() {
    let m = Matrix([[1, 2], [3, 4], [5, 6], [7, 8]]);
    let mut rows = m.rows();
    assert_eq!(rows.next().unwrap().collect(), [&1, &2]);
    assert_eq!(rows.next_back().unwrap().collect(), [&7, &8]);
    assert_eq!(rows.nth(1).unwrap().collect(), [&5, &6]);
    assert!(rows.next_back().is_none());
    let mut col = m.cols().nth(1).unwrap();
    assert_eq!(col.size_hint(), (4, Some(4)));
    assert_eq!(col.next(), Some(&2));
    assert_eq!(col.nth_back(1), Some(&6));
    assert_eq!(col.next_back(), Some(&4));
    assert_eq!(col.next(), None);
    let mut row = m.rows().next().unwrap();
    assert_eq!(row.nth(5), None);
    assert_eq!(row.next(), None);
}

#[test]
fn owned_line_skips_from_the_back() {
    let m = Matrix([[1, 2, 3, 4, 5]]);
    let mut line = m.into_rows().next().unwrap();
    assert_eq!(line.size_hint(), (5, Some(5)));
    assert_eq!(line.nth_back(1), Some(4));
    assert_eq!(line.next(), Some(1));
    assert_eq!(line.nth(0), Some(2));
    assert_eq!(line.next_back(), Some(3));
    assert_eq!(line.next_back(), None);
}

#[test]
fn writing_through_row_cursors() {
    let mut m = Matrix([[1, 2, 3], [4, 5, 6]]);
    {
        let mut rows = m.rows_mut();
        let mut top = rows.next().unwrap();
        *top.next().unwrap() = 10;
        *top.next_back().unwrap() = 30;
        let mut bottom = rows.next().unwrap();
        assert_eq!(bottom.size_hint(), (3, Some(3)));
        *bottom.nth(1).unwrap() = 50;
        assert!(rows.next().is_none());
    }
    assert_eq!(m, Matrix([[10, 2, 30], [4, 50, 6]]));
}

#[test]
fn writing_through_col_cursors() {
    let mut m = Matrix([[1, 2, 3], [4, 5, 6]]);
    {
        let mut cols = m.cols_mut();
        assert_eq!(cols.size_hint(), (3, Some(3)));
        let mut left = cols.next().unwrap();
        *left.next().unwrap() = 10;
        *left.next().unwrap() = 40;
        assert!(left.next().is_none());
        let mut right = cols.next_back().unwrap();
        *right.nth_back(0).unwrap() = 60;
        let mut mid = cols.next().unwrap();
        *mid.nth(1).unwrap() = 50;
        assert!(cols.next().is_none());
    }
    assert_eq!(m, Matrix([[10, 2, 3], [40, 50, 60]]));
}

#[test]
fn empty_shapes_have_no_lines() {
    let none: Matrix<i32, 0, 3> = Matrix([]);
    assert!(none.rows().next().is_none());
    assert_eq!(none.cols().size_hint(), (3, Some(3)));
    assert_eq!(none.cols().next().unwrap().collect().len(), 0);
    let thin: Matrix<i32, 2, 0> = Matrix([[], []]);
    assert!(thin.cols().next().is_none());
    assert_eq!(thin.rows().next().unwrap().collect().len(), 0);
    assert!(thin.into_cols().next().is_none());
}
