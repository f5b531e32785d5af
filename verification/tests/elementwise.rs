use const_alg::elementwise::{ForBoth, ForEach, MapCells, ZipWith};
use const_alg::matrix::Matrix;

#[test]
fn map_by_value() {
    let m = Matrix([[1, 2, 3], [4, 5, 6]]);
    let out = m.map(|x: i32| x * 10);
    assert_eq!(out, Matrix([[10, 20, 30], [40, 50, 60]]));
    let words = Matrix([[String::from("a")], [String::from("bc")]]);
    let lens = words.map(|s: String| s.len());
    assert_eq!(lens, Matrix([[1], [2]]));
}

#[test]
fn map_by_reference() {
    let m = Matrix([[1, 2], [3, 4]]);
    let out = (&m).map(|x: &i32| *x + 1);
    assert_eq!(out, Matrix([[2, 3], [4, 5]]));
    assert_eq!(m, Matrix([[1, 2], [3, 4]]));
}

#[test]
fn map_by_exclusive_reference() {
    let mut m = Matrix([[1, 2], [3, 4]]);
    let old = (&mut m).map(|x: &mut i32| {
        let before = *x;
        *x = before * before;
        before
    });
    assert_eq!(old, Matrix([[1, 2], [3, 4]]));
    assert_eq!(m, Matrix([[1, 4], [9, 16]]));
}

#[test]
fn map_visits_row_by_row() {
    let m = Matrix([[1, 2, 3], [4, 5, 6]]);
    let mut seen = Vec::new();
    let _ = m.map(|x: i32| seen.push(x));
    assert_eq!(seen, [1, 2, 3, 4, 5, 6]);
}

#[test]
fn for_each_in_every_mode() {
    let mut m = Matrix([[1, 2], [3, 4]]);
    let mut sum = 0;
    (&m).for_each(|x: &i32| sum += *x);
    assert_eq!(sum, 10);
    (&mut m).for_each(|x: &mut i32| *x += 1);
    assert_eq!(m, Matrix([[2, 3], [4, 5]]));
    let mut seen = Vec::new();
    m.for_each(|x: i32| seen.push(x));
    assert_eq!(seen, [2, 3, 4, 5]);
}

#[test]
fn zip_with_by_value() {
    let a = Matrix([[1, 2], [3, 4]]);
    let b = Matrix([[10, 20], [30, 40]]);
    assert_eq!(a.zip_with(b, |x: i32, y: i32| x + y), Matrix([[11, 22], [33, 44]]));
    assert_eq!(a.zip_with(b, |x: i32, y: i32| (x, y)), Matrix([[(1, 10), (2, 20)], [(3, 30), (4, 40)]]));
}

#[test]
fn zip_with_borrowed_operands() {
    let mut a = Matrix([[1, 2], [3, 4]]);
    let mut b = Matrix([[10, 20], [30, 40]]);
    assert_eq!((&a).zip_with(&b, |x: &i32, y: &i32| x * y), Matrix([[10, 40], [90, 160]]));
    assert_eq!(a.zip_with(&b, |x: i32, y: &i32| y - x), Matrix([[9, 18], [27, 36]]));
    assert_eq!((&a).zip_with(b, |x: &i32, y: i32| y - x), Matrix([[9, 18], [27, 36]]));
    let sums = (&mut a).zip_with(&b, |x: &mut i32, y: &i32| {
        *x += *y;
        *x
    });
    assert_eq!(sums, Matrix([[11, 22], [33, 44]]));
    assert_eq!(a, sums);
    let _ = (&a).zip_with(&mut b, |x: &i32, y: &mut i32| *y = *x);
    assert_eq!(b, a);
    let _ = a.zip_with(&mut b, |x: i32, y: &mut i32| *y -= x);
    assert_eq!(b, Matrix([[0, 0], [0, 0]]));
    let _ = (&mut a).zip_with(&mut b, |x: &mut i32, y: &mut i32| std::mem::swap(x, y));
    assert_eq!(a, Matrix([[0, 0], [0, 0]]));
    assert_eq!(b, Matrix([[11, 22], [33, 44]]));
    let _ = (&mut a).zip_with(b, |x: &mut i32, y: i32| *x = y + 1);
    assert_eq!(a, Matrix([[12, 23], [34, 45]]));
}

#[test]
fn for_both_in_mixed_modes() {
    let mut a = Matrix([[1, 2], [3, 4]]);
    let mut b = Matrix([[5, 6], [7, 8]]);
    let mut dot = 0;
    (&a).for_both(&b, |x: &i32, y: &i32| dot += x * y);
    assert_eq!(dot, 70);
    let mut pairs = Vec::new();
    a.for_both(b, |x: i32, y: i32| pairs.push((x, y)));
    assert_eq!(pairs, [(1, 5), (2, 6), (3, 7), (4, 8)]);
    (&mut a).for_both(b, |x: &mut i32, y: i32| *x += y);
    assert_eq!(a, Matrix([[6, 8], [10, 12]]));
    (&mut a).for_both(&b, |x: &mut i32, y: &i32| *x -= *y);
    assert_eq!(a, Matrix([[1, 2], [3, 4]]));
    (&mut a).for_both(&mut b, |x: &mut i32, y: &mut i32| std::mem::swap(x, y));
    assert_eq!(a, Matrix([[5, 6], [7, 8]]));
    assert_eq!(b, Matrix([[1, 2], [3, 4]]));
    a.for_both(&mut b, |x: i32, y: &mut i32| *y += x);
    assert_eq!(b, Matrix([[6, 8], [10, 12]]));
    (&a).for_both(&mut b, |x: &i32, y: &mut i32| *y -= *x);
    assert_eq!(b, Matrix([[1, 2], [3, 4]]));
    let mut seen = 0;
    a.for_both(&b, |x: i32, y: &i32| seen += x - *y);
    assert_eq!(seen, 16);
    seen = 0;
    (&a).for_both(b, |x: &i32, y: i32| seen += *x - y);
    assert_eq!(seen, 16);
}

#[test]
fn empty_matrices_call_nothing() {
    let m: Matrix<i32, 0, 4> = Matrix([]);
    let mut calls = 0;
    m.for_each(|_x: i32| calls += 1);
    let out = m.map(|x: i32| x + 1);
    assert_eq!(out, Matrix([]));
    assert_eq!(calls, 0);
}
