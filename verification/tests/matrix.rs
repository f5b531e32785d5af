use const_alg::matrix::Matrix;
use std::collections::hash_map::DefaultHasher;
use std::hash::{Hash, Hasher};

#[test]
fn test_mul() {
    let mut m = Matrix([[1, 2], [3, 4]]);

    assert_eq!(m.mul(&m), Matrix([[7, 10], [15, 22]]));

    m.mul_assign(m);

    assert_eq!(m, Matrix([[7, 10], [15, 22]]));

    m.add_assign(m);

    assert_eq!(m, Matrix([[14, 20], [30, 44]]));

    m.add_assign(Matrix::one());
    m.add_assign(Matrix::zero());

    assert_eq!(m, Matrix([[15, 20], [30, 45]]));

    m.mul_assign(Matrix::<_, 2, 2>::one());

    assert_eq!(m, Matrix([[15, 20], [30, 45]]));

    assert_eq!(m.mul(&Matrix([[1, 1]]).T()), Matrix([[35, 75]]).T());

    assert_eq!(Matrix([[1, 1]]).mul(&m), Matrix([[45, 65]]));

    assert_eq!(m.neg(), Matrix([[-15, -20], [-30, -45]]));

    m.mul_assign(Matrix::<_, 2, 2>::zero());

    assert_eq!(m, Matrix::zero());
}

#[test]
fn test_get_all_mut() {
    let mut m = Matrix([[0, 1, 2, 3], [4, 5, 6, 7]]);

    let all = m.get_all_mut([(0, 0), (0, 2), (2, 0), (0, 0)]);

    assert_eq!(all, [Some(&mut 0), Some(&mut 2), None, None]);
}

#[test]
fn get_all_mut_writes_reach_the_matrix() {
    let mut m = Matrix([[0, 1, 2, 3], [4, 5, 6, 7]]);
    {
        let all = m.get_all_mut([(1, 3), (0, 1), (1, 3), (5, 5), (1, 0)]);
        let mut given = 0;
        for cell in all {
            if let Some(r) = cell {
                *r += 100;
                given += 1;
            }
        }
        assert_eq!(given, 3);
    }
    assert_eq!(m, Matrix([[0, 101, 2, 3], [104, 5, 6, 107]]));
}

#[test]
fn get_all_mut_of_nothing() {
    let mut m = Matrix([[1, 2], [3, 4]]);
    let all = m.get_all_mut([]);
    assert_eq!(all.len(), 0);
    assert_eq!(m, Matrix([[1, 2], [3, 4]]));
}

#[test]
fn get_inside_and_outside() {
    let mut m = Matrix([[1, 2, 3], [4, 5, 6]]);
    assert_eq!(m.get(0, 0), Some(&1));
    assert_eq!(m.get(1, 2), Some(&6));
    assert_eq!(m.get(2, 0), None);
    assert_eq!(m.get(0, 3), None);
    assert_eq!(m.get_mut(1, 1), Some(&mut 5));
    assert_eq!(m.get_mut(2, 2), None);
    if let Some(cell) = m.get_mut(0, 2) {
        *cell = 30;
    }
    assert_eq!(m, Matrix([[1, 2, 30], [4, 5, 6]]));
    assert_eq!(*m.get_unchecked(1, 0), 4);
    *m.get_unchecked_mut(1, 0) = 40;
    assert_eq!(*m.index((1, 0)), 40);
    *m.index_mut((0, 0)) = 10;
    assert_eq!(m.into(), [[10, 2, 30], [40, 5, 6]]);
}

#[test]
fn from_array_and_back() {
    let cells = [[1, 2], [3, 4], [5, 6]];
    let m = Matrix::from(cells);
    assert_eq!(m, Matrix(cells));
    assert_eq!(m.into(), cells);
}

#[test]
fn transpose_moves_each_cell() {
    let m = Matrix([[1, 2, 3], [4, 5, 6]]);
    assert_eq!(m.transpose(), Matrix([[1, 4], [2, 5], [3, 6]]));
    assert_eq!(m.T(), Matrix([[1, 4], [2, 5], [3, 6]]));
}

#[test]
fn transpose_twice_is_identity() {
    let m = Matrix([[1, 2, 3], [4, 5, 6]]);
    assert_eq!(m.transpose().transpose(), m);
    let s = Matrix([[String::from("a"), String::from("b")]]);
    let back = s.clone().transpose().transpose();
    assert_eq!(back, s);
}

#[test]
fn transpose_of_empty_shapes() {
    let no_rows: Matrix<i64, 0, 3> = Matrix([]);
    let t = no_rows.transpose();
    assert_eq!(t, Matrix([[], [], []]));
    let no_cols: Matrix<i64, 2, 0> = Matrix([[], []]);
    assert_eq!(no_cols.transpose(), Matrix([]));
}

#[test]
fn product_is_associative_on_small_matrices() {
    let a = Matrix([[1, 2, 3], [4, 5, 6]]);
    let b = Matrix([[7, 8], [9, 10], [11, 12]]);
    let c = Matrix([[1, -1, 2, 0], [3, 5, -2, 1]]);
    assert_eq!(a.mul(&b), Matrix([[58, 64], [139, 154]]));
    assert_eq!(a.mul(&b).mul(&c), a.mul(&b.mul(&c)));
}

#[test]
fn product_distributes_over_sum_on_small_matrices() {
    let a = Matrix([[1, 2], [3, 4], [5, 6]]);
    let b = Matrix([[1, 0, 2], [0, 1, 3]]);
    let c = Matrix([[4, 5, 6], [7, 8, 9]]);
    assert_eq!(a.mul(&b.add(c)), a.mul(&b).add(a.mul(&c)));
    let d = Matrix([[2, 0], [1, 1], [0, 3]]);
    assert_eq!(a.add(d).mul(&b), a.mul(&b).add(d.mul(&b)));
}

#[test]
fn end_to_end_arithmetic() {
    let m = Matrix([[1, 2], [3, 4]]);
    assert_eq!(m.mul(&m), Matrix([[7, 10], [15, 22]]));
    assert_eq!(m.add(Matrix::zero()), m);
    assert_eq!(m.add(Matrix::one()), Matrix([[2, 2], [3, 5]]));
    assert_eq!(m.mul(&Matrix::one()), m);
    assert_eq!(m.neg(), Matrix([[-1, -2], [-3, -4]]));
    assert_eq!(m.mul(&Matrix::<i64, 2, 2>::zero()), Matrix::zero());
    assert_eq!(m.sub(m), Matrix::zero());
}

#[test]
fn compound_assignment() {
    let mut m = Matrix([[1, 2], [3, 4]]);
    m.sub_assign(Matrix([[1, 1], [1, 1]]));
    assert_eq!(m, Matrix([[0, 1], [2, 3]]));
    m.mul_assign_scalar(-3);
    assert_eq!(m, Matrix([[0, -3], [-6, -9]]));
    m.div_assign_scalar(2);
    assert_eq!(m, Matrix([[0, -1], [-3, -4]]));
    m.add_assign(Matrix([[5, 5], [5, 5]]));
    assert_eq!(m, Matrix([[5, 4], [2, 1]]));
}

#[test]
fn scalar_product_and_quotient() {
    let m = Matrix([[1, -2, 3], [-7, 8, 9]]);
    assert_eq!(m.mul_scalar(3), Matrix([[3, -6, 9], [-21, 24, 27]]));
    assert_eq!(m.div_scalar(2), Matrix([[0, -1, 1], [-3, 4, 4]]));
    assert_eq!(m.div_scalar(-2), Matrix([[0, 1, -1], [3, -4, -4]]));
}

#[test]
fn zero_and_one() {
    let z = Matrix::<i64, 2, 3>::zero();
    assert_eq!(z, Matrix([[0, 0, 0], [0, 0, 0]]));
    assert!(z.is_zero());
    assert!(!Matrix([[0, 0], [0, 1]]).is_zero());
    let one = Matrix::<i64, 3, 3>::one();
    assert_eq!(one, Matrix([[1, 0, 0], [0, 1, 0], [0, 0, 1]]));
    assert!(one.is_one());
    assert!(!one.is_zero());
    assert!(!Matrix([[1, 0], [1, 1]]).is_one());
    assert!(!Matrix([[1, 0], [0, 2]]).is_one());
    assert!(!Matrix::<i64, 2, 2>::zero().is_one());
    let mut m = Matrix([[5, 6], [7, 8]]);
    m.set_one();
    assert_eq!(m, Matrix([[1, 0], [0, 1]]));
    m.set_zero();
    assert!(m.is_zero());
    assert!(Matrix::<i64, 0, 0>::one().is_zero());
}

#[test]
fn dot_pairs_as_far_as_both_reach() {
    assert_eq!(const_alg::arith::dot(&[1, 2, 3], &[4, 5, 6]), 32);
    assert_eq!(const_alg::arith::dot(&[1, 2, 3], &[4, 5]), 14);
    assert_eq!(const_alg::arith::dot(&[], &[4, 5]), 0);
}

#[test]
fn equal_matrices_hash_equal() {
    let a = Matrix([[1, 2], [3, 4]]);
    let b = Matrix([[1, 2], [3, 4]]);
    let mut ha = DefaultHasher::new();
    let mut hb = DefaultHasher::new();
    a.hash(&mut ha);
    b.hash(&mut hb);
    assert_eq!(a, b);
    assert_eq!(ha.finish(), hb.finish());
    assert_ne!(a, Matrix([[1, 2], [3, 5]]));
}

#[test]
fn matrix_reads_as_its_array() {
    let mut m = Matrix([[1, 2], [3, 4]]);
    assert_eq!(m[1][0], 3);
    assert_eq!(m.len(), 2);
    m[0][1] = 20;
    assert_eq!(*m, [[1, 20], [3, 4]]);
    assert_eq!(m.clone(), m);
}
