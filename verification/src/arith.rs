//! Arithmetic on matrices of machine integers, stated over the integers.
//!
//! Every operation is specified by a grid of mathematical integers; it asks
//! that each number it computes fits the cell type, and then returns exactly
//! that grid.

use crate::elementwise::{both_slots, each_slot, lend_matrix, map_slots, own_cells, zip_slots};
use crate::matrix::{collect_array, collect_mat, has_shape, in_grid, transposed, Matrix};
use vstd::prelude::*;

verus! {

/// Whether `v` is a value of the cell type.
pub open spec fn fits(v: int) -> bool {
    i64::MIN <= v <= i64::MAX
}

/// The cells of `g` as mathematical integers.
pub open spec fn int_grid(g: Seq<Seq<i64>>, rows: nat, cols: nat) -> Seq<Seq<int>> {
    Seq::new(rows, |r: int| Seq::new(cols, |c: int| g[r][c] as int))
}

/// Whether every cell of `a` is a value of the cell type.
pub open spec fn in_range(a: Seq<Seq<int>>, rows: nat, cols: nat) -> bool {
    forall|r: int, c: int| in_grid(r, c, rows, cols) ==> fits(#[trigger] a[r][c])
}

/// The grid that holds `v` everywhere.
pub open spec fn mat_fill(v: int, rows: nat, cols: nat) -> Seq<Seq<int>> {
    Seq::new(rows, |r: int| Seq::new(cols, |c: int| v))
}

/// The grid of zeros.
pub open spec fn mat_zero(rows: nat, cols: nat) -> Seq<Seq<int>> {
    mat_fill(0, rows, cols)
}

/// The square grid with ones on the diagonal and zeros elsewhere.
pub open spec fn mat_one(n: nat) -> Seq<Seq<int>> {
    Seq::new(n, |r: int| Seq::new(n, |c: int| if r == c { 1int } else { 0int }))
}

/// The cell-by-cell sum.
pub open spec fn mat_add(a: Seq<Seq<int>>, b: Seq<Seq<int>>, rows: nat, cols: nat) -> Seq<Seq<int>> {
    Seq::new(rows, |r: int| Seq::new(cols, |c: int| a[r][c] + b[r][c]))
}

/// The cell-by-cell difference.
pub open spec fn mat_sub(a: Seq<Seq<int>>, b: Seq<Seq<int>>, rows: nat, cols: nat) -> Seq<Seq<int>> {
    Seq::new(rows, |r: int| Seq::new(cols, |c: int| a[r][c] - b[r][c]))
}

/// Every cell with its sign flipped.
pub open spec fn mat_neg(a: Seq<Seq<int>>, rows: nat, cols: nat) -> Seq<Seq<int>> {
    Seq::new(rows, |r: int| Seq::new(cols, |c: int| -a[r][c]))
}

/// Every cell multiplied by `k`.
pub open spec fn mat_scale(a: Seq<Seq<int>>, k: int, rows: nat, cols: nat) -> Seq<Seq<int>> {
    Seq::new(rows, |r: int| Seq::new(cols, |c: int| a[r][c] * k))
}

/// The quotient of `a` by `b`, rounded toward zero.
pub open spec fn quot(a: int, b: int) -> int {
    if a >= 0 {
        a / b
    } else {
        -((-a) / b)
    }
}

/// Every cell divided by `k`, rounded toward zero.
pub open spec fn mat_quot(a: Seq<Seq<int>>, k: int, rows: nat, cols: nat) -> Seq<Seq<int>> {
    Seq::new(rows, |r: int| Seq::new(cols, |c: int| quot(a[r][c], k)))
}

/// The `k`-th product that cell `(i, j)` of the product of `a` and `b` sums.
pub open spec fn dot_term(a: Seq<Seq<int>>, b: Seq<Seq<int>>, i: int, j: int, k: int) -> int {
    a[i][k] * b[k][j]
}

/// The sum of the first `n` products `a[i][k] * b[k][j]`.
pub open spec fn dot_sum(a: Seq<Seq<int>>, b: Seq<Seq<int>>, i: int, j: int, n: nat) -> int
    decreases n,
{
    if n == 0 {
        0
    } else {
        dot_sum(a, b, i, j, (n - 1) as nat) + dot_term(a, b, i, j, n - 1)
    }
}

/// The product of a grid of `n` by `m` cells with one of `m` by `o` cells.
pub open spec fn mat_mul(a: Seq<Seq<int>>, b: Seq<Seq<int>>, n: nat, m: nat, o: nat) -> Seq<
    Seq<int>,
> {
    Seq::new(n, |i: int| Seq::new(o, |j: int| dot_sum(a, b, i, j, m)))
}

/// Whether every product and every partial sum that the product of `a` and `b`
/// takes, each cell summed left to right, is a value of the cell type.
pub open spec fn product_fits(a: Seq<Seq<int>>, b: Seq<Seq<int>>, n: nat, m: nat, o: nat) -> bool {
    forall|i: int, j: int, k: int|
        #![trigger dot_term(a, b, i, j, k)]
        in_grid(i, j, n, o) && 0 <= k < m ==> fits(dot_term(a, b, i, j, k)) && fits(
            dot_sum(a, b, i, j, (k + 1) as nat),
        )
}

/// The product of the numbers that `a` and `b` hold at `k`.
pub open spec fn term(a: Seq<i64>, b: Seq<i64>, k: int) -> int {
    a[k] * b[k]
}

/// The sum of the first `n` products `a[k] * b[k]`.
pub open spec fn inner(a: Seq<i64>, b: Seq<i64>, n: nat) -> int
    decreases n,
{
    if n == 0 {
        0
    } else {
        inner(a, b, (n - 1) as nat) + term(a, b, n - 1)
    }
}

/// The number of pairs that two sequences of these lengths make.
pub open spec fn pairs(a: nat, b: nat) -> nat {
    if a <= b {
        a
    } else {
        b
    }
}

/// `num::Zero::zero` for the cell type: the number 0.
#[verifier::external_body]
fn zero_cell() -> (z: i64)
    ensures
        z == 0,
{
    <i64 as num::Zero>::zero()
}

/// `num::Zero::is_zero` for the cell type: whether the number is 0.
#[verifier::external_body]
fn cell_is_zero(x: &i64) -> (b: bool)
    ensures
        b == (*x == 0),
{
    num::Zero::is_zero(x)
}

/// `num::Zero::set_zero` for the cell type: the number becomes 0.
#[verifier::external_body]
fn set_cell_zero(x: &mut i64)
    ensures
        *final(x) == 0,
{
    num::Zero::set_zero(x)
}

/// `num::One::one` for the cell type: the number 1.
#[verifier::external_body]
fn one_cell() -> (z: i64)
    ensures
        z == 1,
{
    <i64 as num::One>::one()
}

/// `num::One::is_one` for the cell type: whether the number is 1.
#[verifier::external_body]
fn cell_is_one(x: &i64) -> (b: bool)
    ensures
        b == (*x == 1),
{
    num::One::is_one(x)
}

/// `num::One::set_one` for the cell type: the number becomes 1.
#[verifier::external_body]
fn set_cell_one(x: &mut i64)
    ensures
        *final(x) == 1,
{
    num::One::set_one(x)
}

/// The sum of the products of the numbers that `a` and `b` hold in the same
/// place, as far as both reach, summed left to right from zero.
pub fn dot(a: &[i64], b: &[i64]) -> (d: i64)
    requires
        forall|k: int|
            0 <= k < pairs(a@.len(), b@.len()) ==> fits(#[trigger] term(a@, b@, k)) && fits(
                inner(a@, b@, (k + 1) as nat),
            ),
    ensures
        d == inner(a@, b@, pairs(a@.len(), b@.len())),
{
    let n: usize = if a.len() <= b.len() {
        a.len()
    } else {
        b.len()
    };
    let mut acc: i64 = zero_cell();
    let mut k: usize = 0;
    while k < n
        invariant
            k <= n,
            n == pairs(a@.len(), b@.len()),
            acc == inner(a@, b@, k as nat),
            forall|k: int|
                0 <= k < n ==> fits(#[trigger] term(a@, b@, k)) && fits(
                    inner(a@, b@, (k + 1) as nat),
                ),
        decreases n - k,
    {
        assert(fits(term(a@, b@, k as int)));
        let x = a[k] * b[k];
        acc = acc + x;
        k = k + 1;
    }
    acc
}

/// The sums that `dot` takes on a row of `a` and a row of the transpose of `b`
/// are those of the matching cell of the product.
pub proof fn lemma_inner_is_dot_sum(
    a: Seq<Seq<i64>>,
    b: Seq<Seq<i64>>,
    n: nat,
    m: nat,
    o: nat,
    i: int,
    j: int,
    k: nat,
)
    requires
        in_grid(i, j, n, o),
        k <= m,
    ensures
        inner(a[i], Seq::new(m, |x: int| b[x][j]), k) == dot_sum(
            int_grid(a, n, m),
            int_grid(b, m, o),
            i,
            j,
            k,
        ),
    decreases k,
{
    if k > 0 {
        lemma_inner_is_dot_sum(a, b, n, m, o, i, j, (k - 1) as nat);
        assert(term(a[i], Seq::new(m, |x: int| b[x][j]), k - 1) == dot_term(
            int_grid(a, n, m),
            int_grid(b, m, o),
            i,
            j,
            k - 1,
        ));
    }
}

impl<const N: usize, const M: usize> Matrix<i64, N, M> {
    /// The cells as mathematical integers.
    pub open spec fn ints(&self) -> Seq<Seq<int>> {
        int_grid(self@, N as nat, M as nat)
    }

    /// The matrix of zeros.
    pub fn zero() -> (out: Self)
        ensures
            out.ints() == mat_zero(N as nat, M as nat),
    {
        let mut rows: Vec<[i64; M]> = Vec::new();
        while rows.len() < N
            invariant
                rows@.len() <= N,
                forall|r: int, c: int|
                    0 <= r < rows@.len() && 0 <= c < M ==> (#[trigger] rows@[r]@[c]) == 0,
            decreases N - rows@.len(),
        {
            let mut cells: Vec<i64> = Vec::new();
            while cells.len() < M
                invariant
                    cells@.len() <= M,
                    forall|c: int| 0 <= c < cells@.len() ==> (#[trigger] cells@[c]) == 0,
                decreases M - cells@.len(),
            {
                cells.push(zero_cell());
            }
            rows.push(collect_array(cells));
        }
        let out: Matrix<i64, N, M> = collect_mat(rows);
        assert(out.ints() =~~= mat_zero(N as nat, M as nat));
        out
    }

    /// Sets every cell to zero.
    pub fn set_zero(&mut self)
        ensures
            final(self).ints() == mat_zero(N as nat, M as nat),
    {
        each_slot(
            lend_matrix(self),
            |x: &mut i64|
                ensures
                    *final(x) == 0
                {
                    set_cell_zero(x);
                },
            N,
            M,
        );
        assert forall|r: int, c: int| in_grid(r, c, N as nat, M as nat) implies (#[trigger] self@[r][c])
            == 0 by {}
        assert(self.ints() =~~= mat_zero(N as nat, M as nat));
    }

    /// Whether every cell is zero.
    pub fn is_zero(&self) -> (b: bool)
        ensures
            b <==> self.ints() == mat_zero(N as nat, M as nat),
    {
        let mut r: usize = 0;
        while r < N
            invariant
                r <= N,
                forall|i: int, c: int| 0 <= i < r && 0 <= c < M ==> (#[trigger] self@[i][c]) == 0,
            decreases N - r,
        {
            let mut c: usize = 0;
            while c < M
                invariant
                    r < N,
                    c <= M,
                    forall|j: int| 0 <= j < c ==> (#[trigger] self@[r as int][j]) == 0,
                decreases M - c,
            {
                if !cell_is_zero(self.get_unchecked(r, c)) {
                    assert(self.ints()[r as int][c as int] != mat_zero(N as nat, M as nat)[r as int][c as int]);
                    return false;
                }
                c = c + 1;
            }
            r = r + 1;
        }
        assert(self.ints() =~~= mat_zero(N as nat, M as nat));
        true
    }

    /// The sum of two matrices, cell by cell.
    pub fn add(self, other: Self) -> (out: Self)
        requires
            in_range(mat_add(self.ints(), other.ints(), N as nat, M as nat), N as nat, M as nat),
        ensures
            out.ints() == mat_add(self.ints(), other.ints(), N as nat, M as nat),
    {
        assert forall|r: int, c: int| in_grid(r, c, N as nat, M as nat) implies fits(
            #[trigger] self@[r][c] + other@[r][c],
        ) by {
            assert(fits(mat_add(self.ints(), other.ints(), N as nat, M as nat)[r][c]));
        }
        let out: Matrix<i64, N, M> = zip_slots(
            own_cells(self),
            own_cells(other),
            |a: i64, b: i64| -> (s: i64)
                requires
                    fits(a + b),
                ensures
                    s == a + b
                { a + b },
        );
        assert(out.ints() =~~= mat_add(self.ints(), other.ints(), N as nat, M as nat));
        out
    }

    /// Adds `other` to this matrix, cell by cell.
    pub fn add_assign(&mut self, other: Self)
        requires
            in_range(
                mat_add(old(self).ints(), other.ints(), N as nat, M as nat),
                N as nat,
                M as nat,
            ),
        ensures
            final(self).ints() == mat_add(old(self).ints(), other.ints(), N as nat, M as nat),
    {
        assert forall|r: int, c: int| in_grid(r, c, N as nat, M as nat) implies fits(
            #[trigger] self@[r][c] + other@[r][c],
        ) by {
            assert(fits(mat_add(self.ints(), other.ints(), N as nat, M as nat)[r][c]));
        }
        both_slots(
            lend_matrix(self),
            own_cells(other),
            |a: &mut i64, b: i64|
                requires
                    fits(*old(a) + b),
                ensures
                    *final(a) == *old(a) + b
                {
                    *a = *a + b;
                },
            N,
            M,
        );
        assert forall|r: int, c: int| in_grid(r, c, N as nat, M as nat) implies (#[trigger] self@[r][c])
            == old(self)@[r][c] + other@[r][c] by {}
        assert(self.ints() =~~= mat_add(old(self).ints(), other.ints(), N as nat, M as nat));
    }

    /// The difference of two matrices, cell by cell.
    pub fn sub(self, other: Self) -> (out: Self)
        requires
            in_range(mat_sub(self.ints(), other.ints(), N as nat, M as nat), N as nat, M as nat),
        ensures
            out.ints() == mat_sub(self.ints(), other.ints(), N as nat, M as nat),
    {
        assert forall|r: int, c: int| in_grid(r, c, N as nat, M as nat) implies fits(
            #[trigger] self@[r][c] - other@[r][c],
        ) by {
            assert(fits(mat_sub(self.ints(), other.ints(), N as nat, M as nat)[r][c]));
        }
        let out: Matrix<i64, N, M> = zip_slots(
            own_cells(self),
            own_cells(other),
            |a: i64, b: i64| -> (s: i64)
                requires
                    fits(a - b),
                ensures
                    s == a - b
                { a - b },
        );
        assert(out.ints() =~~= mat_sub(self.ints(), other.ints(), N as nat, M as nat));
        out
    }

    /// Subtracts `other` from this matrix, cell by cell.
    pub fn sub_assign(&mut self, other: Self)
        requires
            in_range(
                mat_sub(old(self).ints(), other.ints(), N as nat, M as nat),
                N as nat,
                M as nat,
            ),
        ensures
            final(self).ints() == mat_sub(old(self).ints(), other.ints(), N as nat, M as nat),
    {
        assert forall|r: int, c: int| in_grid(r, c, N as nat, M as nat) implies fits(
            #[trigger] self@[r][c] - other@[r][c],
        ) by {
            assert(fits(mat_sub(self.ints(), other.ints(), N as nat, M as nat)[r][c]));
        }
        both_slots(
            lend_matrix(self),
            own_cells(other),
            |a: &mut i64, b: i64|
                requires
                    fits(*old(a) - b),
                ensures
                    *final(a) == *old(a) - b
                {
                    *a = *a - b;
                },
            N,
            M,
        );
        assert forall|r: int, c: int| in_grid(r, c, N as nat, M as nat) implies (#[trigger] self@[r][c])
            == old(self)@[r][c] - other@[r][c] by {}
        assert(self.ints() =~~= mat_sub(old(self).ints(), other.ints(), N as nat, M as nat));
    }

    /// The matrix with the sign of every cell flipped.
    pub fn neg(self) -> (out: Self)
        requires
            in_range(mat_neg(self.ints(), N as nat, M as nat), N as nat, M as nat),
        ensures
            out.ints() == mat_neg(self.ints(), N as nat, M as nat),
    {
        assert forall|r: int, c: int| in_grid(r, c, N as nat, M as nat) implies fits(
            -(#[trigger] self@[r][c]),
        ) by {
            assert(fits(mat_neg(self.ints(), N as nat, M as nat)[r][c]));
        }
        let out: Matrix<i64, N, M> = map_slots(
            own_cells(self),
            |a: i64| -> (s: i64)
                requires
                    fits(-a),
                ensures
                    s == -a
                { -a },
        );
        assert(out.ints() =~~= mat_neg(self.ints(), N as nat, M as nat));
        out
    }

    /// The matrix with every cell multiplied by `k`.
    pub fn mul_scalar(self, k: i64) -> (out: Self)
        requires
            in_range(mat_scale(self.ints(), k as int, N as nat, M as nat), N as nat, M as nat),
        ensures
            out.ints() == mat_scale(self.ints(), k as int, N as nat, M as nat),
    {
        assert forall|r: int, c: int| in_grid(r, c, N as nat, M as nat) implies fits(
            (#[trigger] self@[r][c]) * k,
        ) by {
            assert(fits(mat_scale(self.ints(), k as int, N as nat, M as nat)[r][c]));
        }
        let out: Matrix<i64, N, M> = map_slots(
            own_cells(self),
            |a: i64| -> (s: i64)
                requires
                    fits(a * k),
                ensures
                    s == a * k
                { a * k },
        );
        assert(out.ints() =~~= mat_scale(self.ints(), k as int, N as nat, M as nat));
        out
    }

    /// Multiplies every cell by `k`.
    pub fn mul_assign_scalar(&mut self, k: i64)
        requires
            in_range(
                mat_scale(old(self).ints(), k as int, N as nat, M as nat),
                N as nat,
                M as nat,
            ),
        ensures
            final(self).ints() == mat_scale(old(self).ints(), k as int, N as nat, M as nat),
    {
        assert forall|r: int, c: int| in_grid(r, c, N as nat, M as nat) implies fits(
            (#[trigger] self@[r][c]) * k,
        ) by {
            assert(fits(mat_scale(self.ints(), k as int, N as nat, M as nat)[r][c]));
        }
        each_slot(
            lend_matrix(self),
            |a: &mut i64|
                requires
                    fits(*old(a) * k),
                ensures
                    *final(a) == *old(a) * k
                {
                    *a = *a * k;
                },
            N,
            M,
        );
        assert forall|r: int, c: int| in_grid(r, c, N as nat, M as nat) implies (#[trigger] self@[r][c])
            == old(self)@[r][c] * k by {}
        assert(self.ints() =~~= mat_scale(old(self).ints(), k as int, N as nat, M as nat));
    }

    /// The matrix with every cell divided by `k`, rounded toward zero.
    pub fn div_scalar(self, k: i64) -> (out: Self)
        requires
            k != 0,
            in_range(mat_quot(self.ints(), k as int, N as nat, M as nat), N as nat, M as nat),
        ensures
            out.ints() == mat_quot(self.ints(), k as int, N as nat, M as nat),
    {
        assert forall|r: int, c: int| in_grid(r, c, N as nat, M as nat) implies !((
        #[trigger] self@[r][c]) == i64::MIN && k == -1) && fits(
            quot(self@[r][c] as int, k as int),
        ) by {
            assert(fits(mat_quot(self.ints(), k as int, N as nat, M as nat)[r][c]));
        }
        let out: Matrix<i64, N, M> = map_slots(
            own_cells(self),
            |a: i64| -> (s: i64)
                requires
                    k != 0,
                    !(a == i64::MIN && k == -1),
                    fits(quot(a as int, k as int))
                ensures
                    s == quot(a as int, k as int)
                { a / k },
        );
        assert(out.ints() =~~= mat_quot(self.ints(), k as int, N as nat, M as nat));
        out
    }

    /// Divides every cell by `k`, rounding toward zero.
    pub fn div_assign_scalar(&mut self, k: i64)
        requires
            k != 0,
            in_range(
                mat_quot(old(self).ints(), k as int, N as nat, M as nat),
                N as nat,
                M as nat,
            ),
        ensures
            final(self).ints() == mat_quot(old(self).ints(), k as int, N as nat, M as nat),
    {
        assert forall|r: int, c: int| in_grid(r, c, N as nat, M as nat) implies !((
        #[trigger] self@[r][c]) == i64::MIN && k == -1) && fits(
            quot(self@[r][c] as int, k as int),
        ) by {
            assert(fits(mat_quot(self.ints(), k as int, N as nat, M as nat)[r][c]));
        }
        each_slot(
            lend_matrix(self),
            |a: &mut i64|
                requires
                    k != 0,
                    !(*old(a) == i64::MIN && k == -1),
                    fits(quot(*old(a) as int, k as int))
                ensures
                    *final(a) == quot(*old(a) as int, k as int)
                {
                    *a = *a / k;
                },
            N,
            M,
        );
        assert forall|r: int, c: int| in_grid(r, c, N as nat, M as nat) implies (#[trigger] self@[r][c])
            == quot(old(self)@[r][c] as int, k as int) by {}
        assert(self.ints() =~~= mat_quot(old(self).ints(), k as int, N as nat, M as nat));
    }

    /// The product with a matrix of as many rows as this one has columns: cell
    /// `(i, j)` is the sum over `k` of this matrix's `(i, k)` times the other's
    /// `(k, j)`.
    pub fn mul<const O: usize>(&self, other: &Matrix<i64, M, O>) -> (out: Matrix<i64, N, O>)
        requires
            product_fits(self.ints(), other.ints(), N as nat, M as nat, O as nat),
        ensures
            out.ints() == mat_mul(self.ints(), other.ints(), N as nat, M as nat, O as nat),
    {
        let turned: Matrix<i64, O, M> = (*other).transpose();
        let mut rows: Vec<[i64; O]> = Vec::new();
        while rows.len() < N
            invariant
                rows@.len() <= N,
                turned@ == transposed(other@, M as nat, O as nat),
                product_fits(self.ints(), other.ints(), N as nat, M as nat, O as nat),
                forall|i: int, j: int|
                    0 <= i < rows@.len() && 0 <= j < O ==> (#[trigger] rows@[i]@[j]) == dot_sum(
                        self.ints(),
                        other.ints(),
                        i,
                        j,
                        M as nat,
                    ),
            decreases N - rows@.len(),
        {
            let i: usize = rows.len();
            let mut cells: Vec<i64> = Vec::new();
            while cells.len() < O
                invariant
                    i < N,
                    cells@.len() <= O,
                    turned@ == transposed(other@, M as nat, O as nat),
                    product_fits(self.ints(), other.ints(), N as nat, M as nat, O as nat),
                    forall|j: int|
                        0 <= j < cells@.len() ==> (#[trigger] cells@[j]) == dot_sum(
                            self.ints(),
                            other.ints(),
                            i as int,
                            j,
                            M as nat,
                        ),
                decreases O - cells@.len(),
            {
                let j: usize = cells.len();
                let ghost left = self@[i as int];
                let ghost right = turned@[j as int];
                proof {
                    assert(right =~= Seq::new(M as nat, |x: int| other@[x][j as int]));
                    assert forall|k: int| 0 <= k < M implies fits(#[trigger] term(left, right, k))
                        && fits(inner(left, right, (k + 1) as nat)) by {
                        lemma_inner_is_dot_sum(
                            self@,
                            other@,
                            N as nat,
                            M as nat,
                            O as nat,
                            i as int,
                            j as int,
                            (k + 1) as nat,
                        );
                        assert(term(left, right, k) == dot_term(
                            self.ints(),
                            other.ints(),
                            i as int,
                            j as int,
                            k,
                        ));
                    }
                    lemma_inner_is_dot_sum(
                        self@,
                        other@,
                        N as nat,
                        M as nat,
                        O as nat,
                        i as int,
                        j as int,
                        M as nat,
                    );
                }
                let d = dot(self.0[i].as_slice(), turned.0[j].as_slice());
                cells.push(d);
            }
            rows.push(collect_array(cells));
        }
        let out: Matrix<i64, N, O> = collect_mat(rows);
        assert(out.ints() =~~= mat_mul(self.ints(), other.ints(), N as nat, M as nat, O as nat));
        out
    }
}

impl<const N: usize> Matrix<i64, N, N> {
    /// The identity matrix: ones on the diagonal, zeros elsewhere.
    pub fn one() -> (out: Self)
        ensures
            out.ints() == mat_one(N as nat),
    {
        let mut out: Matrix<i64, N, N> = Matrix::zero();
        assert forall|r: int, c: int| in_grid(r, c, N as nat, N as nat) implies (#[trigger] out@[r][c])
            == 0 by {
            assert(out.ints()[r][c] == 0);
        }
        let mut i: usize = 0;
        while i < N
            invariant
                i <= N,
                forall|r: int, c: int|
                    in_grid(r, c, N as nat, N as nat) ==> (#[trigger] out@[r][c]) == if r == c && r
                        < i {
                        1i64
                    } else {
                        0i64
                    },
            decreases N - i,
        {
            set_cell_one(out.index_mut((i, i)));
            i = i + 1;
        }
        assert(out.ints() =~~= mat_one(N as nat));
        out
    }

    /// Turns this matrix into the identity matrix.
    pub fn set_one(&mut self)
        ensures
            final(self).ints() == mat_one(N as nat),
    {
        self.set_zero();
        assert forall|r: int, c: int| in_grid(r, c, N as nat, N as nat) implies (#[trigger] self@[r][c])
            == 0 by {
            assert(self.ints()[r][c] == 0);
        }
        let mut i: usize = 0;
        while i < N
            invariant
                i <= N,
                forall|r: int, c: int|
                    in_grid(r, c, N as nat, N as nat) ==> (#[trigger] self@[r][c]) == if r == c && r
                        < i {
                        1i64
                    } else {
                        0i64
                    },
            decreases N - i,
        {
            set_cell_one(self.get_unchecked_mut(i, i));
            i = i + 1;
        }
        assert(self.ints() =~~= mat_one(N as nat));
    }

    /// Whether this is the identity matrix.
    pub fn is_one(&self) -> (b: bool)
        ensures
            b <==> self.ints() == mat_one(N as nat),
    {
        let mut i: usize = 0;
        while i < N
            invariant
                i <= N,
                forall|r: int, c: int|
                    0 <= r < i && 0 <= c < N ==> (#[trigger] self@[r][c]) == if r == c {
                        1i64
                    } else {
                        0i64
                    },
            decreases N - i,
        {
            let mut j: usize = 0;
            while j < N
                invariant
                    i < N,
                    j <= N,
                    forall|c: int|
                        0 <= c < j ==> (#[trigger] self@[i as int][c]) == if i == c {
                            1i64
                        } else {
                            0i64
                        },
                decreases N - j,
            {
                let val = self.index((i, j));
                if i == j {
                    if !cell_is_one(val) {
                        assert(self.ints()[i as int][j as int] != mat_one(N as nat)[i as int][j as int]);
                        return false;
                    }
                } else {
                    if !cell_is_zero(val) {
                        assert(self.ints()[i as int][j as int] != mat_one(N as nat)[i as int][j as int]);
                        return false;
                    }
                }
                j = j + 1;
            }
            i = i + 1;
        }
        assert(self.ints() =~~= mat_one(N as nat));
        true
    }

    /// Multiplies this matrix by `other`. The whole product is computed from the
    /// matrix as it was before any cell is overwritten.
    pub fn mul_assign(&mut self, other: Self)
        requires
            product_fits(old(self).ints(), other.ints(), N as nat, N as nat, N as nat),
        ensures
            final(self).ints() == mat_mul(
                old(self).ints(),
                other.ints(),
                N as nat,
                N as nat,
                N as nat,
            ),
    {
        let before: Matrix<i64, N, N> = *self;
        let product: Matrix<i64, N, N> = before.mul(&other);
        *self = product;
    }
}

/// The partial sums of a product cell split over a sum of right operands.
pub proof fn lemma_dot_sum_splits_right(
    a: Seq<Seq<int>>,
    b: Seq<Seq<int>>,
    c: Seq<Seq<int>>,
    m: nat,
    o: nat,
    i: int,
    j: int,
    k: nat,
)
    requires
        0 <= j < o,
        k <= m,
    ensures
        dot_sum(a, mat_add(b, c, m, o), i, j, k) == dot_sum(a, b, i, j, k) + dot_sum(a, c, i, j, k),
    decreases k,
{
    if k > 0 {
        lemma_dot_sum_splits_right(a, b, c, m, o, i, j, (k - 1) as nat);
        let x = a[i][k - 1];
        let y = b[k - 1][j];
        let z = c[k - 1][j];
        assert(mat_add(b, c, m, o)[k - 1][j] == y + z);
        assert(x * (y + z) == x * y + x * z) by (nonlinear_arith);
    }
}

/// The partial sums of a product cell split over a sum of left operands.
pub proof fn lemma_dot_sum_splits_left(
    a: Seq<Seq<int>>,
    b: Seq<Seq<int>>,
    c: Seq<Seq<int>>,
    n: nat,
    m: nat,
    i: int,
    j: int,
    k: nat,
)
    requires
        0 <= i < n,
        k <= m,
    ensures
        dot_sum(mat_add(a, b, n, m), c, i, j, k) == dot_sum(a, c, i, j, k) + dot_sum(b, c, i, j, k),
    decreases k,
{
    if k > 0 {
        lemma_dot_sum_splits_left(a, b, c, n, m, i, j, (k - 1) as nat);
        let x = a[i][k - 1];
        let y = b[i][k - 1];
        let z = c[k - 1][j];
        assert(mat_add(a, b, n, m)[i][k - 1] == x + y);
        assert((x + y) * z == x * z + y * z) by (nonlinear_arith);
    }
}

/// The product distributes over the sum of right operands:
/// `a (b + c) = a b + a c`.
pub proof fn lemma_mul_distributes_over_right_sum(
    a: Seq<Seq<int>>,
    b: Seq<Seq<int>>,
    c: Seq<Seq<int>>,
    n: nat,
    m: nat,
    o: nat,
)
    ensures
        mat_mul(a, mat_add(b, c, m, o), n, m, o) == mat_add(
            mat_mul(a, b, n, m, o),
            mat_mul(a, c, n, m, o),
            n,
            o,
        ),
{
    assert forall|i: int, j: int| 0 <= i < n && 0 <= j < o implies dot_sum(
        a,
        mat_add(b, c, m, o),
        i,
        j,
        m,
    ) == dot_sum(a, b, i, j, m) + dot_sum(a, c, i, j, m) by {
        lemma_dot_sum_splits_right(a, b, c, m, o, i, j, m);
    }
    assert(mat_mul(a, mat_add(b, c, m, o), n, m, o) =~~= mat_add(
        mat_mul(a, b, n, m, o),
        mat_mul(a, c, n, m, o),
        n,
        o,
    ));
}

/// The product distributes over the sum of left operands:
/// `(a + b) c = a c + b c`.
pub proof fn lemma_mul_distributes_over_left_sum(
    a: Seq<Seq<int>>,
    b: Seq<Seq<int>>,
    c: Seq<Seq<int>>,
    n: nat,
    m: nat,
    o: nat,
)
    ensures
        mat_mul(mat_add(a, b, n, m), c, n, m, o) == mat_add(
            mat_mul(a, c, n, m, o),
            mat_mul(b, c, n, m, o),
            n,
            o,
        ),
{
    assert forall|i: int, j: int| 0 <= i < n && 0 <= j < o implies dot_sum(
        mat_add(a, b, n, m),
        c,
        i,
        j,
        m,
    ) == dot_sum(a, c, i, j, m) + dot_sum(b, c, i, j, m) by {
        lemma_dot_sum_splits_left(a, b, c, n, m, i, j, m);
    }
    assert(mat_mul(mat_add(a, b, n, m), c, n, m, o) =~~= mat_add(
        mat_mul(a, c, n, m, o),
        mat_mul(b, c, n, m, o),
        n,
        o,
    ));
}

/// One of the products that a cell of a product of three grids sums:
/// `a[i][l] * b[l][k] * c[k][j]`.
pub open spec fn triple(
    a: Seq<Seq<int>>,
    b: Seq<Seq<int>>,
    c: Seq<Seq<int>>,
    i: int,
    j: int,
    l: int,
    k: int,
) -> int {
    a[i][l] * b[l][k] * c[k][j]
}

/// The sum of `triple` over the first `o` values of `k`, for one `l`.
pub open spec fn sum_over_k(
    a: Seq<Seq<int>>,
    b: Seq<Seq<int>>,
    c: Seq<Seq<int>>,
    i: int,
    j: int,
    l: int,
    o: nat,
) -> int
    decreases o,
{
    if o == 0 {
        0
    } else {
        sum_over_k(a, b, c, i, j, l, (o - 1) as nat) + triple(a, b, c, i, j, l, o - 1)
    }
}

/// The sum of `triple` over the first `m` values of `l`, for one `k`.
pub open spec fn sum_over_l(
    a: Seq<Seq<int>>,
    b: Seq<Seq<int>>,
    c: Seq<Seq<int>>,
    i: int,
    j: int,
    k: int,
    m: nat,
) -> int
    decreases m,
{
    if m == 0 {
        0
    } else {
        sum_over_l(a, b, c, i, j, k, (m - 1) as nat) + triple(a, b, c, i, j, m - 1, k)
    }
}

/// The sum of `triple` over `l < m` and `k < o`, taken `l` by `l`.
pub open spec fn sum_l_then_k(
    a: Seq<Seq<int>>,
    b: Seq<Seq<int>>,
    c: Seq<Seq<int>>,
    i: int,
    j: int,
    m: nat,
    o: nat,
) -> int
    decreases m,
{
    if m == 0 {
        0
    } else {
        sum_l_then_k(a, b, c, i, j, (m - 1) as nat, o) + sum_over_k(a, b, c, i, j, m - 1, o)
    }
}

/// The sum of `triple` over `l < m` and `k < o`, taken `k` by `k`.
pub open spec fn sum_k_then_l(
    a: Seq<Seq<int>>,
    b: Seq<Seq<int>>,
    c: Seq<Seq<int>>,
    i: int,
    j: int,
    m: nat,
    o: nat,
) -> int
    decreases o,
{
    if o == 0 {
        0
    } else {
        sum_k_then_l(a, b, c, i, j, m, (o - 1) as nat) + sum_over_l(a, b, c, i, j, o - 1, m)
    }
}

/// One more `l` adds that `l`'s sum over `k` to the sum taken `k` by `k`.
pub proof fn lemma_one_more_l(
    a: Seq<Seq<int>>,
    b: Seq<Seq<int>>,
    c: Seq<Seq<int>>,
    i: int,
    j: int,
    m: nat,
    o: nat,
)
    ensures
        sum_k_then_l(a, b, c, i, j, m + 1, o) == sum_k_then_l(a, b, c, i, j, m, o) + sum_over_k(
            a,
            b,
            c,
            i,
            j,
            m as int,
            o,
        ),
    decreases o,
{
    if o > 0 {
        lemma_one_more_l(a, b, c, i, j, m, (o - 1) as nat);
    }
}

/// A double sum does not depend on which index is summed first.
pub proof fn lemma_sums_exchange(
    a: Seq<Seq<int>>,
    b: Seq<Seq<int>>,
    c: Seq<Seq<int>>,
    i: int,
    j: int,
    m: nat,
    o: nat,
)
    ensures
        sum_l_then_k(a, b, c, i, j, m, o) == sum_k_then_l(a, b, c, i, j, m, o),
    decreases m, o,
{
    if m == 0 {
        if o > 0 {
            lemma_sums_exchange(a, b, c, i, j, m, (o - 1) as nat);
        }
    } else {
        lemma_sums_exchange(a, b, c, i, j, (m - 1) as nat, o);
        lemma_one_more_l(a, b, c, i, j, (m - 1) as nat, o);
    }
}

/// A cell of `a` times a partial sum of a cell of `b c` is a sum of triples.
pub proof fn lemma_scaled_dot_sum_right(
    a: Seq<Seq<int>>,
    b: Seq<Seq<int>>,
    c: Seq<Seq<int>>,
    i: int,
    j: int,
    l: int,
    o: nat,
)
    ensures
        a[i][l] * dot_sum(b, c, l, j, o) == sum_over_k(a, b, c, i, j, l, o),
    decreases o,
{
    if o > 0 {
        lemma_scaled_dot_sum_right(a, b, c, i, j, l, (o - 1) as nat);
        let x = a[i][l];
        let s = dot_sum(b, c, l, j, (o - 1) as nat);
        let y = b[l][o - 1];
        let z = c[o - 1][j];
        assert(dot_sum(b, c, l, j, o) == s + y * z);
        assert(x * (s + y * z) == x * s + x * y * z) by (nonlinear_arith);
    } else {
        assert(a[i][l] * 0 == 0);
    }
}

/// A partial sum of a cell of `a b` times a cell of `c` is a sum of triples.
pub proof fn lemma_scaled_dot_sum_left(
    a: Seq<Seq<int>>,
    b: Seq<Seq<int>>,
    c: Seq<Seq<int>>,
    i: int,
    j: int,
    k: int,
    m: nat,
)
    ensures
        dot_sum(a, b, i, k, m) * c[k][j] == sum_over_l(a, b, c, i, j, k, m),
    decreases m,
{
    if m > 0 {
        lemma_scaled_dot_sum_left(a, b, c, i, j, k, (m - 1) as nat);
        let s = dot_sum(a, b, i, k, (m - 1) as nat);
        let x = a[i][m - 1];
        let y = b[m - 1][k];
        let z = c[k][j];
        assert(dot_sum(a, b, i, k, m) == s + x * y);
        assert((s + x * y) * z == s * z + x * y * z) by (nonlinear_arith);
    } else {
        assert(0 * c[k][j] == 0);
    }
}

/// A cell of `(a b) c` is the sum of triples taken `k` by `k`.
pub proof fn lemma_left_product_cell(
    a: Seq<Seq<int>>,
    b: Seq<Seq<int>>,
    c: Seq<Seq<int>>,
    n: nat,
    m: nat,
    o: nat,
    i: int,
    j: int,
    k: nat,
)
    requires
        0 <= i < n,
        k <= o,
    ensures
        dot_sum(mat_mul(a, b, n, m, o), c, i, j, k) == sum_k_then_l(a, b, c, i, j, m, k),
    decreases k,
{
    if k > 0 {
        lemma_left_product_cell(a, b, c, n, m, o, i, j, (k - 1) as nat);
        lemma_scaled_dot_sum_left(a, b, c, i, j, k - 1, m);
        assert(mat_mul(a, b, n, m, o)[i][k - 1] == dot_sum(a, b, i, k - 1, m));
    }
}

/// A cell of `a (b c)` is the sum of triples taken `l` by `l`.
pub proof fn lemma_right_product_cell(
    a: Seq<Seq<int>>,
    b: Seq<Seq<int>>,
    c: Seq<Seq<int>>,
    m: nat,
    o: nat,
    p: nat,
    i: int,
    j: int,
    l: nat,
)
    requires
        0 <= j < p,
        l <= m,
    ensures
        dot_sum(a, mat_mul(b, c, m, o, p), i, j, l) == sum_l_then_k(a, b, c, i, j, l, o),
    decreases l,
{
    if l > 0 {
        lemma_right_product_cell(a, b, c, m, o, p, i, j, (l - 1) as nat);
        lemma_scaled_dot_sum_right(a, b, c, i, j, l - 1, o);
        assert(mat_mul(b, c, m, o, p)[l - 1][j] == dot_sum(b, c, l - 1, j, o));
    }
}

/// The product is associative: `(a b) c = a (b c)`, for `a` of `n` by `m`
/// cells, `b` of `m` by `o` and `c` of `o` by `p`.
pub proof fn lemma_mul_is_associative(
    a: Seq<Seq<int>>,
    b: Seq<Seq<int>>,
    c: Seq<Seq<int>>,
    n: nat,
    m: nat,
    o: nat,
    p: nat,
)
    ensures
        mat_mul(mat_mul(a, b, n, m, o), c, n, o, p) == mat_mul(a, mat_mul(b, c, m, o, p), n, m, p),
{
    assert forall|i: int, j: int| 0 <= i < n && 0 <= j < p implies dot_sum(
        mat_mul(a, b, n, m, o),
        c,
        i,
        j,
        o,
    ) == dot_sum(a, mat_mul(b, c, m, o, p), i, j, m) by {
        lemma_left_product_cell(a, b, c, n, m, o, i, j, o);
        lemma_right_product_cell(a, b, c, m, o, p, i, j, m);
        lemma_sums_exchange(a, b, c, i, j, m, o);
    }
    assert(mat_mul(mat_mul(a, b, n, m, o), c, n, o, p) =~~= mat_mul(
        a,
        mat_mul(b, c, m, o, p),
        n,
        m,
        p,
    ));
}

/// Adding the grid of zeros changes nothing.
pub proof fn lemma_add_zero(a: Seq<Seq<int>>, rows: nat, cols: nat)
    requires
        has_shape(a, rows, cols),
    ensures
        mat_add(a, mat_zero(rows, cols), rows, cols) == a,
        mat_add(mat_zero(rows, cols), a, rows, cols) == a,
{
    assert(mat_add(a, mat_zero(rows, cols), rows, cols) =~~= a);
    assert(mat_add(mat_zero(rows, cols), a, rows, cols) =~~= a);
}

/// A sum of products with zeros is zero.
pub proof fn lemma_dot_sum_with_zero(a: Seq<Seq<int>>, m: nat, o: nat, i: int, j: int, k: nat)
    requires
        0 <= j < o,
        k <= m,
    ensures
        dot_sum(a, mat_zero(m, o), i, j, k) == 0,
    decreases k,
{
    if k > 0 {
        lemma_dot_sum_with_zero(a, m, o, i, j, (k - 1) as nat);
        assert(mat_zero(m, o)[k - 1][j] == 0);
        assert(a[i][k - 1] * 0 == 0);
    }
}

/// The product with the grid of zeros is the grid of zeros.
pub proof fn lemma_mul_zero(a: Seq<Seq<int>>, n: nat, m: nat, o: nat)
    ensures
        mat_mul(a, mat_zero(m, o), n, m, o) == mat_zero(n, o),
{
    assert forall|i: int, j: int| 0 <= i < n && 0 <= j < o implies dot_sum(
        a,
        mat_zero(m, o),
        i,
        j,
        m,
    ) == 0 by {
        lemma_dot_sum_with_zero(a, m, o, i, j, m);
    }
    assert(mat_mul(a, mat_zero(m, o), n, m, o) =~~= mat_zero(n, o));
}

/// A sum of products with a column of the identity picks one cell.
pub proof fn lemma_dot_sum_with_one(a: Seq<Seq<int>>, m: nat, i: int, j: int, k: nat)
    requires
        0 <= j < m,
        k <= m,
    ensures
        dot_sum(a, mat_one(m), i, j, k) == (if j < k {
            a[i][j]
        } else {
            0
        }),
    decreases k,
{
    if k > 0 {
        lemma_dot_sum_with_one(a, m, i, j, (k - 1) as nat);
        let x = a[i][k - 1];
        assert(mat_one(m)[k - 1][j] == if k - 1 == j {
            1int
        } else {
            0int
        });
        assert(x * 1 == x && x * 0 == 0);
    }
}

/// The product with the identity on the right changes nothing.
pub proof fn lemma_mul_one(a: Seq<Seq<int>>, n: nat, m: nat)
    requires
        has_shape(a, n, m),
    ensures
        mat_mul(a, mat_one(m), n, m, m) == a,
{
    assert forall|i: int, j: int| 0 <= i < n && 0 <= j < m implies dot_sum(
        a,
        mat_one(m),
        i,
        j,
        m,
    ) == a[i][j] by {
        lemma_dot_sum_with_one(a, m, i, j, m);
    }
    assert(mat_mul(a, mat_one(m), n, m, m) =~~= a);
}

/// Flipping every sign twice changes nothing.
pub proof fn lemma_neg_twice(a: Seq<Seq<int>>, rows: nat, cols: nat)
    requires
        has_shape(a, rows, cols),
    ensures
        mat_neg(mat_neg(a, rows, cols), rows, cols) == a,
{
    assert(mat_neg(mat_neg(a, rows, cols), rows, cols) =~~= a);
}

} // verus!
