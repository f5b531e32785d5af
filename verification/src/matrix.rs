//! A matrix whose shape is part of its type, stored row by row.

use crate::array_vec::{ArrayVec, IntoIter};
use crate::grants::{asked_before, granted, hand_out, lend_cells};
use vstd::prelude::*;
use vstd::std_specs::cmp::{PartialEqSpec, PartialEqSpecImpl};

verus! {

/// The rows of a two-dimensional array, each as the sequence of its cells.
pub open spec fn grid_of<T, const N: usize, const M: usize>(cells: [[T; M]; N]) -> Seq<Seq<T>> {
    Seq::new(N as nat, |i: int| cells@[i]@)
}

/// The grid `g` with the cell at `(row, col)` replaced by `v`.
pub open spec fn with_cell<T>(g: Seq<Seq<T>>, row: int, col: int, v: T) -> Seq<Seq<T>> {
    g.update(row, g[row].update(col, v))
}

/// The grid of `cols` rows and `rows` columns whose cell `(c, r)` is cell `(r, c)` of `g`.
pub open spec fn transposed<T>(g: Seq<Seq<T>>, rows: nat, cols: nat) -> Seq<Seq<T>> {
    Seq::new(cols, |c: int| Seq::new(rows, |r: int| g[r][c]))
}

/// Whether `(row, col)` names a cell of a grid of `rows` by `cols` cells.
pub open spec fn in_grid(row: int, col: int, rows: nat, cols: nat) -> bool {
    0 <= row < rows && 0 <= col < cols
}

/// Whether `g` has `rows` rows of `cols` cells each.
pub open spec fn has_shape<T>(g: Seq<Seq<T>>, rows: nat, cols: nat) -> bool {
    g.len() == rows && forall|r: int| 0 <= r < rows ==> (#[trigger] g[r]).len() == cols
}

/// A cursor over the items of an array, first to last.
pub fn into_iter<T, const N: usize>(arr: [T; N]) -> (out: IntoIter<T, N>)
    ensures
        out.wf(),
        out@ == arr@,
{
    ArrayVec::<T, N>::from(arr).into_iter()
}

/// The array that a full buffer holds.
pub fn to_array<T, const N: usize>(arr: ArrayVec<T, N>) -> (out: [T; N])
    requires
        arr@.len() == N,
    ensures
        out@ == arr@,
{
    arr.into_array_unchecked()
}

/// The array made of exactly `N` items.
pub fn collect_array<T, const N: usize>(items: Vec<T>) -> (out: [T; N])
    requires
        items@.len() == N,
    ensures
        out@ == items@,
{
    to_array(ArrayVec::<T, N>::from_iter(items.into_iter()))
}

/// The matrix made of exactly `N` rows.
pub fn collect_mat<T, const N: usize, const M: usize>(rows: Vec<[T; M]>) -> (out: Matrix<T, N, M>)
    requires
        rows@.len() == N,
    ensures
        out@ == Seq::new(N as nat, |i: int| rows@[i]@),
{
    Matrix(collect_array(rows))
}

/// `N` rows of `M` cells each.
#[derive(Copy, Debug, Eq, Hash)]
pub struct Matrix<T, const N: usize, const M: usize>(pub [[T; M]; N]);

/// A matrix with as many rows as columns.
pub type SquareMatrix<T, const N: usize> = Matrix<T, N, N>;

impl<T, const N: usize, const M: usize> View for Matrix<T, N, M> {
    type V = Seq<Seq<T>>;

    /// The rows, top to bottom, each as the sequence of its cells.
    open spec fn view(&self) -> Seq<Seq<T>> {
        grid_of(self.0)
    }
}

impl<T, const N: usize, const M: usize> Matrix<T, N, M> {
    /// Whether `(row, col)` names a cell of this shape.
    pub open spec fn has_cell(row: int, col: int) -> bool {
        in_grid(row, col, N as nat, M as nat)
    }

    /// Every matrix has the shape that its type names.
    pub proof fn lemma_shape(self)
        ensures
            has_shape(self@, N as nat, M as nat),
    {
    }

    /// The matrix over the rows of `cells`.
    pub fn from(cells: [[T; M]; N]) -> (out: Self)
        ensures
            out.0 == cells,
            out@ == grid_of(cells),
    {
        Matrix(cells)
    }

    /// The rows of the matrix as a two-dimensional array.
    pub fn into(self) -> (cells: [[T; M]; N])
        ensures
            cells == self.0,
            grid_of(cells) == self@,
    {
        self.0
    }

    /// The cell at `(row, col)` of a matrix known to have one there.
    pub fn get_unchecked(&self, row: usize, col: usize) -> (res: &T)
        requires
            Self::has_cell(row as int, col as int),
        ensures
            *res == self@[row as int][col as int],
    {
        &self.0[row][col]
    }

    /// Exclusive access to the cell at `(row, col)` of a matrix known to have one there.
    pub fn get_unchecked_mut(&mut self, row: usize, col: usize) -> (res: &mut T)
        requires
            Self::has_cell(row as int, col as int),
        ensures
            *res == old(self)@[row as int][col as int],
            final(self)@ == with_cell(old(self)@, row as int, col as int, *final(res)),
    {
        &mut self.0[row][col]
    }

    /// The cell at `pos`, which must lie inside the matrix.
    pub fn index(&self, pos: (usize, usize)) -> (res: &T)
        requires
            Self::has_cell(pos.0 as int, pos.1 as int),
        ensures
            *res == self@[pos.0 as int][pos.1 as int],
    {
        match self.get(pos.0, pos.1) {
            Some(cell) => cell,
            None => vstd::pervasive::unreached(),
        }
    }

    /// Exclusive access to the cell at `pos`, which must lie inside the matrix.
    pub fn index_mut(&mut self, pos: (usize, usize)) -> (res: &mut T)
        requires
            Self::has_cell(pos.0 as int, pos.1 as int),
        ensures
            *res == old(self)@[pos.0 as int][pos.1 as int],
            final(self)@ == with_cell(old(self)@, pos.0 as int, pos.1 as int, *final(res)),
    {
        match self.get_mut(pos.0, pos.1) {
            Some(cell) => cell,
            None => vstd::pervasive::unreached(),
        }
    }

    /// The matrix mirrored along its diagonal: cell `(row, col)` goes to `(col, row)`.
    pub fn transpose(self) -> (out: Matrix<T, M, N>)
        ensures
            out@ == transposed(self@, N as nat, M as nat),
    {
        let ghost target = transposed(self@, N as nat, M as nat);
        let mut cols = self.into_cols();
        let mut rows: Vec<[T; N]> = Vec::new();
        while rows.len() < M
            invariant
                cols.wf(),
                target == transposed(self@, N as nat, M as nat),
                rows@.len() <= M,
                cols@ == target.subrange(rows@.len() as int, M as int),
                forall|c: int| 0 <= c < rows@.len() ==> (#[trigger] rows@[c])@ == target[c],
            decreases M - rows@.len(),
        {
            let ghost done: int = rows@.len() as int;
            match cols.next() {
                Some(line) => {
                    rows.push(collect_array(line.collect()));
                },
                None => {},
            }
            assert(cols@ =~= target.subrange(done + 1, M as int));
        }
        let out: Matrix<T, M, N> = collect_mat(rows);
        assert(out@ =~~= target);
        out
    }

    /// The transpose, under its short name.
    #[allow(non_snake_case)]
    pub fn T(self) -> (out: Matrix<T, M, N>)
        ensures
            out@ == transposed(self@, N as nat, M as nat),
    {
        self.transpose()
    }

    /// Exclusive access to several cells at once. The `k`-th answer is for the
    /// `k`-th position: `None` outside the matrix, and `None` for a position that
    /// an earlier request already named, so that no two answers reach the same
    /// cell. Cells that were not handed out keep what they hold.
    pub fn get_all_mut<const P: usize>(&mut self, pos: [(usize, usize); P]) -> (out: [Option<&mut T>; P])
        ensures
            forall|k: int|
                0 <= k < P ==> ((#[trigger] out@[k]) is Some <==> granted(pos@, k, N as nat, M as nat)),
            forall|k: int|
                #![trigger out@[k]]
                0 <= k < P && granted(pos@, k, N as nat, M as nat) ==> ({
                    &&& *out@[k]->Some_0 == old(self)@[pos@[k].0 as int][pos@[k].1 as int]
                    &&& *final(out@[k]->Some_0) == final(self)@[pos@[k].0 as int][pos@[k].1 as int]
                }),
            forall|r: int, c: int|
                #![trigger final(self)@[r][c]]
                Self::has_cell(r, c) && !asked_before(pos@, P as int, r, c) ==> final(self)@[r][c]
                    == old(self)@[r][c],
    {
        let cells = lend_cells::<T, M>(&mut self.0);
        let answers = hand_out(cells, &pos, M);
        collect_array(answers)
    }

    /// The cell at `(row, col)`, or `None` outside the matrix.
    pub fn get(&self, row: usize, col: usize) -> (res: Option<&T>)
        ensures
            Self::has_cell(row as int, col as int) ==> res == Some(&self@[row as int][col as int]),
            !Self::has_cell(row as int, col as int) ==> res is None,
    {
        if row < N && col < M {
            Some(&self.0[row][col])
        } else {
            None
        }
    }

    /// Exclusive access to the cell at `(row, col)`, or `None` outside the matrix.
    /// Whatever the caller writes through it is the only change to the matrix.
    pub fn get_mut(&mut self, row: usize, col: usize) -> (res: Option<&mut T>)
        ensures
            Self::has_cell(row as int, col as int) ==> res is Some
                && *res->Some_0 == old(self)@[row as int][col as int]
                && final(self)@ == with_cell(
                old(self)@,
                row as int,
                col as int,
                *final(res->Some_0),
            ),
            !Self::has_cell(row as int, col as int) ==> res is None && final(self)@ == old(self)@,
    {
        if row < N && col < M {
            Some(&mut self.0[row][col])
        } else {
            None
        }
    }
}

impl<T, const N: usize, const M: usize> std::ops::Deref for Matrix<T, N, M> {
    type Target = [[T; M]; N];

    /// The rows of the matrix as a two-dimensional array.
    fn deref(&self) -> (cells: &[[T; M]; N])
        ensures
            *cells == self.0,
    {
        &self.0
    }
}

impl<T, const N: usize, const M: usize> std::ops::DerefMut for Matrix<T, N, M> {
    /// The rows of the matrix as a two-dimensional array, open to change in place.
    fn deref_mut(&mut self) -> (cells: &mut [[T; M]; N])
        ensures
            *cells == old(self).0,
            final(self).0 == *final(cells),
    {
        &mut self.0
    }
}

impl<T: Clone, const N: usize, const M: usize> Clone for Matrix<T, N, M> {
    /// A matrix whose cells are clones of the cells in the same place.
    fn clone(&self) -> (out: Self)
        ensures
            forall|r: int, c: int|
                Self::has_cell(r, c) ==> cloned::<T>(self@[r][c], #[trigger] out@[r][c]),
    {
        let mut rows: Vec<[T; M]> = Vec::new();
        while rows.len() < N
            invariant
                rows@.len() <= N,
                forall|r: int, c: int|
                    0 <= r < rows@.len() && 0 <= c < M ==> cloned::<T>(
                        self@[r][c],
                        #[trigger] rows@[r]@[c],
                    ),
            decreases N - rows@.len(),
        {
            let r: usize = rows.len();
            let mut cells: Vec<T> = Vec::new();
            while cells.len() < M
                invariant
                    r < N,
                    cells@.len() <= M,
                    forall|c: int|
                        0 <= c < cells@.len() ==> cloned::<T>(
                            self@[r as int][c],
                            #[trigger] cells@[c],
                        ),
                decreases M - cells@.len(),
            {
                let c: usize = cells.len();
                cells.push(self.0[r][c].clone());
            }
            rows.push(collect_array(cells));
        }
        collect_mat(rows)
    }
}

impl<T: PartialEq, const N: usize, const M: usize> PartialEq for Matrix<T, N, M> {
    /// Compares the cells in the same place, row by row, up to the first pair
    /// that differs.
    fn eq(&self, other: &Self) -> (same: bool) {
        let mut r: usize = 0;
        while r < N
            invariant
                r <= N,
                T::obeys_eq_spec() ==> forall|i: int, c: int|
                    0 <= i < r && 0 <= c < M ==> (#[trigger] self@[i][c]).eq_spec(&other@[i][c]),
            decreases N - r,
        {
            let mut c: usize = 0;
            while c < M
                invariant
                    r < N,
                    c <= M,
                    T::obeys_eq_spec() ==> forall|j: int|
                        0 <= j < c ==> (#[trigger] self@[r as int][j]).eq_spec(
                            &other@[r as int][j],
                        ),
                decreases M - c,
            {
                if !(self.0[r][c] == other.0[r][c]) {
                    proof {
                        if T::obeys_eq_spec() {
                            assert(Self::has_cell(r as int, c as int));
                            assert(!self@[r as int][c as int].eq_spec(&other@[r as int][c as int]));
                        }
                    }
                    return false;
                }
                c = c + 1;
            }
            r = r + 1;
        }
        true
    }
}

impl<T: PartialEq, const N: usize, const M: usize> PartialEqSpecImpl for Matrix<T, N, M> {
    open spec fn obeys_eq_spec() -> bool {
        T::obeys_eq_spec()
    }

    /// Two matrices are equal when the cells in every place are.
    open spec fn eq_spec(&self, other: &Self) -> bool {
        forall|r: int, c: int|
            Self::has_cell(r, c) ==> (#[trigger] self@[r][c]).eq_spec(&other@[r][c])
    }
}

/// Transposing twice gives the grid back.
pub proof fn lemma_transpose_involution<T>(g: Seq<Seq<T>>, rows: nat, cols: nat)
    requires
        has_shape(g, rows, cols),
    ensures
        transposed(transposed(g, rows, cols), cols, rows) == g,
{
    assert(transposed(transposed(g, rows, cols), cols, rows) =~~= g);
}

/// The transpose of a grid of `rows` by `cols` cells has `cols` by `rows` cells.
pub proof fn lemma_transpose_shape<T>(g: Seq<Seq<T>>, rows: nat, cols: nat)
    ensures
        has_shape(transposed(g, rows, cols), cols, rows),
{
}

} // verus!
