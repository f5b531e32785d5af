//! Applying a function to every cell of a matrix, or to every pair of
//! corresponding cells of two matrices of one shape.
//!
//! Each protocol exists for a matrix that is owned, borrowed or borrowed
//! exclusively; the function then gets each cell by value, by reference or by
//! exclusive reference. All of them run on one engine per protocol, which works
//! on a grid of slots; how a matrix is turned into such a grid is the only thing
//! in which the three kinds of access differ. Cells are visited row by row, left
//! to right.

use crate::grants::lend_cells;
use crate::matrix::{collect_array, collect_mat, in_grid, Matrix};
use vstd::prelude::*;

verus! {

/// Whether `slots` is a grid of `rows` by `cols` slots that are all filled.
pub open spec fn full<A>(slots: Seq<Vec<Option<A>>>, rows: nat, cols: nat) -> bool {
    &&& slots.len() == rows
    &&& forall|r: int| 0 <= r < rows ==> (#[trigger] slots[r])@.len() == cols
    &&& forall|r: int, c: int| 0 <= r < rows && 0 <= c < cols ==> (#[trigger] slots[r]@[c]) is Some
}

/// The cells of an owned matrix, each in a slot of its own.
pub fn own_cells<T, const N: usize, const M: usize>(m: Matrix<T, N, M>) -> (out: Vec<Vec<Option<T>>>)
    ensures
        full(out@, N as nat, M as nat),
        forall|r: int, c: int|
            #![trigger out@[r]@[c]]
            #![trigger m@[r][c]]
            0 <= r < N && 0 <= c < M ==> out@[r]@[c]->Some_0 == m@[r][c],
{
    let mut lines = m.into_rows();
    let mut out: Vec<Vec<Option<T>>> = Vec::new();
    while out.len() < N
        invariant
            lines.wf(),
            out@.len() <= N,
            lines@ == m@.subrange(out@.len() as int, N as int),
            forall|r: int| 0 <= r < out@.len() ==> (#[trigger] out@[r])@.len() == M,
            forall|r: int, c: int|
                0 <= r < out@.len() && 0 <= c < M ==> (#[trigger] out@[r]@[c]) == Some(m@[r][c]),
        decreases N - out@.len(),
    {
        let ghost r0: int = out@.len() as int;
        match lines.next() {
            Some(line) => {
                let mut line = line;
                let mut row: Vec<Option<T>> = Vec::new();
                while row.len() < M
                    invariant
                        line.wf(),
                        0 <= r0 < N,
                        row@.len() <= M,
                        line@ == m@[r0].subrange(row@.len() as int, M as int),
                        forall|c: int| 0 <= c < row@.len() ==> (#[trigger] row@[c]) == Some(m@[r0][c]),
                    decreases M - row@.len(),
                {
                    let ghost c0: int = row@.len() as int;
                    row.push(line.next());
                    assert(line@ =~= m@[r0].subrange(c0 + 1, M as int));
                }
                out.push(row);
            },
            None => {},
        }
        assert(lines@ =~= m@.subrange(r0 + 1, N as int));
    }
    out
}

/// References to the cells of a borrowed matrix, each in a slot of its own.
pub fn ref_cells<'a, T, const N: usize, const M: usize>(m: &'a Matrix<T, N, M>) -> (out: Vec<
    Vec<Option<&'a T>>,
>)
    ensures
        full(out@, N as nat, M as nat),
        forall|r: int, c: int|
            #![trigger out@[r]@[c]]
            #![trigger m@[r][c]]
            0 <= r < N && 0 <= c < M ==> *(out@[r]@[c]->Some_0) == m@[r][c],
{
    let mut out: Vec<Vec<Option<&'a T>>> = Vec::new();
    let mut r: usize = 0;
    while r < N
        invariant
            r <= N,
            out@.len() == r,
            forall|k: int| 0 <= k < r ==> (#[trigger] out@[k])@.len() == M,
            forall|k: int, c: int|
                0 <= k < r && 0 <= c < M ==> (#[trigger] out@[k]@[c]) is Some && *out@[k]@[c]->Some_0
                    == m@[k][c],
        decreases N - r,
    {
        let mut row: Vec<Option<&'a T>> = Vec::new();
        let mut c: usize = 0;
        while c < M
            invariant
                r < N,
                c <= M,
                row@.len() == c,
                forall|k: int|
                    0 <= k < c ==> (#[trigger] row@[k]) is Some && *row@[k]->Some_0 == m@[r as int][k],
            decreases M - c,
        {
            row.push(Some(&m.0[r][c]));
            c = c + 1;
        }
        out.push(row);
        r = r + 1;
    }
    out
}

/// The engine of `map`: the matrix of what `f` makes of each slot's content.
pub fn map_slots<A, V, F, const N: usize, const M: usize>(slots: Vec<Vec<Option<A>>>, f: F) -> (out:
    Matrix<V, N, M>) where F: FnMut(A) -> V
    requires
        full(slots@, N as nat, M as nat),
        forall|r: int, c: int|
            0 <= r < N && 0 <= c < M ==> f.requires(((#[trigger] slots@[r]@[c])->Some_0,)),
    ensures
        forall|r: int, c: int|
            #![trigger out@[r][c]]
            #![trigger in_grid(r, c, N as nat, M as nat)]
            0 <= r < N && 0 <= c < M ==> f.ensures((slots@[r]@[c]->Some_0,), out@[r][c]),
{
    let mut g = f;
    let mut left = slots;
    let mut rows: Vec<[V; M]> = Vec::new();
    let mut r: usize = 0;
    while r < N
        invariant
            g == f,
            r <= N,
            rows@.len() == r,
            full(slots@, N as nat, M as nat),
            left@.len() == N,
            forall|k: int| 0 <= k < N ==> (#[trigger] left@[k])@.len() == M,
            forall|k: int| r <= k < N ==> (#[trigger] left@[k]) == slots@[k],
            forall|k: int, c: int|
                0 <= k < N && 0 <= c < M ==> f.requires(((#[trigger] slots@[k]@[c])->Some_0,)),
            forall|k: int, c: int|
                0 <= k < r && 0 <= c < M ==> f.ensures(
                    (slots@[k]@[c]->Some_0,),
                    #[trigger] rows@[k]@[c],
                ),
        decreases N - r,
    {
        let mut cells: Vec<V> = Vec::new();
        let mut c: usize = 0;
        while c < M
            invariant
                g == f,
                r < N,
                c <= M,
                cells@.len() == c,
                full(slots@, N as nat, M as nat),
                left@.len() == N,
                forall|k: int| 0 <= k < N ==> (#[trigger] left@[k])@.len() == M,
                forall|k: int| r < k < N ==> (#[trigger] left@[k]) == slots@[k],
                forall|j: int| c <= j < M ==> (#[trigger] left@[r as int]@[j]) == slots@[r as int]@[j],
                forall|k: int, j: int|
                    0 <= k < N && 0 <= j < M ==> f.requires(((#[trigger] slots@[k]@[j])->Some_0,)),
                forall|j: int|
                    0 <= j < c ==> f.ensures((slots@[r as int]@[j]->Some_0,), #[trigger] cells@[j]),
            decreases M - c,
        {
            match left[r][c].take() {
                Some(cell) => {
                    cells.push(g(cell));
                },
                None => {},
            }
            c = c + 1;
        }
        rows.push(collect_array(cells));
        r = r + 1;
    }
    collect_mat(rows)
}

/// The engine of `zip_with`: the matrix of what `f` makes of each pair of
/// slots in the same place.
pub fn zip_slots<A, B, V, F, const N: usize, const M: usize>(
    lhs: Vec<Vec<Option<A>>>,
    rhs: Vec<Vec<Option<B>>>,
    f: F,
) -> (out: Matrix<V, N, M>) where F: FnMut(A, B) -> V
    requires
        full(lhs@, N as nat, M as nat),
        full(rhs@, N as nat, M as nat),
        forall|r: int, c: int|
            0 <= r < N && 0 <= c < M ==> f.requires(
                ((#[trigger] lhs@[r]@[c])->Some_0, rhs@[r]@[c]->Some_0),
            ),
    ensures
        forall|r: int, c: int|
            #![trigger out@[r][c]]
            #![trigger in_grid(r, c, N as nat, M as nat)]
            0 <= r < N && 0 <= c < M ==> f.ensures(
                (lhs@[r]@[c]->Some_0, rhs@[r]@[c]->Some_0),
                out@[r][c],
            ),
{
    let mut g = f;
    let mut left = lhs;
    let mut right = rhs;
    let mut rows: Vec<[V; M]> = Vec::new();
    let mut r: usize = 0;
    while r < N
        invariant
            g == f,
            r <= N,
            rows@.len() == r,
            full(lhs@, N as nat, M as nat),
            full(rhs@, N as nat, M as nat),
            left@.len() == N,
            right@.len() == N,
            forall|k: int| 0 <= k < N ==> (#[trigger] left@[k])@.len() == M,
            forall|k: int| 0 <= k < N ==> (#[trigger] right@[k])@.len() == M,
            forall|k: int| r <= k < N ==> (#[trigger] left@[k]) == lhs@[k],
            forall|k: int| r <= k < N ==> (#[trigger] right@[k]) == rhs@[k],
            forall|k: int, c: int|
                0 <= k < N && 0 <= c < M ==> f.requires(
                    ((#[trigger] lhs@[k]@[c])->Some_0, rhs@[k]@[c]->Some_0),
                ),
            forall|k: int, c: int|
                0 <= k < r && 0 <= c < M ==> f.ensures(
                    (lhs@[k]@[c]->Some_0, rhs@[k]@[c]->Some_0),
                    #[trigger] rows@[k]@[c],
                ),
        decreases N - r,
    {
        let mut cells: Vec<V> = Vec::new();
        let mut c: usize = 0;
        while c < M
            invariant
                g == f,
                r < N,
                c <= M,
                cells@.len() == c,
                full(lhs@, N as nat, M as nat),
                full(rhs@, N as nat, M as nat),
                left@.len() == N,
                right@.len() == N,
                forall|k: int| 0 <= k < N ==> (#[trigger] left@[k])@.len() == M,
                forall|k: int| 0 <= k < N ==> (#[trigger] right@[k])@.len() == M,
                forall|k: int| r < k < N ==> (#[trigger] left@[k]) == lhs@[k],
                forall|k: int| r < k < N ==> (#[trigger] right@[k]) == rhs@[k],
                forall|j: int| c <= j < M ==> (#[trigger] left@[r as int]@[j]) == lhs@[r as int]@[j],
                forall|j: int| c <= j < M ==> (#[trigger] right@[r as int]@[j]) == rhs@[r as int]@[j],
                forall|k: int, j: int|
                    0 <= k < N && 0 <= j < M ==> f.requires(
                        ((#[trigger] lhs@[k]@[j])->Some_0, rhs@[k]@[j]->Some_0),
                    ),
                forall|j: int|
                    0 <= j < c ==> f.ensures(
                        (lhs@[r as int]@[j]->Some_0, rhs@[r as int]@[j]->Some_0),
                        #[trigger] cells@[j],
                    ),
            decreases M - c,
        {
            let a = left[r][c].take();
            let b = right[r][c].take();
            match (a, b) {
                (Some(x), Some(y)) => {
                    cells.push(g(x, y));
                },
                _ => {},
            }
            c = c + 1;
        }
        rows.push(collect_array(cells));
        r = r + 1;
    }
    collect_mat(rows)
}

/// The engine of `for_each`: `f` is called on the content of every slot.
pub fn each_slot<A, R, F>(slots: Vec<Vec<Option<A>>>, f: F, rows: usize, cols: usize) where
    F: FnMut(A) -> R,

    requires
        full(slots@, rows as nat, cols as nat),
        forall|r: int, c: int|
            0 <= r < rows && 0 <= c < cols ==> f.requires(((#[trigger] slots@[r]@[c])->Some_0,)),
    ensures
        forall|r: int, c: int|
            #![trigger slots@[r]@[c]]
            #![trigger in_grid(r, c, rows as nat, cols as nat)]
            0 <= r < rows && 0 <= c < cols ==> exists|made: R|
                #![trigger f.ensures((slots@[r]@[c]->Some_0,), made)]
                f.ensures((slots@[r]@[c]->Some_0,), made),
{
    let mut g = f;
    let mut left = slots;
    let mut r: usize = 0;
    while r < rows
        invariant
            g == f,
            r <= rows,
            full(slots@, rows as nat, cols as nat),
            left@.len() == rows,
            forall|k: int| 0 <= k < rows ==> (#[trigger] left@[k])@.len() == cols,
            forall|k: int| r <= k < rows ==> (#[trigger] left@[k]) == slots@[k],
            forall|k: int, c: int|
                0 <= k < rows && 0 <= c < cols ==> f.requires(
                    ((#[trigger] slots@[k]@[c])->Some_0,),
                ),
            forall|k: int, c: int|
                #![trigger slots@[k]@[c]]
                0 <= k < r && 0 <= c < cols ==> exists|made: R|
                    #![trigger f.ensures((slots@[k]@[c]->Some_0,), made)]
                    f.ensures((slots@[k]@[c]->Some_0,), made),
        decreases rows - r,
    {
        let mut c: usize = 0;
        while c < cols
            invariant
                g == f,
                r < rows,
                c <= cols,
                full(slots@, rows as nat, cols as nat),
                left@.len() == rows,
                forall|k: int| 0 <= k < rows ==> (#[trigger] left@[k])@.len() == cols,
                forall|k: int| r < k < rows ==> (#[trigger] left@[k]) == slots@[k],
                forall|j: int|
                    c <= j < cols ==> (#[trigger] left@[r as int]@[j]) == slots@[r as int]@[j],
                forall|k: int, j: int|
                    0 <= k < rows && 0 <= j < cols ==> f.requires(
                        ((#[trigger] slots@[k]@[j])->Some_0,),
                    ),
                forall|k: int, j: int|
                    #![trigger slots@[k]@[j]]
                    0 <= k < r && 0 <= j < cols ==> exists|made: R|
                        #![trigger f.ensures((slots@[k]@[j]->Some_0,), made)]
                        f.ensures((slots@[k]@[j]->Some_0,), made),
                forall|j: int|
                    #![trigger slots@[r as int]@[j]]
                    0 <= j < c ==> exists|made: R|
                        #![trigger f.ensures((slots@[r as int]@[j]->Some_0,), made)]
                        f.ensures((slots@[r as int]@[j]->Some_0,), made),
            decreases cols - c,
        {
            match left[r][c].take() {
                Some(cell) => {
                    let _ = g(cell);
                },
                None => {},
            }
            c = c + 1;
        }
        r = r + 1;
    }
}

/// The engine of `for_both`: `f` is called on the contents of every pair of
/// slots in the same place.
pub fn both_slots<A, B, R, F>(
    lhs: Vec<Vec<Option<A>>>,
    rhs: Vec<Vec<Option<B>>>,
    f: F,
    rows: usize,
    cols: usize,
) where F: FnMut(A, B) -> R
    requires
        full(lhs@, rows as nat, cols as nat),
        full(rhs@, rows as nat, cols as nat),
        forall|r: int, c: int|
            0 <= r < rows && 0 <= c < cols ==> f.requires(
                ((#[trigger] lhs@[r]@[c])->Some_0, rhs@[r]@[c]->Some_0),
            ),
    ensures
        forall|r: int, c: int|
            #![trigger lhs@[r]@[c]]
            #![trigger rhs@[r]@[c]]
            #![trigger in_grid(r, c, rows as nat, cols as nat)]
            0 <= r < rows && 0 <= c < cols ==> exists|made: R|
                #![trigger f.ensures((lhs@[r]@[c]->Some_0, rhs@[r]@[c]->Some_0), made)]
                f.ensures((lhs@[r]@[c]->Some_0, rhs@[r]@[c]->Some_0), made),
{
    let mut g = f;
    let mut left = lhs;
    let mut right = rhs;
    let mut r: usize = 0;
    while r < rows
        invariant
            g == f,
            r <= rows,
            full(lhs@, rows as nat, cols as nat),
            full(rhs@, rows as nat, cols as nat),
            left@.len() == rows,
            right@.len() == rows,
            forall|k: int| 0 <= k < rows ==> (#[trigger] left@[k])@.len() == cols,
            forall|k: int| 0 <= k < rows ==> (#[trigger] right@[k])@.len() == cols,
            forall|k: int| r <= k < rows ==> (#[trigger] left@[k]) == lhs@[k],
            forall|k: int| r <= k < rows ==> (#[trigger] right@[k]) == rhs@[k],
            forall|k: int, c: int|
                0 <= k < rows && 0 <= c < cols ==> f.requires(
                    ((#[trigger] lhs@[k]@[c])->Some_0, rhs@[k]@[c]->Some_0),
                ),
            forall|k: int, c: int|
                #![trigger lhs@[k]@[c]]
                #![trigger rhs@[k]@[c]]
                0 <= k < r && 0 <= c < cols ==> exists|made: R|
                    #![trigger f.ensures((lhs@[k]@[c]->Some_0, rhs@[k]@[c]->Some_0), made)]
                    f.ensures((lhs@[k]@[c]->Some_0, rhs@[k]@[c]->Some_0), made),
        decreases rows - r,
    {
        let mut c: usize = 0;
        while c < cols
            invariant
                g == f,
                r < rows,
                c <= cols,
                full(lhs@, rows as nat, cols as nat),
                full(rhs@, rows as nat, cols as nat),
                left@.len() == rows,
                right@.len() == rows,
                forall|k: int| 0 <= k < rows ==> (#[trigger] left@[k])@.len() == cols,
                forall|k: int| 0 <= k < rows ==> (#[trigger] right@[k])@.len() == cols,
                forall|k: int| r < k < rows ==> (#[trigger] left@[k]) == lhs@[k],
                forall|k: int| r < k < rows ==> (#[trigger] right@[k]) == rhs@[k],
                forall|j: int|
                    c <= j < cols ==> (#[trigger] left@[r as int]@[j]) == lhs@[r as int]@[j],
                forall|j: int|
                    c <= j < cols ==> (#[trigger] right@[r as int]@[j]) == rhs@[r as int]@[j],
                forall|k: int, j: int|
                    0 <= k < rows && 0 <= j < cols ==> f.requires(
                        ((#[trigger] lhs@[k]@[j])->Some_0, rhs@[k]@[j]->Some_0),
                    ),
                forall|k: int, j: int|
                    #![trigger lhs@[k]@[j]]
                    #![trigger rhs@[k]@[j]]
                    0 <= k < r && 0 <= j < cols ==> exists|made: R|
                        #![trigger f.ensures((lhs@[k]@[j]->Some_0, rhs@[k]@[j]->Some_0), made)]
                        f.ensures((lhs@[k]@[j]->Some_0, rhs@[k]@[j]->Some_0), made),
                forall|j: int|
                    #![trigger lhs@[r as int]@[j]]
                    #![trigger rhs@[r as int]@[j]]
                    0 <= j < c ==> exists|made: R|
                        #![trigger f.ensures(
                            (lhs@[r as int]@[j]->Some_0, rhs@[r as int]@[j]->Some_0),
                            made,
                        )]
                        f.ensures((lhs@[r as int]@[j]->Some_0, rhs@[r as int]@[j]->Some_0), made),
            decreases cols - c,
        {
            let a = left[r][c].take();
            let b = right[r][c].take();
            match (a, b) {
                (Some(x), Some(y)) => {
                    let _ = g(x, y);
                },
                _ => {},
            }
            c = c + 1;
        }
        r = r + 1;
    }
}

/// Exclusive references to the cells of an exclusively borrowed matrix, each in
/// a slot of its own. What is written through them is what the matrix holds in
/// the end.
pub fn lend_matrix<'a, T, const N: usize, const M: usize>(m: &'a mut Matrix<T, N, M>) -> (out: Vec<
    Vec<Option<&'a mut T>>,
>)
    ensures
        full(out@, N as nat, M as nat),
        forall|r: int, c: int|
            #![trigger out@[r]@[c]]
            #![trigger old(m)@[r][c]]
            0 <= r < N && 0 <= c < M ==> *(out@[r]@[c]->Some_0) == old(m)@[r][c]
                && *final(out@[r]@[c]->Some_0) == final(m)@[r][c],
{
    lend_cells::<T, M>(&mut m.0)
}

/// Builds a matrix of the same shape from what a function makes of each cell.
pub trait MapCells<F>: Sized {
    type Output;

    /// What the function must accept: every cell of the matrix.
    spec fn map_requires(self, f: F) -> bool;

    fn map(self, f: F) -> (out: Self::Output)
        requires
            self.map_requires(f),
    ;
}

/// Calls a function on every cell of a matrix, for what the call does.
pub trait ForEach<F>: Sized {
    /// What the function must accept: every cell of the matrix.
    spec fn for_each_requires(self, f: F) -> bool;

    fn for_each(self, f: F)
        requires
            self.for_each_requires(f),
    ;
}

/// Builds a matrix from what a function makes of each pair of cells that
/// two matrices of one shape hold in the same place.
pub trait ZipWith<RHS, F>: Sized {
    type Output;

    /// What the function must accept: every pair of cells in the same place.
    spec fn zip_with_requires(self, other: RHS, f: F) -> bool;

    fn zip_with(self, other: RHS, f: F) -> (out: Self::Output)
        requires
            self.zip_with_requires(other, f),
    ;
}

/// Calls a function on every pair of cells that two matrices of one shape
/// hold in the same place, for what the call does.
pub trait ForBoth<RHS, F>: Sized {
    /// What the function must accept: every pair of cells in the same place.
    spec fn for_both_requires(self, other: RHS, f: F) -> bool;

    fn for_both(self, other: RHS, f: F)
        requires
            self.for_both_requires(other, f),
    ;
}

impl<F, T, V, const N: usize, const M: usize> MapCells<F> for Matrix<T, N, M> where
    F: FnMut(T) -> V,
{
    type Output = Matrix<V, N, M>;

    open spec fn map_requires(self, f: F) -> bool {
        forall|r: int, c: int|
            #![trigger self@[r][c]]
            0 <= r < N && 0 <= c < M ==> f.requires((self@[r][c],))
    }

    /// Every cell of the result is what `f` made of the cell in the same place.
    fn map(self, f: F) -> (out: Matrix<V, N, M>)
        ensures
            forall|r: int, c: int|
                #![trigger out@[r][c]]
                0 <= r < N && 0 <= c < M ==> f.ensures((self@[r][c],), out@[r][c]),
    {
        let cells = own_cells(self);
        map_slots(cells, f)
    }
}

impl<'a, F, T, V, const N: usize, const M: usize> MapCells<F> for &'a mut Matrix<T, N, M> where
    F: FnMut(&'a mut T) -> V,
{
    type Output = Matrix<V, N, M>;

    open spec fn map_requires(self, f: F) -> bool {
        forall|r: int, c: int|
            #![trigger self@[r][c]]
            0 <= r < N && 0 <= c < M ==> forall|x: &mut T|
                *x == self@[r][c] ==> f.requires((x,))
    }

    /// Every cell of the result is what `f` made of the cell in the same place.
    /// What `f` wrote through an exclusive reference is what that cell holds in the end.
    fn map(self, f: F) -> (out: Matrix<V, N, M>)
        ensures
            forall|r: int, c: int|
                #![trigger in_grid(r, c, N as nat, M as nat)]
                in_grid(r, c, N as nat, M as nat) ==> exists|x: &mut T|
                    #![trigger f.ensures((x,), out@[r][c])]
                    *x == old(self)@[r][c] && *final(x) == final(self)@[r][c] &&
                    f.ensures((x,), out@[r][c]),
    {
        let cells = lend_matrix(self);
        map_slots(cells, f)
    }
}

impl<'a, F, T, V, const N: usize, const M: usize> MapCells<F> for &'a Matrix<T, N, M> where
    F: FnMut(&'a T) -> V,
{
    type Output = Matrix<V, N, M>;

    open spec fn map_requires(self, f: F) -> bool {
        forall|r: int, c: int|
            #![trigger self@[r][c]]
            0 <= r < N && 0 <= c < M ==> f.requires((&self@[r][c],))
    }

    /// Every cell of the result is what `f` made of the cell in the same place.
    fn map(self, f: F) -> (out: Matrix<V, N, M>)
        ensures
            forall|r: int, c: int|
                #![trigger out@[r][c]]
                0 <= r < N && 0 <= c < M ==> f.ensures((&self@[r][c],), out@[r][c]),
    {
        let cells = ref_cells(self);
        map_slots(cells, f)
    }
}

impl<F, T, R, const N: usize, const M: usize> ForEach<F> for Matrix<T, N, M> where
    F: FnMut(T) -> R,
{
    open spec fn for_each_requires(self, f: F) -> bool {
        forall|r: int, c: int|
            #![trigger self@[r][c]]
            0 <= r < N && 0 <= c < M ==> f.requires((self@[r][c],))
    }

    /// `f` was called on the cell in every place.
    fn for_each(self, f: F)
        ensures
            forall|r: int, c: int|
                #![trigger in_grid(r, c, N as nat, M as nat)]
                in_grid(r, c, N as nat, M as nat) ==> exists|made: R|
                    #![trigger f.ensures((self@[r][c],), made)]
                    f.ensures((self@[r][c],), made),
    {
        let cells = own_cells(self);
        each_slot(cells, f, N, M);
    }
}

impl<'a, F, T, R, const N: usize, const M: usize> ForEach<F> for &'a mut Matrix<T, N, M> where
    F: FnMut(&'a mut T) -> R,
{
    open spec fn for_each_requires(self, f: F) -> bool {
        forall|r: int, c: int|
            #![trigger self@[r][c]]
            0 <= r < N && 0 <= c < M ==> forall|x: &mut T|
                *x == self@[r][c] ==> f.requires((x,))
    }

    /// `f` was called on the cell in every place.
    /// What `f` wrote through an exclusive reference is what that cell holds in the end.
    fn for_each(self, f: F)
        ensures
            forall|r: int, c: int|
                #![trigger in_grid(r, c, N as nat, M as nat)]
                in_grid(r, c, N as nat, M as nat) ==> exists|x: &mut T, made: R|
                    #![trigger f.ensures((x,), made)]
                    *x == old(self)@[r][c] && *final(x) == final(self)@[r][c] &&
                    f.ensures((x,), made),
    {
        let cells = lend_matrix(self);
        each_slot(cells, f, N, M);
    }
}

impl<'a, F, T, R, const N: usize, const M: usize> ForEach<F> for &'a Matrix<T, N, M> where
    F: FnMut(&'a T) -> R,
{
    open spec fn for_each_requires(self, f: F) -> bool {
        forall|r: int, c: int|
            #![trigger self@[r][c]]
            0 <= r < N && 0 <= c < M ==> f.requires((&self@[r][c],))
    }

    /// `f` was called on the cell in every place.
    fn for_each(self, f: F)
        ensures
            forall|r: int, c: int|
                #![trigger in_grid(r, c, N as nat, M as nat)]
                in_grid(r, c, N as nat, M as nat) ==> exists|made: R|
                    #![trigger f.ensures((&self@[r][c],), made)]
                    f.ensures((&self@[r][c],), made),
    {
        let cells = ref_cells(self);
        each_slot(cells, f, N, M);
    }
}

impl<F, T, U, V, const N: usize, const M: usize> ZipWith<Matrix<U, N, M>, F>
    for Matrix<T, N, M> where
    F: FnMut(T, U) -> V,
{
    type Output = Matrix<V, N, M>;

    open spec fn zip_with_requires(self, other: Matrix<U, N, M>, f: F) -> bool {
        forall|r: int, c: int|
            #![trigger self@[r][c]]
            0 <= r < N && 0 <= c < M ==> f.requires((self@[r][c], other@[r][c]))
    }

    /// Every cell of the result is what `f` made of the two cells in the same place.
    fn zip_with(self, other: Matrix<U, N, M>, f: F) -> (out: Matrix<V, N, M>)
        ensures
            forall|r: int, c: int|
                #![trigger out@[r][c]]
                0 <= r < N && 0 <= c < M ==> f.ensures((self@[r][c], other@[r][c]), out@[r][c]),
    {
        let lhs = own_cells(self);
        let rhs = own_cells(other);
        zip_slots(lhs, rhs, f)
    }
}

impl<'b, F, T, U, V, const N: usize, const M: usize> ZipWith<&'b mut Matrix<U, N, M>, F>
    for Matrix<T, N, M> where
    F: FnMut(T, &'b mut U) -> V,
{
    type Output = Matrix<V, N, M>;

    open spec fn zip_with_requires(self, other: &'b mut Matrix<U, N, M>, f: F) -> bool {
        forall|r: int, c: int|
            #![trigger self@[r][c]]
            0 <= r < N && 0 <= c < M ==> forall|y: &mut U|
                *y == other@[r][c] ==> f.requires((self@[r][c], y))
    }

    /// Every cell of the result is what `f` made of the two cells in the same place.
    /// What `f` wrote through an exclusive reference is what that cell holds in the end.
    fn zip_with(self, other: &'b mut Matrix<U, N, M>, f: F) -> (out: Matrix<V, N, M>)
        ensures
            forall|r: int, c: int|
                #![trigger in_grid(r, c, N as nat, M as nat)]
                in_grid(r, c, N as nat, M as nat) ==> exists|y: &mut U|
                    #![trigger f.ensures((self@[r][c], y), out@[r][c])]
                    *y == old(other)@[r][c] && *final(y) == final(other)@[r][c] &&
                    f.ensures((self@[r][c], y), out@[r][c]),
    {
        let lhs = own_cells(self);
        let rhs = lend_matrix(other);
        zip_slots(lhs, rhs, f)
    }
}

impl<'b, F, T, U, V, const N: usize, const M: usize> ZipWith<&'b Matrix<U, N, M>, F>
    for Matrix<T, N, M> where
    F: FnMut(T, &'b U) -> V,
{
    type Output = Matrix<V, N, M>;

    open spec fn zip_with_requires(self, other: &'b Matrix<U, N, M>, f: F) -> bool {
        forall|r: int, c: int|
            #![trigger self@[r][c]]
            0 <= r < N && 0 <= c < M ==> f.requires((self@[r][c], &other@[r][c]))
    }

    /// Every cell of the result is what `f` made of the two cells in the same place.
    fn zip_with(self, other: &'b Matrix<U, N, M>, f: F) -> (out: Matrix<V, N, M>)
        ensures
            forall|r: int, c: int|
                #![trigger out@[r][c]]
                0 <= r < N && 0 <= c < M ==> f.ensures((self@[r][c], &other@[r][c]), out@[r][c]),
    {
        let lhs = own_cells(self);
        let rhs = ref_cells(other);
        zip_slots(lhs, rhs, f)
    }
}

impl<'a, F, T, U, V, const N: usize, const M: usize> ZipWith<Matrix<U, N, M>, F>
    for &'a mut Matrix<T, N, M> where
    F: FnMut(&'a mut T, U) -> V,
{
    type Output = Matrix<V, N, M>;

    open spec fn zip_with_requires(self, other: Matrix<U, N, M>, f: F) -> bool {
        forall|r: int, c: int|
            #![trigger self@[r][c]]
            0 <= r < N && 0 <= c < M ==> forall|x: &mut T|
                *x == self@[r][c] ==> f.requires((x, other@[r][c]))
    }

    /// Every cell of the result is what `f` made of the two cells in the same place.
    /// What `f` wrote through an exclusive reference is what that cell holds in the end.
    fn zip_with(self, other: Matrix<U, N, M>, f: F) -> (out: Matrix<V, N, M>)
        ensures
            forall|r: int, c: int|
                #![trigger in_grid(r, c, N as nat, M as nat)]
                in_grid(r, c, N as nat, M as nat) ==> exists|x: &mut T|
                    #![trigger f.ensures((x, other@[r][c]), out@[r][c])]
                    *x == old(self)@[r][c] && *final(x) == final(self)@[r][c] &&
                    f.ensures((x, other@[r][c]), out@[r][c]),
    {
        let lhs = lend_matrix(self);
        let rhs = own_cells(other);
        zip_slots(lhs, rhs, f)
    }
}

impl<'a, 'b, F, T, U, V, const N: usize, const M: usize> ZipWith<&'b mut Matrix<U, N, M>, F>
    for &'a mut Matrix<T, N, M> where
    F: FnMut(&'a mut T, &'b mut U) -> V,
{
    type Output = Matrix<V, N, M>;

    open spec fn zip_with_requires(self, other: &'b mut Matrix<U, N, M>, f: F) -> bool {
        forall|r: int, c: int|
            #![trigger self@[r][c]]
            0 <= r < N && 0 <= c < M ==> forall|x: &mut T, y: &mut U|
                *x == self@[r][c] && *y == other@[r][c] ==> f.requires((x, y))
    }

    /// Every cell of the result is what `f` made of the two cells in the same place.
    /// What `f` wrote through an exclusive reference is what that cell holds in the end.
    fn zip_with(self, other: &'b mut Matrix<U, N, M>, f: F) -> (out: Matrix<V, N, M>)
        ensures
            forall|r: int, c: int|
                #![trigger in_grid(r, c, N as nat, M as nat)]
                in_grid(r, c, N as nat, M as nat) ==> exists|x: &mut T, y: &mut U|
                    #![trigger f.ensures((x, y), out@[r][c])]
                    *x == old(self)@[r][c] && *final(x) == final(self)@[r][c] &&
                    *y == old(other)@[r][c] && *final(y) == final(other)@[r][c] &&
                    f.ensures((x, y), out@[r][c]),
    {
        let lhs = lend_matrix(self);
        let rhs = lend_matrix(other);
        zip_slots(lhs, rhs, f)
    }
}

impl<'a, 'b, F, T, U, V, const N: usize, const M: usize> ZipWith<&'b Matrix<U, N, M>, F>
    for &'a mut Matrix<T, N, M> where
    F: FnMut(&'a mut T, &'b U) -> V,
{
    type Output = Matrix<V, N, M>;

    open spec fn zip_with_requires(self, other: &'b Matrix<U, N, M>, f: F) -> bool {
        forall|r: int, c: int|
            #![trigger self@[r][c]]
            0 <= r < N && 0 <= c < M ==> forall|x: &mut T|
                *x == self@[r][c] ==> f.requires((x, &other@[r][c]))
    }

    /// Every cell of the result is what `f` made of the two cells in the same place.
    /// What `f` wrote through an exclusive reference is what that cell holds in the end.
    fn zip_with(self, other: &'b Matrix<U, N, M>, f: F) -> (out: Matrix<V, N, M>)
        ensures
            forall|r: int, c: int|
                #![trigger in_grid(r, c, N as nat, M as nat)]
                in_grid(r, c, N as nat, M as nat) ==> exists|x: &mut T|
                    #![trigger f.ensures((x, &other@[r][c]), out@[r][c])]
                    *x == old(self)@[r][c] && *final(x) == final(self)@[r][c] &&
                    f.ensures((x, &other@[r][c]), out@[r][c]),
    {
        let lhs = lend_matrix(self);
        let rhs = ref_cells(other);
        zip_slots(lhs, rhs, f)
    }
}

impl<'a, F, T, U, V, const N: usize, const M: usize> ZipWith<Matrix<U, N, M>, F>
    for &'a Matrix<T, N, M> where
    F: FnMut(&'a T, U) -> V,
{
    type Output = Matrix<V, N, M>;

    open spec fn zip_with_requires(self, other: Matrix<U, N, M>, f: F) -> bool {
        forall|r: int, c: int|
            #![trigger self@[r][c]]
            0 <= r < N && 0 <= c < M ==> f.requires((&self@[r][c], other@[r][c]))
    }

    /// Every cell of the result is what `f` made of the two cells in the same place.
    fn zip_with(self, other: Matrix<U, N, M>, f: F) -> (out: Matrix<V, N, M>)
        ensures
            forall|r: int, c: int|
                #![trigger out@[r][c]]
                0 <= r < N && 0 <= c < M ==> f.ensures((&self@[r][c], other@[r][c]), out@[r][c]),
    {
        let lhs = ref_cells(self);
        let rhs = own_cells(other);
        zip_slots(lhs, rhs, f)
    }
}

impl<'a, 'b, F, T, U, V, const N: usize, const M: usize> ZipWith<&'b mut Matrix<U, N, M>, F>
    for &'a Matrix<T, N, M> where
    F: FnMut(&'a T, &'b mut U) -> V,
{
    type Output = Matrix<V, N, M>;

    open spec fn zip_with_requires(self, other: &'b mut Matrix<U, N, M>, f: F) -> bool {
        forall|r: int, c: int|
            #![trigger self@[r][c]]
            0 <= r < N && 0 <= c < M ==> forall|y: &mut U|
                *y == other@[r][c] ==> f.requires((&self@[r][c], y))
    }

    /// Every cell of the result is what `f` made of the two cells in the same place.
    /// What `f` wrote through an exclusive reference is what that cell holds in the end.
    fn zip_with(self, other: &'b mut Matrix<U, N, M>, f: F) -> (out: Matrix<V, N, M>)
        ensures
            forall|r: int, c: int|
                #![trigger in_grid(r, c, N as nat, M as nat)]
                in_grid(r, c, N as nat, M as nat) ==> exists|y: &mut U|
                    #![trigger f.ensures((&self@[r][c], y), out@[r][c])]
                    *y == old(other)@[r][c] && *final(y) == final(other)@[r][c] &&
                    f.ensures((&self@[r][c], y), out@[r][c]),
    {
        let lhs = ref_cells(self);
        let rhs = lend_matrix(other);
        zip_slots(lhs, rhs, f)
    }
}

impl<'a, 'b, F, T, U, V, const N: usize, const M: usize> ZipWith<&'b Matrix<U, N, M>, F>
    for &'a Matrix<T, N, M> where
    F: FnMut(&'a T, &'b U) -> V,
{
    type Output = Matrix<V, N, M>;

    open spec fn zip_with_requires(self, other: &'b Matrix<U, N, M>, f: F) -> bool {
        forall|r: int, c: int|
            #![trigger self@[r][c]]
            0 <= r < N && 0 <= c < M ==> f.requires((&self@[r][c], &other@[r][c]))
    }

    /// Every cell of the result is what `f` made of the two cells in the same place.
    fn zip_with(self, other: &'b Matrix<U, N, M>, f: F) -> (out: Matrix<V, N, M>)
        ensures
            forall|r: int, c: int|
                #![trigger out@[r][c]]
                0 <= r < N && 0 <= c < M ==> f.ensures((&self@[r][c], &other@[r][c]), out@[r][c]),
    {
        let lhs = ref_cells(self);
        let rhs = ref_cells(other);
        zip_slots(lhs, rhs, f)
    }
}

impl<F, T, U, R, const N: usize, const M: usize> ForBoth<Matrix<U, N, M>, F>
    for Matrix<T, N, M> where
    F: FnMut(T, U) -> R,
{
    open spec fn for_both_requires(self, other: Matrix<U, N, M>, f: F) -> bool {
        forall|r: int, c: int|
            #![trigger self@[r][c]]
            0 <= r < N && 0 <= c < M ==> f.requires((self@[r][c], other@[r][c]))
    }

    /// `f` was called on the two cells in every place.
    fn for_both(self, other: Matrix<U, N, M>, f: F)
        ensures
            forall|r: int, c: int|
                #![trigger in_grid(r, c, N as nat, M as nat)]
                in_grid(r, c, N as nat, M as nat) ==> exists|made: R|
                    #![trigger f.ensures((self@[r][c], other@[r][c]), made)]
                    f.ensures((self@[r][c], other@[r][c]), made),
    {
        let lhs = own_cells(self);
        let rhs = own_cells(other);
        both_slots(lhs, rhs, f, N, M);
    }
}

impl<'b, F, T, U, R, const N: usize, const M: usize> ForBoth<&'b mut Matrix<U, N, M>, F>
    for Matrix<T, N, M> where
    F: FnMut(T, &'b mut U) -> R,
{
    open spec fn for_both_requires(self, other: &'b mut Matrix<U, N, M>, f: F) -> bool {
        forall|r: int, c: int|
            #![trigger self@[r][c]]
            0 <= r < N && 0 <= c < M ==> forall|y: &mut U|
                *y == other@[r][c] ==> f.requires((self@[r][c], y))
    }

    /// `f` was called on the two cells in every place.
    /// What `f` wrote through an exclusive reference is what that cell holds in the end.
    fn for_both(self, other: &'b mut Matrix<U, N, M>, f: F)
        ensures
            forall|r: int, c: int|
                #![trigger in_grid(r, c, N as nat, M as nat)]
                in_grid(r, c, N as nat, M as nat) ==> exists|y: &mut U, made: R|
                    #![trigger f.ensures((self@[r][c], y), made)]
                    *y == old(other)@[r][c] && *final(y) == final(other)@[r][c] &&
                    f.ensures((self@[r][c], y), made),
    {
        let lhs = own_cells(self);
        let rhs = lend_matrix(other);
        both_slots(lhs, rhs, f, N, M);
    }
}

impl<'b, F, T, U, R, const N: usize, const M: usize> ForBoth<&'b Matrix<U, N, M>, F>
    for Matrix<T, N, M> where
    F: FnMut(T, &'b U) -> R,
{
    open spec fn for_both_requires(self, other: &'b Matrix<U, N, M>, f: F) -> bool {
        forall|r: int, c: int|
            #![trigger self@[r][c]]
            0 <= r < N && 0 <= c < M ==> f.requires((self@[r][c], &other@[r][c]))
    }

    /// `f` was called on the two cells in every place.
    fn for_both(self, other: &'b Matrix<U, N, M>, f: F)
        ensures
            forall|r: int, c: int|
                #![trigger in_grid(r, c, N as nat, M as nat)]
                in_grid(r, c, N as nat, M as nat) ==> exists|made: R|
                    #![trigger f.ensures((self@[r][c], &other@[r][c]), made)]
                    f.ensures((self@[r][c], &other@[r][c]), made),
    {
        let lhs = own_cells(self);
        let rhs = ref_cells(other);
        both_slots(lhs, rhs, f, N, M);
    }
}

impl<'a, F, T, U, R, const N: usize, const M: usize> ForBoth<Matrix<U, N, M>, F>
    for &'a mut Matrix<T, N, M> where
    F: FnMut(&'a mut T, U) -> R,
{
    open spec fn for_both_requires(self, other: Matrix<U, N, M>, f: F) -> bool {
        forall|r: int, c: int|
            #![trigger self@[r][c]]
            0 <= r < N && 0 <= c < M ==> forall|x: &mut T|
                *x == self@[r][c] ==> f.requires((x, other@[r][c]))
    }

    /// `f` was called on the two cells in every place.
    /// What `f` wrote through an exclusive reference is what that cell holds in the end.
    fn for_both(self, other: Matrix<U, N, M>, f: F)
        ensures
            forall|r: int, c: int|
                #![trigger in_grid(r, c, N as nat, M as nat)]
                in_grid(r, c, N as nat, M as nat) ==> exists|x: &mut T, made: R|
                    #![trigger f.ensures((x, other@[r][c]), made)]
                    *x == old(self)@[r][c] && *final(x) == final(self)@[r][c] &&
                    f.ensures((x, other@[r][c]), made),
    {
        let lhs = lend_matrix(self);
        let rhs = own_cells(other);
        both_slots(lhs, rhs, f, N, M);
    }
}

impl<'a, 'b, F, T, U, R, const N: usize, const M: usize> ForBoth<&'b mut Matrix<U, N, M>, F>
    for &'a mut Matrix<T, N, M> where
    F: FnMut(&'a mut T, &'b mut U) -> R,
{
    open spec fn for_both_requires(self, other: &'b mut Matrix<U, N, M>, f: F) -> bool {
        forall|r: int, c: int|
            #![trigger self@[r][c]]
            0 <= r < N && 0 <= c < M ==> forall|x: &mut T, y: &mut U|
                *x == self@[r][c] && *y == other@[r][c] ==> f.requires((x, y))
    }

    /// `f` was called on the two cells in every place.
    /// What `f` wrote through an exclusive reference is what that cell holds in the end.
    fn for_both(self, other: &'b mut Matrix<U, N, M>, f: F)
        ensures
            forall|r: int, c: int|
                #![trigger in_grid(r, c, N as nat, M as nat)]
                in_grid(r, c, N as nat, M as nat) ==> exists|x: &mut T, y: &mut U, made: R|
                    #![trigger f.ensures((x, y), made)]
                    *x == old(self)@[r][c] && *final(x) == final(self)@[r][c] &&
                    *y == old(other)@[r][c] && *final(y) == final(other)@[r][c] &&
                    f.ensures((x, y), made),
    {
        let lhs = lend_matrix(self);
        let rhs = lend_matrix(other);
        both_slots(lhs, rhs, f, N, M);
    }
}

impl<'a, 'b, F, T, U, R, const N: usize, const M: usize> ForBoth<&'b Matrix<U, N, M>, F>
    for &'a mut Matrix<T, N, M> where
    F: FnMut(&'a mut T, &'b U) -> R,
{
    open spec fn for_both_requires(self, other: &'b Matrix<U, N, M>, f: F) -> bool {
        forall|r: int, c: int|
            #![trigger self@[r][c]]
            0 <= r < N && 0 <= c < M ==> forall|x: &mut T|
                *x == self@[r][c] ==> f.requires((x, &other@[r][c]))
    }

    /// `f` was called on the two cells in every place.
    /// What `f` wrote through an exclusive reference is what that cell holds in the end.
    fn for_both(self, other: &'b Matrix<U, N, M>, f: F)
        ensures
            forall|r: int, c: int|
                #![trigger in_grid(r, c, N as nat, M as nat)]
                in_grid(r, c, N as nat, M as nat) ==> exists|x: &mut T, made: R|
                    #![trigger f.ensures((x, &other@[r][c]), made)]
                    *x == old(self)@[r][c] && *final(x) == final(self)@[r][c] &&
                    f.ensures((x, &other@[r][c]), made),
    {
        let lhs = lend_matrix(self);
        let rhs = ref_cells(other);
        both_slots(lhs, rhs, f, N, M);
    }
}

impl<'a, F, T, U, R, const N: usize, const M: usize> ForBoth<Matrix<U, N, M>, F>
    for &'a Matrix<T, N, M> where
    F: FnMut(&'a T, U) -> R,
{
    open spec fn for_both_requires(self, other: Matrix<U, N, M>, f: F) -> bool {
        forall|r: int, c: int|
            #![trigger self@[r][c]]
            0 <= r < N && 0 <= c < M ==> f.requires((&self@[r][c], other@[r][c]))
    }

    /// `f` was called on the two cells in every place.
    fn for_both(self, other: Matrix<U, N, M>, f: F)
        ensures
            forall|r: int, c: int|
                #![trigger in_grid(r, c, N as nat, M as nat)]
                in_grid(r, c, N as nat, M as nat) ==> exists|made: R|
                    #![trigger f.ensures((&self@[r][c], other@[r][c]), made)]
                    f.ensures((&self@[r][c], other@[r][c]), made),
    {
        let lhs = ref_cells(self);
        let rhs = own_cells(other);
        both_slots(lhs, rhs, f, N, M);
    }
}

impl<'a, 'b, F, T, U, R, const N: usize, const M: usize> ForBoth<&'b mut Matrix<U, N, M>, F>
    for &'a Matrix<T, N, M> where
    F: FnMut(&'a T, &'b mut U) -> R,
{
    open spec fn for_both_requires(self, other: &'b mut Matrix<U, N, M>, f: F) -> bool {
        forall|r: int, c: int|
            #![trigger self@[r][c]]
            0 <= r < N && 0 <= c < M ==> forall|y: &mut U|
                *y == other@[r][c] ==> f.requires((&self@[r][c], y))
    }

    /// `f` was called on the two cells in every place.
    /// What `f` wrote through an exclusive reference is what that cell holds in the end.
    fn for_both(self, other: &'b mut Matrix<U, N, M>, f: F)
        ensures
            forall|r: int, c: int|
                #![trigger in_grid(r, c, N as nat, M as nat)]
                in_grid(r, c, N as nat, M as nat) ==> exists|y: &mut U, made: R|
                    #![trigger f.ensures((&self@[r][c], y), made)]
                    *y == old(other)@[r][c] && *final(y) == final(other)@[r][c] &&
                    f.ensures((&self@[r][c], y), made),
    {
        let lhs = ref_cells(self);
        let rhs = lend_matrix(other);
        both_slots(lhs, rhs, f, N, M);
    }
}

impl<'a, 'b, F, T, U, R, const N: usize, const M: usize> ForBoth<&'b Matrix<U, N, M>, F>
    for &'a Matrix<T, N, M> where
    F: FnMut(&'a T, &'b U) -> R,
{
    open spec fn for_both_requires(self, other: &'b Matrix<U, N, M>, f: F) -> bool {
        forall|r: int, c: int|
            #![trigger self@[r][c]]
            0 <= r < N && 0 <= c < M ==> f.requires((&self@[r][c], &other@[r][c]))
    }

    /// `f` was called on the two cells in every place.
    fn for_both(self, other: &'b Matrix<U, N, M>, f: F)
        ensures
            forall|r: int, c: int|
                #![trigger in_grid(r, c, N as nat, M as nat)]
                in_grid(r, c, N as nat, M as nat) ==> exists|made: R|
                    #![trigger f.ensures((&self@[r][c], &other@[r][c]), made)]
                    f.ensures((&self@[r][c], &other@[r][c]), made),
    {
        let lhs = ref_cells(self);
        let rhs = ref_cells(other);
        both_slots(lhs, rhs, f, N, M);
    }
}

} // verus!
