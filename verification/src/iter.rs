//! Cursors over the lines of a matrix: its rows or its columns, owned or borrowed.
//!
//! Every cursor stands for a sequence of what it has not handed out yet, and every
//! step is stated by what it takes from the front or the back of that sequence.

use crate::array_vec::{nth_front, nth_rear, rest_front, rest_rear, ArrayVec, IntoIter};
use crate::matrix::{grid_of, into_iter, transposed, with_cell, Matrix};
use vstd::prelude::*;

verus! {

/// A cursor that owns the cells of one row or one column.
pub struct IntoLine<T, const N: usize>(pub IntoIter<T, N>);

impl<T, const N: usize> View for IntoLine<T, N> {
    type V = Seq<T>;

    /// The cells not yet handed out, front first.
    open spec fn view(&self) -> Seq<T> {
        self.0@
    }
}

/// The cells of the line that a step handed out, if it handed one out.
pub open spec fn line_view<T, const N: usize>(line: Option<IntoLine<T, N>>) -> Option<Seq<T>> {
    match line {
        Some(l) => Some(l@),
        None => None,
    }
}

impl<T, const N: usize> IntoLine<T, N> {
    /// Never more than `N` cells are left.
    pub open spec fn wf(&self) -> bool {
        self.0.wf()
    }

    /// Hands out the front cell.
    pub fn next(&mut self) -> (res: Option<T>)
        requires
            old(self).wf(),
        ensures
            final(self).wf(),
            res == nth_front(old(self)@, 0),
            final(self)@ == rest_front(old(self)@, 0),
    {
        self.0.next()
    }

    /// Drops `n` cells from the front and hands out the next one.
    pub fn nth(&mut self, n: usize) -> (res: Option<T>)
        requires
            old(self).wf(),
        ensures
            final(self).wf(),
            res == nth_front(old(self)@, n as nat),
            final(self)@ == rest_front(old(self)@, n as nat),
    {
        self.0.nth(n)
    }

    /// The exact number of cells left, as both bounds.
    pub fn size_hint(&self) -> (res: (usize, Option<usize>))
        ensures
            res.0 == self@.len(),
            res.1 == Some(res.0),
    {
        self.0.size_hint()
    }

    /// Hands out the back cell.
    pub fn next_back(&mut self) -> (res: Option<T>)
        requires
            old(self).wf(),
        ensures
            final(self).wf(),
            res == nth_rear(old(self)@, 0),
            final(self)@ == rest_rear(old(self)@, 0),
    {
        self.0.next_back()
    }

    /// Drops `n` cells from the back and hands out the one before them.
    pub fn nth_back(&mut self, n: usize) -> (res: Option<T>)
        requires
            old(self).wf(),
        ensures
            final(self).wf(),
            res == nth_rear(old(self)@, n as nat),
            final(self)@ == rest_rear(old(self)@, n as nat),
    {
        self.0.nth_back(n)
    }

    /// Hands out every cell that is left, front first.
    pub fn collect(self) -> (out: Vec<T>)
        ensures
            out@ == self@,
    {
        self.0.collect()
    }
}

/// A cursor that owns the rows of a matrix and hands each out as an owned line.
pub struct IntoRows<T, const N: usize, const M: usize> {
    inner: IntoIter<[T; M], N>,
}

impl<T, const N: usize, const M: usize> View for IntoRows<T, N, M> {
    type V = Seq<Seq<T>>;

    /// The rows not yet handed out, top first.
    closed spec fn view(&self) -> Seq<Seq<T>> {
        Seq::new(self.inner@.len(), |i: int| self.inner@[i]@)
    }
}

impl<T, const N: usize, const M: usize> IntoRows<T, N, M> {
    /// Never more than `N` rows are left, and each has `M` cells.
    pub closed spec fn wf(&self) -> bool {
        self.inner.wf()
    }

    /// What a well-formed cursor holds: at most `N` rows of `M` cells.
    pub proof fn lemma_shape(self)
        requires
            self.wf(),
        ensures
            self@.len() <= N,
            forall|i: int| 0 <= i < self@.len() ==> (#[trigger] self@[i]).len() == M,
    {
    }

    /// Hands out the top row.
    pub fn next(&mut self) -> (res: Option<IntoLine<T, M>>)
        requires
            old(self).wf(),
        ensures
            final(self).wf(),
            res matches Some(line) ==> line.wf(),
            line_view(res) == nth_front(old(self)@, 0),
            final(self)@ == rest_front(old(self)@, 0),
    {
        self.nth(0)
    }

    /// Drops `n` rows from the top and hands out the next one.
    pub fn nth(&mut self, n: usize) -> (res: Option<IntoLine<T, M>>)
        requires
            old(self).wf(),
        ensures
            final(self).wf(),
            res matches Some(line) ==> line.wf(),
            line_view(res) == nth_front(old(self)@, n as nat),
            final(self)@ == rest_front(old(self)@, n as nat),
    {
        let row = self.inner.nth(n);
        assert(self@ =~= rest_front(old(self)@, n as nat));
        match row {
            Some(cells) => Some(IntoLine(into_iter(cells))),
            None => None,
        }
    }

    /// The exact number of rows left, as both bounds.
    pub fn size_hint(&self) -> (res: (usize, Option<usize>))
        ensures
            res.0 == self@.len(),
            res.1 == Some(res.0),
    {
        self.inner.size_hint()
    }

    /// Hands out the bottom row.
    pub fn next_back(&mut self) -> (res: Option<IntoLine<T, M>>)
        requires
            old(self).wf(),
        ensures
            final(self).wf(),
            res matches Some(line) ==> line.wf(),
            line_view(res) == nth_rear(old(self)@, 0),
            final(self)@ == rest_rear(old(self)@, 0),
    {
        self.nth_back(0)
    }

    /// Drops `n` rows from the bottom and hands out the one above them.
    pub fn nth_back(&mut self, n: usize) -> (res: Option<IntoLine<T, M>>)
        requires
            old(self).wf(),
        ensures
            final(self).wf(),
            res matches Some(line) ==> line.wf(),
            line_view(res) == nth_rear(old(self)@, n as nat),
            final(self)@ == rest_rear(old(self)@, n as nat),
    {
        let row = self.inner.nth_back(n);
        assert(self@ =~= rest_rear(old(self)@, n as nat));
        match row {
            Some(cells) => Some(IntoLine(into_iter(cells))),
            None => None,
        }
    }
}

/// A cursor that owns the cells of a matrix and hands out its columns as owned lines.
///
/// It keeps one cursor per row and steps all of them together, so each row cursor
/// always has exactly the cells of the columns that are left. A matrix without
/// rows still has its `M` columns, each of them empty.
pub struct IntoCols<T, const N: usize, const M: usize> {
    rows: Vec<IntoIter<T, M>>,
    left: usize,
}

impl<T, const N: usize, const M: usize> View for IntoCols<T, N, M> {
    type V = Seq<Seq<T>>;

    /// The columns not yet handed out, leftmost first, each top to bottom.
    closed spec fn view(&self) -> Seq<Seq<T>> {
        Seq::new(self.left as nat, |c: int| Seq::new(N as nat, |r: int| self.rows@[r]@[c]))
    }
}

impl<T, const N: usize, const M: usize> IntoCols<T, N, M> {
    /// One cursor per row, all of the same length, which is at most `M`.
    pub closed spec fn wf(&self) -> bool {
        &&& self.rows@.len() == N
        &&& self.left <= M
        &&& forall|r: int| 0 <= r < N ==> (#[trigger] self.rows@[r])@.len() == self.left
    }

    /// What a well-formed cursor holds: at most `M` columns of `N` cells.
    pub proof fn lemma_shape(self)
        requires
            self.wf(),
        ensures
            self@.len() <= M,
            forall|c: int| 0 <= c < self@.len() ==> (#[trigger] self@[c]).len() == N,
    {
    }

    /// Hands out the leftmost column.
    pub fn next(&mut self) -> (res: Option<IntoLine<T, N>>)
        requires
            old(self).wf(),
        ensures
            final(self).wf(),
            res matches Some(line) ==> line.wf(),
            line_view(res) == nth_front(old(self)@, 0),
            final(self)@ == rest_front(old(self)@, 0),
    {
        self.nth(0)
    }

    /// Drops `n` columns from the left and hands out the next one.
    pub fn nth(&mut self, n: usize) -> (res: Option<IntoLine<T, N>>)
        requires
            old(self).wf(),
        ensures
            final(self).wf(),
            res matches Some(line) ==> line.wf(),
            line_view(res) == nth_front(old(self)@, n as nat),
            final(self)@ == rest_front(old(self)@, n as nat),
    {
        let mut column: ArrayVec<T, N> = ArrayVec::new();
        let mut r: usize = 0;
        while r < N
            invariant
                r <= N,
                self.left == old(self).left,
                self.rows@.len() == N,
                column.wf(),
                old(self).wf(),
                forall|k: int| 0 <= k < r ==> (#[trigger] self.rows@[k])@ == rest_front(old(self).rows@[k]@, n as nat),
                forall|k: int| r <= k < N ==> (#[trigger] self.rows@[k]) == old(self).rows@[k],
                n < self.left ==> column@ == Seq::new(r as nat, |k: int| old(self).rows@[k]@[n as int]),
                n >= self.left ==> column@.len() == 0,
            decreases N - r,
        {
            let ghost before = column@;
            let cell = self.rows[r].nth(n);
            match cell {
                Some(value) => {
                    let _ = column.push(value);
                    assert(column@ =~= Seq::new((r + 1) as nat, |k: int| old(self).rows@[k]@[n as int]));
                },
                None => {},
            }
            r = r + 1;
        }
        if n < self.left {
            self.left = self.left - n - 1;
            assert(self@ =~~= rest_front(old(self)@, n as nat));
            let line = IntoLine(column.into_iter());
            assert(line@ =~= old(self)@[n as int]);
            Some(line)
        } else {
            self.left = 0;
            assert(self@ =~= rest_front(old(self)@, n as nat));
            None
        }
    }

    /// The exact number of columns left, as both bounds.
    pub fn size_hint(&self) -> (res: (usize, Option<usize>))
        ensures
            res.0 == self@.len(),
            res.1 == Some(res.0),
    {
        (self.left, Some(self.left))
    }

    /// Hands out the rightmost column.
    pub fn next_back(&mut self) -> (res: Option<IntoLine<T, N>>)
        requires
            old(self).wf(),
        ensures
            final(self).wf(),
            res matches Some(line) ==> line.wf(),
            line_view(res) == nth_rear(old(self)@, 0),
            final(self)@ == rest_rear(old(self)@, 0),
    {
        self.nth_back(0)
    }

    /// Drops `n` columns from the right and hands out the one before them.
    pub fn nth_back(&mut self, n: usize) -> (res: Option<IntoLine<T, N>>)
        requires
            old(self).wf(),
        ensures
            final(self).wf(),
            res matches Some(line) ==> line.wf(),
            line_view(res) == nth_rear(old(self)@, n as nat),
            final(self)@ == rest_rear(old(self)@, n as nat),
    {
        let mut column: ArrayVec<T, N> = ArrayVec::new();
        let mut r: usize = 0;
        while r < N
            invariant
                r <= N,
                self.left == old(self).left,
                self.rows@.len() == N,
                column.wf(),
                old(self).wf(),
                forall|k: int| 0 <= k < r ==> (#[trigger] self.rows@[k])@ == rest_rear(old(self).rows@[k]@, n as nat),
                forall|k: int| r <= k < N ==> (#[trigger] self.rows@[k]) == old(self).rows@[k],
                n < self.left ==> column@ == Seq::new(
                    r as nat,
                    |k: int| old(self).rows@[k]@[self.left - 1 - n],
                ),
                n >= self.left ==> column@.len() == 0,
            decreases N - r,
        {
            let cell = self.rows[r].nth_back(n);
            match cell {
                Some(value) => {
                    let _ = column.push(value);
                    assert(column@ =~= Seq::new(
                        (r + 1) as nat,
                        |k: int| old(self).rows@[k]@[self.left - 1 - n],
                    ));
                },
                None => {},
            }
            r = r + 1;
        }
        if n < self.left {
            self.left = self.left - n - 1;
            assert(self@ =~~= rest_rear(old(self)@, n as nat));
            let line = IntoLine(column.into_iter());
            assert(line@ =~= old(self)@[old(self).left - 1 - n]);
            Some(line)
        } else {
            self.left = 0;
            assert(self@ =~= rest_rear(old(self)@, n as nat));
            None
        }
    }
}

/// The value behind the reference that a step handed out, if it handed one out.
pub open spec fn borrowed<T>(cell: Option<&T>) -> Option<T> {
    match cell {
        Some(r) => Some(*r),
        None => None,
    }
}

/// A cursor over the cells of one borrowed row, left to right.
pub struct Row<'a, T, const N: usize, const M: usize> {
    cells: &'a [T; M],
    col: usize,
    col_end: usize,
}

impl<'a, T, const N: usize, const M: usize> View for Row<'a, T, N, M> {
    type V = Seq<T>;

    /// The cells not yet handed out, leftmost first.
    closed spec fn view(&self) -> Seq<T> {
        self.cells@.subrange(self.col as int, self.col_end as int)
    }
}

impl<'a, T, const N: usize, const M: usize> Row<'a, T, N, M> {
    /// The cells left form a range inside the row.
    pub closed spec fn wf(&self) -> bool {
        self.col <= self.col_end <= M
    }

    /// A well-formed cursor has at most `M` cells left.
    pub proof fn lemma_shape(self)
        requires
            self.wf(),
        ensures
            self@.len() <= M,
    {
    }

    /// Hands out the leftmost cell.
    pub fn next(&mut self) -> (res: Option<&'a T>)
        requires
            old(self).wf(),
        ensures
            final(self).wf(),
            borrowed(res) == nth_front(old(self)@, 0),
            final(self)@ == rest_front(old(self)@, 0),
    {
        self.nth(0)
    }

    /// Passes over `n` cells from the left and hands out the next one.
    pub fn nth(&mut self, n: usize) -> (res: Option<&'a T>)
        requires
            old(self).wf(),
        ensures
            final(self).wf(),
            borrowed(res) == nth_front(old(self)@, n as nat),
            final(self)@ == rest_front(old(self)@, n as nat),
    {
        if n < self.col_end - self.col {
            let c: usize = self.col + n;
            self.col = c + 1;
            assert(self@ =~= rest_front(old(self)@, n as nat));
            Some(&self.cells[c])
        } else {
            self.col = self.col_end;
            assert(self@ =~= rest_front(old(self)@, n as nat));
            None
        }
    }

    /// The exact number of cells left, as both bounds.
    pub fn size_hint(&self) -> (res: (usize, Option<usize>))
        requires
            self.wf(),
        ensures
            res.0 == self@.len(),
            res.1 == Some(res.0),
    {
        let size: usize = self.col_end - self.col;
        (size, Some(size))
    }

    /// Hands out the rightmost cell.
    pub fn next_back(&mut self) -> (res: Option<&'a T>)
        requires
            old(self).wf(),
        ensures
            final(self).wf(),
            borrowed(res) == nth_rear(old(self)@, 0),
            final(self)@ == rest_rear(old(self)@, 0),
    {
        self.nth_back(0)
    }

    /// Passes over `n` cells from the right and hands out the one before them.
    pub fn nth_back(&mut self, n: usize) -> (res: Option<&'a T>)
        requires
            old(self).wf(),
        ensures
            final(self).wf(),
            borrowed(res) == nth_rear(old(self)@, n as nat),
            final(self)@ == rest_rear(old(self)@, n as nat),
    {
        if n < self.col_end - self.col {
            let c: usize = self.col_end - 1 - n;
            self.col_end = c;
            assert(self@ =~= rest_rear(old(self)@, n as nat));
            Some(&self.cells[c])
        } else {
            self.col = self.col_end;
            assert(self@ =~= rest_rear(old(self)@, n as nat));
            None
        }
    }

    /// References to every cell that is left, leftmost first.
    pub fn collect(self) -> (out: Vec<&'a T>)
        requires
            self.wf(),
        ensures
            out@.len() == self@.len(),
            forall|k: int| 0 <= k < out@.len() ==> *(#[trigger] out@[k]) == self@[k],
    {
        let mut out: Vec<&'a T> = Vec::new();
        let mut c: usize = self.col;
        while c < self.col_end
            invariant
                self.wf(),
                self.col <= c <= self.col_end,
                out@.len() == c - self.col,
                forall|k: int| 0 <= k < out@.len() ==> *(#[trigger] out@[k]) == self@[k],
            decreases self.col_end - c,
        {
            out.push(&self.cells[c]);
            c = c + 1;
        }
        out
    }
}

impl<'a, T, const N: usize, const M: usize> Clone for Row<'a, T, N, M> {
    fn clone(&self) -> (out: Self)
        ensures
            out == *self,
    {
        Row { cells: self.cells, col: self.col, col_end: self.col_end }
    }
}

/// A cursor over the borrowed rows of a matrix, top to bottom.
pub struct Rows<'a, T, const N: usize, const M: usize> {
    grid: &'a [[T; M]; N],
    row: usize,
    row_end: usize,
}

impl<'a, T, const N: usize, const M: usize> View for Rows<'a, T, N, M> {
    type V = Seq<Seq<T>>;

    /// The rows not yet handed out, top first.
    closed spec fn view(&self) -> Seq<Seq<T>> {
        grid_of(*self.grid).subrange(self.row as int, self.row_end as int)
    }
}

impl<'a, T, const N: usize, const M: usize> Rows<'a, T, N, M> {
    /// The rows left form a range inside the matrix.
    pub closed spec fn wf(&self) -> bool {
        self.row <= self.row_end <= N
    }

    /// What a well-formed cursor holds: at most `N` rows of `M` cells.
    pub proof fn lemma_shape(self)
        requires
            self.wf(),
        ensures
            self@.len() <= N,
            forall|i: int| 0 <= i < self@.len() ==> (#[trigger] self@[i]).len() == M,
    {
    }

    /// Hands out the top row.
    pub fn next(&mut self) -> (res: Option<Row<'a, T, N, M>>)
        requires
            old(self).wf(),
        ensures
            final(self).wf(),
            (match res {
                Some(line) => line.wf() && nth_front(old(self)@, 0) == Some(line@),
                None => nth_front(old(self)@, 0) is None,
            }),
            final(self)@ == rest_front(old(self)@, 0),
    {
        self.nth(0)
    }

    /// Passes over `n` rows from the top and hands out the next one.
    pub fn nth(&mut self, n: usize) -> (res: Option<Row<'a, T, N, M>>)
        requires
            old(self).wf(),
        ensures
            final(self).wf(),
            (match res {
                Some(line) => line.wf() && nth_front(old(self)@, n as nat) == Some(line@),
                None => nth_front(old(self)@, n as nat) is None,
            }),
            final(self)@ == rest_front(old(self)@, n as nat),
    {
        if n < self.row_end - self.row {
            let r: usize = self.row + n;
            self.row = r + 1;
            assert(self@ =~= rest_front(old(self)@, n as nat));
            let line = Row { cells: &self.grid[r], col: 0, col_end: M };
            assert(line@ =~= old(self)@[n as int]);
            Some(line)
        } else {
            self.row = self.row_end;
            assert(self@ =~= rest_front(old(self)@, n as nat));
            None
        }
    }

    /// The exact number of rows left, as both bounds.
    pub fn size_hint(&self) -> (res: (usize, Option<usize>))
        requires
            self.wf(),
        ensures
            res.0 == self@.len(),
            res.1 == Some(res.0),
    {
        let size: usize = self.row_end - self.row;
        (size, Some(size))
    }

    /// Hands out the bottom row.
    pub fn next_back(&mut self) -> (res: Option<Row<'a, T, N, M>>)
        requires
            old(self).wf(),
        ensures
            final(self).wf(),
            (match res {
                Some(line) => line.wf() && nth_rear(old(self)@, 0) == Some(line@),
                None => nth_rear(old(self)@, 0) is None,
            }),
            final(self)@ == rest_rear(old(self)@, 0),
    {
        self.nth_back(0)
    }

    /// Passes over `n` rows from the bottom and hands out the one above them.
    pub fn nth_back(&mut self, n: usize) -> (res: Option<Row<'a, T, N, M>>)
        requires
            old(self).wf(),
        ensures
            final(self).wf(),
            (match res {
                Some(line) => line.wf() && nth_rear(old(self)@, n as nat) == Some(line@),
                None => nth_rear(old(self)@, n as nat) is None,
            }),
            final(self)@ == rest_rear(old(self)@, n as nat),
    {
        if n < self.row_end - self.row {
            let r: usize = self.row_end - 1 - n;
            self.row_end = r;
            assert(self@ =~= rest_rear(old(self)@, n as nat));
            let line = Row { cells: &self.grid[r], col: 0, col_end: M };
            assert(line@ =~= old(self)@[old(self)@.len() - 1 - n]);
            Some(line)
        } else {
            self.row = self.row_end;
            assert(self@ =~= rest_rear(old(self)@, n as nat));
            None
        }
    }
}

impl<'a, T, const N: usize, const M: usize> Clone for Rows<'a, T, N, M> {
    fn clone(&self) -> (out: Self)
        ensures
            out == *self,
    {
        Rows { grid: self.grid, row: self.row, row_end: self.row_end }
    }
}

/// A cursor over the cells of one borrowed column, top to bottom.
pub struct Col<'a, T, const N: usize, const M: usize> {
    grid: &'a [[T; M]; N],
    col: usize,
    row: usize,
    row_end: usize,
}

impl<'a, T, const N: usize, const M: usize> View for Col<'a, T, N, M> {
    type V = Seq<T>;

    /// The cells not yet handed out, top first.
    closed spec fn view(&self) -> Seq<T> {
        Seq::new(
            (self.row_end - self.row) as nat,
            |k: int| self.grid@[self.row + k]@[self.col as int],
        )
    }
}

impl<'a, T, const N: usize, const M: usize> Col<'a, T, N, M> {
    /// The column lies inside the matrix, and the cells left form a range inside it.
    pub closed spec fn wf(&self) -> bool {
        self.col < M && self.row <= self.row_end <= N
    }

    /// A well-formed cursor has at most `N` cells left.
    pub proof fn lemma_shape(self)
        requires
            self.wf(),
        ensures
            self@.len() <= N,
    {
    }

    /// Hands out the top cell.
    pub fn next(&mut self) -> (res: Option<&'a T>)
        requires
            old(self).wf(),
        ensures
            final(self).wf(),
            borrowed(res) == nth_front(old(self)@, 0),
            final(self)@ == rest_front(old(self)@, 0),
    {
        self.nth(0)
    }

    /// Passes over `n` cells from the top and hands out the next one.
    pub fn nth(&mut self, n: usize) -> (res: Option<&'a T>)
        requires
            old(self).wf(),
        ensures
            final(self).wf(),
            borrowed(res) == nth_front(old(self)@, n as nat),
            final(self)@ == rest_front(old(self)@, n as nat),
    {
        if n < self.row_end - self.row {
            let r: usize = self.row + n;
            self.row = r + 1;
            assert(self@ =~= rest_front(old(self)@, n as nat));
            Some(&self.grid[r][self.col])
        } else {
            self.row = self.row_end;
            assert(self@ =~= rest_front(old(self)@, n as nat));
            None
        }
    }

    /// The exact number of cells left, as both bounds.
    pub fn size_hint(&self) -> (res: (usize, Option<usize>))
        requires
            self.wf(),
        ensures
            res.0 == self@.len(),
            res.1 == Some(res.0),
    {
        let size: usize = self.row_end - self.row;
        (size, Some(size))
    }

    /// Hands out the bottom cell.
    pub fn next_back(&mut self) -> (res: Option<&'a T>)
        requires
            old(self).wf(),
        ensures
            final(self).wf(),
            borrowed(res) == nth_rear(old(self)@, 0),
            final(self)@ == rest_rear(old(self)@, 0),
    {
        self.nth_back(0)
    }

    /// Passes over `n` cells from the bottom and hands out the one above them.
    pub fn nth_back(&mut self, n: usize) -> (res: Option<&'a T>)
        requires
            old(self).wf(),
        ensures
            final(self).wf(),
            borrowed(res) == nth_rear(old(self)@, n as nat),
            final(self)@ == rest_rear(old(self)@, n as nat),
    {
        if n < self.row_end - self.row {
            let r: usize = self.row_end - 1 - n;
            self.row_end = r;
            assert(self@ =~= rest_rear(old(self)@, n as nat));
            Some(&self.grid[r][self.col])
        } else {
            self.row = self.row_end;
            assert(self@ =~= rest_rear(old(self)@, n as nat));
            None
        }
    }

    /// References to every cell that is left, top first.
    pub fn collect(self) -> (out: Vec<&'a T>)
        requires
            self.wf(),
        ensures
            out@.len() == self@.len(),
            forall|k: int| 0 <= k < out@.len() ==> *(#[trigger] out@[k]) == self@[k],
    {
        let mut out: Vec<&'a T> = Vec::new();
        let mut r: usize = self.row;
        while r < self.row_end
            invariant
                self.wf(),
                self.row <= r <= self.row_end,
                out@.len() == r - self.row,
                forall|k: int| 0 <= k < out@.len() ==> *(#[trigger] out@[k]) == self@[k],
            decreases self.row_end - r,
        {
            out.push(&self.grid[r][self.col]);
            r = r + 1;
        }
        out
    }
}

impl<'a, T, const N: usize, const M: usize> Clone for Col<'a, T, N, M> {
    fn clone(&self) -> (out: Self)
        ensures
            out == *self,
    {
        Col { grid: self.grid, col: self.col, row: self.row, row_end: self.row_end }
    }
}

/// A cursor over the borrowed columns of a matrix, left to right.
pub struct Cols<'a, T, const N: usize, const M: usize> {
    grid: &'a [[T; M]; N],
    col: usize,
    col_end: usize,
}

impl<'a, T, const N: usize, const M: usize> View for Cols<'a, T, N, M> {
    type V = Seq<Seq<T>>;

    /// The columns not yet handed out, leftmost first, each top to bottom.
    closed spec fn view(&self) -> Seq<Seq<T>> {
        transposed(grid_of(*self.grid), N as nat, M as nat).subrange(
            self.col as int,
            self.col_end as int,
        )
    }
}

impl<'a, T, const N: usize, const M: usize> Cols<'a, T, N, M> {
    /// The columns left form a range inside the matrix.
    pub closed spec fn wf(&self) -> bool {
        self.col <= self.col_end <= M
    }

    /// What a well-formed cursor holds: at most `M` columns of `N` cells.
    pub proof fn lemma_shape(self)
        requires
            self.wf(),
        ensures
            self@.len() <= M,
            forall|c: int| 0 <= c < self@.len() ==> (#[trigger] self@[c]).len() == N,
    {
    }

    /// Hands out the leftmost column.
    pub fn next(&mut self) -> (res: Option<Col<'a, T, N, M>>)
        requires
            old(self).wf(),
        ensures
            final(self).wf(),
            (match res {
                Some(line) => line.wf() && nth_front(old(self)@, 0) == Some(line@),
                None => nth_front(old(self)@, 0) is None,
            }),
            final(self)@ == rest_front(old(self)@, 0),
    {
        self.nth(0)
    }

    /// Passes over `n` columns from the left and hands out the next one.
    pub fn nth(&mut self, n: usize) -> (res: Option<Col<'a, T, N, M>>)
        requires
            old(self).wf(),
        ensures
            final(self).wf(),
            (match res {
                Some(line) => line.wf() && nth_front(old(self)@, n as nat) == Some(line@),
                None => nth_front(old(self)@, n as nat) is None,
            }),
            final(self)@ == rest_front(old(self)@, n as nat),
    {
        if n < self.col_end - self.col {
            let c: usize = self.col + n;
            self.col = c + 1;
            assert(self@ =~= rest_front(old(self)@, n as nat));
            let line = Col { grid: self.grid, col: c, row: 0, row_end: N };
            assert(line@ =~= old(self)@[n as int]);
            Some(line)
        } else {
            self.col = self.col_end;
            assert(self@ =~= rest_front(old(self)@, n as nat));
            None
        }
    }

    /// The exact number of columns left, as both bounds.
    pub fn size_hint(&self) -> (res: (usize, Option<usize>))
        requires
            self.wf(),
        ensures
            res.0 == self@.len(),
            res.1 == Some(res.0),
    {
        let size: usize = self.col_end - self.col;
        (size, Some(size))
    }

    /// Hands out the rightmost column.
    pub fn next_back(&mut self) -> (res: Option<Col<'a, T, N, M>>)
        requires
            old(self).wf(),
        ensures
            final(self).wf(),
            (match res {
                Some(line) => line.wf() && nth_rear(old(self)@, 0) == Some(line@),
                None => nth_rear(old(self)@, 0) is None,
            }),
            final(self)@ == rest_rear(old(self)@, 0),
    {
        self.nth_back(0)
    }

    /// Passes over `n` columns from the right and hands out the one before them.
    pub fn nth_back(&mut self, n: usize) -> (res: Option<Col<'a, T, N, M>>)
        requires
            old(self).wf(),
        ensures
            final(self).wf(),
            (match res {
                Some(line) => line.wf() && nth_rear(old(self)@, n as nat) == Some(line@),
                None => nth_rear(old(self)@, n as nat) is None,
            }),
            final(self)@ == rest_rear(old(self)@, n as nat),
    {
        if n < self.col_end - self.col {
            let c: usize = self.col_end - 1 - n;
            self.col_end = c;
            assert(self@ =~= rest_rear(old(self)@, n as nat));
            let line = Col { grid: self.grid, col: c, row: 0, row_end: N };
            assert(line@ =~= old(self)@[old(self)@.len() - 1 - n]);
            Some(line)
        } else {
            self.col = self.col_end;
            assert(self@ =~= rest_rear(old(self)@, n as nat));
            None
        }
    }
}

impl<'a, T, const N: usize, const M: usize> Clone for Cols<'a, T, N, M> {
    fn clone(&self) -> (out: Self)
        ensures
            out == *self,
    {
        Cols { grid: self.grid, col: self.col, col_end: self.col_end }
    }
}

/// The value behind the exclusive reference that a step handed out, as it was when
/// the step handed it out.
pub open spec fn lent<T>(cell: Option<&mut T>) -> Option<T> {
    match cell {
        Some(r) => Some(*r),
        None => None,
    }
}

/// A cursor that lends the cells of one row for writing, one at a time.
pub struct RowMut<'a, T, const N: usize, const M: usize> {
    pub cells: &'a mut [T; M],
    pub col: usize,
    pub col_end: usize,
}

impl<'a, T, const N: usize, const M: usize> View for RowMut<'a, T, N, M> {
    type V = Seq<T>;

    /// The cells not yet lent, leftmost first, as they are now.
    open spec fn view(&self) -> Seq<T> {
        self.cells@.subrange(self.col as int, self.col_end as int)
    }
}

impl<'a, T, const N: usize, const M: usize> RowMut<'a, T, N, M> {
    /// The cells left form a range inside the row.
    pub open spec fn wf(&self) -> bool {
        self.col <= self.col_end <= M
    }

    /// Lends the leftmost cell.
    pub fn next(&mut self) -> (res: Option<&mut T>)
        requires
            old(self).wf(),
        ensures
            final(self).wf(),
            *final(final(self).cells) == *final(old(self).cells),
            lent(res) == nth_front(old(self)@, 0),
            final(self)@ == rest_front(old(self)@, 0),
            final(self).col_end == old(self).col_end,
            (match res {
                Some(cell) => final(self).col == old(self).col + 1 && final(self).cells@
                    =~= old(self).cells@.update(old(self).col as int, *final(cell)),
                None => final(self).col == old(self).col_end
                    && final(self).cells@ == old(self).cells@,
            }),
    {
        self.nth(0)
    }

    /// Passes over `n` cells from the left and lends the next one. What the caller
    /// writes through it is the only change to the row.
    pub fn nth(&mut self, n: usize) -> (res: Option<&mut T>)
        requires
            old(self).wf(),
        ensures
            final(self).wf(),
            *final(final(self).cells) == *final(old(self).cells),
            lent(res) == nth_front(old(self)@, n as nat),
            final(self)@ == rest_front(old(self)@, n as nat),
            final(self).col_end == old(self).col_end,
            (match res {
                Some(cell) => final(self).col == old(self).col + n + 1 && final(self).cells@
                    =~= old(self).cells@.update(old(self).col + n, *final(cell)),
                None => final(self).col == old(self).col_end
                    && final(self).cells@ == old(self).cells@,
            }),
    {
        if n < self.col_end - self.col {
            let c: usize = self.col + n;
            self.col = c + 1;
            assert(self@ =~= rest_front(old(self)@, n as nat));
            Some(&mut self.cells[c])
        } else {
            self.col = self.col_end;
            assert(self@ =~= rest_front(old(self)@, n as nat));
            None
        }
    }

    /// The exact number of cells left, as both bounds.
    pub fn size_hint(&self) -> (res: (usize, Option<usize>))
        requires
            self.wf(),
        ensures
            res.0 == self@.len(),
            res.1 == Some(res.0),
    {
        let size: usize = self.col_end - self.col;
        (size, Some(size))
    }

    /// Lends the rightmost cell.
    pub fn next_back(&mut self) -> (res: Option<&mut T>)
        requires
            old(self).wf(),
        ensures
            final(self).wf(),
            *final(final(self).cells) == *final(old(self).cells),
            lent(res) == nth_rear(old(self)@, 0),
            final(self)@ == rest_rear(old(self)@, 0),
            (match res {
                Some(cell) => final(self).col == old(self).col
                    && final(self).col_end == old(self).col_end - 1
                    && final(self).cells@ =~= old(self).cells@.update(
                    old(self).col_end - 1,
                    *final(cell),
                ),
                None => final(self).col == final(self).col_end
                    && final(self).cells@ == old(self).cells@,
            }),
    {
        self.nth_back(0)
    }

    /// Passes over `n` cells from the right and lends the one before them.
    pub fn nth_back(&mut self, n: usize) -> (res: Option<&mut T>)
        requires
            old(self).wf(),
        ensures
            final(self).wf(),
            *final(final(self).cells) == *final(old(self).cells),
            lent(res) == nth_rear(old(self)@, n as nat),
            final(self)@ == rest_rear(old(self)@, n as nat),
            (match res {
                Some(cell) => final(self).col == old(self).col
                    && final(self).col_end == old(self).col_end - 1 - n
                    && final(self).cells@ =~= old(self).cells@.update(
                    old(self).col_end - 1 - n,
                    *final(cell),
                ),
                None => final(self).col == final(self).col_end
                    && final(self).cells@ == old(self).cells@,
            }),
    {
        if n < self.col_end - self.col {
            let c: usize = self.col_end - 1 - n;
            self.col_end = c;
            assert(self@ =~= rest_rear(old(self)@, n as nat));
            Some(&mut self.cells[c])
        } else {
            self.col = self.col_end;
            assert(self@ =~= rest_rear(old(self)@, n as nat));
            None
        }
    }
}

/// A cursor that lends the rows of a matrix for writing, one at a time.
pub struct RowsMut<'a, T, const N: usize, const M: usize> {
    pub grid: &'a mut [[T; M]; N],
    pub row: usize,
    pub row_end: usize,
}

impl<'a, T, const N: usize, const M: usize> View for RowsMut<'a, T, N, M> {
    type V = Seq<Seq<T>>;

    /// The rows not yet lent, top first, as they are now.
    open spec fn view(&self) -> Seq<Seq<T>> {
        grid_of(*self.grid).subrange(self.row as int, self.row_end as int)
    }
}

impl<'a, T, const N: usize, const M: usize> RowsMut<'a, T, N, M> {
    /// The rows left form a range inside the matrix.
    pub open spec fn wf(&self) -> bool {
        self.row <= self.row_end <= N
    }

    /// Lends the top row.
    pub fn next(&mut self) -> (res: Option<RowMut<'_, T, N, M>>)
        requires
            old(self).wf(),
        ensures
            final(self).wf(),
            *final(final(self).grid) == *final(old(self).grid),
            final(self)@ == rest_front(old(self)@, 0),
            final(self).row_end == old(self).row_end,
            (match res {
                Some(line) => line.wf() && line.col == 0 && line.col_end == M && nth_front(
                    old(self)@,
                    0,
                ) == Some(line@) && final(self).row == old(self).row + 1 && grid_of(
                    *final(self).grid,
                ) =~~= grid_of(*old(self).grid).update(
                    old(self).row as int,
                    (*final(line.cells))@,
                ),
                None => nth_front(old(self)@, 0) is None && final(self).row == old(self).row_end
                    && *final(self).grid == *old(self).grid,
            }),
    {
        self.nth(0)
    }

    /// Passes over `n` rows from the top and lends the next one. What the caller
    /// writes through it is the only change to the matrix.
    pub fn nth(&mut self, n: usize) -> (res: Option<RowMut<'_, T, N, M>>)
        requires
            old(self).wf(),
        ensures
            final(self).wf(),
            *final(final(self).grid) == *final(old(self).grid),
            final(self)@ == rest_front(old(self)@, n as nat),
            final(self).row_end == old(self).row_end,
            (match res {
                Some(line) => line.wf() && line.col == 0 && line.col_end == M && nth_front(
                    old(self)@,
                    n as nat,
                ) == Some(line@) && final(self).row == old(self).row + n + 1 && grid_of(
                    *final(self).grid,
                ) =~~= grid_of(*old(self).grid).update(
                    old(self).row + n,
                    (*final(line.cells))@,
                ),
                None => nth_front(old(self)@, n as nat) is None
                    && final(self).row == old(self).row_end
                    && *final(self).grid == *old(self).grid,
            }),
    {
        if n < self.row_end - self.row {
            let r: usize = self.row + n;
            self.row = r + 1;
            assert(self@ =~= rest_front(old(self)@, n as nat));
            let line = RowMut { cells: &mut self.grid[r], col: 0, col_end: M };
            assert(line@ =~= old(self)@[n as int]);
            Some(line)
        } else {
            self.row = self.row_end;
            assert(self@ =~= rest_front(old(self)@, n as nat));
            None
        }
    }

    /// The exact number of rows left, as both bounds.
    pub fn size_hint(&self) -> (res: (usize, Option<usize>))
        requires
            self.wf(),
        ensures
            res.0 == self@.len(),
            res.1 == Some(res.0),
    {
        let size: usize = self.row_end - self.row;
        (size, Some(size))
    }

    /// Lends the bottom row.
    pub fn next_back(&mut self) -> (res: Option<RowMut<'_, T, N, M>>)
        requires
            old(self).wf(),
        ensures
            final(self).wf(),
            *final(final(self).grid) == *final(old(self).grid),
            final(self)@ == rest_rear(old(self)@, 0),
            (match res {
                Some(line) => line.wf() && line.col == 0 && line.col_end == M && nth_rear(
                    old(self)@,
                    0,
                ) == Some(line@) && final(self).row == old(self).row && final(self).row_end
                    == old(self).row_end - 1 && grid_of(*final(self).grid) =~~= grid_of(
                    *old(self).grid,
                ).update(old(self).row_end - 1, (*final(line.cells))@),
                None => nth_rear(old(self)@, 0) is None
                    && final(self).row == final(self).row_end
                    && *final(self).grid == *old(self).grid,
            }),
    {
        self.nth_back(0)
    }

    /// Passes over `n` rows from the bottom and lends the one above them.
    pub fn nth_back(&mut self, n: usize) -> (res: Option<RowMut<'_, T, N, M>>)
        requires
            old(self).wf(),
        ensures
            final(self).wf(),
            *final(final(self).grid) == *final(old(self).grid),
            final(self)@ == rest_rear(old(self)@, n as nat),
            (match res {
                Some(line) => line.wf() && line.col == 0 && line.col_end == M && nth_rear(
                    old(self)@,
                    n as nat,
                ) == Some(line@) && final(self).row == old(self).row && final(self).row_end
                    == old(self).row_end - 1 - n && grid_of(*final(self).grid) =~~= grid_of(
                    *old(self).grid,
                ).update(old(self).row_end - 1 - n, (*final(line.cells))@),
                None => nth_rear(old(self)@, n as nat) is None
                    && final(self).row == final(self).row_end
                    && *final(self).grid == *old(self).grid,
            }),
    {
        if n < self.row_end - self.row {
            let r: usize = self.row_end - 1 - n;
            self.row_end = r;
            assert(self@ =~= rest_rear(old(self)@, n as nat));
            let line = RowMut { cells: &mut self.grid[r], col: 0, col_end: M };
            assert(line@ =~= old(self)@[old(self)@.len() - 1 - n]);
            Some(line)
        } else {
            self.row = self.row_end;
            assert(self@ =~= rest_rear(old(self)@, n as nat));
            None
        }
    }
}

/// A cursor that lends the cells of one column for writing, one at a time.
pub struct ColMut<'a, T, const N: usize, const M: usize> {
    pub grid: &'a mut [[T; M]; N],
    pub col: usize,
    pub row: usize,
    pub row_end: usize,
}

impl<'a, T, const N: usize, const M: usize> View for ColMut<'a, T, N, M> {
    type V = Seq<T>;

    /// The cells not yet lent, top first, as they are now.
    open spec fn view(&self) -> Seq<T> {
        Seq::new(
            (self.row_end - self.row) as nat,
            |k: int| self.grid@[self.row + k]@[self.col as int],
        )
    }
}

impl<'a, T, const N: usize, const M: usize> ColMut<'a, T, N, M> {
    /// The column lies inside the matrix, and the cells left form a range inside it.
    pub open spec fn wf(&self) -> bool {
        self.col < M && self.row <= self.row_end <= N
    }

    /// Lends the top cell.
    pub fn next(&mut self) -> (res: Option<&mut T>)
        requires
            old(self).wf(),
        ensures
            final(self).wf(),
            *final(final(self).grid) == *final(old(self).grid),
            final(self).col == old(self).col,
            final(self).row_end == old(self).row_end,
            lent(res) == nth_front(old(self)@, 0),
            final(self)@ == rest_front(old(self)@, 0),
            (match res {
                Some(cell) => final(self).row == old(self).row + 1 && grid_of(*final(self).grid)
                    =~~= with_cell(
                    grid_of(*old(self).grid),
                    old(self).row as int,
                    old(self).col as int,
                    *final(cell),
                ),
                None => final(self).row == old(self).row_end
                    && *final(self).grid == *old(self).grid,
            }),
    {
        self.nth(0)
    }

    /// Passes over `n` cells from the top and lends the next one. What the caller
    /// writes through it is the only change to the matrix.
    pub fn nth(&mut self, n: usize) -> (res: Option<&mut T>)
        requires
            old(self).wf(),
        ensures
            final(self).wf(),
            *final(final(self).grid) == *final(old(self).grid),
            final(self).col == old(self).col,
            final(self).row_end == old(self).row_end,
            lent(res) == nth_front(old(self)@, n as nat),
            final(self)@ == rest_front(old(self)@, n as nat),
            (match res {
                Some(cell) => final(self).row == old(self).row + n + 1 && grid_of(
                    *final(self).grid,
                ) =~~= with_cell(
                    grid_of(*old(self).grid),
                    old(self).row + n,
                    old(self).col as int,
                    *final(cell),
                ),
                None => final(self).row == old(self).row_end
                    && *final(self).grid == *old(self).grid,
            }),
    {
        if n < self.row_end - self.row {
            let r: usize = self.row + n;
            self.row = r + 1;
            assert(self@ =~= rest_front(old(self)@, n as nat));
            Some(&mut self.grid[r][self.col])
        } else {
            self.row = self.row_end;
            assert(self@ =~= rest_front(old(self)@, n as nat));
            None
        }
    }

    /// The exact number of cells left, as both bounds.
    pub fn size_hint(&self) -> (res: (usize, Option<usize>))
        requires
            self.wf(),
        ensures
            res.0 == self@.len(),
            res.1 == Some(res.0),
    {
        let size: usize = self.row_end - self.row;
        (size, Some(size))
    }

    /// Lends the bottom cell.
    pub fn next_back(&mut self) -> (res: Option<&mut T>)
        requires
            old(self).wf(),
        ensures
            final(self).wf(),
            *final(final(self).grid) == *final(old(self).grid),
            final(self).col == old(self).col,
            lent(res) == nth_rear(old(self)@, 0),
            final(self)@ == rest_rear(old(self)@, 0),
            (match res {
                Some(cell) => final(self).row == old(self).row
                    && final(self).row_end == old(self).row_end - 1
                    && grid_of(*final(self).grid) =~~= with_cell(
                    grid_of(*old(self).grid),
                    old(self).row_end - 1,
                    old(self).col as int,
                    *final(cell),
                ),
                None => final(self).row == final(self).row_end
                    && *final(self).grid == *old(self).grid,
            }),
    {
        self.nth_back(0)
    }

    /// Passes over `n` cells from the bottom and lends the one above them.
    pub fn nth_back(&mut self, n: usize) -> (res: Option<&mut T>)
        requires
            old(self).wf(),
        ensures
            final(self).wf(),
            *final(final(self).grid) == *final(old(self).grid),
            final(self).col == old(self).col,
            lent(res) == nth_rear(old(self)@, n as nat),
            final(self)@ == rest_rear(old(self)@, n as nat),
            (match res {
                Some(cell) => final(self).row == old(self).row
                    && final(self).row_end == old(self).row_end - 1 - n
                    && grid_of(*final(self).grid) =~~= with_cell(
                    grid_of(*old(self).grid),
                    old(self).row_end - 1 - n,
                    old(self).col as int,
                    *final(cell),
                ),
                None => final(self).row == final(self).row_end
                    && *final(self).grid == *old(self).grid,
            }),
    {
        if n < self.row_end - self.row {
            let r: usize = self.row_end - 1 - n;
            self.row_end = r;
            assert(self@ =~= rest_rear(old(self)@, n as nat));
            Some(&mut self.grid[r][self.col])
        } else {
            self.row = self.row_end;
            assert(self@ =~= rest_rear(old(self)@, n as nat));
            None
        }
    }
}

/// A cursor that lends the columns of a matrix for writing, one at a time: a
/// column must be given back before the next one is lent, so no two live
/// column cursors ever reach the same cell.
pub struct ColsMut<'a, T, const N: usize, const M: usize> {
    pub grid: &'a mut [[T; M]; N],
    pub col: usize,
    pub col_end: usize,
}

impl<'a, T, const N: usize, const M: usize> View for ColsMut<'a, T, N, M> {
    type V = Seq<Seq<T>>;

    /// The columns not yet lent, leftmost first, as they are now.
    open spec fn view(&self) -> Seq<Seq<T>> {
        transposed(grid_of(*self.grid), N as nat, M as nat).subrange(
            self.col as int,
            self.col_end as int,
        )
    }
}

impl<'a, T, const N: usize, const M: usize> ColsMut<'a, T, N, M> {
    /// The columns left form a range inside the matrix.
    pub open spec fn wf(&self) -> bool {
        self.col <= self.col_end <= M
    }

    /// Lends the leftmost column.
    pub fn next(&mut self) -> (res: Option<ColMut<'_, T, N, M>>)
        requires
            old(self).wf(),
        ensures
            final(self).wf(),
            *final(final(self).grid) == *final(old(self).grid),
            final(self).col_end == old(self).col_end,
            (match res {
                Some(line) => line.wf() && line.col == old(self).col && line.row == 0
                    && line.row_end == N && *line.grid == *old(self).grid && nth_front(
                    old(self)@,
                    0,
                ) == Some(line@) && final(self).col == old(self).col + 1 && *final(self).grid
                    == *final(line.grid),
                None => nth_front(old(self)@, 0) is None && final(self).col == old(self).col_end
                    && *final(self).grid == *old(self).grid,
            }),
    {
        self.nth(0)
    }

    /// Passes over `n` columns from the left and lends the next one. The matrix
    /// is afterwards what the lent column cursor leaves behind.
    pub fn nth(&mut self, n: usize) -> (res: Option<ColMut<'_, T, N, M>>)
        requires
            old(self).wf(),
        ensures
            final(self).wf(),
            *final(final(self).grid) == *final(old(self).grid),
            final(self).col_end == old(self).col_end,
            (match res {
                Some(line) => line.wf() && line.col == old(self).col + n && line.row == 0
                    && line.row_end == N && *line.grid == *old(self).grid && nth_front(
                    old(self)@,
                    n as nat,
                ) == Some(line@)
                    && final(self).col == old(self).col + n + 1
                    && *final(self).grid == *final(line.grid),
                None => nth_front(old(self)@, n as nat) is None
                    && final(self).col == old(self).col_end
                    && *final(self).grid == *old(self).grid,
            }),
    {
        if n < self.col_end - self.col {
            let c: usize = self.col + n;
            self.col = c + 1;
            let line = ColMut { grid: &mut *self.grid, col: c, row: 0, row_end: N };
            assert(line@ =~= old(self)@[n as int]);
            Some(line)
        } else {
            self.col = self.col_end;
            None
        }
    }

    /// The exact number of columns left, as both bounds.
    pub fn size_hint(&self) -> (res: (usize, Option<usize>))
        requires
            self.wf(),
        ensures
            res.0 == self@.len(),
            res.1 == Some(res.0),
    {
        let size: usize = self.col_end - self.col;
        (size, Some(size))
    }

    /// Lends the rightmost column.
    pub fn next_back(&mut self) -> (res: Option<ColMut<'_, T, N, M>>)
        requires
            old(self).wf(),
        ensures
            final(self).wf(),
            *final(final(self).grid) == *final(old(self).grid),
            (match res {
                Some(line) => line.wf() && line.col == old(self).col_end - 1 && line.row == 0
                    && line.row_end == N && *line.grid == *old(self).grid && nth_rear(
                    old(self)@,
                    0,
                ) == Some(line@) && final(self).col == old(self).col && final(self).col_end
                    == old(self).col_end - 1 && *final(self).grid == *final(line.grid),
                None => nth_rear(old(self)@, 0) is None
                    && final(self).col == final(self).col_end
                    && *final(self).grid == *old(self).grid,
            }),
    {
        self.nth_back(0)
    }

    /// Passes over `n` columns from the right and lends the one before them.
    pub fn nth_back(&mut self, n: usize) -> (res: Option<ColMut<'_, T, N, M>>)
        requires
            old(self).wf(),
        ensures
            final(self).wf(),
            *final(final(self).grid) == *final(old(self).grid),
            (match res {
                Some(line) => line.wf() && line.col == old(self).col_end - 1 - n && line.row
                    == 0 && line.row_end == N && *line.grid == *old(self).grid && nth_rear(
                    old(self)@,
                    n as nat,
                ) == Some(line@) && final(self).col == old(self).col && final(self).col_end
                    == old(self).col_end - 1 - n && *final(self).grid == *final(line.grid),
                None => nth_rear(old(self)@, n as nat) is None
                    && final(self).col == final(self).col_end
                    && *final(self).grid == *old(self).grid,
            }),
    {
        if n < self.col_end - self.col {
            let c: usize = self.col_end - 1 - n;
            self.col_end = c;
            let line = ColMut { grid: &mut *self.grid, col: c, row: 0, row_end: N };
            assert(line@ =~= old(self)@[old(self)@.len() - 1 - n]);
            Some(line)
        } else {
            self.col = self.col_end;
            None
        }
    }
}

impl<T, const N: usize, const M: usize> Matrix<T, N, M> {
    /// A cursor that owns the matrix and hands out its rows, top first.
    pub fn into_rows(self) -> (out: IntoRows<T, N, M>)
        ensures
            out.wf(),
            out@ == self@,
    {
        let out = IntoRows { inner: into_iter(self.0) };
        assert(out@ =~= self@);
        out
    }

    /// A cursor that lends the rows for writing, top first. When it is given
    /// back, the matrix is what the cursor's borrow holds then.
    pub fn rows_mut(&mut self) -> (out: RowsMut<'_, T, N, M>)
        ensures
            out.wf(),
            out.row == 0,
            out.row_end == N,
            out@ == old(self)@,
            grid_of(*out.grid) == old(self)@,
            grid_of(*final(out.grid)) == final(self)@,
    {
        let out = RowsMut { grid: &mut self.0, row: 0, row_end: N };
        assert(out@ =~= grid_of(*out.grid));
        out
    }

    /// A cursor that lends the columns for writing, leftmost first. When it is
    /// given back, the matrix is what the cursor's borrow holds then.
    pub fn cols_mut(&mut self) -> (out: ColsMut<'_, T, N, M>)
        ensures
            out.wf(),
            out.col == 0,
            out.col_end == M,
            out@ == transposed(old(self)@, N as nat, M as nat),
            grid_of(*out.grid) == old(self)@,
            grid_of(*final(out.grid)) == final(self)@,
    {
        let out = ColsMut { grid: &mut self.0, col: 0, col_end: M };
        assert(out@ =~= transposed(grid_of(*out.grid), N as nat, M as nat));
        out
    }

    /// A cursor over the borrowed rows, top first.
    pub fn rows(&self) -> (out: Rows<'_, T, N, M>)
        ensures
            out.wf(),
            out@ == self@,
    {
        let out = Rows { grid: &self.0, row: 0, row_end: N };
        assert(out@ =~= self@);
        out
    }

    /// A cursor over the borrowed columns, leftmost first.
    pub fn cols(&self) -> (out: Cols<'_, T, N, M>)
        ensures
            out.wf(),
            out@ == transposed(self@, N as nat, M as nat),
    {
        let out = Cols { grid: &self.0, col: 0, col_end: M };
        assert(out@ =~= transposed(self@, N as nat, M as nat));
        out
    }

    /// A cursor that owns the matrix and hands out its columns, leftmost first.
    pub fn into_cols(self) -> (out: IntoCols<T, N, M>)
        ensures
            out.wf(),
            out@ == transposed(self@, N as nat, M as nat),
    {
        let mut lines = into_iter(self.0);
        let mut rows: Vec<IntoIter<T, M>> = Vec::new();
        while lines.len() > 0
            invariant
                lines.wf(),
                rows@.len() + lines@.len() == N,
                lines@ == self.0@.subrange(rows@.len() as int, N as int),
                forall|r: int| 0 <= r < rows@.len() ==> (#[trigger] rows@[r])@ == self.0@[r]@,
            decreases lines@.len(),
        {
            match lines.next() {
                Some(cells) => {
                    rows.push(into_iter(cells));
                },
                None => {},
            }
        }
        let out = IntoCols { rows, left: M };
        assert(out@ =~~= transposed(self@, N as nat, M as nat));
        out
    }
}

} // verus!
