//! Splitting one exclusive borrow of a grid into exclusive borrows of its cells,
//! and handing those out on request so that no cell is ever lent twice.

use vstd::prelude::*;

verus! {

/// Splits the borrow of a row into one borrow per cell, left to right. What is
/// written through the cell borrows is what the row holds in the end.
pub fn lend_row<'a, T>(row: &'a mut [T]) -> (out: Vec<Option<&'a mut T>>)
    ensures
        out@.len() == old(row)@.len(),
        final(row)@.len() == old(row)@.len(),
        forall|i: int|
            #![trigger out@[i]]
            0 <= i < out@.len() ==> out@[i] is Some && *out@[i]->Some_0 == old(row)@[i]
                && *final(out@[i]->Some_0) == final(row)@[i],
{
    let ghost start = row@;
    let mut out: Vec<Option<&'a mut T>> = Vec::new();
    let mut rest = row;
    while rest.len() > 0
        invariant
            out@.len() + rest@.len() == start.len(),
            rest@ == start.subrange(out@.len() as int, start.len() as int),
            forall|i: int|
                0 <= i < out@.len() ==> (#[trigger] out@[i]) is Some && *out@[i]->Some_0
                    == start[i],
            final(row)@ == Seq::new(out@.len(), |i: int| *final(out@[i]->Some_0)) + final(rest)@,
        decreases rest@.len(),
    {
        let (head, tail) = rest.split_at_mut(1);
        out.push(head.first_mut());
        rest = tail;
    }
    out
}

/// Splits the borrow of a grid into one borrow per cell, row by row. What is
/// written through the cell borrows is what the grid holds in the end.
pub fn lend_cells<'a, T, const M: usize>(grid: &'a mut [[T; M]]) -> (out: Vec<Vec<Option<&'a mut T>>>)
    ensures
        out@.len() == old(grid)@.len(),
        final(grid)@.len() == old(grid)@.len(),
        forall|r: int| 0 <= r < out@.len() ==> (#[trigger] out@[r])@.len() == M,
        forall|r: int, c: int|
            #![trigger out@[r]@[c]]
            #![trigger final(grid)@[r]@[c]]
            0 <= r < out@.len() && 0 <= c < M ==> out@[r]@[c] is Some && *out@[r]@[c]->Some_0
                == old(grid)@[r]@[c] && *final(out@[r]@[c]->Some_0) == final(grid)@[r]@[c],
{
    let ghost start = grid@;
    let mut out: Vec<Vec<Option<&'a mut T>>> = Vec::new();
    let mut rest = grid;
    while rest.len() > 0
        invariant
            out@.len() + rest@.len() == start.len(),
            rest@ == start.subrange(out@.len() as int, start.len() as int),
            forall|r: int| 0 <= r < out@.len() ==> (#[trigger] out@[r])@.len() == M,
            forall|r: int, c: int|
                0 <= r < out@.len() && 0 <= c < M ==> (#[trigger] out@[r]@[c]) is Some
                    && *out@[r]@[c]->Some_0 == start[r]@[c],
            final(grid)@.len() == out@.len() + final(rest)@.len(),
            forall|r: int| out@.len() <= r < final(grid)@.len() ==> final(grid)@[r] == final(rest)@[r - out@.len()],
            forall|r: int, c: int|
                0 <= r < out@.len()
                    && 0 <= c < M ==> *final(#[trigger] out@[r]@[c]->Some_0) == final(grid)@[r]@[c],
        decreases rest@.len(),
    {
        let (head, tail) = rest.split_at_mut(1);
        match head.first_mut() {
            Some(row) => {
                let cells: &mut [T] = row;
                out.push(lend_row(cells));
            },
            None => {},
        }
        rest = tail;
    }
    out
}

/// Whether an earlier request than the `k`-th names the cell `(row, col)`.
pub open spec fn asked_before(pos: Seq<(usize, usize)>, k: int, row: int, col: int) -> bool {
    exists|j: int| 0 <= j < k && (#[trigger] pos[j]).0 == row && pos[j].1 == col
}

/// Whether the `k`-th request is granted.
pub open spec fn granted(pos: Seq<(usize, usize)>, k: int, rows: nat, cols: nat) -> bool {
    &&& pos[k].0 < rows
    &&& pos[k].1 < cols
    &&& !asked_before(pos, k, pos[k].0 as int, pos[k].1 as int)
}

/// Answers each request of `pos`, in order, from the cell borrows of a grid with
/// `cols` columns: a request inside the grid that no earlier request named gets
/// the borrow of its cell, every other request gets `None`. The borrows that are
/// not handed out end here, so their cells keep what they hold.
pub fn hand_out<'a, T, const P: usize>(
    cells: Vec<Vec<Option<&'a mut T>>>,
    pos: &[(usize, usize); P],
    cols: usize,
) -> (out: Vec<Option<&'a mut T>>)
    requires
        forall|r: int| 0 <= r < cells@.len() ==> (#[trigger] cells@[r])@.len() == cols,
        forall|r: int, c: int|
            0 <= r < cells@.len() && 0 <= c < cols ==> (#[trigger] cells@[r]@[c]) is Some,
    ensures
        out@.len() == P,
        forall|k: int|
            0 <= k < P ==> #[trigger] out@[k] == (if granted(pos@, k, cells@.len(), cols as nat) {
                cells@[pos@[k].0 as int]@[pos@[k].1 as int]
            } else {
                None
            }),
        forall|r: int, c: int|
            0 <= r < cells@.len() && 0 <= c < cols && !asked_before(pos@, P as int, r, c)
                ==> *final((#[trigger] cells@[r]@[c])->Some_0) == *cells@[r]@[c]->Some_0,
{
    let ghost orig = cells@;
    let mut left = cells;
    let mut out: Vec<Option<&'a mut T>> = Vec::new();
    let mut k: usize = 0;
    while k < P
        invariant
            k <= P,
            orig == cells@,
            left@.len() == orig.len(),
            forall|r: int| 0 <= r < left@.len() ==> (#[trigger] left@[r])@.len() == cols,
            forall|r: int, c: int|
                0 <= r < orig.len() && 0 <= c < cols ==> (#[trigger] orig[r]@[c]) is Some,
            forall|r: int, c: int|
                0 <= r < left@.len()
                    && 0 <= c < cols ==> #[trigger] left@[r]@[c] == if asked_before(
                    pos@,
                    k as int,
                    r,
                    c,
                ) {
                    None
                } else {
                    orig[r]@[c]
                },
            out@.len() == k,
            forall|j: int|
                0 <= j < k ==> #[trigger] out@[j] == if granted(pos@, j, orig.len(), cols as nat) {
                    orig[pos@[j].0 as int]@[pos@[j].1 as int]
                } else {
                    None
                },
        decreases P - k,
    {
        let row: usize = pos[k].0;
        let col: usize = pos[k].1;
        if row < left.len() && col < cols {
            let taken = left[row][col].take();
            out.push(taken);
        } else {
            out.push(None);
        }
        k = k + 1;
    }
    proof {
        assert(has_resolved(left));
        assert forall|r: int, c: int|
            0 <= r < orig.len()
                && 0 <= c < cols
                && !asked_before(pos@, P as int, r, c) implies *final(#[trigger] orig[r]@[c]->Some_0)
            == *orig[r]@[c]->Some_0 by {
            assert(has_resolved(left@[r]));
            assert(has_resolved(left@[r]@[c]));
            assert(left@[r]@[c] == orig[r]@[c]);
        }
    }
    out
}

} // verus!
