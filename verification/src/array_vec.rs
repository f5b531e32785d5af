//! A sequence with a capacity fixed by its type, and a consuming cursor that
//! can be driven from both ends.

use std::collections::VecDeque;
use vstd::multiset::Multiset;
use vstd::prelude::*;
use vstd::seq_lib::lemma_multiset_commutative;
use vstd::std_specs::iter::IteratorSpec;

verus! {

/// What a cursor over `s` hands out when asked for its `n`-th item from the front.
pub open spec fn nth_front<T>(s: Seq<T>, n: nat) -> Option<T> {
    if n < s.len() {
        Some(s[n as int])
    } else {
        None
    }
}

/// What is left of `s` after the cursor was asked for its `n`-th item from the
/// front: the items before it are gone with it, and an overrun empties the cursor.
pub open spec fn rest_front<T>(s: Seq<T>, n: nat) -> Seq<T> {
    if n < s.len() {
        s.subrange(n as int + 1, s.len() as int)
    } else {
        Seq::empty()
    }
}

/// What a cursor over `s` hands out when asked for its `n`-th item from the back.
pub open spec fn nth_rear<T>(s: Seq<T>, n: nat) -> Option<T> {
    if n < s.len() {
        Some(s[s.len() - 1 - n])
    } else {
        None
    }
}

/// What is left of `s` after the cursor was asked for its `n`-th item from the back.
pub open spec fn rest_rear<T>(s: Seq<T>, n: nat) -> Seq<T> {
    if n < s.len() {
        s.subrange(0, s.len() - 1 - n)
    } else {
        Seq::empty()
    }
}

/// What a buffer of capacity `cap` that held `s` holds after `v` was pushed: a
/// full buffer stays as it was.
pub open spec fn after_push<T>(s: Seq<T>, v: T, cap: nat) -> Seq<T> {
    if s.len() < cap {
        s.push(v)
    } else {
        s
    }
}

/// What a buffer that held `s` holds after a pop: an empty buffer stays empty.
pub open spec fn after_pop<T>(s: Seq<T>) -> Seq<T> {
    if s.len() > 0 {
        s.drop_last()
    } else {
        s
    }
}

/// The items of `extra` that still fit behind `s` when at most `cap` may be held.
pub open spec fn fitting<T>(s: Seq<T>, extra: Seq<T>, cap: nat) -> Seq<T> {
    if s.len() + extra.len() <= cap {
        extra
    } else if s.len() <= cap {
        extra.subrange(0, cap - s.len())
    } else {
        Seq::empty()
    }
}

/// `Vec::from` on an array: the vector holds the array's items, in the array's order.
#[verifier::external_body]
pub(crate) fn vec_from_array<T, const N: usize>(arr: [T; N]) -> (items: Vec<T>)
    ensures
        items@ == arr@,
{
    Vec::from(arr)
}

/// `TryFrom<Vec<T>>` for an array: the array holds the vector's items in order when
/// the vector has exactly `N` of them; otherwise the vector comes back untouched.
#[verifier::external_body]
pub(crate) fn array_from_vec<T, const N: usize>(items: Vec<T>) -> (res: Result<[T; N], Vec<T>>)
    ensures
        items@.len() == N ==> res is Ok && res->Ok_0@ == items@,
        items@.len() != N ==> res is Err && res->Err_0 == items,
{
    <[T; N]>::try_from(items)
}

/// A sequence of at most `N` items.
pub struct ArrayVec<T, const N: usize> {
    items: Vec<T>,
}

impl<T, const N: usize> View for ArrayVec<T, N> {
    type V = Seq<T>;

    closed spec fn view(&self) -> Seq<T> {
        self.items@
    }
}

impl<T, const N: usize> ArrayVec<T, N> {
    /// The capacity bound: never more than `N` items.
    pub open spec fn wf(&self) -> bool {
        self@.len() <= N
    }

    /// The empty buffer.
    pub fn new() -> (out: Self)
        ensures
            out.wf(),
            out@ == Seq::<T>::empty(),
    {
        ArrayVec { items: Vec::new() }
    }

    /// The number of items held.
    pub fn len(&self) -> (n: usize)
        ensures
            n == self@.len(),
    {
        self.items.len()
    }

    /// The items held, and nothing beyond them.
    pub fn as_slice(&self) -> (s: &[T])
        ensures
            s@ == self@,
    {
        self.items.as_slice()
    }

    /// The items held, open to change in place.
    pub fn as_mut_slice(&mut self) -> (s: &mut [T])
        ensures
            s@ == old(self)@,
            final(self)@ == final(s)@,
    {
        self.items.as_mut_slice()
    }

    /// Appends `value` while there is room; a full buffer hands it back and stays as it was.
    pub fn push(&mut self, value: T) -> (res: Result<(), T>)
        ensures
            old(self).wf() ==> final(self).wf(),
            final(self)@ == after_push(old(self)@, value, N as nat),
            old(self)@.len() < N ==> res is Ok,
            old(self)@.len() == N ==> res == Err::<(), T>(value) && final(self)@ == old(self)@,
    {
        if self.items.len() < N {
            self.items.push(value);
            Ok(())
        } else {
            Err(value)
        }
    }

    /// Removes the last item and hands it over; an empty buffer gives `None`.
    pub fn pop(&mut self) -> (res: Option<T>)
        ensures
            old(self).wf() ==> final(self).wf(),
            res == nth_rear(old(self)@, 0),
            final(self)@ == after_pop(old(self)@),
    {
        self.items.pop()
    }

    /// Drops every item held.
    pub fn clear(&mut self)
        ensures
            final(self).wf(),
            final(self)@ == Seq::<T>::empty(),
    {
        self.items.clear();
    }

    /// The buffer that holds exactly the items of `arr`.
    pub fn from(arr: [T; N]) -> (out: Self)
        ensures
            out.wf(),
            out@ == arr@,
    {
        ArrayVec { items: vec_from_array(arr) }
    }

    /// The items as an array, for a buffer known to be full.
    pub fn into_array_unchecked(self) -> (arr: [T; N])
        requires
            self@.len() == N,
        ensures
            arr@ == self@,
    {
        match array_from_vec::<T, N>(self.items) {
            Ok(arr) => arr,
            Err(_) => vstd::pervasive::unreached(),
        }
    }

    /// The items as an array when the buffer is full; otherwise the buffer comes back as it was.
    pub fn try_into(self) -> (res: Result<[T; N], Self>)
        ensures
            self@.len() == N ==> res is Ok && res->Ok_0@ == self@,
            self@.len() != N ==> res == Err::<[T; N], Self>(self),
    {
        match array_from_vec::<T, N>(self.items) {
            Ok(arr) => Ok(arr),
            Err(items) => Err(ArrayVec { items }),
        }
    }

    /// Takes items from `iter` while there is room. Once the buffer is full no
    /// further item is asked for. For a sequence that keeps to the laws of
    /// iteration, the buffer gains the items that fit, in their order.
    pub fn extend<I: Iterator<Item = T>>(&mut self, iter: I)
        ensures
            old(self).wf() ==> final(self).wf(),
            iter.obeys_prophetic_iter_laws() ==> final(self)@ == old(self)@ + fitting(
                old(self)@,
                iter.remaining(),
                N as nat,
            ),
    {
        let ghost all = iter.remaining();
        let ghost start = self@;
        let mut source = iter;
        let mut taken: usize = 0;
        while self.items.len() < N
            invariant
                old(self).wf() ==> self.wf(),
                source.obeys_prophetic_iter_laws() == iter.obeys_prophetic_iter_laws(),
                self@.len() == start.len() + taken,
                taken > 0 ==> self@.len() <= N,
                all == iter.remaining(),
                start == old(self)@,
                source.obeys_prophetic_iter_laws() ==> taken <= all.len() && source.remaining()
                    == all.skip(taken as int) && self@ == start + all.take(taken as int),
            decreases N - self@.len(),
        {
            match source.next() {
                Some(item) => {
                    self.items.push(item);
                    taken = taken + 1;
                    proof {
                        if source.obeys_prophetic_iter_laws() {
                            assert(source.remaining() =~= all.skip(taken as int));
                            assert(self@ =~= start + all.take(taken as int));
                        }
                    }
                },
                None => {
                    proof {
                        if source.obeys_prophetic_iter_laws() {
                            assert(all.take(taken as int) =~= fitting(start, all, N as nat));
                        }
                    }
                    return;
                },
            }
        }
        proof {
            if source.obeys_prophetic_iter_laws() {
                assert(all.take(taken as int) =~= fitting(start, all, N as nat));
            }
        }
    }

    /// The buffer filled from `iter`, as far as there is room.
    pub fn from_iter<I: Iterator<Item = T>>(iter: I) -> (out: Self)
        ensures
            out.wf(),
            iter.obeys_prophetic_iter_laws() ==> out@ == fitting(
                Seq::<T>::empty(),
                iter.remaining(),
                N as nat,
            ),
    {
        let mut out: ArrayVec<T, N> = ArrayVec::new();
        out.extend(iter);
        proof {
            if iter.obeys_prophetic_iter_laws() {
                assert(out@ =~= fitting(Seq::<T>::empty(), iter.remaining(), N as nat));
            }
        }
        out
    }

    /// Turns the buffer into a cursor over its items, first to last.
    pub fn into_iter(self) -> (out: IntoIter<T, N>)
        ensures
            self.wf() ==> out.wf(),
            out@ == self@,
    {
        let mut items: VecDeque<T> = VecDeque::new();
        let mut pending = self.items;
        while pending.len() > 0
            invariant
                pending@ + items@ == self@,
            decreases pending@.len(),
        {
            let ghost before = pending@;
            let ghost items_before = items@;
            match pending.pop() {
                Some(item) => {
                    items.push_front(item);
                    assert(pending@ + items@ =~= before + items_before);
                },
                None => {},
            }
        }
        assert(items@ =~= self@);
        IntoIter { items }
    }
}

impl<T: Clone, const N: usize> Clone for ArrayVec<T, N> {
    /// A buffer of the same length whose items are clones of this one's, in order.
    fn clone(&self) -> (out: Self)
        ensures
            self.wf() ==> out.wf(),
            out@.len() == self@.len(),
            forall|i: int| 0 <= i < self@.len() ==> cloned::<T>(#[trigger] self@[i], out@[i]),
            self@ =~= out@ ==> self@ == out@,
    {
        ArrayVec { items: self.items.clone() }
    }
}

impl<T, const N: usize> std::ops::Deref for ArrayVec<T, N> {
    type Target = [T];

    /// The items held, as a slice.
    fn deref(&self) -> (s: &[T])
        ensures
            s@ == self@,
    {
        self.items.as_slice()
    }
}

impl<T, const N: usize> std::ops::DerefMut for ArrayVec<T, N> {
    /// The items held, as a slice open to change in place.
    fn deref_mut(&mut self) -> (s: &mut [T])
        ensures
            s@ == old(self)@,
            final(self)@ == final(s)@,
    {
        self.items.as_mut_slice()
    }
}

impl<T, const N: usize> Default for ArrayVec<T, N> {
    fn default() -> (out: Self)
        ensures
            out.wf(),
            out@ == Seq::<T>::empty(),
    {
        ArrayVec::new()
    }
}

/// A cursor that owns the items of a buffer and hands them out from either end.
pub struct IntoIter<T, const N: usize> {
    items: VecDeque<T>,
}

impl<T, const N: usize> View for IntoIter<T, N> {
    type V = Seq<T>;

    /// The items not yet handed out, front first.
    closed spec fn view(&self) -> Seq<T> {
        self.items@
    }
}

impl<T, const N: usize> IntoIter<T, N> {
    /// The capacity bound: never more than `N` items are left.
    pub open spec fn wf(&self) -> bool {
        self@.len() <= N
    }

    /// Hands out the front item.
    pub fn next(&mut self) -> (res: Option<T>)
        requires
            old(self).wf(),
        ensures
            final(self).wf(),
            res == nth_front(old(self)@, 0),
            final(self)@ == rest_front(old(self)@, 0),
    {
        let res = self.items.pop_front();
        assert(self@ =~= rest_front(old(self)@, 0));
        res
    }

    /// Hands out the back item.
    pub fn next_back(&mut self) -> (res: Option<T>)
        requires
            old(self).wf(),
        ensures
            final(self).wf(),
            res == nth_rear(old(self)@, 0),
            final(self)@ == rest_rear(old(self)@, 0),
    {
        let res = self.items.pop_back();
        assert(self@ =~= rest_rear(old(self)@, 0));
        res
    }

    /// Drops `n` items from the front and hands out the one behind them; when fewer
    /// than `n + 1` are left, drops them all and gives `None`.
    pub fn nth(&mut self, n: usize) -> (res: Option<T>)
        requires
            old(self).wf(),
        ensures
            final(self).wf(),
            res == nth_front(old(self)@, n as nat),
            final(self)@ == rest_front(old(self)@, n as nat),
    {
        if n < self.items.len() {
            let mut dropped: usize = 0;
            while dropped < n
                invariant
                    dropped <= n < old(self)@.len(),
                    self@ == old(self)@.subrange(dropped as int, old(self)@.len() as int),
                decreases n - dropped,
            {
                let _ = self.items.pop_front();
                dropped = dropped + 1;
                assert(self@ =~= old(self)@.subrange(dropped as int, old(self)@.len() as int));
            }
            let res = self.items.pop_front();
            assert(self@ =~= rest_front(old(self)@, n as nat));
            res
        } else {
            self.items.clear();
            None
        }
    }

    /// Drops `n` items from the back and hands out the one before them; when fewer
    /// than `n + 1` are left, drops them all and gives `None`.
    pub fn nth_back(&mut self, n: usize) -> (res: Option<T>)
        requires
            old(self).wf(),
        ensures
            final(self).wf(),
            res == nth_rear(old(self)@, n as nat),
            final(self)@ == rest_rear(old(self)@, n as nat),
    {
        let len: usize = self.items.len();
        if n < len {
            self.items.truncate(len - n);
            let res = self.items.pop_back();
            assert(self@ =~= rest_rear(old(self)@, n as nat));
            res
        } else {
            self.items.clear();
            None
        }
    }

    /// The exact number of items left, as both bounds.
    pub fn size_hint(&self) -> (res: (usize, Option<usize>))
        ensures
            res.0 == self@.len(),
            res.1 == Some(res.0),
    {
        let size: usize = self.items.len();
        (size, Some(size))
    }

    /// The number of items left.
    pub fn len(&self) -> (n: usize)
        ensures
            n == self@.len(),
    {
        self.items.len()
    }

    /// Hands out everything that is left, front first.
    pub fn collect(self) -> (out: Vec<T>)
        ensures
            out@ == self@,
    {
        let mut out: Vec<T> = Vec::new();
        let mut items = self.items;
        while items.len() > 0
            invariant
                out@ + items@ == self@,
            decreases items@.len(),
        {
            let ghost out_before = out@;
            let ghost before = items@;
            match items.pop_front() {
                Some(item) => {
                    out.push(item);
                    assert(out@ + items@ =~= out_before + before);
                },
                None => {},
            }
        }
        assert(out@ =~= self@);
        out
    }
}

impl<T: Clone, const N: usize> Clone for IntoIter<T, N> {
    /// A cursor over clones of the items that are left; what was handed out is not copied.
    fn clone(&self) -> (out: Self)
        ensures
            self.wf() ==> out.wf(),
            out@.len() == self@.len(),
            forall|i: int| 0 <= i < self@.len() ==> cloned::<T>(#[trigger] self@[i], out@[i]),
            self@ =~= out@ ==> self@ == out@,
    {
        IntoIter { items: self.items.clone() }
    }
}

/// One step of work on a buffer: a push of a value, or a pop.
pub enum StackOp<T> {
    Push(T),
    Pop,
}

/// What a buffer of capacity `cap` holds after `ops` ran on it, in order, from empty.
pub open spec fn run_stack<T>(ops: Seq<StackOp<T>>, cap: nat) -> Seq<T>
    decreases ops.len(),
{
    if ops.len() == 0 {
        Seq::empty()
    } else {
        let before = run_stack(ops.drop_last(), cap);
        match ops.last() {
            StackOp::Push(v) => after_push(before, v, cap),
            StackOp::Pop => after_pop(before),
        }
    }
}

/// The number of pushes among `ops`.
pub open spec fn count_push<T>(ops: Seq<StackOp<T>>) -> nat
    decreases ops.len(),
{
    if ops.len() == 0 {
        0
    } else {
        count_push(ops.drop_last()) + if ops.last() is Push {
            1nat
        } else {
            0nat
        }
    }
}

/// The number of pops among `ops`.
pub open spec fn count_pop<T>(ops: Seq<StackOp<T>>) -> nat
    decreases ops.len(),
{
    if ops.len() == 0 {
        0
    } else {
        count_pop(ops.drop_last()) + if ops.last() is Pop {
            1nat
        } else {
            0nat
        }
    }
}

/// Whether no pop among `ops` comes when as many pops as pushes went before it.
pub open spec fn pops_follow_pushes<T>(ops: Seq<StackOp<T>>) -> bool {
    forall|k: int|
        0 <= k <= ops.len() ==> count_pop(#[trigger] ops.take(k)) <= count_push(ops.take(k))
}

/// The values that `n` pops hand out of a buffer that holds `s`, in the order
/// in which they come.
pub open spec fn pop_all<T>(s: Seq<T>, n: nat) -> Seq<T>
    decreases n,
{
    if n == 0 || s.len() == 0 {
        Seq::empty()
    } else {
        seq![s.last()] + pop_all(s.drop_last(), (n - 1) as nat)
    }
}

/// A pop right after a push that found room hands the pushed value back and
/// leaves the buffer as it was before the push.
pub proof fn lemma_pop_undoes_push<T>(s: Seq<T>, v: T, cap: nat)
    requires
        s.len() < cap,
    ensures
        nth_rear(after_push(s, v, cap), 0) == Some(v),
        after_pop(after_push(s, v, cap)) == s,
{
    assert(s.push(v).drop_last() =~= s);
}

/// A push into a full buffer changes nothing.
pub proof fn lemma_full_push_is_refused<T>(s: Seq<T>, v: T, cap: nat)
    requires
        s.len() == cap,
    ensures
        after_push(s, v, cap) == s,
{
}

/// After any run of at most `cap` pushes and of pops that never come to an
/// empty buffer, the buffer holds as many items as pushes minus pops.
pub proof fn lemma_stack_length<T>(ops: Seq<StackOp<T>>, cap: nat)
    requires
        count_push(ops) <= cap,
        pops_follow_pushes(ops),
    ensures
        run_stack(ops, cap).len() == count_push(ops) - count_pop(ops),
    decreases ops.len(),
{
    if ops.len() > 0 {
        let init = ops.drop_last();
        assert forall|k: int| 0 <= k <= init.len() implies count_pop(#[trigger] init.take(k))
            <= count_push(init.take(k)) by {
            assert(init.take(k) =~= ops.take(k));
        }
        lemma_stack_length(init, cap);
        assert(ops.take(ops.len() as int) =~= ops);
        assert(init.take(init.len() as int) =~= init);
    }
}

/// Popping takes the items in the reverse of the order in which they were
/// pushed: from a buffer that holds `s`, `s.len()` pops hand out the last item
/// first and the first item last.
pub proof fn lemma_pops_come_in_reverse<T>(s: Seq<T>)
    ensures
        pop_all(s, s.len()).len() == s.len(),
        forall|k: int| 0 <= k < s.len() ==> pop_all(s, s.len())[k] == s[s.len() - 1 - k],
    decreases s.len(),
{
    if s.len() > 0 {
        lemma_pops_come_in_reverse(s.drop_last());
        let rest = pop_all(s.drop_last(), (s.len() - 1) as nat);
        assert(pop_all(s, s.len()) == seq![s.last()] + rest);
        assert forall|k: int| 0 <= k < s.len() implies pop_all(s, s.len())[k] == s[s.len() - 1
            - k] by {
            if k > 0 {
                assert(pop_all(s, s.len())[k] == rest[k - 1]);
            }
        }
    }
}

/// Pushing the items of `vs` in order into an empty buffer with room for all of
/// them leaves the buffer holding exactly `vs`.
pub proof fn lemma_pushes_keep_order<T>(vs: Seq<T>, cap: nat)
    requires
        vs.len() <= cap,
    ensures
        run_stack(Seq::new(vs.len(), |k: int| StackOp::Push(vs[k])), cap) == vs,
    decreases vs.len(),
{
    let ops = Seq::new(vs.len(), |k: int| StackOp::Push(vs[k]));
    if vs.len() > 0 {
        let init = vs.drop_last();
        lemma_pushes_keep_order(init, cap);
        assert(ops.drop_last() =~= Seq::new(init.len(), |k: int| StackOp::Push(init[k])));
        assert(run_stack(ops, cap) =~= vs);
    } else {
        assert(run_stack(ops, cap) =~= vs);
    }
}

/// One step of work on a cursor: asking for the `n`-th item from the front, or
/// for the `n`-th item from the back.
pub enum CursorOp {
    Front(nat),
    Back(nat),
}

/// What has become of the items of a cursor after some steps.
pub struct Consumed<T> {
    /// The items handed out from the front, in the order in which they came.
    pub front: Seq<T>,
    /// The items handed out from the back, in the order in which they came.
    pub back: Seq<T>,
    /// The items that were passed over and dropped, in the order in which they went.
    pub dropped: Seq<T>,
    /// The items that are left.
    pub rest: Seq<T>,
}

/// The items that asking for the `n`-th item from the front passes over.
pub open spec fn passed_front<T>(s: Seq<T>, n: nat) -> Seq<T> {
    if n < s.len() {
        s.subrange(0, n as int)
    } else {
        s
    }
}

/// The items that asking for the `n`-th item from the back passes over.
pub open spec fn passed_rear<T>(s: Seq<T>, n: nat) -> Seq<T> {
    if n < s.len() {
        s.subrange(s.len() - n, s.len() as int)
    } else {
        s
    }
}

/// The items of all four places together, without their order.
pub open spec fn all_items<T>(c: Consumed<T>) -> Multiset<T> {
    c.front.to_multiset().add(c.back.to_multiset()).add(c.dropped.to_multiset()).add(
        c.rest.to_multiset(),
    )
}

/// What has become of the items of `s` after `ops` ran, in order, on a cursor over `s`.
pub open spec fn run_cursor<T>(s: Seq<T>, ops: Seq<CursorOp>) -> Consumed<T>
    decreases ops.len(),
{
    if ops.len() == 0 {
        Consumed { front: Seq::empty(), back: Seq::empty(), dropped: Seq::empty(), rest: s }
    } else {
        let before = run_cursor(s, ops.drop_last());
        match ops.last() {
            CursorOp::Front(n) => Consumed {
                front: match nth_front(before.rest, n) {
                    Some(v) => before.front.push(v),
                    None => before.front,
                },
                back: before.back,
                dropped: before.dropped + passed_front(before.rest, n),
                rest: rest_front(before.rest, n),
            },
            CursorOp::Back(n) => Consumed {
                front: before.front,
                back: match nth_rear(before.rest, n) {
                    Some(v) => before.back.push(v),
                    None => before.back,
                },
                dropped: before.dropped + passed_rear(before.rest, n),
                rest: rest_rear(before.rest, n),
            },
        }
    }
}

/// Whether no step of `ops` passes over an item.
pub open spec fn no_skips(ops: Seq<CursorOp>) -> bool {
    forall|k: int|
        0 <= k < ops.len() ==> match #[trigger] ops[k] {
            CursorOp::Front(n) => n == 0,
            CursorOp::Back(n) => n == 0,
        }
}

/// `s` with its items in the opposite order.
pub open spec fn backwards<T>(s: Seq<T>) -> Seq<T> {
    Seq::new(s.len(), |k: int| s[s.len() - 1 - k])
}

/// Whatever steps run on a cursor, its items are neither lost nor doubled: the
/// items handed out, dropped and left are, all together, exactly the items
/// that the cursor had, each as often as it had it.
pub proof fn lemma_cursor_keeps_every_item<T>(s: Seq<T>, ops: Seq<CursorOp>)
    ensures
        all_items(run_cursor(s, ops)) == s.to_multiset(),
    decreases ops.len(),
{
    let end = run_cursor(s, ops);
    if ops.len() == 0 {
        assert(Seq::<T>::empty().to_multiset() =~= Multiset::<T>::empty()) by {
            lemma_multiset_commutative(Seq::<T>::empty(), Seq::<T>::empty());
            assert(Seq::<T>::empty() + Seq::<T>::empty() =~= Seq::<T>::empty());
        }
        assert(all_items(end) =~= s.to_multiset());
    } else {
        lemma_cursor_keeps_every_item(s, ops.drop_last());
        let before = run_cursor(s, ops.drop_last());
        let r = before.rest;
        match ops.last() {
            CursorOp::Front(n) => {
                lemma_multiset_commutative(before.dropped, passed_front(r, n));
                if n < r.len() {
                    let head = r.subrange(0, n as int);
                    let tail = r.subrange(n as int + 1, r.len() as int);
                    assert(r =~= head + seq![r[n as int]] + tail);
                    lemma_multiset_commutative(head + seq![r[n as int]], tail);
                    lemma_multiset_commutative(head, seq![r[n as int]]);
                    lemma_multiset_commutative(before.front, seq![r[n as int]]);
                    assert(before.front.push(r[n as int]) =~= before.front + seq![r[n as int]]);
                    assert(all_items(end) =~= all_items(before));
                } else {
                    assert(end.rest.to_multiset() =~= Multiset::<T>::empty()) by {
                        lemma_multiset_commutative(end.rest, end.rest);
                        assert(end.rest + end.rest =~= end.rest);
                    }
                    assert(all_items(end) =~= all_items(before));
                }
            },
            CursorOp::Back(n) => {
                lemma_multiset_commutative(before.dropped, passed_rear(r, n));
                if n < r.len() {
                    let head = r.subrange(0, r.len() - 1 - n);
                    let item = r[r.len() - 1 - n];
                    let tail = r.subrange(r.len() - n, r.len() as int);
                    assert(r =~= head + seq![item] + tail);
                    lemma_multiset_commutative(head + seq![item], tail);
                    lemma_multiset_commutative(head, seq![item]);
                    lemma_multiset_commutative(before.back, seq![item]);
                    assert(before.back.push(item) =~= before.back + seq![item]);
                    assert(all_items(end) =~= all_items(before));
                } else {
                    assert(end.rest.to_multiset() =~= Multiset::<T>::empty()) by {
                        lemma_multiset_commutative(end.rest, end.rest);
                        assert(end.rest + end.rest =~= end.rest);
                    }
                    assert(all_items(end) =~= all_items(before));
                }
            },
        }
    }
}

/// Whatever steps run on a cursor, every item of it is in exactly one place:
/// handed out from the front, handed out from the back, dropped, or still left.
pub proof fn lemma_cursor_accounts_for_all<T>(s: Seq<T>, ops: Seq<CursorOp>)
    ensures
        ({
            let end = run_cursor(s, ops);
            end.front.len() + end.back.len() + end.dropped.len() + end.rest.len() == s.len()
        }),
    decreases ops.len(),
{
    if ops.len() > 0 {
        lemma_cursor_accounts_for_all(s, ops.drop_last());
    }
}

/// When no step passes over an item, the items handed out from the front, the
/// items left, and the items handed out from the back in reverse make up the
/// cursor's items in their order: each was handed out at most once, and none
/// was lost.
pub proof fn lemma_cursor_hands_out_each_once<T>(s: Seq<T>, ops: Seq<CursorOp>)
    requires
        no_skips(ops),
    ensures
        ({
            let end = run_cursor(s, ops);
            end.dropped.len() == 0 && end.front + end.rest + backwards(end.back) == s
        }),
    decreases ops.len(),
{
    let end = run_cursor(s, ops);
    if ops.len() > 0 {
        let init = ops.drop_last();
        assert forall|k: int| 0 <= k < init.len() implies match #[trigger] init[k] {
            CursorOp::Front(n) => n == 0,
            CursorOp::Back(n) => n == 0,
        } by {
            assert(init[k] == ops[k]);
        }
        lemma_cursor_hands_out_each_once(s, init);
        let before = run_cursor(s, init);
        assert(ops[ops.len() - 1] == ops.last());
        assert(end.front + end.rest + backwards(end.back) =~= before.front + before.rest
            + backwards(before.back));
    } else {
        assert(end.front + end.rest + backwards(end.back) =~= s);
    }
}

/// When no step passes over an item and there are at least as many steps as
/// items, the cursor hands out exactly as many items as it had, and nothing is left.
pub proof fn lemma_cursor_hands_out_all<T>(s: Seq<T>, ops: Seq<CursorOp>)
    requires
        no_skips(ops),
        ops.len() >= s.len(),
    ensures
        ({
            let end = run_cursor(s, ops);
            end.rest.len() == 0 && end.front.len() + end.back.len() == s.len()
        }),
{
    lemma_cursor_left_after(s, ops);
    lemma_cursor_accounts_for_all(s, ops);
    lemma_cursor_hands_out_each_once(s, ops);
}

/// When no step passes over an item, every step takes one item while any is left.
pub proof fn lemma_cursor_left_after<T>(s: Seq<T>, ops: Seq<CursorOp>)
    requires
        no_skips(ops),
    ensures
        run_cursor(s, ops).rest.len() == (if ops.len() <= s.len() {
            s.len() - ops.len()
        } else {
            0
        }),
    decreases ops.len(),
{
    if ops.len() > 0 {
        let init = ops.drop_last();
        assert forall|k: int| 0 <= k < init.len() implies match #[trigger] init[k] {
            CursorOp::Front(n) => n == 0,
            CursorOp::Back(n) => n == 0,
        } by {
            assert(init[k] == ops[k]);
        }
        lemma_cursor_left_after(s, init);
        assert(ops[ops.len() - 1] == ops.last());
    }
}

/// A cursor with nothing left hands out nothing, whatever it is asked for, and
/// stays as it is.
pub proof fn lemma_exhausted_stays_exhausted<T>(n: nat)
    ensures
        nth_front(Seq::<T>::empty(), n) is None,
        nth_rear(Seq::<T>::empty(), n) is None,
        rest_front(Seq::<T>::empty(), n) == Seq::<T>::empty(),
        rest_rear(Seq::<T>::empty(), n) == Seq::<T>::empty(),
{
}

/// Two arrays with the same items in the same order are the same array: what
/// was built from an array and turned back into one is the array it came from.
pub proof fn lemma_array_round_trip<T, const N: usize>(arr: [T; N], held: Seq<T>, back: [T; N])
    requires
        held == arr@,
        back@ == held,
    ensures
        held.len() == N,
        back == arr,
{
    assert(back =~= arr);
}

} // verus!
