//! The shared work-distribution queue: a FIFO of piece indices awaiting
//! download. Workers claim an index with [`WorkQueue::get_piece`] and hand it
//! back with [`WorkQueue::return_piece`] when the download failed.

use vstd::prelude::*;

verus! {

/// A FIFO of pending piece indices. The front of the view is the next index
/// handed out.
pub struct WorkQueue {
    items: Vec<usize>,
}

impl View for WorkQueue {
    type V = Seq<usize>;

    closed spec fn view(&self) -> Seq<usize> {
        self.items@
    }
}

impl WorkQueue {
    /// A queue holding exactly the given indices, in order.
    pub fn new(pieces: Vec<usize>) -> (q: Self)
        ensures
            q@ == pieces@,
    {
        WorkQueue { items: pieces }
    }

    /// How many indices are pending.
    pub fn len(&self) -> (n: usize)
        ensures
            n == self@.len(),
    {
        self.items.len()
    }

    /// Claim the next index: the front of the FIFO leaves the queue.
    /// An empty queue yields `None` and is left unchanged.
    pub fn get_piece(&mut self) -> (r: Option<usize>)
        ensures
            old(self)@.len() == 0 ==> r is None && final(self)@ == old(self)@,
            old(self)@.len() > 0 ==> r == Some(old(self)@[0]) && final(self)@ == old(
                self,
            )@.drop_first(),
    {
        if self.items.len() == 0 {
            return None;
        }
        let piece = self.items.remove(0);
        assert(final(self)@ =~= old(self)@.drop_first());
        Some(piece)
    }

    /// Hand an index back: it is enqueued at the tail.
    pub fn return_piece(&mut self, piece_index: usize)
        ensures
            final(self)@ == old(self)@.push(piece_index),
            final(self)@.contains(piece_index),
    {
        self.items.push(piece_index);
        assert(final(self)@[final(self)@.len() - 1] == piece_index);
    }
}

/// How many times `k` occurs in the queue view.
pub open spec fn index_count(s: Seq<usize>, k: usize) -> nat
    decreases s.len(),
{
    if s.len() == 0 {
        0
    } else {
        index_count(s.drop_first(), k) + if s[0] == k {
            1nat
        } else {
            0nat
        }
    }
}

/// Claiming the front of the queue removes one occurrence of that index and
/// none of any other.
pub proof fn lemma_get_decreases_count(s: Seq<usize>, k: usize)
    requires
        s.len() > 0,
    ensures
        s[0] == k ==> index_count(s.drop_first(), k) == index_count(s, k) - 1,
        s[0] != k ==> index_count(s.drop_first(), k) == index_count(s, k),
{
}

/// Returning an index adds exactly one occurrence of it and none of any
/// other.
pub proof fn lemma_return_increases_count(s: Seq<usize>, k: usize, j: usize)
    ensures
        index_count(s.push(k), k) == index_count(s, k) + 1,
        j != k ==> index_count(s.push(k), j) == index_count(s, j),
    decreases s.len(),
{
    if s.len() == 0 {
        assert(s.push(k).drop_first() =~= s);
    } else {
        assert(s.push(k).drop_first() =~= s.drop_first().push(k));
        lemma_return_increases_count(s.drop_first(), k, j);
    }
}

/// An index the queue does not hold is never counted.
pub proof fn lemma_count_zero_not_contains(s: Seq<usize>, k: usize)
    ensures
        index_count(s, k) == 0 <==> !s.contains(k),
    decreases s.len(),
{
    if s.len() > 0 {
        lemma_count_zero_not_contains(s.drop_first(), k);
        if s.contains(k) && s[0] != k {
            let i = choose|i: int| 0 <= i < s.len() && s[i] == k;
            assert(s.drop_first()[i - 1] == k);
        }
    }
}

/// Queue safety: while the queue holds a single occurrence of `k`, a claim
/// that hands out `k` leaves a queue with no occurrence of `k` at all, so no
/// later claim can hand out `k` until `return_piece(k)` is observed (a claim
/// only hands out an index the queue holds, and a return of `k` is the only
/// operation that adds an occurrence of `k`).
pub proof fn lemma_claim_unique(s: Seq<usize>, k: usize)
    requires
        s.len() > 0,
        s[0] == k,
        index_count(s, k) <= 1,
    ensures
        index_count(s.drop_first(), k) == 0,
        !s.drop_first().contains(k),
{
    lemma_get_decreases_count(s, k);
    lemma_count_zero_not_contains(s.drop_first(), k);
}

} // verus!
