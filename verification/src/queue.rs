//! A queue with insertion at both ends, over the standard deque.
//!
//! The functions on sequences in this module say what the queue operations
//! do to the values of a queue, front first. The circular queue of
//! [`crate::list::queue`] is described by the same functions.
use vstd::prelude::*;
use std::collections::VecDeque;

verus! {

/// What `dequeue` returns on a queue that holds `s`: the head, if there is one.
pub open spec fn dequeue_value<T>(s: Seq<T>) -> Option<T> {
    if s.len() == 0 {
        None
    } else {
        Some(s.first())
    }
}

/// What `dequeue` leaves of a queue that holds `s`.
pub open spec fn dequeue_rest<T>(s: Seq<T>) -> Seq<T> {
    if s.len() == 0 {
        s
    } else {
        s.drop_first()
    }
}

/// The values of a queue that held `s`, after `val` was put in front of them.
pub open spec fn requeued<T>(s: Seq<T>, val: T) -> Seq<T> {
    seq![val] + s
}

/// A first-in-first-out queue that also takes values at its head.
/// `self@` is the sequence of its values, head first.
pub struct Queue<T> {
    values: VecDeque<T>,
}

impl<T> View for Queue<T> {
    type V = Seq<T>;

    /// The values of the queue, head first.
    closed spec fn view(&self) -> Seq<T> {
        self.values@
    }
}

impl<T: Default> Queue<T> {
    /// An empty queue.
    pub fn new() -> (queue: Queue<T>)
        ensures
            queue@ == Seq::<T>::empty(),
    {
        Queue { values: VecDeque::new() }
    }

    /// Adds `val` at the tail.
    pub fn enqueue(&mut self, val: T)
        ensures
            final(self)@ == old(self)@.push(val),
    {
        self.values.push_back(val);
    }

    /// Removes and returns the head; nothing changes if the queue is empty.
    pub fn dequeue(&mut self) -> (val: Option<T>)
        ensures
            val == dequeue_value(old(self)@),
            final(self)@ == dequeue_rest(old(self)@),
    {
        self.values.pop_front()
    }

    /// Puts `val` in front of the head.
    pub fn requeue(&mut self, val: T)
        ensures
            final(self)@ == requeued(old(self)@, val),
    {
        self.values.push_front(val);
    }

    /// The head, if there is one.
    pub fn peek(&self) -> (val: Option<&T>)
        ensures
            val == match dequeue_value(self@) {
                Some(v) => Some(&v),
                None => None,
            },
    {
        if self.values.len() == 0 {
            None
        } else {
            Some(&self.values[0])
        }
    }
}

/// One operation on a queue.
pub enum Op<T> {
    Enqueue(T),
    Dequeue,
    Requeue(T),
}

/// The values of a queue that held `s`, after `op`.
pub open spec fn step<T>(s: Seq<T>, op: Op<T>) -> Seq<T> {
    match op {
        Op::Enqueue(val) => s.push(val),
        Op::Dequeue => dequeue_rest(s),
        Op::Requeue(val) => requeued(s, val),
    }
}

/// The values of a queue that held `s`, after `ops` in order.
pub open spec fn run<T>(s: Seq<T>, ops: Seq<Op<T>>) -> Seq<T>
    decreases ops.len(),
{
    if ops.len() == 0 {
        s
    } else {
        step(run(s, ops.drop_last()), ops.last())
    }
}

/// How many of `ops` add a value, at either end.
pub open spec fn additions<T>(ops: Seq<Op<T>>) -> nat
    decreases ops.len(),
{
    if ops.len() == 0 {
        0
    } else {
        additions(ops.drop_last()) + if ops.last() is Dequeue {
            0nat
        } else {
            1nat
        }
    }
}

/// How many of `ops` are dequeues.
pub open spec fn dequeues<T>(ops: Seq<Op<T>>) -> nat
    decreases ops.len(),
{
    if ops.len() == 0 {
        0
    } else {
        dequeues(ops.drop_last()) + if ops.last() is Dequeue {
            1nat
        } else {
            0nat
        }
    }
}

/// Whether every dequeue among `ops`, run on a queue that holds `s`, finds
/// a value to remove.
pub open spec fn dequeues_find_values<T>(s: Seq<T>, ops: Seq<Op<T>>) -> bool
    decreases ops.len(),
{
    if ops.len() == 0 {
        true
    } else {
        &&& dequeues_find_values(s, ops.drop_last())
        &&& ops.last() is Dequeue ==> run(s, ops.drop_last()).len() > 0
    }
}

/// The size of a queue is what it was, plus the values added at either end,
/// minus the dequeues, provided that no dequeue met an empty queue (such a
/// dequeue removes nothing).
pub proof fn lemma_size_counts_operations<T>(s: Seq<T>, ops: Seq<Op<T>>)
    requires
        dequeues_find_values(s, ops),
    ensures
        run(s, ops).len() == s.len() + additions(ops) - dequeues(ops),
    decreases ops.len(),
{
    if ops.len() > 0 {
        lemma_size_counts_operations(s, ops.drop_last());
    }
}

/// The head after one operation: an enqueue leaves the head in place, or
/// becomes the head of an empty queue; a requeue becomes the head; a dequeue
/// makes the second value the head, if there is one.
pub proof fn lemma_head_after_step<T>(s: Seq<T>, op: Op<T>)
    ensures
        dequeue_value(step(s, op)) == match op {
            Op::Enqueue(val) => if s.len() == 0 {
                Some(val)
            } else {
                Some(s[0])
            },
            Op::Dequeue => if s.len() >= 2 {
                Some(s[1])
            } else {
                None
            },
            Op::Requeue(val) => Some(val),
        },
{
}

/// A `dequeue` right after `requeue(val)` returns `val` and leaves the
/// queue, and so its size, as it was before the two.
pub proof fn lemma_dequeue_undoes_requeue<T>(s: Seq<T>, val: T)
    ensures
        dequeue_value(requeued(s, val)) == Some(val),
        dequeue_rest(requeued(s, val)) == s,
        dequeue_rest(requeued(s, val)).len() == s.len(),
{
    assert(requeued(s, val).drop_first() =~= s);
}

/// The values of a queue that held `s`, after `k` calls of `dequeue`.
pub open spec fn dequeued<T>(s: Seq<T>, k: nat) -> Seq<T>
    decreases k,
{
    if k == 0 {
        s
    } else {
        dequeue_rest(dequeued(s, (k - 1) as nat))
    }
}

/// On an empty queue every dequeue returns nothing and leaves the queue
/// empty, however often it is repeated.
pub proof fn lemma_dequeue_on_empty<T>(k: nat)
    ensures
        dequeued(Seq::<T>::empty(), k) == Seq::<T>::empty(),
        dequeue_value(dequeued(Seq::<T>::empty(), k)).is_none(),
    decreases k,
{
    if k > 0 {
        lemma_dequeue_on_empty::<T>((k - 1) as nat);
    }
}

} // verus!
