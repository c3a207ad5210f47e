//! Double-ended traversal of a run of slots, and the iterator that owns a
//! list's storage.
use vstd::prelude::*;
use crate::list::raw_list::RawList;

verus! {

/// The end of the remaining run from which the next value is taken.
pub enum End {
    Front,
    Back,
}

/// What is yielded when a value is taken at `end` from the remaining
/// values `s`: the first or the last, or nothing if none is left.
pub open spec fn taken_value<T>(s: Seq<T>, end: End) -> Option<T> {
    if s.len() == 0 {
        None
    } else {
        match end {
            End::Front => Some(s.first()),
            End::Back => Some(s.last()),
        }
    }
}

/// What remains of `s` after a value has been taken at `end`.
pub open spec fn taken_rest<T>(s: Seq<T>, end: End) -> Seq<T> {
    if s.len() == 0 {
        s
    } else {
        match end {
            End::Front => s.drop_first(),
            End::Back => s.drop_last(),
        }
    }
}

/// A pair of cursors over the slots of a buffer: `front` is the first slot
/// not yet consumed and `back` is one past the last.
pub struct RawValIter {
    front: usize,
    back: usize,
}

impl RawValIter {
    /// The front cursor: the first slot not yet consumed.
    pub closed spec fn spec_front(&self) -> nat {
        self.front as nat
    }

    /// The back cursor: one past the last slot not yet consumed.
    pub closed spec fn spec_back(&self) -> nat {
        self.back as nat
    }

    /// The cursors stand in order within `buf`, and every slot from the
    /// front cursor up to the back cursor holds a value.
    pub open spec fn covers<T>(&self, buf: &RawList<T>) -> bool {
        &&& self.spec_front() <= self.spec_back() <= buf@.len()
        &&& forall|i: int|
            self.spec_front() <= i < self.spec_back() ==> (#[trigger] buf@[i]).is_some()
    }

    /// The values between the cursors, in slot order.
    pub open spec fn remaining<T>(&self, buf: &RawList<T>) -> Seq<T> {
        Seq::new(
            (self.spec_back() - self.spec_front()) as nat,
            |i: int| buf@[self.spec_front() + i].unwrap(),
        )
    }

    /// Cursors over the values in the first `len` slots of `buf`.
    pub fn new<T>(buf: &RawList<T>, len: usize) -> (iter: Self)
        requires
            len <= buf@.len(),
            forall|i: int| 0 <= i < len ==> (#[trigger] buf@[i]).is_some(),
        ensures
            iter.covers(buf),
            iter.spec_front() == 0,
            iter.spec_back() == len,
            iter.remaining(buf) == Seq::new(len as nat, |i: int| buf@[i].unwrap()),
    {
        RawValIter { front: 0, back: len }
    }

    /// Takes the value under the front cursor and advances the cursor by
    /// one slot, or returns nothing when the cursors have met. The back
    /// cursor stays where it is, and of the buffer only the slot that was
    /// read changes: it is left vacant.
    pub fn next<T>(&mut self, buf: &mut RawList<T>) -> (val: Option<T>)
        requires
            old(self).covers(old(buf)),
        ensures
            final(self).covers(final(buf)),
            val == taken_value(old(self).remaining(old(buf)), End::Front),
            final(self).remaining(final(buf)) == taken_rest(
                old(self).remaining(old(buf)),
                End::Front,
            ),
            final(self).spec_back() == old(self).spec_back(),
            final(self).spec_front() == if val.is_some() {
                old(self).spec_front() + 1
            } else {
                old(self).spec_front()
            },
            final(buf)@ == if val.is_some() {
                old(buf)@.update(old(self).spec_front() as int, None)
            } else {
                old(buf)@
            },
            val.is_none() <==> old(self).spec_front() == old(self).spec_back(),
    {
        if self.front == self.back {
            None
        } else {
            let val = buf.read(self.front);
            self.front += 1;
            Some(val)
        }
    }

    /// Moves the back cursor one slot towards the front and takes the value
    /// under it, or returns nothing when the cursors have met. The front
    /// cursor stays where it is, and of the buffer only the slot that was
    /// read changes: it is left vacant.
    pub fn next_back<T>(&mut self, buf: &mut RawList<T>) -> (val: Option<T>)
        requires
            old(self).covers(old(buf)),
        ensures
            final(self).covers(final(buf)),
            val == taken_value(old(self).remaining(old(buf)), End::Back),
            final(self).remaining(final(buf)) == taken_rest(
                old(self).remaining(old(buf)),
                End::Back,
            ),
            final(self).spec_front() == old(self).spec_front(),
            final(self).spec_back() == if val.is_some() {
                old(self).spec_back() - 1
            } else {
                old(self).spec_back() as int
            },
            final(buf)@ == if val.is_some() {
                old(buf)@.update(old(self).spec_back() - 1, None)
            } else {
                old(buf)@
            },
            val.is_none() <==> old(self).spec_front() == old(self).spec_back(),
    {
        if self.front == self.back {
            None
        } else {
            self.back -= 1;
            Some(buf.read(self.back))
        }
    }

    /// The exact number of values not yet consumed, as lower and upper bound.
    pub fn size_hint<T>(&self, buf: &RawList<T>) -> (bounds: (usize, Option<usize>))
        requires
            self.covers(buf),
        ensures
            bounds.0 == self.remaining(buf).len(),
            bounds.0 == self.spec_back() - self.spec_front(),
            bounds.1 == Some(bounds.0),
    {
        let len: usize = self.back - self.front;
        (len, Some(len))
    }
}

/// The iterator that a list turns into: it owns the list's buffer and
/// yields the values from either end. `self@` is what is still to come.
pub struct IntoIter<T> {
    buf: RawList<T>,
    iter: RawValIter,
}

impl<T> View for IntoIter<T> {
    type V = Seq<T>;

    /// The values not yet yielded, in index order.
    closed spec fn view(&self) -> Seq<T> {
        self.iter.remaining(&self.buf)
    }
}

impl<T> IntoIter<T> {
    /// The invariant of the iterator: its cursors cover values of its buffer.
    pub closed spec fn wf(&self) -> bool {
        self.iter.covers(&self.buf)
    }

    /// An iterator over the values in the first `len` slots of `buf`.
    pub(crate) fn new(buf: RawList<T>, len: usize) -> (iter: Self)
        requires
            len <= buf@.len(),
            forall|i: int| 0 <= i < len ==> (#[trigger] buf@[i]).is_some(),
        ensures
            iter.wf(),
            iter@ == Seq::new(len as nat, |i: int| buf@[i].unwrap()),
    {
        let iter = RawValIter::new(&buf, len);
        IntoIter { buf, iter }
    }

    /// The next value from the front, or nothing when none is left.
    pub fn next(&mut self) -> (val: Option<T>)
        requires
            old(self).wf(),
        ensures
            final(self).wf(),
            val == taken_value(old(self)@, End::Front),
            final(self)@ == taken_rest(old(self)@, End::Front),
    {
        self.iter.next(&mut self.buf)
    }

    /// The next value from the back, or nothing when none is left.
    pub fn next_back(&mut self) -> (val: Option<T>)
        requires
            old(self).wf(),
        ensures
            final(self).wf(),
            val == taken_value(old(self)@, End::Back),
            final(self)@ == taken_rest(old(self)@, End::Back),
    {
        self.iter.next_back(&mut self.buf)
    }

    /// The exact number of values still to come, as lower and upper bound.
    pub fn size_hint(&self) -> (bounds: (usize, Option<usize>))
        requires
            self.wf(),
        ensures
            bounds.0 == self@.len(),
            bounds.1 == Some(bounds.0),
    {
        self.iter.size_hint(&self.buf)
    }

    /// All the values still to come, from front to back.
    pub fn collect(self) -> (vals: Vec<T>)
        requires
            self.wf(),
        ensures
            vals@ == self@,
    {
        let mut rest = self;
        let mut vals: Vec<T> = Vec::new();
        loop
            invariant
                rest.wf(),
                vals@ + rest@ == self@,
            ensures
                vals@ == self@,
            decreases rest@.len(),
        {
            match rest.next() {
                Some(val) => {
                    vals.push(val);
                },
                None => {
                    break ;
                },
            }
        }
        vals
    }
}

/// What remains of `s` after one value has been taken at each of `ends`,
/// in that order.
pub open spec fn rest_after<T>(s: Seq<T>, ends: Seq<End>) -> Seq<T>
    decreases ends.len(),
{
    if ends.len() == 0 {
        s
    } else {
        taken_rest(rest_after(s, ends.drop_last()), ends.last())
    }
}

/// What the `k`-th take yields when values are taken from `s` at `ends`.
pub open spec fn yielded_at<T>(s: Seq<T>, ends: Seq<End>, k: int) -> Option<T> {
    taken_value(rest_after(s, ends.subrange(0, k)), ends[k])
}

/// How many of the first `k` takes are at the front.
pub open spec fn fronts_before(ends: Seq<End>, k: int) -> int
    decreases k,
{
    if k <= 0 {
        0
    } else {
        fronts_before(ends, k - 1) + if ends[k - 1] is Front {
            1int
        } else {
            0int
        }
    }
}

/// The index, among `n` values, of the value that the `k`-th take yields:
/// takes at the front go up from 0, takes at the back go down from `n - 1`.
pub open spec fn pick_index(ends: Seq<End>, k: int, n: int) -> int {
    if ends[k] is Front {
        fronts_before(ends, k)
    } else {
        n - 1 - (k - fronts_before(ends, k))
    }
}

/// Of `k` takes, between none and all are at the front, and the count does
/// not depend on the takes that follow.
pub proof fn lemma_fronts_before(ends: Seq<End>, k: int)
    requires
        0 <= k <= ends.len(),
    ensures
        0 <= fronts_before(ends, k) <= k,
        fronts_before(ends.subrange(0, k), k) == fronts_before(ends, k),
        forall|j: int| 0 <= j <= k ==> fronts_before(ends, j) <= #[trigger] fronts_before(ends, k),
        forall|j: int|
            0 <= j <= k ==> j - fronts_before(ends, j) <= k - #[trigger] fronts_before(ends, k),
    decreases k,
{
    if k > 0 {
        lemma_fronts_before(ends, k - 1);
        lemma_fronts_before(ends.subrange(0, k), k - 1);
        assert(ends.subrange(0, k).subrange(0, k - 1) =~= ends.subrange(0, k - 1));
        assert forall|j: int| 0 <= j <= k implies fronts_before(ends, j) <= fronts_before(ends, k)
            && j - fronts_before(ends, j) <= k - fronts_before(ends, k) by {
            if j < k {
                assert(fronts_before(ends, j) <= fronts_before(ends, k - 1));
                assert(j - fronts_before(ends, j) <= (k - 1) - fronts_before(ends, k - 1));
            }
        }
    }
}

/// After takes at `ends`, no more of them than there are values, what
/// remains is the stretch between the values taken at the front and those
/// taken at the back.
pub proof fn lemma_rest_after<T>(s: Seq<T>, ends: Seq<End>)
    requires
        ends.len() <= s.len(),
    ensures
        rest_after(s, ends) == s.subrange(
            fronts_before(ends, ends.len() as int),
            s.len() - (ends.len() - fronts_before(ends, ends.len() as int)),
        ),
    decreases ends.len(),
{
    let k = ends.len() as int;
    lemma_fronts_before(ends, k);
    if k == 0 {
        assert(s.subrange(0, s.len() as int) =~= s);
    } else {
        let before = ends.drop_last();
        lemma_rest_after(s, before);
        lemma_fronts_before(ends, k - 1);
        assert(before =~= ends.subrange(0, k - 1));
        let f = fronts_before(ends, k - 1);
        let b = (k - 1) - f;
        let rest = s.subrange(f, s.len() - b);
        assert(rest.len() > 0);
        if ends.last() is Front {
            assert(rest.drop_first() =~= s.subrange(f + 1, s.len() - b));
        } else {
            assert(rest.drop_last() =~= s.subrange(f, s.len() - b - 1));
        }
    }
}

/// Taking from both ends yields every value exactly once. Whatever the
/// order of the ends, as long as there are no more takes than values: each
/// take yields a value of `s`, the takes at the front yield the values in
/// index order from the first on, the takes at the back yield them in
/// reverse order from the last on, and no two takes yield the same index.
/// When as many values have been taken as there were, nothing remains, and
/// a take at either end yields nothing.
pub proof fn lemma_each_value_once<T>(s: Seq<T>, ends: Seq<End>)
    requires
        ends.len() <= s.len(),
    ensures
        forall|k: int|
            0 <= k < ends.len() ==> 0 <= pick_index(ends, k, s.len() as int) < s.len()
                && #[trigger] yielded_at(s, ends, k) == Some(
                s[pick_index(ends, k, s.len() as int)],
            ),
        forall|j: int, k: int|
            0 <= j < k < ends.len() ==> #[trigger] pick_index(ends, j, s.len() as int)
                != #[trigger] pick_index(ends, k, s.len() as int),
        ends.len() == s.len() ==> rest_after(s, ends) == Seq::<T>::empty(),
        ends.len() == s.len() ==> taken_value(rest_after(s, ends), End::Front).is_none()
            && taken_value(rest_after(s, ends), End::Back).is_none(),
{
    let n = s.len() as int;
    assert forall|k: int| 0 <= k < ends.len() implies 0 <= pick_index(ends, k, n) < n
        && #[trigger] yielded_at(s, ends, k) == Some(s[pick_index(ends, k, n)]) by {
        lemma_fronts_before(ends, k);
        lemma_rest_after(s, ends.subrange(0, k));
    }
    assert forall|j: int, k: int| 0 <= j < k < ends.len() implies #[trigger] pick_index(
        ends,
        j,
        n,
    ) != #[trigger] pick_index(ends, k, n) by {
        lemma_fronts_before(ends, k);
        lemma_fronts_before(ends, j + 1);
        lemma_fronts_before(ends, j);
        assert(fronts_before(ends, j + 1) <= fronts_before(ends, k));
        assert(j + 1 - fronts_before(ends, j + 1) <= k - fronts_before(ends, k));
    }
    lemma_rest_after(s, ends);
    lemma_fronts_before(ends, ends.len() as int);
}

} // verus!
