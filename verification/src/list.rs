//! A growable, indexable sequence over a slot buffer.
use vstd::prelude::*;
use crate::list::drain::Drain;
use crate::list::iter::IntoIter;
use crate::list::raw_list::{grown_cap, RawList};

pub mod drain;
pub mod iter;
pub mod queue;
pub mod raw_list;

verus! {

/// A growable sequence that keeps its values in the first `len()` slots of
/// a slot buffer, in index order, and leaves the other slots vacant.
///
/// The list is described by `self@`, the sequence of its values.
pub struct List<T> {
    buf: RawList<T>,
    len: usize,
}

impl<T> View for List<T> {
    type V = Seq<T>;

    /// The values of the list, in index order.
    closed spec fn view(&self) -> Seq<T> {
        Seq::new(self.len as nat, |i: int| self.buf@[i].unwrap())
    }
}

/// What `pop` returns on a list that holds `s`.
pub open spec fn pop_value<T>(s: Seq<T>) -> Option<T> {
    if s.len() == 0 {
        None
    } else {
        Some(s.last())
    }
}

/// What `pop` leaves of a list that holds `s`.
pub open spec fn pop_rest<T>(s: Seq<T>) -> Seq<T> {
    if s.len() == 0 {
        s
    } else {
        s.drop_last()
    }
}

/// What `get(i)` sees in a list that holds `s`.
pub open spec fn get_value<T>(s: Seq<T>, i: int) -> Option<T> {
    if 0 <= i < s.len() {
        Some(s[i])
    } else {
        None
    }
}

/// The capacity after one value has been added to a list of `len` values in
/// a buffer of `cap` slots: the buffer grows only when it is full.
pub open spec fn cap_after_add(len: nat, cap: nat) -> nat {
    if len == cap {
        grown_cap(cap)
    } else {
        cap
    }
}

impl<T> List<T> {
    /// The invariant of the list: the length does not exceed the capacity,
    /// the slots below the length hold values and the others are vacant.
    pub closed spec fn wf(&self) -> bool {
        &&& self.len <= self.buf@.len()
        &&& forall|i: int|
            0 <= i < self.buf@.len() ==> ((#[trigger] self.buf@[i]).is_some() <==> i < self.len)
    }

    /// The number of slots of the buffer.
    pub closed spec fn spec_cap(&self) -> nat {
        self.buf@.len()
    }

    /// The length of a list never exceeds its capacity, and the capacity
    /// fits a machine word.
    pub proof fn lemma_len_le_cap(&self)
        requires
            self.wf(),
        ensures
            self@.len() <= self.spec_cap() <= usize::MAX,
    {
        self.buf.lemma_cap_fits();
    }

    /// An empty list, with no slot allocated.
    pub fn new() -> (list: Self)
        ensures
            list.wf(),
            list@ == Seq::<T>::empty(),
            list.spec_cap() == 0,
    {
        List { buf: RawList::new(), len: 0 }
    }

    /// The number of values.
    pub fn len(&self) -> (n: usize)
        ensures
            n == self@.len(),
    {
        self.len
    }

    /// The number of slots of the buffer.
    pub fn cap(&self) -> (n: usize)
        ensures
            n == self.spec_cap(),
    {
        self.buf.cap()
    }

    /// Appends `val`, after growing the buffer if it is full.
    pub fn push(&mut self, val: T)
        requires
            old(self).wf(),
        ensures
            final(self).wf(),
            final(self)@ == old(self)@.push(val),
            final(self).spec_cap() == cap_after_add(old(self)@.len(), old(self).spec_cap()),
    {
        if self.len == self.buf.cap() {
            self.buf.grow();
        }
        proof {
            self.buf.lemma_cap_fits();
        }
        self.buf.write(self.len, val);
        self.len += 1;
    }

    /// The value at index `i`, or nothing if the list has no such index.
    pub fn get(&self, i: usize) -> (val: Option<&T>)
        requires
            self.wf(),
        ensures
            val == match get_value(self@, i as int) {
                Some(v) => Some(&v),
                None => None,
            },
            i >= self@.len() ==> val.is_none(),
    {
        if i >= self.len {
            None
        } else {
            Some(self.buf.peek(i))
        }
    }

    /// The value at index `i`, for a caller who knows the index to be valid.
    pub fn get_unchecked(&self, i: usize) -> (val: &T)
        requires
            self.wf(),
            i < self@.len(),
        ensures
            *val == self@[i as int],
    {
        self.buf.peek(i)
    }

    /// Removes and returns the last value; nothing changes if there is none.
    pub fn pop(&mut self) -> (val: Option<T>)
        requires
            old(self).wf(),
        ensures
            final(self).wf(),
            val == pop_value(old(self)@),
            final(self)@ == pop_rest(old(self)@),
            final(self).spec_cap() == old(self).spec_cap(),
            old(self)@.len() == 0 ==> *final(self) == *old(self),
    {
        if self.len == 0 {
            None
        } else {
            self.len -= 1;
            Some(self.buf.read(self.len))
        }
    }

    /// Inserts `val` at `index`: the values from `index` on move one place
    /// towards the end, as one block. Grows the buffer first if it is full.
    pub fn insert(&mut self, index: usize, val: T)
        requires
            old(self).wf(),
            index <= old(self)@.len(),
        ensures
            final(self).wf(),
            final(self)@ == old(self)@.insert(index as int, val),
            final(self).spec_cap() == cap_after_add(old(self)@.len(), old(self).spec_cap()),
    {
        if self.len == self.buf.cap() {
            self.buf.grow();
        }
        proof {
            self.buf.lemma_cap_fits();
        }
        self.buf.copy(index, index + 1, self.len - index);
        self.buf.write(index, val);
        self.len += 1;
    }

    /// Removes and returns the value at `index`: the values behind it move
    /// one place towards the front, as one block.
    pub fn remove(&mut self, index: usize) -> (val: T)
        requires
            old(self).wf(),
            index < old(self)@.len(),
        ensures
            final(self).wf(),
            val == old(self)@[index as int],
            final(self)@ == old(self)@.remove(index as int),
            final(self).spec_cap() == old(self).spec_cap(),
    {
        self.len -= 1;
        let removed = self.buf.read(index);
        self.buf.copy(index + 1, index, self.len - index);
        removed
    }

    /// Empties the list and returns an iterator over the values it held.
    /// The list is empty from this moment on, whatever becomes of the
    /// iterator, and it keeps its buffer and so its capacity: the values
    /// move, slot by slot, into a buffer that belongs to the iterator.
    pub fn drain<'a>(&'a mut self) -> (drain: Drain<'a, T>)
        requires
            old(self).wf(),
        ensures
            final(self).wf(),
            final(self)@ == Seq::<T>::empty(),
            final(self).spec_cap() == old(self).spec_cap(),
            drain.wf(),
            drain@ == old(self)@,
    {
        let len: usize = self.len;
        self.len = 0;
        let mut taken: RawList<T> = RawList::new();
        while taken.cap() < len
            invariant
                forall|j: int| 0 <= j < taken@.len() ==> (#[trigger] taken@[j]).is_none(),
            decreases
                if taken@.len() < len {
                    len - taken@.len()
                } else {
                    0
                },
        {
            taken.grow();
        }
        let mut i: usize = 0;
        while i < len
            invariant
                old(self).wf(),
                len == old(self).len,
                i <= len <= taken@.len(),
                self.len == 0,
                self.buf@.len() == old(self).buf@.len(),
                forall|j: int|
                    0 <= j < self.buf@.len() ==> #[trigger] self.buf@[j] == if j < i {
                        None
                    } else {
                        old(self).buf@[j]
                    },
                forall|j: int|
                    0 <= j < taken@.len() ==> #[trigger] taken@[j] == if j < i {
                        old(self).buf@[j]
                    } else {
                        None
                    },
            decreases len - i,
        {
            let val = self.buf.read(i);
            taken.write(i, val);
            i += 1;
        }
        Drain::new(taken, len)
    }

    /// `insert` for a caller who does not know whether `index` is valid:
    /// an index beyond the length is out of bounds, and then nothing at all
    /// happens to the list and `val` comes back. The test comes before any
    /// growth and before any value moves.
    pub fn try_insert(&mut self, index: usize, val: T) -> (res: Result<(), T>)
        requires
            old(self).wf(),
        ensures
            final(self).wf(),
            res.is_ok() <==> index <= old(self)@.len(),
            res.is_ok() ==> final(self)@ == old(self)@.insert(index as int, val)
                && final(self).spec_cap() == cap_after_add(
                old(self)@.len(),
                old(self).spec_cap(),
            ),
            res.is_err() ==> res == Err::<(), T>(val) && *final(self) == *old(self),
    {
        if index > self.len {
            Err(val)
        } else {
            self.insert(index, val);
            Ok(())
        }
    }

    /// `remove` for a caller who does not know whether `index` is valid:
    /// an index at or beyond the length is out of bounds, and then nothing
    /// is returned, no value is read or moved and the list is as it was.
    pub fn try_remove(&mut self, index: usize) -> (val: Option<T>)
        requires
            old(self).wf(),
        ensures
            final(self).wf(),
            val == get_value(old(self)@, index as int),
            val.is_some() ==> final(self)@ == old(self)@.remove(index as int)
                && final(self).spec_cap() == old(self).spec_cap(),
            val.is_none() ==> *final(self) == *old(self),
    {
        if index >= self.len {
            None
        } else {
            Some(self.remove(index))
        }
    }

    /// Turns the list into an iterator that owns its storage and yields its
    /// values from either end.
    pub fn into_iter(self) -> (iter: IntoIter<T>)
        requires
            self.wf(),
        ensures
            iter.wf(),
            iter@ == self@,
    {
        IntoIter::new(self.buf, self.len)
    }

    /// References to the values in index order, as one contiguous vector
    /// that can be handed to code that works on slices.
    pub fn to_refs(&self) -> (refs: Vec<&T>)
        requires
            self.wf(),
        ensures
            refs@.len() == self@.len(),
            forall|i: int| 0 <= i < refs@.len() ==> *refs@[i] == self@[i],
    {
        let mut refs: Vec<&T> = Vec::new();
        let mut i: usize = 0;
        while i < self.len
            invariant
                self.wf(),
                i <= self.len,
                refs@.len() == i,
                forall|j: int| 0 <= j < i ==> *refs@[j] == self@[j],
            decreases self.len - i,
        {
            refs.push(self.buf.peek(i));
            i += 1;
        }
        refs
    }

    /// A mutable reference to the value at index `i`: what the caller leaves
    /// behind it takes the place of the old value.
    pub fn get_mut(&mut self, i: usize) -> (val: &mut T)
        requires
            old(self).wf(),
            i < old(self)@.len(),
        ensures
            *val == old(self)@[i as int],
            final(self).wf(),
            final(self)@ == old(self)@.update(i as int, *final(val)),
            final(self).spec_cap() == old(self).spec_cap(),
    {
        self.buf.peek_mut(i)
    }
}

impl<T> core::ops::Index<usize> for List<T> {
    type Output = T;

    /// The value at `index`, which must be below the length.
    fn index(&self, index: usize) -> (val: &T)
        ensures
            *val == self@[index as int],
    {
        self.buf.peek(index)
    }
}

impl<T> vstd::std_specs::core::IndexSpecImpl<usize> for List<T> {
    open spec fn index_req(&self, index: &usize) -> bool {
        self.wf() && *index < self@.len()
    }
}

/// The values of a list that held `s`, after `vals` were pushed in order.
pub open spec fn pushed<T>(s: Seq<T>, vals: Seq<T>) -> Seq<T>
    decreases vals.len(),
{
    if vals.len() == 0 {
        s
    } else {
        pushed(s, vals.drop_last()).push(vals.last())
    }
}

/// The values of a list that held `s`, after `k` calls of `pop`.
pub open spec fn popped<T>(s: Seq<T>, k: nat) -> Seq<T>
    decreases k,
{
    if k == 0 {
        s
    } else {
        pop_rest(popped(s, (k - 1) as nat))
    }
}

/// Pushing a run of values appends the run.
pub proof fn lemma_pushed_appends<T>(s: Seq<T>, vals: Seq<T>)
    ensures
        pushed(s, vals) == s + vals,
    decreases vals.len(),
{
    if vals.len() == 0 {
        assert(s + vals =~= s);
    } else {
        lemma_pushed_appends(s, vals.drop_last());
        assert((s + vals.drop_last()).push(vals.last()) =~= s + vals);
    }
}

/// `k` pops cut the last `k` values off, or all of them if there are fewer.
pub proof fn lemma_popped_cuts<T>(s: Seq<T>, k: nat)
    ensures
        popped(s, k) == if k <= s.len() {
            s.subrange(0, s.len() - k)
        } else {
            Seq::empty()
        },
    decreases k,
{
    if k == 0 {
        assert(s.subrange(0, s.len() as int) =~= s);
    } else {
        lemma_popped_cuts(s, (k - 1) as nat);
        if k <= s.len() {
            assert(s.subrange(0, s.len() - (k - 1)).drop_last() =~= s.subrange(0, s.len() - k));
        }
    }
}

/// A list is a stack: after `vals` have been pushed onto a list that held
/// `s`, the pops return the pushed values last first, and when all of them
/// have been popped the list holds `s` again. On a list that was empty the
/// next pop then returns nothing.
pub proof fn lemma_push_pop_is_lifo<T>(s: Seq<T>, vals: Seq<T>)
    ensures
        forall|k: nat|
            k < vals.len() ==> #[trigger] pop_value(popped(pushed(s, vals), k)) == Some(
                vals[vals.len() - 1 - k],
            ),
        popped(pushed(s, vals), vals.len()) == s,
        s.len() == 0 ==> pop_value(popped(pushed(s, vals), vals.len())).is_none(),
{
    lemma_pushed_appends(s, vals);
    assert forall|k: nat| k < vals.len() implies #[trigger] pop_value(
        popped(pushed(s, vals), k),
    ) == Some(vals[vals.len() - 1 - k]) by {
        lemma_popped_cuts(s + vals, k);
    }
    lemma_popped_cuts(s + vals, vals.len());
    assert((s + vals).subrange(0, s.len() as int) =~= s);
}

/// On an empty list every pop returns nothing and leaves the list empty,
/// however often it is repeated.
pub proof fn lemma_pop_on_empty<T>(k: nat)
    ensures
        popped(Seq::<T>::empty(), k) == Seq::<T>::empty(),
        pop_value(popped(Seq::<T>::empty(), k)).is_none(),
{
    lemma_popped_cuts(Seq::<T>::empty(), k);
    assert(Seq::<T>::empty().subrange(0, 0) =~= Seq::<T>::empty());
}

/// After `insert(i, v)` the list is one longer, `get(i)` sees `v`, the values
/// before `i` are where they were and the values from `i` on are one index
/// further.
pub proof fn lemma_insert_then_get<T>(s: Seq<T>, i: int, v: T)
    requires
        0 <= i <= s.len(),
    ensures
        s.insert(i, v).len() == s.len() + 1,
        get_value(s.insert(i, v), i) == Some(v),
        forall|j: int| 0 <= j < i ==> get_value(s.insert(i, v), j) == #[trigger] get_value(s, j),
        forall|j: int|
            i <= j < s.len() ==> get_value(s.insert(i, v), j + 1) == #[trigger] get_value(s, j),
{
}

/// `remove(i)` right after `insert(i, v)` returns `v` and leaves the list
/// as it was before the insertion.
pub proof fn lemma_remove_undoes_insert<T>(s: Seq<T>, i: int, v: T)
    requires
        0 <= i <= s.len(),
    ensures
        s.insert(i, v)[i] == v,
        s.insert(i, v).remove(i) == s,
{
    assert(s.insert(i, v).remove(i) =~= s);
}

/// Inserting at the length is pushing: the values are the same, and so is
/// the capacity, which both operations derive from the same state.
pub proof fn lemma_insert_at_len_is_push<T>(s: Seq<T>, v: T)
    ensures
        s.insert(s.len() as int, v) == s.push(v),
{
    assert(s.insert(s.len() as int, v) =~= s.push(v));
}

} // verus!
