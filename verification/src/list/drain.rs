//! The iterator that empties a list it has borrowed.
use vstd::prelude::*;
use core::marker::PhantomData;
use crate::list::List;
use crate::list::iter::{taken_rest, taken_value, End, RawValIter};
use crate::list::raw_list::RawList;

verus! {

/// The iterator returned by [`List::drain`]. It keeps the list borrowed for
/// as long as it lives and owns the values that the list held, so values
/// that are never yielded are destroyed together with the iterator.
/// `self@` is what is still to come.
pub struct Drain<'a, T: 'a> {
    list: PhantomData<&'a mut List<T>>,
    buf: RawList<T>,
    iter: RawValIter,
}

impl<'a, T: 'a> View for Drain<'a, T> {
    type V = Seq<T>;

    /// The values not yet yielded, in index order.
    closed spec fn view(&self) -> Seq<T> {
        self.iter.remaining(&self.buf)
    }
}

impl<'a, T: 'a> Drain<'a, T> {
    /// The invariant of the iterator: its cursors cover values of its buffer.
    pub closed spec fn wf(&self) -> bool {
        self.iter.covers(&self.buf)
    }

    /// An iterator over the values in the first `len` slots of `buf`.
    pub(crate) fn new(buf: RawList<T>, len: usize) -> (drain: Self)
        requires
            len <= buf@.len(),
            forall|i: int| 0 <= i < len ==> (#[trigger] buf@[i]).is_some(),
        ensures
            drain.wf(),
            drain@ == Seq::new(len as nat, |i: int| buf@[i].unwrap()),
    {
        let iter = RawValIter::new(&buf, len);
        Drain { list: PhantomData, buf, iter }
    }

    /// The next value from the front, or nothing when none is left.
    pub fn next(&mut self) -> (val: Option<T>)
        requires
            old(self).wf(),
        ensures
            final(self).wf(),
            val == taken_value(old(self)@, End::Front),
            final(self)@ == taken_rest(old(self)@, End::Front),
    {
        self.iter.next(&mut self.buf)
    }

    /// The next value from the back, or nothing when none is left.
    pub fn next_back(&mut self) -> (val: Option<T>)
        requires
            old(self).wf(),
        ensures
            final(self).wf(),
            val == taken_value(old(self)@, End::Back),
            final(self)@ == taken_rest(old(self)@, End::Back),
    {
        self.iter.next_back(&mut self.buf)
    }

    /// The exact number of values still to come, as lower and upper bound.
    pub fn size_hint(&self) -> (bounds: (usize, Option<usize>))
        requires
            self.wf(),
        ensures
            bounds.0 == self@.len(),
            bounds.1 == Some(bounds.0),
    {
        self.iter.size_hint(&self.buf)
    }
}

} // verus!
