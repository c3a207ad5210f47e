//! The slot buffer shared by the list and the circular queue.
use vstd::prelude::*;

verus! {

/// A buffer of `cap()` slots, each of which is vacant or holds one value.
///
/// The buffer has no notion of a logical length: which slots are live is the
/// business of the container that owns it. A vacant slot stands for memory
/// that has been reserved but not initialised. Element types of size zero
/// need no special treatment: their slots are tracked like any others.
pub struct RawList<T> {
    slots: Vec<Option<T>>,
}

impl<T> View for RawList<T> {
    type V = Seq<Option<T>>;

    /// The slots in address order; `None` is a vacant slot.
    closed spec fn view(&self) -> Seq<Option<T>> {
        self.slots@
    }
}

/// The capacity that a buffer of capacity `cap` has after growing once.
pub open spec fn grown_cap(cap: nat) -> nat {
    if cap == 0 {
        1
    } else {
        2 * cap
    }
}

/// `n` vacant slots.
pub open spec fn vacant<T>(n: nat) -> Seq<Option<T>> {
    Seq::new(n, |i: int| None::<T>)
}

/// The slots `s` after the block of `count` slots at `src` has been moved to
/// `dst`: the destination block holds what the source block held, source
/// slots outside the destination block are left vacant, and every other slot
/// is untouched. The two blocks may overlap.
pub open spec fn moved<T>(s: Seq<Option<T>>, src: int, dst: int, count: int) -> Seq<Option<T>> {
    Seq::new(
        s.len(),
        |j: int|
            if dst <= j < dst + count {
                s[j - dst + src]
            } else if src <= j < src + count {
                None
            } else {
                s[j]
            },
    )
}

impl<T> RawList<T> {
    /// A buffer without any slot; nothing is allocated yet.
    pub fn new() -> (buf: Self)
        ensures
            buf@ == Seq::<Option<T>>::empty(),
    {
        RawList { slots: Vec::new() }
    }

    /// The number of slots fits a machine word.
    pub proof fn lemma_cap_fits(&self)
        ensures
            self@.len() <= usize::MAX,
    {
        assert(self.slots@.len() == self.slots.len());
    }

    /// The number of slots.
    pub fn cap(&self) -> (n: usize)
        ensures
            n == self@.len(),
    {
        self.slots.len()
    }

    /// Grows the buffer: from no slot to one, otherwise to twice as many.
    /// The existing slots keep their contents and their positions, and the
    /// new slots are vacant. The room is obtained in a single reservation.
    pub fn grow(&mut self)
        ensures
            final(self)@.len() == grown_cap(old(self)@.len()),
            final(self)@ == old(self)@ + vacant::<T>(
                (grown_cap(old(self)@.len()) - old(self)@.len()) as nat,
            ),
    {
        let old_cap: usize = self.slots.len();
        let extra: usize = if old_cap == 0 {
            1
        } else {
            old_cap
        };
        self.slots.reserve(extra);
        let mut added: usize = 0;
        while added < extra
            invariant
                added <= extra,
                old_cap == old(self)@.len(),
                extra == grown_cap(old_cap as nat) - old_cap,
                self.slots@ == old(self).slots@ + vacant::<T>(added as nat),
            decreases extra - added,
        {
            self.slots.push(None);
            added += 1;
        }
    }

    /// Gives every slot back: afterwards the buffer has no slot, as a new one.
    pub fn release(&mut self)
        ensures
            final(self)@ == Seq::<Option<T>>::empty(),
    {
        self.slots = Vec::new();
    }

    /// Moves the value out of slot `i`, which is left vacant.
    pub fn read(&mut self, i: usize) -> (val: T)
        requires
            i < old(self)@.len(),
            old(self)@[i as int].is_some(),
        ensures
            val == old(self)@[i as int].unwrap(),
            final(self)@ == old(self)@.update(i as int, None),
    {
        let slot = &mut self.slots[i];
        let taken = slot.take();
        taken.unwrap()
    }

    /// Puts `val` into the vacant slot `i`.
    pub fn write(&mut self, i: usize, val: T)
        requires
            i < old(self)@.len(),
            old(self)@[i as int].is_none(),
        ensures
            final(self)@ == old(self)@.update(i as int, Some(val)),
    {
        self.slots[i] = Some(val);
    }

    /// A reference to the value in slot `i`.
    pub fn peek(&self, i: usize) -> (val: &T)
        requires
            i < self@.len(),
            self@[i as int].is_some(),
        ensures
            *val == self@[i as int].unwrap(),
    {
        self.slots[i].as_ref().unwrap()
    }

    /// A mutable reference to the value in slot `i`: the slot ends up
    /// holding whatever the caller leaves behind the reference.
    pub fn peek_mut(&mut self, i: usize) -> (val: &mut T)
        requires
            i < old(self)@.len(),
            old(self)@[i as int].is_some(),
        ensures
            *val == old(self)@[i as int].unwrap(),
            final(self)@ == old(self)@.update(i as int, Some(*final(val))),
    {
        self.slots[i].as_mut().unwrap()
    }

    /// Moves the block of `count` slots that starts at `src` to `dst`, as one
    /// block move: the blocks may overlap, and no value is lost on the way.
    pub fn copy(&mut self, src: usize, dst: usize, count: usize)
        requires
            src + count <= old(self)@.len(),
            dst + count <= old(self)@.len(),
        ensures
            final(self)@ == moved(old(self)@, src as int, dst as int, count as int),
    {
        if dst < src {
            let mut k: usize = 0;
            while k < count
                invariant
                    k <= count,
                    dst < src,
                    src + count <= old(self)@.len(),
                    self.slots.len() == old(self)@.len(),
                    self.slots@ == moved(old(self).slots@, src as int, dst as int, k as int),
                decreases count - k,
            {
                let taken = self.slots[src + k].take();
                self.slots[dst + k] = taken;
                k += 1;
            }
        } else if src < dst {
            let mut k: usize = count;
            while k > 0
                invariant
                    k <= count,
                    src < dst,
                    dst + count <= old(self)@.len(),
                    self.slots.len() == old(self)@.len(),
                    self.slots@ == moved(
                        old(self).slots@,
                        src + k,
                        dst + k,
                        count - k,
                    ),
                decreases k,
            {
                k -= 1;
                let taken = self.slots[src + k].take();
                self.slots[dst + k] = taken;
            }
        }
    }
}

} // verus!
