//! A circular queue over a slot buffer.
use vstd::prelude::*;
use crate::list::cap_after_add;
use crate::list::raw_list::RawList;
use crate::queue::{dequeue_rest, dequeue_value, requeued};
use vstd::string::to_string_from_display_ensures;

verus! {

/// The slot of the `i`-th value of a run that starts at slot `front` of a
/// buffer of `cap` slots and wraps round at its end.
pub open spec fn slot_of(front: int, cap: int, i: int) -> int {
    (front + i) % cap
}

/// The slot behind `slot`, the first one behind the last.
pub open spec fn next_slot(slot: int, cap: int) -> int {
    if slot + 1 == cap {
        0
    } else {
        slot + 1
    }
}

/// The slot before `slot`, the last one before the first.
pub open spec fn prev_slot(slot: int, cap: int) -> int {
    if slot == 0 {
        cap - 1
    } else {
        slot - 1
    }
}

/// Whether slot `j` belongs to the run of `len` slots that starts at `front`
/// and wraps round at `cap`.
pub open spec fn in_run(front: int, len: int, cap: int, j: int) -> bool {
    if front + len <= cap {
        front <= j < front + len
    } else {
        front <= j || j < front + len - cap
    }
}

/// Where the head of a full queue stands after its buffer of `cap` slots has
/// grown. Of the part of the run from the head to the end of the old buffer
/// and the part that had wrapped to the start, only the shorter one moves:
/// the first to the end of the new buffer, the second right behind the old
/// buffer's end. A run that starts at slot 0 stays where it is.
pub open spec fn grown_front(front: int, cap: int) -> int {
    if front != 0 && cap - front < front {
        cap + front
    } else {
        front
    }
}

/// The head's slot after a value has been added at the tail of a queue of
/// `len` values: it changes only when the buffer is full and has to grow.
pub open spec fn front_after_add(len: int, cap: int, front: int) -> int {
    if len == cap {
        grown_front(front, cap)
    } else {
        front
    }
}

/// Whether `parts` are the texts of `vals`, one for one and in the same
/// order, each as the value's own formatting gives it.
pub open spec fn shows<T: core::fmt::Display>(vals: Seq<T>, parts: Seq<String>) -> bool {
    &&& parts.len() == vals.len()
    &&& forall|i: int|
        0 <= i < vals.len() ==> to_string_from_display_ensures::<T>(&vals[i], #[trigger] parts[i])
}

/// The characters of `parts`, with a comma between neighbours.
pub open spec fn joined(parts: Seq<String>) -> Seq<char>
    decreases parts.len(),
{
    if parts.len() == 0 {
        Seq::empty()
    } else if parts.len() == 1 {
        parts[0]@
    } else {
        joined(parts.drop_last()) + seq![','] + parts.last()@
    }
}

/// `parts` as a list in square brackets: `[a,b,c]`, and `[]` for none.
pub open spec fn bracketed(parts: Seq<String>) -> Seq<char> {
    seq!['['] + joined(parts) + seq![']']
}

/// Writes `parts` as a list in square brackets, separated by commas.
pub fn bracketed_list(parts: &Vec<String>) -> (text: String)
    ensures
        text@ == bracketed(parts@),
{
    let mut text = String::from_str("[");
    proof {
        reveal_strlit("[");
        reveal_strlit("]");
    }
    let mut i: usize = 0;
    while i < parts.len()
        invariant
            i <= parts.len(),
            text@ == seq!['['] + joined(parts@.subrange(0, i as int)),
        decreases parts.len() - i,
    {
        if i != 0 {
            text.append(",");
        }
        text.append(parts[i].as_str());
        proof {
            reveal_strlit(",");
            let seen = parts@.subrange(0, i + 1);
            assert(seen.drop_last() =~= parts@.subrange(0, i as int));
            assert(seen.last() == parts@[i as int]);
        }
        i += 1;
    }
    assert(parts@.subrange(0, i as int) =~= parts@);
    text.append("]");
    text
}

/// Within one lap the cyclic slot is found without a division.
pub proof fn lemma_slot_of(front: int, cap: int, i: int)
    requires
        0 <= front < cap,
        0 <= i <= cap,
    ensures
        slot_of(front, cap, i) == if front + i < cap {
            front + i
        } else {
            front + i - cap
        },
{
    if front + i < cap {
        vstd::arithmetic::div_mod::lemma_small_mod((front + i) as nat, cap as nat);
    } else {
        vstd::arithmetic::div_mod::lemma_small_mod((front + i - cap) as nat, cap as nat);
        vstd::arithmetic::div_mod::lemma_mod_sub_multiples_vanish(front + i, cap);
    }
}

/// A double-ended queue that keeps its values in a cyclic run of slots, so
/// that neither end ever shifts the others. `self@` is the sequence of its
/// values, head first.
pub struct Queue<T> {
    buf: RawList<T>,
    len: usize,
    front: usize,
}

impl<T> View for Queue<T> {
    type V = Seq<T>;

    /// The values of the queue, head first.
    closed spec fn view(&self) -> Seq<T> {
        Seq::new(
            self.len as nat,
            |i: int| self.buf@[slot_of(self.front as int, self.buf@.len() as int, i)].unwrap(),
        )
    }
}

impl<T> Queue<T> {
    /// The invariant of the queue: the length does not exceed the capacity,
    /// the head is a slot of the buffer (slot 0 while there is none), and
    /// exactly the slots of the run hold values.
    pub closed spec fn wf(&self) -> bool {
        &&& self.len <= self.buf@.len()
        &&& if self.buf@.len() == 0 {
            self.front == 0
        } else {
            self.front < self.buf@.len()
        }
        &&& forall|j: int|
            0 <= j < self.buf@.len() ==> ((#[trigger] self.buf@[j]).is_some() <==> in_run(
                self.front as int,
                self.len as int,
                self.buf@.len() as int,
                j,
            ))
    }

    /// The number of slots of the buffer.
    pub closed spec fn spec_cap(&self) -> nat {
        self.buf@.len()
    }

    /// The slot of the head.
    pub closed spec fn spec_front(&self) -> nat {
        self.front as nat
    }

    /// The size of a queue never exceeds its capacity, the capacity fits a
    /// machine word, and the head is a slot of the buffer, or slot 0 while
    /// the buffer has none.
    pub proof fn lemma_front_in_cap(&self)
        requires
            self.wf(),
        ensures
            self@.len() <= self.spec_cap() <= usize::MAX,
            self.spec_cap() > 0 ==> self.spec_front() < self.spec_cap(),
            self.spec_cap() == 0 ==> self.spec_front() == 0,
    {
        self.buf.lemma_cap_fits();
    }

    /// An empty queue, with no slot allocated.
    pub fn new() -> (queue: Queue<T>)
        ensures
            queue.wf(),
            queue@ == Seq::<T>::empty(),
            queue.spec_cap() == 0,
            queue.spec_front() == 0,
    {
        Queue { buf: RawList::new(), len: 0, front: 0 }
    }

    /// The number of values.
    pub fn size(&self) -> (n: usize)
        ensures
            n == self@.len(),
    {
        self.len
    }

    /// The number of slots of the buffer.
    pub fn cap(&self) -> (n: usize)
        ensures
            n == self.spec_cap(),
    {
        self.buf.cap()
    }

    /// The slot of the head.
    pub fn front(&self) -> (slot: usize)
        ensures
            slot == self.spec_front(),
    {
        self.front
    }

    fn is_full(&self) -> (full: bool)
        ensures
            full == (self.len == self.buf@.len()),
    {
        self.len == self.buf.cap()
    }

    /// The slot behind the last value, where the next one goes.
    fn back(&self) -> (slot: usize)
        requires
            self.wf(),
            self.len < self.buf@.len(),
        ensures
            slot == slot_of(self.front as int, self.buf@.len() as int, self.len as int),
            slot < self.buf@.len(),
            self.buf@[slot as int].is_none(),
    {
        proof {
            lemma_slot_of(self.front as int, self.buf@.len() as int, self.len as int);
        }
        let room: usize = self.buf.cap() - self.front;
        if self.len < room {
            self.front + self.len
        } else {
            self.len - room
        }
    }

    fn incr_front(&mut self)
        requires
            old(self).front < old(self).buf@.len(),
        ensures
            final(self).front == next_slot(old(self).front as int, old(self).buf@.len() as int),
            final(self).buf == old(self).buf,
            final(self).len == old(self).len,
    {
        proof {
            self.buf.lemma_cap_fits();
        }
        self.front += 1;
        if self.front == self.buf.cap() {
            self.front = 0;
        }
    }

    fn decr_front(&mut self)
        requires
            old(self).front < old(self).buf@.len(),
        ensures
            final(self).front == prev_slot(old(self).front as int, old(self).buf@.len() as int),
            final(self).buf == old(self).buf,
            final(self).len == old(self).len,
    {
        if self.front == 0 {
            self.front = self.buf.cap() - 1;
        } else {
            self.front -= 1;
        }
    }

    /// Doubles the buffer of a full queue and moves the shorter part of the
    /// run so that the run is cyclic in the larger buffer: the values and
    /// their order stay as they are.
    fn grow(&mut self)
        requires
            old(self).wf(),
            old(self).len == old(self).buf@.len(),
        ensures
            final(self).wf(),
            final(self)@ == old(self)@,
            final(self).len == old(self).len,
            final(self).buf@.len() == cap_after_add(old(self).len as nat, old(self).buf@.len()),
            final(self).buf@.len() > old(self).len,
            final(self).front == grown_front(old(self).front as int, old(self).buf@.len() as int),
    {
        let front_len: usize = self.buf.cap() - self.front;
        let back_len: usize = self.buf.cap() - front_len;
        let ghost old_cap: int = self.buf@.len() as int;
        let ghost old_front: int = self.front as int;
        let ghost old_slots = self.buf@;
        assert forall|i: int| 0 <= i < old_cap implies old_slots[i].is_some() by {
            assert(in_run(old_front, old_cap, old_cap, i));
        }
        self.buf.grow();
        let ghost new_cap: int = self.buf@.len() as int;
        if self.front == 0 {
            assert forall|i: int| 0 <= i < old_cap implies slot_of(0, new_cap, i) == slot_of(
                0,
                old_cap,
                i,
            ) by {
                lemma_slot_of(0, new_cap, i);
                lemma_slot_of(0, old_cap, i);
            }
            assert(self@ =~= old(self)@);
            return ;
        }
        if front_len < back_len {
            let new_front: usize = self.buf.cap() - front_len;
            self.buf.copy(self.front, new_front, front_len);
            self.front = new_front;
        } else {
            let shuffle_index: usize = self.front + front_len;
            self.buf.copy(0, shuffle_index, back_len);
        }
        proof {
            let new_front: int = self.front as int;
            assert forall|i: int| 0 <= i < old_cap implies #[trigger] self.buf@[slot_of(
                new_front,
                new_cap,
                i,
            )] == old_slots[slot_of(old_front, old_cap, i)] by {
                lemma_slot_of(new_front, new_cap, i);
                lemma_slot_of(old_front, old_cap, i);
            }
            assert(self@ =~= old(self)@);
        }
    }

    /// Adds `val` at the tail, after growing the buffer if it is full.
    pub fn enqueue(&mut self, val: T)
        requires
            old(self).wf(),
        ensures
            final(self).wf(),
            final(self)@ == old(self)@.push(val),
            final(self).spec_cap() == cap_after_add(old(self)@.len(), old(self).spec_cap()),
            final(self).spec_front() == front_after_add(
                old(self)@.len() as int,
                old(self).spec_cap() as int,
                old(self).spec_front() as int,
            ),
    {
        if self.is_full() {
            self.grow();
        }
        let ghost before = *self;
        proof {
            self.buf.lemma_cap_fits();
        }
        let slot: usize = self.back();
        self.buf.write(slot, val);
        self.len += 1;
        proof {
            let cap: int = self.buf@.len() as int;
            let front: int = self.front as int;
            assert forall|i: int| 0 <= i < self.len implies slot_of(front, cap, i) != slot
                || i == self.len - 1 by {
                lemma_slot_of(front, cap, i);
                lemma_slot_of(front, cap, self.len - 1);
            }
            assert forall|j: int| 0 <= j < cap implies (#[trigger] self.buf@[j]).is_some()
                == in_run(front, self.len as int, cap, j) by {
                lemma_slot_of(front, cap, self.len - 1);
                assert(before.buf@[j].is_some() == in_run(front, self.len - 1, cap, j));
            }
            assert(self@ =~= before@.push(val));
        }
    }

    /// Removes and returns the head; nothing changes if the queue is empty.
    pub fn dequeue(&mut self) -> (val: Option<T>)
        requires
            old(self).wf(),
        ensures
            final(self).wf(),
            val == dequeue_value(old(self)@),
            final(self)@ == dequeue_rest(old(self)@),
            final(self).spec_cap() == old(self).spec_cap(),
            final(self).spec_front() == if old(self)@.len() == 0 {
                old(self).spec_front() as int
            } else {
                next_slot(old(self).spec_front() as int, old(self).spec_cap() as int)
            },
            old(self)@.len() == 0 ==> *final(self) == *old(self),
    {
        if self.len == 0 {
            return None;
        }
        proof {
            lemma_slot_of(self.front as int, self.buf@.len() as int, 0);
            assert(in_run(
                self.front as int,
                self.len as int,
                self.buf@.len() as int,
                self.front as int,
            ));
        }
        let val = self.buf.read(self.front);
        self.incr_front();
        self.len -= 1;
        proof {
            let cap: int = self.buf@.len() as int;
            let front: int = self.front as int;
            let old_front: int = old(self).front as int;
            assert forall|i: int| 0 <= i < self.len implies slot_of(front, cap, i) == slot_of(
                old_front,
                cap,
                i + 1,
            ) && slot_of(front, cap, i) != old_front by {
                lemma_slot_of(front, cap, i);
                lemma_slot_of(old_front, cap, i + 1);
            }
            assert(self@ =~= old(self)@.drop_first());
        }
        Some(val)
    }

    /// Puts `val` in front of the head, after growing the buffer if it is
    /// full: the head moves one slot back, to the last slot from the first.
    pub fn requeue(&mut self, val: T)
        requires
            old(self).wf(),
        ensures
            final(self).wf(),
            final(self)@ == requeued(old(self)@, val),
            final(self).spec_cap() == cap_after_add(old(self)@.len(), old(self).spec_cap()),
            final(self).spec_front() == prev_slot(
                front_after_add(
                    old(self)@.len() as int,
                    old(self).spec_cap() as int,
                    old(self).spec_front() as int,
                ),
                final(self).spec_cap() as int,
            ),
    {
        if self.is_full() {
            self.grow();
        }
        let ghost before = *self;
        proof {
            self.buf.lemma_cap_fits();
        }
        self.decr_front();
        self.buf.write(self.front, val);
        self.len += 1;
        proof {
            let cap: int = self.buf@.len() as int;
            let front: int = self.front as int;
            let old_front: int = before.front as int;
            lemma_slot_of(front, cap, 0);
            assert forall|i: int| 0 <= i < before.len implies slot_of(front, cap, i + 1)
                == slot_of(old_front, cap, i) && slot_of(old_front, cap, i) != front by {
                lemma_slot_of(front, cap, i + 1);
                lemma_slot_of(old_front, cap, i);
            }
            assert forall|j: int| 0 <= j < cap implies (#[trigger] self.buf@[j]).is_some()
                == in_run(front, self.len as int, cap, j) by {
                assert(before.buf@[j].is_some() == in_run(old_front, self.len - 1, cap, j));
            }
            assert(self@ =~= requeued(before@, val));
        }
    }

    /// The head, if there is one.
    pub fn peek(&self) -> (val: Option<&T>)
        requires
            self.wf(),
        ensures
            val == match dequeue_value(self@) {
                Some(v) => Some(&v),
                None => None,
            },
    {
        if self.len == 0 {
            None
        } else {
            proof {
                lemma_slot_of(self.front as int, self.buf@.len() as int, 0);
                assert(in_run(
                    self.front as int,
                    self.len as int,
                    self.buf@.len() as int,
                    self.front as int,
                ));
            }
            Some(self.buf.peek(self.front))
        }
    }
}

impl<T: core::fmt::Display> Queue<T> {
    /// The texts of the values, head first, each as the value formats itself.
    pub fn texts(&self) -> (parts: Vec<String>)
        requires
            self.wf(),
        ensures
            shows(self@, parts@),
    {
        let mut parts: Vec<String> = Vec::new();
        let mut slot: usize = self.front;
        let mut i: usize = 0;
        proof {
            if self.len > 0 {
                lemma_slot_of(self.front as int, self.buf@.len() as int, 0);
            }
        }
        while i < self.len
            invariant
                self.wf(),
                i <= self.len,
                slot == self.front || slot < self.buf@.len(),
                i < self.len ==> slot == slot_of(
                    self.front as int,
                    self.buf@.len() as int,
                    i as int,
                ),
                shows(self@.subrange(0, i as int), parts@),
            decreases self.len - i,
        {
            proof {
                self.buf.lemma_cap_fits();
                lemma_slot_of(self.front as int, self.buf@.len() as int, i as int);
                lemma_slot_of(self.front as int, self.buf@.len() as int, i + 1);
                assert(in_run(
                    self.front as int,
                    self.len as int,
                    self.buf@.len() as int,
                    slot as int,
                ));
            }
            let part = self.buf.peek(slot).to_string();
            parts.push(part);
            slot += 1;
            if slot == self.buf.cap() {
                slot = 0;
            }
            i += 1;
        }
        assert(self@.subrange(0, i as int) =~= self@);
        parts
    }

    /// The queue as text: its values from head to tail, in square brackets
    /// and separated by commas.
    pub fn to_string(&self) -> (text: String)
        requires
            self.wf(),
        ensures
            exists|parts: Seq<String>| shows(self@, parts) && text@ == bracketed(parts),
    {
        let parts = self.texts();
        bracketed_list(&parts)
    }
}

} // verus!
