//! Contiguous containers over an explicitly managed slot buffer.
//!
//! [`list::List`] is a growable, indexable sequence and [`list::queue::Queue`]
//! is a circular double-ended queue. Both sit on [`list::raw_list::RawList`],
//! a buffer of slots that only knows how to grow, and both are described by
//! the mathematical sequence of the values they hold.
//! [`queue::Queue`] is the same queue interface over the standard deque.
pub mod list;
pub mod queue;
