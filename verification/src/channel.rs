//! The queue between those who notify and the one who receives.

use std::collections::VecDeque;
use vstd::prelude::*;

verus! {

/// Both ends of an unbounded first-in, first-out channel, kept as one value.
///
/// Whoever shares it between threads guards it and waits beside it; the queue
/// itself never blocks.
pub struct ChannelPair<T> {
    queue: VecDeque<T>,
    open: bool,
}

impl<T> View for ChannelPair<T> {
    type V = Seq<T>;

    /// What has been sent and not yet received, oldest first.
    closed spec fn view(&self) -> Seq<T> {
        self.queue@
    }
}

impl<T> ChannelPair<T> {
    /// Whether the receiving end still exists.
    pub closed spec fn is_open(&self) -> bool {
        self.open
    }

    /// An open, empty channel.
    pub fn new() -> (c: ChannelPair<T>)
        ensures
            c@ == Seq::<T>::empty(),
            c.is_open(),
    {
        ChannelPair { queue: VecDeque::new(), open: true }
    }

    /// Whether the receiving end still exists.
    pub fn open(&self) -> (b: bool)
        ensures
            b == self.is_open(),
    {
        self.open
    }

    /// The number of values waiting.
    pub fn len(&self) -> (n: usize)
        ensures
            n == self@.len(),
    {
        self.queue.len()
    }

    /// The oldest waiting value, if any; it stays in the channel.
    pub fn front(&self) -> (r: Option<&T>)
        ensures
            r.is_some() == (self@.len() > 0),
            r matches Some(v) ==> *v == self@[0],
    {
        if self.queue.len() > 0 {
            Some(&self.queue[0])
        } else {
            None
        }
    }

    /// Appends `val`; on a closed channel the value comes back and nothing
    /// changes.
    pub fn send(&mut self, val: T) -> (r: Result<(), T>)
        ensures
            final(self).is_open() == old(self).is_open(),
            old(self).is_open() ==> r == Ok::<(), T>(()) && final(self)@ == old(self)@.push(val),
            !old(self).is_open() ==> r == Err::<(), T>(val) && final(self)@ == old(self)@,
    {
        if self.open {
            self.queue.push_back(val);
            Ok(())
        } else {
            Err(val)
        }
    }

    /// Takes the oldest waiting value, if any.
    pub fn recv(&mut self) -> (r: Option<T>)
        ensures
            final(self).is_open() == old(self).is_open(),
            old(self)@.len() == 0 ==> r.is_none() && final(self)@ == old(self)@,
            old(self)@.len() > 0 ==> r == Some(old(self)@[0]) && final(self)@
                == old(self)@.drop_first(),
    {
        self.queue.pop_front()
    }

    /// Drops the receiving end: what waits stays, later sends fail.
    pub fn close(&mut self)
        ensures
            !final(self).is_open(),
            final(self)@ == old(self)@,
    {
        self.open = false;
    }
}

} // verus!
