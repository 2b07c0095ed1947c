//! A notification that carries the task it is about.

use crate::channel::ChannelPair;
use crate::task::task::{Core, Heap, live, Middle, Poll, Task};
use vstd::prelude::*;

verus! {

/// A task on its way to whoever polls it next.
pub struct Notification {
    pub task: Task,
}

impl Notification {
    pub fn new(task: Task) -> (n: Notification)
        ensures
            n.task == task,
    {
        Notification { task }
    }

    /// Records one step of the task's computation; see `Task::poll`.
    pub fn test<T>(&self, heap: &mut Heap<T>, output: Poll<T>) -> (ready: bool)
        requires
            old(heap).wf(),
            live(old(heap)@, self.task.raw),
            old(heap)@[self.task.raw.ptr].tail.waker.is_some(),
        ensures
            final(heap).wf(),
            final(heap).vacant() == old(heap).vacant(),
            ready == (output is Ready),
            final(heap)@ == old(heap)@.insert(
                self.task.raw.ptr,
                Core { mid: Middle { poll: output }, ..old(heap)@[self.task.raw.ptr] },
            ),
    {
        self.task.poll(heap, output)
    }

    /// Puts the notification on the channel, which must be open.
    pub fn send(self, chan: &mut ChannelPair<Notification>)
        requires
            old(chan).is_open(),
        ensures
            final(chan).is_open(),
            final(chan)@ == old(chan)@.push(self),
    {
        let _ = chan.send(self);
    }
}

} // verus!
