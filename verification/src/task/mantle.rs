//! Mantle for the task: the typed side of a raw reference.

use crate::channel::ChannelPair;
use crate::task::note::Note;
use crate::task::task::{
    Core, handle_note, Heap, Middle, notified, Poll, RawTask, reviewed, reviewed_rest, Tail,
};
use crate::task::waker::{wake_by_ref_fn, Waker};
use std::marker::PhantomData;
use vstd::prelude::*;

verus! {

/// A reference to a task cell that knows the type of its output.
pub struct Mantle<T> {
    pub ptr: usize,
    pub _t: PhantomData<T>,
}

impl<T> Mantle<T> {
    pub fn from_raw(raw: RawTask) -> (m: Mantle<T>)
        ensures
            m.ptr == raw.ptr,
    {
        Mantle { ptr: raw.ptr, _t: PhantomData }
    }

    /// The cell this refers to.
    pub fn cell<'a>(&self, heap: &'a Heap<T>) -> (c: &'a Core<T>)
        requires
            heap.wf(),
            heap@.contains_key(self.ptr),
        ensures
            *c == heap@[self.ptr],
    {
        heap.get(self.ptr).unwrap()
    }

    /// Stores the output of one step of the computation in the output slot.
    /// A waker of the task must be installed: the step was taken with it.
    pub fn poll(self, heap: &mut Heap<T>, output: Poll<T>) -> (ready: bool)
        requires
            old(heap).wf(),
            old(heap)@.contains_key(self.ptr),
            old(heap)@[self.ptr].tail.waker.is_some(),
        ensures
            final(heap).wf(),
            final(heap).vacant() == old(heap).vacant(),
            ready == (output is Ready),
            final(heap)@ == old(heap)@.insert(
                self.ptr,
                Core { mid: Middle { poll: output }, ..old(heap)@[self.ptr] },
            ),
    {
        let ready = output.is_ready();
        match heap.get_mut(self.ptr) {
            Some(cell) => {
                cell.mid.poll = output;
            },
            None => {},
        }
        ready
    }

    /// Takes the cell off the heap.
    pub fn destroy(self, heap: &mut Heap<T>) -> (cell: Core<T>)
        requires
            old(heap).wf(),
            old(heap)@.contains_key(self.ptr),
        ensures
            final(heap).wf(),
            cell == old(heap)@[self.ptr],
            final(heap)@ == old(heap)@.remove(self.ptr),
    {
        heap.remove(self.ptr).unwrap()
    }

    /// Obtains the poll from the cell. While it is pending, `waker` becomes
    /// the waker of the handle.
    pub fn review(self, heap: &mut Heap<T>, waker: Waker) -> (out: (Poll<T>, Option<Waker>))
        requires
            old(heap).wf(),
            old(heap)@.contains_key(self.ptr),
        ensures
            final(heap).wf(),
            final(heap).vacant() == old(heap).vacant(),
            out.0 == old(heap)@[self.ptr].mid.poll,
            out.1 == reviewed_rest(old(heap)@[self.ptr], waker),
            final(heap)@ == old(heap)@.insert(self.ptr, reviewed(old(heap)@[self.ptr], waker)),
    {
        match heap.get_mut(self.ptr) {
            Some(cell) => {
                let output = cell.poll_output();
                let rest = if output.is_pending() {
                    cell.set_handle_waker(waker)
                } else {
                    Some(waker)
                };
                (output, rest)
            },
            None => (Poll::Pending, Some(waker)),
        }
    }

    /// Wakes up the handle if there is a waker present.
    pub fn wake_handle(self, heap: &Heap<T>, chan: &mut ChannelPair<Note>)
        requires
            heap.wf(),
            heap@.contains_key(self.ptr),
        ensures
            final(chan).is_open() == old(chan).is_open(),
            final(chan)@ == notified(*old(chan), handle_note(heap@[self.ptr])),
    {
        match self.cell(heap).tail().h_waker.as_ref() {
            Some(w) => {
                wake_by_ref_fn(w, chan);
            },
            None => {},
        }
    }

    /// Sets the waker for a task.
    pub fn set_waker(self, heap: &mut Heap<T>, waker: Option<Waker>) -> (prev: Option<Waker>)
        requires
            old(heap).wf(),
            old(heap)@.contains_key(self.ptr),
        ensures
            final(heap).wf(),
            final(heap).vacant() == old(heap).vacant(),
            prev == old(heap)@[self.ptr].tail.waker,
            final(heap)@ == old(heap)@.insert(
                self.ptr,
                Core {
                    tail: Tail { waker, h_waker: old(heap)@[self.ptr].tail.h_waker },
                    ..old(heap)@[self.ptr]
                },
            ),
    {
        match heap.get_mut(self.ptr) {
            Some(cell) => cell.tail.set_waker(waker),
            None => None,
        }
    }

    /// Sends a note to the channel.
    pub fn send_note(self, heap: &Heap<T>, chan: &mut ChannelPair<Note>)
        requires
            heap.wf(),
            heap@.contains_key(self.ptr),
        ensures
            final(chan).is_open() == old(chan).is_open(),
            final(chan)@ == notified(*old(chan), Some(Note(heap@[self.ptr].head.id))),
    {
        let header = self.cell(heap).header();
        let _ = chan.send(Note(header.id));
    }
}

} // verus!
