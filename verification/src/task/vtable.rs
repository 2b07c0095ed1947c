//! The dispatch table: what can be done to a cell through a raw reference.

use crate::channel::ChannelPair;
use crate::task::mantle::Mantle;
use crate::task::note::Note;
use crate::task::task::{
    Core, handle_note, Heap, live, Middle, notified, Poll, RawTask, reviewed, reviewed_rest, Tail,
    with_refs,
};
use crate::task::waker::Waker;
use std::marker::PhantomData;
use vstd::prelude::*;

verus! {

/// The table for cells whose output has type `T`. Each entry takes the raw
/// reference and goes on with the typed one.
pub struct Vtable<T> {
    _t: PhantomData<T>,
}

/// The table for the output type `T`.
pub fn vtable<T>() -> Vtable<T> {
    Vtable::new()
}

impl<T> Vtable<T> {
    pub fn new() -> Vtable<T> {
        Vtable { _t: PhantomData }
    }

    pub fn poll(&self, ptr: RawTask, heap: &mut Heap<T>, output: Poll<T>) -> (ready: bool)
        requires
            old(heap).wf(),
            live(old(heap)@, ptr),
            old(heap)@[ptr.ptr].tail.waker.is_some(),
        ensures
            final(heap).wf(),
            final(heap).vacant() == old(heap).vacant(),
            ready == (output is Ready),
            final(heap)@ == old(heap)@.insert(
                ptr.ptr,
                Core { mid: Middle { poll: output }, ..old(heap)@[ptr.ptr] },
            ),
    {
        let m: Mantle<T> = Mantle::from_raw(ptr);
        m.poll(heap, output)
    }

    pub fn destroy(&self, ptr: RawTask, heap: &mut Heap<T>) -> (cell: Core<T>)
        requires
            old(heap).wf(),
            live(old(heap)@, ptr),
        ensures
            final(heap).wf(),
            cell == old(heap)@[ptr.ptr],
            final(heap)@ == old(heap)@.remove(ptr.ptr),
    {
        let m: Mantle<T> = Mantle::from_raw(ptr);
        m.destroy(heap)
    }

    pub fn review(&self, ptr: RawTask, heap: &mut Heap<T>, waker: Waker) -> (out: (
        Poll<T>,
        Option<Waker>,
    ))
        requires
            old(heap).wf(),
            live(old(heap)@, ptr),
        ensures
            final(heap).wf(),
            final(heap).vacant() == old(heap).vacant(),
            out.0 == old(heap)@[ptr.ptr].mid.poll,
            out.1 == reviewed_rest(old(heap)@[ptr.ptr], waker),
            final(heap)@ == old(heap)@.insert(ptr.ptr, reviewed(old(heap)@[ptr.ptr], waker)),
    {
        let m: Mantle<T> = Mantle::from_raw(ptr);
        m.review(heap, waker)
    }

    pub fn wake_handle(&self, ptr: RawTask, heap: &Heap<T>, chan: &mut ChannelPair<Note>)
        requires
            heap.wf(),
            live(heap@, ptr),
        ensures
            final(chan).is_open() == old(chan).is_open(),
            final(chan)@ == notified(*old(chan), handle_note(heap@[ptr.ptr])),
    {
        let m: Mantle<T> = Mantle::from_raw(ptr);
        m.wake_handle(heap, chan)
    }

    pub fn send_note(&self, ptr: RawTask, heap: &Heap<T>, chan: &mut ChannelPair<Note>)
        requires
            heap.wf(),
            live(heap@, ptr),
        ensures
            final(chan).is_open() == old(chan).is_open(),
            final(chan)@ == notified(*old(chan), Some(Note(heap@[ptr.ptr].head.id))),
    {
        let m: Mantle<T> = Mantle::from_raw(ptr);
        m.send_note(heap, chan)
    }

    pub fn set_waker(&self, ptr: RawTask, heap: &mut Heap<T>, waker: Option<Waker>) -> (prev:
        Option<Waker>)
        requires
            old(heap).wf(),
            live(old(heap)@, ptr),
        ensures
            final(heap).wf(),
            final(heap).vacant() == old(heap).vacant(),
            prev == old(heap)@[ptr.ptr].tail.waker,
            final(heap)@ == old(heap)@.insert(
                ptr.ptr,
                Core {
                    tail: Tail { waker, h_waker: old(heap)@[ptr.ptr].tail.h_waker },
                    ..old(heap)@[ptr.ptr]
                },
            ),
    {
        let m: Mantle<T> = Mantle::from_raw(ptr);
        m.set_waker(heap, waker)
    }

    pub fn ref_dec(&self, ptr: RawTask, heap: &mut Heap<T>) -> (refs: u8)
        requires
            old(heap).wf(),
            live(old(heap)@, ptr),
            old(heap)@[ptr.ptr].head.refs > 0,
        ensures
            final(heap).wf(),
            final(heap).vacant() == old(heap).vacant(),
            refs == old(heap)@[ptr.ptr].head.refs - 1,
            final(heap)@ == with_refs(old(heap)@, ptr, refs),
    {
        match heap.get_mut(ptr.ptr) {
            Some(cell) => {
                cell.head.refs = cell.head.refs - 1;
                cell.head.refs
            },
            None => 0,
        }
    }

    pub fn ref_inc(&self, ptr: RawTask, heap: &mut Heap<T>) -> (refs: u8)
        requires
            old(heap).wf(),
            live(old(heap)@, ptr),
            old(heap)@[ptr.ptr].head.refs < u8::MAX,
        ensures
            final(heap).wf(),
            final(heap).vacant() == old(heap).vacant(),
            refs == old(heap)@[ptr.ptr].head.refs + 1,
            final(heap)@ == with_refs(old(heap)@, ptr, refs),
    {
        match heap.get_mut(ptr.ptr) {
            Some(cell) => {
                cell.head.refs = cell.head.refs + 1;
                cell.head.refs
            },
            None => 0,
        }
    }
}

} // verus!
