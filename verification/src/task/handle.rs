//! The handle through which a spawned task's output is awaited.

use crate::task::task::{
    Core, destroyed, Heap, live, Poll, RawTask, released, reviewed, reviewed_rest, with_refs,
};
use crate::task::waker::Waker;
use std::marker::PhantomData;
use vstd::prelude::*;

verus! {

/// The caller's side of a task whose output has type `T`. It stands for one
/// reference to the cell from `new` until `drop`.
pub struct TaskHandle<T> {
    raw: RawTask,
    _t: PhantomData<T>,
}

impl<T> TaskHandle<T> {
    /// A handle for the task at `raw`, counted as one more reference.
    pub fn new(raw: RawTask, heap: &mut Heap<T>) -> (h: TaskHandle<T>)
        requires
            old(heap).wf(),
            live(old(heap)@, raw),
            old(heap)@[raw.ptr].head.refs < u8::MAX,
        ensures
            final(heap).wf(),
            final(heap).vacant() == old(heap).vacant(),
            h.raw() == raw,
            final(heap)@ == with_refs(old(heap)@, raw, (old(heap)@[raw.ptr].head.refs + 1) as u8),
    {
        raw.ref_inc(heap);
        TaskHandle { raw, _t: PhantomData }
    }

    /// The raw reference behind the handle.
    #[verifier::when_used_as_spec(spec_raw)]
    pub fn raw(&self) -> (r: RawTask)
        ensures
            r == self.raw(),
    {
        self.raw
    }

    pub closed spec fn spec_raw(&self) -> RawTask {
        self.raw
    }

    /// One poll of the handle: the task's output if it is there, which this
    /// moves out; otherwise pending, with `waker` left behind to be woken when
    /// the task finishes. The second result is the waker that found no place.
    pub fn poll(&self, heap: &mut Heap<T>, waker: Waker) -> (out: (Poll<T>, Option<Waker>))
        requires
            old(heap).wf(),
            live(old(heap)@, self.raw()),
        ensures
            final(heap).wf(),
            final(heap).vacant() == old(heap).vacant(),
            out.0 == old(heap)@[self.raw().ptr].mid.poll,
            out.1 == reviewed_rest(old(heap)@[self.raw().ptr], waker),
            final(heap)@ == old(heap)@.insert(
                self.raw().ptr,
                reviewed(old(heap)@[self.raw().ptr], waker),
            ),
    {
        self.raw.review(heap, waker)
    }

    /// Releases the handle's reference; the cell comes back if that was the
    /// last one.
    pub fn drop(self, heap: &mut Heap<T>) -> (gone: Option<Core<T>>)
        requires
            old(heap).wf(),
            live(old(heap)@, self.raw()),
            old(heap)@[self.raw().ptr].head.refs > 0,
        ensures
            final(heap).wf(),
            final(heap)@ == released(old(heap)@, self.raw()),
            gone == destroyed(old(heap)@, self.raw()),
    {
        self.raw.ref_destroy(heap)
    }
}

} // verus!
