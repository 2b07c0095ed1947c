//! The waker of a task: a counted reference that can ask for the task to be
//! polled again.

use crate::channel::ChannelPair;
use crate::task::note::Note;
use crate::task::task::{Core, destroyed, Heap, live, notified, RawTask, released, with_refs};
use vstd::prelude::*;

verus! {

/// A waker for the task at `raw`. It stands for one reference to the cell from
/// `make_waker` or `clone_fn` until `drop_fn`; `note` is what waking sends.
pub struct Waker {
    pub raw: RawTask,
    pub note: Note,
}

/// A further waker for the same task, counted as one more reference.
pub fn clone_fn<T>(waker: &Waker, heap: &mut Heap<T>) -> (w: Waker)
    requires
        old(heap).wf(),
        live(old(heap)@, waker.raw),
        old(heap)@[waker.raw.ptr].head.refs < u8::MAX,
    ensures
        final(heap).wf(),
        final(heap).vacant() == old(heap).vacant(),
        w == *waker,
        final(heap)@ == with_refs(
            old(heap)@,
            waker.raw,
            (old(heap)@[waker.raw.ptr].head.refs + 1) as u8,
        ),
{
    let raw = RawTask::from_ptr(waker.raw.ptr);
    raw.ref_inc(heap);
    Waker { raw, note: waker.note }
}

/// Wakes the task and uses the waker up: the notification goes to the
/// channel, and the reference that the waker stood for is released. The cell
/// comes back if that was the last one.
pub fn wake_fn<T>(waker: Waker, heap: &mut Heap<T>, chan: &mut ChannelPair<Note>) -> (gone: Option<
    Core<T>,
>)
    requires
        old(heap).wf(),
        live(old(heap)@, waker.raw),
        old(heap)@[waker.raw.ptr].head.refs > 0,
    ensures
        final(heap).wf(),
        final(chan).is_open() == old(chan).is_open(),
        final(chan)@ == notified(*old(chan), Some(waker.note)),
        final(heap)@ == released(old(heap)@, waker.raw),
        gone == destroyed(old(heap)@, waker.raw),
{
    wake_by_ref_fn(&waker, chan);
    drop_fn(waker, heap)
}

/// Wakes the task: its notification goes to the channel. A closed channel
/// means that the runtime is shutting down, and is ignored.
pub fn wake_by_ref_fn(waker: &Waker, chan: &mut ChannelPair<Note>)
    ensures
        final(chan).is_open() == old(chan).is_open(),
        final(chan)@ == notified(*old(chan), Some(waker.note)),
{
    let _ = chan.send(waker.note);
}

/// Releases the waker's reference; the cell comes back if that was the last
/// one.
pub fn drop_fn<T>(waker: Waker, heap: &mut Heap<T>) -> (gone: Option<Core<T>>)
    requires
        old(heap).wf(),
        live(old(heap)@, waker.raw),
        old(heap)@[waker.raw.ptr].head.refs > 0,
    ensures
        final(heap).wf(),
        final(heap)@ == released(old(heap)@, waker.raw),
        gone == destroyed(old(heap)@, waker.raw),
{
    let raw = RawTask::from_ptr(waker.raw.ptr);
    raw.ref_destroy(heap)
}

/// The first waker for the task at `raw`, counted as one more reference.
pub fn make_waker<T>(raw: RawTask, heap: &mut Heap<T>) -> (w: Waker)
    requires
        old(heap).wf(),
        live(old(heap)@, raw),
        old(heap)@[raw.ptr].head.refs < u8::MAX,
    ensures
        final(heap).wf(),
        final(heap).vacant() == old(heap).vacant(),
        w == (Waker { raw, note: Note(old(heap)@[raw.ptr].head.id) }),
        final(heap)@ == with_refs(old(heap)@, raw, (old(heap)@[raw.ptr].head.refs + 1) as u8),
{
    raw.ref_inc(heap);
    let id = raw.header(heap).id;
    Waker { raw, note: Note(id) }
}

} // verus!
