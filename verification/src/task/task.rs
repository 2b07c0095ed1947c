//! The task cell, the heap it lives on, and the owners that refer to it.

use crate::channel::ChannelPair;
use crate::registry::Registry;
use crate::task::handle::TaskHandle;
use crate::task::note::Note;
use crate::task::vtable::{vtable, Vtable};
use crate::task::waker::{drop_fn, make_waker, Waker};
use vstd::prelude::*;

verus! {

/// The count a fresh cell starts with: nobody owns it yet.
pub const REF_COUNT_BASE: u8 = 0;

/// What one step of a computation gave: its value, or nothing yet.
pub enum Poll<T> {
    Ready(T),
    Pending,
}

impl<T> Poll<T> {
    /// Whether a value is there.
    pub fn is_ready(&self) -> (b: bool)
        ensures
            b == (self is Ready),
    {
        match self {
            Poll::Ready(_) => true,
            Poll::Pending => false,
        }
    }

    /// Whether the pending marker is there.
    pub fn is_pending(&self) -> (b: bool)
        ensures
            b == (self is Pending),
    {
        !self.is_ready()
    }
}

/// Header, often used and updated data.
pub struct Header {
    /// Id of the task.
    pub id: u64,
    /// Number of references.
    pub refs: u8,
}

/// Middle, the output of the computation. The computation itself stays with
/// whoever polls it.
pub struct Middle<T> {
    /// Previous poll output.
    pub poll: Poll<T>,
}

/// Tail of the task, used for rarely updated data.
pub struct Tail {
    /// Waker for the task.
    pub waker: Option<Waker>,
    /// Waker for the task's handle.
    pub h_waker: Option<Waker>,
}

impl Tail {
    /// Sets the waker for the task and hands back the one that was there. The
    /// caller releases it.
    pub fn set_waker(&mut self, w: Option<Waker>) -> (prev: Option<Waker>)
        ensures
            prev == old(self).waker,
            final(self).waker == w,
            final(self).h_waker == old(self).h_waker,
    {
        let mut w = w;
        std::mem::swap(&mut self.waker, &mut w);
        w
    }
}

/// A cell for the task `id` that nobody refers to yet.
pub open spec fn blank<T>(id: u64) -> Core<T> {
    Core {
        head: Header { id, refs: REF_COUNT_BASE },
        mid: Middle { poll: Poll::Pending },
        tail: Tail { waker: None, h_waker: None },
    }
}

/// One task cell.
pub struct Core<T> {
    pub head: Header,
    pub mid: Middle<T>,
    pub tail: Tail,
}

impl<T> Core<T> {
    /// A cell for the task `id`: not referenced, nothing computed, no wakers.
    pub fn new(id: u64) -> (c: Core<T>)
        ensures
            c == blank::<T>(id),
    {
        let head = Header { id, refs: REF_COUNT_BASE };
        let mid = Middle { poll: Poll::Pending };
        let tail = Tail { waker: None, h_waker: None };
        Core { head, mid, tail }
    }

    pub fn header(&self) -> (h: &Header)
        ensures
            *h == self.head,
    {
        &self.head
    }

    pub fn middle(&self) -> (m: &Middle<T>)
        ensures
            *m == self.mid,
    {
        &self.mid
    }

    pub fn tail(&self) -> (t: &Tail)
        ensures
            *t == self.tail,
    {
        &self.tail
    }

    /// Obtains a reference or None to the waker.
    pub fn waker(&self) -> (w: Option<&Waker>)
        ensures
            w.is_some() == self.tail.waker.is_some(),
            w matches Some(r) ==> *r == self.tail.waker.unwrap(),
    {
        self.tail.waker.as_ref()
    }

    /// Sets the waker used by the handle and hands back the one it replaces.
    pub fn set_handle_waker(&mut self, waker: Waker) -> (prev: Option<Waker>)
        ensures
            prev == old(self).tail.h_waker,
            *final(self) == (Core {
                tail: Tail { waker: old(self).tail.waker, h_waker: Some(waker) },
                ..*old(self)
            }),
    {
        let mut w = Some(waker);
        std::mem::swap(&mut self.tail.h_waker, &mut w);
        w
    }

    /// Obtains the poll output; the pending marker takes its place.
    pub fn poll_output(&mut self) -> (out: Poll<T>)
        ensures
            out == old(self).mid.poll,
            *final(self) == (Core { mid: Middle { poll: Poll::Pending }, ..*old(self) }),
    {
        let mut out = Poll::Pending;
        std::mem::swap(&mut self.mid.poll, &mut out);
        out
    }
}

/// Where the task cells live; a key of it is the address of a cell.
pub type Heap<T> = Registry<Core<T>>;

/// Whether `raw` points at a cell that has not been destroyed.
pub open spec fn live<T>(heap: Map<usize, Core<T>>, raw: RawTask) -> bool {
    heap.contains_key(raw.ptr)
}

/// The heap `heap` with the reference count of the cell at `raw` set to `refs`.
pub open spec fn with_refs<T>(heap: Map<usize, Core<T>>, raw: RawTask, refs: u8) -> Map<
    usize,
    Core<T>,
> {
    heap.insert(
        raw.ptr,
        Core { head: Header { id: heap[raw.ptr].head.id, refs }, ..heap[raw.ptr] },
    )
}

/// A reference to a task cell that says nothing of what the cell computes.
#[derive(Clone, Copy, PartialEq, Eq, Debug, Structural)]
pub struct RawTask {
    pub ptr: usize,
}

impl RawTask {
    /// Puts a new cell for the task `id` on the heap.
    pub fn new<T>(heap: &mut Heap<T>, id: u64) -> (raw: RawTask)
        requires
            old(heap).wf(),
        ensures
            final(heap).wf(),
            raw.ptr == old(heap).next_key(),
            !live(old(heap)@, raw),
            final(heap)@ == old(heap)@.insert(raw.ptr, blank(id)),
    {
        let ptr = heap.insert(Core::new(id));
        RawTask { ptr }
    }

    /// Convenience function.
    /// Reduces the reference count and if it's zero the cell is taken off the
    /// heap and handed back.
    pub fn ref_destroy<T>(self, heap: &mut Heap<T>) -> (gone: Option<Core<T>>)
        requires
            old(heap).wf(),
            live(old(heap)@, self),
            old(heap)@[self.ptr].head.refs > 0,
        ensures
            final(heap).wf(),
            final(heap)@ == released(old(heap)@, self),
            gone == destroyed(old(heap)@, self),
    {
        if self.ref_dec(heap) == 0 {
            Some(self.destroy(heap))
        } else {
            None
        }
    }

    /// Creates a raw task from an address.
    pub fn from_ptr(ptr: usize) -> (raw: RawTask)
        ensures
            raw.ptr == ptr,
    {
        RawTask { ptr }
    }

    /// Convenience function to access the header.
    pub fn header<T>(self, heap: &Heap<T>) -> (h: &Header)
        requires
            heap.wf(),
            live(heap@, self),
        ensures
            *h == heap@[self.ptr].head,
    {
        heap.get(self.ptr).unwrap().header()
    }

    /// Convenience to access the dispatch table.
    pub fn vtable<T>(&self) -> Vtable<T> {
        vtable::<T>()
    }

    /// Records one step of the computation: `output` goes into the output slot.
    /// Says whether the computation is done.
    pub fn poll<T>(self, heap: &mut Heap<T>, output: Poll<T>) -> (ready: bool)
        requires
            old(heap).wf(),
            live(old(heap)@, self),
            old(heap)@[self.ptr].tail.waker.is_some(),
        ensures
            final(heap).wf(),
            final(heap).vacant() == old(heap).vacant(),
            ready == (output is Ready),
            final(heap)@ == old(heap)@.insert(
                self.ptr,
                Core { mid: Middle { poll: output }, ..old(heap)@[self.ptr] },
            ),
    {
        self.vtable::<T>().poll(self, heap, output)
    }

    /// Reviews the saved poll.
    ///
    /// Moves a value out of the output slot if there is one; otherwise stores
    /// `waker` as the waker of the handle. The second result is the waker that
    /// found no place: the one replaced, or `waker` itself.
    pub fn review<T>(self, heap: &mut Heap<T>, waker: Waker) -> (out: (Poll<T>, Option<Waker>))
        requires
            old(heap).wf(),
            live(old(heap)@, self),
        ensures
            final(heap).wf(),
            final(heap).vacant() == old(heap).vacant(),
            out.0 == old(heap)@[self.ptr].mid.poll,
            out.1 == reviewed_rest(old(heap)@[self.ptr], waker),
            final(heap)@ == old(heap)@.insert(self.ptr, reviewed(old(heap)@[self.ptr], waker)),
    {
        self.vtable::<T>().review(self, heap, waker)
    }

    /// Sends the task's notification to the channel. A closed channel is
    /// ignored.
    pub fn send_note<T>(self, heap: &Heap<T>, chan: &mut ChannelPair<Note>)
        requires
            heap.wf(),
            live(heap@, self),
        ensures
            final(chan).is_open() == old(chan).is_open(),
            final(chan)@ == notified(*old(chan), Some(Note(heap@[self.ptr].head.id))),
    {
        self.vtable::<T>().send_note(self, heap, chan)
    }

    /// Sets the task's waker and hands back the one that was there.
    pub fn set_waker<T>(self, heap: &mut Heap<T>, waker: Option<Waker>) -> (prev: Option<Waker>)
        requires
            old(heap).wf(),
            live(old(heap)@, self),
        ensures
            final(heap).wf(),
            final(heap).vacant() == old(heap).vacant(),
            prev == old(heap)@[self.ptr].tail.waker,
            final(heap)@ == old(heap)@.insert(
                self.ptr,
                Core {
                    tail: Tail { waker, h_waker: old(heap)@[self.ptr].tail.h_waker },
                    ..old(heap)@[self.ptr]
                },
            ),
    {
        self.vtable::<T>().set_waker(self, heap, waker)
    }

    /// Wakes up the handle's waker (if there is one).
    pub fn wake_handle<T>(self, heap: &Heap<T>, chan: &mut ChannelPair<Note>)
        requires
            heap.wf(),
            live(heap@, self),
        ensures
            final(chan).is_open() == old(chan).is_open(),
            final(chan)@ == notified(*old(chan), handle_note(heap@[self.ptr])),
    {
        self.vtable::<T>().wake_handle(self, heap, chan)
    }

    /// Takes the cell off the heap.
    pub fn destroy<T>(self, heap: &mut Heap<T>) -> (cell: Core<T>)
        requires
            old(heap).wf(),
            live(old(heap)@, self),
        ensures
            final(heap).wf(),
            cell == old(heap)@[self.ptr],
            final(heap)@ == old(heap)@.remove(self.ptr),
    {
        self.vtable::<T>().destroy(self, heap)
    }

    /// Decreases the reference count by 1.
    /// Returns ref count after subtracting.
    pub fn ref_dec<T>(self, heap: &mut Heap<T>) -> (refs: u8)
        requires
            old(heap).wf(),
            live(old(heap)@, self),
            old(heap)@[self.ptr].head.refs > 0,
        ensures
            final(heap).wf(),
            final(heap).vacant() == old(heap).vacant(),
            refs == old(heap)@[self.ptr].head.refs - 1,
            final(heap)@ == with_refs(old(heap)@, self, refs),
    {
        self.vtable::<T>().ref_dec(self, heap)
    }

    /// Increases the reference count by 1.
    /// Returns reference count after adding.
    pub fn ref_inc<T>(self, heap: &mut Heap<T>) -> (refs: u8)
        requires
            old(heap).wf(),
            live(old(heap)@, self),
            old(heap)@[self.ptr].head.refs < u8::MAX,
        ensures
            final(heap).wf(),
            final(heap).vacant() == old(heap).vacant(),
            refs == old(heap)@[self.ptr].head.refs + 1,
            final(heap)@ == with_refs(old(heap)@, self, refs),
    {
        self.vtable::<T>().ref_inc(self, heap)
    }
}

/// The cell `c` after a handle has reviewed it with `waker`.
pub open spec fn reviewed<T>(c: Core<T>, waker: Waker) -> Core<T> {
    Core {
        mid: Middle { poll: Poll::Pending },
        tail: Tail {
            waker: c.tail.waker,
            h_waker: if c.mid.poll is Pending {
                Some(waker)
            } else {
                c.tail.h_waker
            },
        },
        ..c
    }
}

/// The waker that a review of `c` with `waker` leaves without a place.
pub open spec fn reviewed_rest<T>(c: Core<T>, waker: Waker) -> Option<Waker> {
    if c.mid.poll is Pending {
        c.tail.h_waker
    } else {
        Some(waker)
    }
}

/// The notification that waking the handle of `c` sends, if any.
pub open spec fn handle_note<T>(c: Core<T>) -> Option<Note> {
    match c.tail.h_waker {
        Some(w) => Some(w.note),
        None => None,
    }
}

/// What waits in a queue after `note` was sent to it: a closed queue takes
/// nothing.
pub open spec fn sent(queue: Seq<Note>, open: bool, note: Option<Note>) -> Seq<Note> {
    match note {
        Some(n) if open => queue.push(n),
        _ => queue,
    }
}

/// What waits in `chan` after `note` was sent to it.
pub open spec fn notified(chan: ChannelPair<Note>, note: Option<Note>) -> Seq<Note> {
    sent(chan@, chan.is_open(), note)
}

/// The heap once a reference to the cell at `raw` has been released: the
/// count is one lower, and at zero the cell is gone.
pub open spec fn released<T>(heap: Map<usize, Core<T>>, raw: RawTask) -> Map<usize, Core<T>> {
    if heap[raw.ptr].head.refs == 1 {
        heap.remove(raw.ptr)
    } else {
        with_refs(heap, raw, (heap[raw.ptr].head.refs - 1) as u8)
    }
}

/// The cell that releasing a reference to the cell at `raw` destroys, if it
/// was the last reference.
pub open spec fn destroyed<T>(heap: Map<usize, Core<T>>, raw: RawTask) -> Option<Core<T>> {
    if heap[raw.ptr].head.refs == 1 {
        Some(with_refs(heap, raw, 0)[raw.ptr])
    } else {
        None
    }
}

/// Owned task struct: the reference that the registry holds.
pub struct Task {
    pub raw: RawTask,
    /// Whether somebody is polling the task at the moment.
    pub polling: bool,
    /// Whether the task was asked for while it was being polled.
    pub woken: bool,
}

/// The cell that `Task::new` and `Task::new_alone` leave on the heap at `raw`
/// for the task `id`, counted `refs` times: nothing computed, its own waker in
/// place, nobody awaiting it.
pub open spec fn born<T>(raw: RawTask, id: u64, refs: u8) -> Core<T> {
    Core {
        head: Header { id, refs },
        mid: Middle { poll: Poll::Pending },
        tail: Tail { waker: Some(Waker { raw, note: Note(id) }), h_waker: None },
    }
}

impl Task {
    /// The task at `raw` as it is created: nobody polls it, nobody has asked
    /// for it meanwhile.
    pub open spec fn at(raw: RawTask) -> Task {
        Task { raw, polling: false, woken: false }
    }

    /// Creates the cell of a spawned task with its three owners: the task
    /// itself, the waker stored in the cell, and the handle.
    pub fn new<T>(heap: &mut Heap<T>, id: u64) -> (out: (Task, Note, TaskHandle<T>))
        requires
            old(heap).wf(),
        ensures
            final(heap).wf(),
            out.0 == Task::at(out.0.raw),
            out.0.raw.ptr == old(heap).next_key(),
            out.1 == Note(id),
            out.2.raw() == out.0.raw,
            !live(old(heap)@, out.0.raw),
            final(heap)@ == old(heap)@.insert(out.0.raw.ptr, born(out.0.raw, id, 3)),
    {
        let raw = RawTask::new(heap, id);
        raw.ref_inc(heap);
        let waker = make_waker(raw, heap);
        let _ = raw.set_waker(heap, Some(waker));
        let handle = TaskHandle::new(raw, heap);
        assert(heap@[raw.ptr].mid.poll == Poll::<T>::Pending);
        assert(heap@ =~= old(heap)@.insert(raw.ptr, born(raw, id, 3)));
        (Task { raw, polling: false, woken: false }, Note(id), handle)
    }

    /// Creates the cell of a task that nobody awaits through a handle: its
    /// owners are the task itself and the waker stored in the cell.
    pub fn new_alone<T>(heap: &mut Heap<T>, id: u64) -> (task: Task)
        requires
            old(heap).wf(),
        ensures
            final(heap).wf(),
            task == Task::at(task.raw),
            task.raw.ptr == old(heap).next_key(),
            !live(old(heap)@, task.raw),
            final(heap)@ == old(heap)@.insert(task.raw.ptr, born(task.raw, id, 2)),
    {
        let raw = RawTask::new(heap, id);
        raw.ref_inc(heap);
        let waker = make_waker(raw, heap);
        let _ = raw.set_waker(heap, Some(waker));
        assert(heap@[raw.ptr].mid.poll == Poll::<T>::Pending);
        assert(heap@ =~= old(heap)@.insert(raw.ptr, born(raw, id, 2)));
        Task { raw, polling: false, woken: false }
    }

    /// Records one step of the computation; see `RawTask::poll`.
    pub fn poll<T>(&self, heap: &mut Heap<T>, output: Poll<T>) -> (ready: bool)
        requires
            old(heap).wf(),
            live(old(heap)@, self.raw),
            old(heap)@[self.raw.ptr].tail.waker.is_some(),
        ensures
            final(heap).wf(),
            final(heap).vacant() == old(heap).vacant(),
            ready == (output is Ready),
            final(heap)@ == old(heap)@.insert(
                self.raw.ptr,
                Core { mid: Middle { poll: output }, ..old(heap)@[self.raw.ptr] },
            ),
    {
        self.raw.poll(heap, output)
    }

    /// Gives the task up, as the registry does when the task is finished:
    /// wakes the handle, clears the cell's own waker and releases both its
    /// reference and the task's. The cell comes back if that destroyed it.
    pub fn drop<T>(self, heap: &mut Heap<T>, chan: &mut ChannelPair<Note>) -> (gone: Option<
        Core<T>,
    >)
        requires
            old(heap).wf(),
            live(old(heap)@, self.raw),
            old(heap)@[self.raw.ptr].head.refs > owned_by_waker(old(heap)@[self.raw.ptr]),
            old(heap)@[self.raw.ptr].tail.waker matches Some(w) ==> w.raw == self.raw,
        ensures
            final(heap).wf(),
            final(chan).is_open() == old(chan).is_open(),
            final(chan)@ == notified(*old(chan), handle_note(old(heap)@[self.raw.ptr])),
            final(heap)@ == given_up(old(heap)@, self.raw),
            gone == given_up_cell(old(heap)@, self.raw),
    {
        // Wakes up the handle.
        // This is here because the task is considered as finished
        // when it is dropped in the Executor's loop
        self.raw.wake_handle(heap, chan);

        // The waker in the cell is cleared and released,
        // which decreases our ref count.
        match self.raw.set_waker(heap, None) {
            Some(w) => {
                let _ = drop_fn(w, heap);
            },
            None => {},
        }

        // This decreases the ref count
        // and destroys the cell if it is 0.
        let gone = self.raw.ref_destroy(heap);
        assert(heap@ =~= given_up(old(heap)@, self.raw));
        gone
    }
}

/// How many references the waker stored in `c` accounts for.
pub open spec fn owned_by_waker<T>(c: Core<T>) -> int {
    if c.tail.waker.is_some() {
        1
    } else {
        0
    }
}

/// The cell `c` once its task has been dropped: no waker of its own, and the
/// count lower by the waker's reference and the task's.
pub open spec fn dropped<T>(c: Core<T>) -> Core<T> {
    Core {
        head: Header { id: c.head.id, refs: (c.head.refs - owned_by_waker(c) - 1) as u8 },
        tail: Tail { waker: None, h_waker: c.tail.h_waker },
        ..c
    }
}

/// The heap once the task at `raw` has been dropped: its cell is as `dropped`
/// says, or gone if that was the last reference.
pub open spec fn given_up<T>(heap: Map<usize, Core<T>>, raw: RawTask) -> Map<usize, Core<T>> {
    if dropped(heap[raw.ptr]).head.refs == 0 {
        heap.remove(raw.ptr)
    } else {
        heap.insert(raw.ptr, dropped(heap[raw.ptr]))
    }
}

/// The cell that dropping the task at `raw` destroys, if any.
pub open spec fn given_up_cell<T>(heap: Map<usize, Core<T>>, raw: RawTask) -> Option<Core<T>> {
    if dropped(heap[raw.ptr]).head.refs == 0 {
        Some(dropped(heap[raw.ptr]))
    } else {
        None
    }
}

/// One use of a reference to a cell: taking a further one, or giving one up.
pub enum RefOp {
    Clone,
    Drop,
}

/// The heap after one use of a reference to the cell at `raw`. A cell that is
/// gone stays gone.
pub open spec fn stepped<T>(heap: Map<usize, Core<T>>, raw: RawTask, op: RefOp) -> Map<
    usize,
    Core<T>,
> {
    if !heap.contains_key(raw.ptr) {
        heap
    } else {
        match op {
            RefOp::Clone => with_refs(heap, raw, (heap[raw.ptr].head.refs + 1) as u8),
            RefOp::Drop => released(heap, raw),
        }
    }
}

/// The heap after the references to the cell at `raw` were used as `ops` say,
/// in order.
pub open spec fn replayed<T>(heap: Map<usize, Core<T>>, raw: RawTask, ops: Seq<RefOp>) -> Map<
    usize,
    Core<T>,
>
    decreases ops.len(),
{
    if ops.len() == 0 {
        heap
    } else {
        stepped(replayed(heap, raw, ops.drop_last()), raw, ops.last())
    }
}

/// How often the uses `ops` destroyed the cell at `raw`.
pub open spec fn destructions<T>(heap: Map<usize, Core<T>>, raw: RawTask, ops: Seq<RefOp>) -> nat
    decreases ops.len(),
{
    if ops.len() == 0 {
        0
    } else {
        let before = replayed(heap, raw, ops.drop_last());
        destructions(heap, raw, ops.drop_last()) + (if before.contains_key(raw.ptr)
            && ops.last() is Drop && destroyed(before, raw).is_some() {
            1nat
        } else {
            0nat
        })
    }
}

/// The references taken in `ops` less those given up.
pub open spec fn balance(ops: Seq<RefOp>) -> int
    decreases ops.len(),
{
    if ops.len() == 0 {
        0
    } else {
        balance(ops.drop_last()) + (match ops.last() {
            RefOp::Clone => 1int,
            RefOp::Drop => -1int,
        })
    }
}

/// Whether `ops` is a way in which `start` references can be used: each use
/// finds a reference to go by, and the count never passes what it can hold.
pub open spec fn usable(start: int, ops: Seq<RefOp>) -> bool
    decreases ops.len(),
{
    ops.len() == 0 || (usable(start, ops.drop_last()) && start + balance(ops.drop_last()) >= 1 && (
    ops.last() is Clone ==> start + balance(ops.drop_last()) < u8::MAX))
}

/// The count of a cell to which somebody refers is what it started with, plus
/// the references taken, less those given up, for as long as one is left.
/// When none is left the cell has been destroyed, once; while one is left it
/// has not.
pub proof fn law_references_are_counted<T>(heap: Map<usize, Core<T>>, raw: RawTask, ops: Seq<RefOp>)
    requires
        heap.contains_key(raw.ptr),
        heap[raw.ptr].head.refs >= 1,
        usable(heap[raw.ptr].head.refs as int, ops),
    ensures
        heap[raw.ptr].head.refs + balance(ops) >= 0,
        heap[raw.ptr].head.refs + balance(ops) > 0 ==> replayed(heap, raw, ops).contains_key(
            raw.ptr,
        ) && replayed(heap, raw, ops)[raw.ptr].head.refs == heap[raw.ptr].head.refs + balance(ops)
            && destructions(heap, raw, ops) == 0,
        heap[raw.ptr].head.refs + balance(ops) == 0 ==> !replayed(heap, raw, ops).contains_key(
            raw.ptr,
        ) && destructions(heap, raw, ops) == 1,
    decreases ops.len(),
{
    if ops.len() > 0 {
        let earlier = ops.drop_last();
        let before = replayed(heap, raw, earlier);
        let count = heap[raw.ptr].head.refs + balance(earlier);
        assert(usable(heap[raw.ptr].head.refs as int, earlier));
        assert(count >= 1);
        law_references_are_counted(heap, raw, earlier);
        assert(before.contains_key(raw.ptr) && before[raw.ptr].head.refs == count);
        assert(replayed(heap, raw, ops) == stepped(before, raw, ops.last()));
        match ops.last() {
            RefOp::Clone => {
                assert(destroyed(before, raw).is_none() || !(ops.last() is Drop));
            },
            RefOp::Drop => {
                assert(destroyed(before, raw).is_some() == (count == 1));
            },
        }
    }
}

/// Reviewing a task that is still pending changes nothing but the waker of
/// the handle, which is the latest one given.
pub proof fn law_review_of_pending<T>(c: Core<T>, first: Waker, second: Waker)
    requires
        c.mid.poll is Pending,
    ensures
        reviewed(c, first) == (Core {
            tail: Tail { waker: c.tail.waker, h_waker: Some(first) },
            ..c
        }),
        reviewed(reviewed(c, first), second) == reviewed(c, second),
{
}

/// Reviewing a finished task moves the output out: the review returns it and
/// leaves the pending marker, which is what the next review returns.
pub proof fn law_output_moves_out<T>(c: Core<T>, first: Waker, second: Waker)
    requires
        c.mid.poll is Ready,
    ensures
        reviewed(c, first).mid.poll is Pending,
        reviewed(c, first).tail == c.tail,
        reviewed_rest(c, first) == Some(first),
        reviewed(reviewed(c, first), second).mid.poll is Pending,
        reviewed(reviewed(c, first), second).tail.h_waker == Some(second),
{
}

} // verus!
