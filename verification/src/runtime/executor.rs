//! The executor: the registry of live tasks, the workers' steps and the
//! driver's loop.

use crate::channel::ChannelPair;
use crate::reactor::io_source::{notes_of, IoSource, IoSourceView};
use crate::reactor::reactor::{
    blocked, known, registered, turn, Direction, Event, Reactor, SHUTDOWN,
};
use crate::registry::{handed_out, Registry};
use crate::runtime::ledger::{
    cascaded, claims, counted, counted_at, heap_claims, lemma_heap_above, lemma_heap_empty,
    lemma_heap_grows, lemma_heap_insert, lemma_heap_remove, lemma_list_concat, lemma_list_one,
    lemma_list_push, lemma_same_wakers, lemma_share_counts, lemma_sources_above,
    lemma_sources_empty, lemma_sources_grow, lemma_sources_insert, lemma_sources_remove,
    lemma_turn_conserves, lemma_wakers_of, limit, owner, sources_claims, wakers_of, Cascade,
};
use crate::runtime::teardown::{
    closed, lemma_sources_done, lemma_tasks_done, sources_dropped, sources_from, tasks_dropped,
    tasks_from, torn_down,
};
use crate::runtime::threads::{
    added, choice, deployed, lemma_fresh_pool, ThreadPool, WorkerView,
};
use crate::task::handle::TaskHandle;
use crate::task::note::{Note, ROOT_ID, SHUTDOWN_ID};
use crate::task::task::{
    born, handle_note, released, reviewed, sent, with_refs, Core, Heap, Middle, Poll, RawTask,
    Tail, Task,
};
use crate::task::waker::{clone_fn, drop_fn, wake_by_ref_fn, Waker};
use vstd::prelude::*;

verus! {

/// How many tasks the registry makes room for at the start.
pub const TASKS: usize = 4096;

/// How a run of the root task ended, or stands.
#[derive(Clone, Copy, PartialEq, Eq, Debug, Structural)]
pub enum RtState {
    Good,
    MainTaskPanicked,
    Abnormal,
}

/// What one step of a computation came to, as whoever polled it reports it.
pub enum Outcome<T> {
    /// The computation is done, with this value.
    Ready(T),
    /// The computation waits to be woken.
    Pending,
    /// The step panicked.
    Panicked,
}

/// What a worker does next.
#[derive(Clone, Copy, PartialEq, Eq, Debug, Structural)]
pub enum Work {
    /// Nothing is queued: wait for a notification.
    Wait,
    /// The shutdown sentinel came: leave the loop.
    Exit,
    /// The notification is for a task that is not registered: drop it.
    Stale(Note),
    /// The notification is for a task that another worker is polling: it has
    /// been kept as a mark on the task, and there is nothing to do.
    Busy(Note),
    /// Poll the task of this notification and report with `polled`.
    Poll(Note),
}

/// What the driver does next.
pub enum Drive<T> {
    /// The root task has ended: with its value, or with the state that says
    /// why there is none.
    Done(Result<T, RtState>),
    /// A notification for the root task came: poll it again.
    Repoll,
    /// Nothing is queued: wait for a notification.
    Wait,
}

/// Whether the cell of the registered task `t` is as the registry needs it:
/// alive, with the id `id`, its own waker in place, and counted for the
/// registry and for that waker.
pub open spec fn held<T>(heap: Map<usize, Core<T>>, t: Task, id: u64) -> bool {
    &&& heap.contains_key(t.raw.ptr)
    &&& heap[t.raw.ptr].head.id == id
    &&& heap[t.raw.ptr].head.refs >= 2
    &&& heap[t.raw.ptr].tail.waker == Some(Waker { raw: t.raw, note: Note(id) })
}

/// Whether the cell at `ptr` belongs to a registered task or to the root task.
pub open spec fn pinned(tasks: Map<usize, Task>, root: Option<Task>, ptr: usize) -> bool {
    ||| exists|k: usize| tasks.contains_key(k) && (#[trigger] tasks[k]).raw.ptr == ptr
    ||| root matches Some(t) && t.raw.ptr == ptr
}

/// Whether heap, registry and root task fit together: every task has its cell
/// to itself, and the cell is as `held` says.
pub open spec fn sound<T>(
    heap: Map<usize, Core<T>>,
    tasks: Map<usize, Task>,
    root: Option<Task>,
) -> bool {
    &&& forall|k: usize| tasks.contains_key(k) ==> held(heap, #[trigger] tasks[k], k as u64)
    &&& forall|a: usize, b: usize|
        tasks.contains_key(a) && tasks.contains_key(b) && a != b ==> (#[trigger] tasks[a]).raw.ptr
            != (#[trigger] tasks[b]).raw.ptr
    &&& root matches Some(t) ==> held(heap, t, ROOT_ID) && forall|k: usize|
        tasks.contains_key(k) ==> (#[trigger] tasks[k]).raw.ptr != t.raw.ptr
}

/// A cell that a task holds may change as long as its id and its own waker
/// stay and its count stays at two or more; any other cell may change at will.
pub proof fn lemma_cell_changed<T>(
    heap: Map<usize, Core<T>>,
    tasks: Map<usize, Task>,
    root: Option<Task>,
    ptr: usize,
    c: Core<T>,
)
    requires
        sound(heap, tasks, root),
        pinned(tasks, root, ptr) ==> c.head.id == heap[ptr].head.id && c.tail.waker
            == heap[ptr].tail.waker && c.head.refs >= 2,
    ensures
        sound(heap.insert(ptr, c), tasks, root),
{
    let after = heap.insert(ptr, c);
    assert forall|k: usize| tasks.contains_key(k) implies held(
        after,
        #[trigger] tasks[k],
        k as u64,
    ) by {
        assert(held(heap, tasks[k], k as u64));
    }
}

/// A cell that no task holds may go.
pub proof fn lemma_cell_gone<T>(
    heap: Map<usize, Core<T>>,
    tasks: Map<usize, Task>,
    root: Option<Task>,
    ptr: usize,
)
    requires
        sound(heap, tasks, root),
        !pinned(tasks, root, ptr),
    ensures
        sound(heap.remove(ptr), tasks, root),
{
    let after = heap.remove(ptr);
    assert forall|k: usize| tasks.contains_key(k) implies held(
        after,
        #[trigger] tasks[k],
        k as u64,
    ) by {
        assert(held(heap, tasks[k], k as u64));
    }
}

/// A task may leave the registry; its cell is then held by no task.
pub proof fn lemma_task_removed<T>(
    heap: Map<usize, Core<T>>,
    tasks: Map<usize, Task>,
    root: Option<Task>,
    k: usize,
)
    requires
        sound(heap, tasks, root),
        tasks.contains_key(k),
    ensures
        sound(heap, tasks.remove(k), root),
        !pinned(tasks.remove(k), root, tasks[k].raw.ptr),
{
    let rest = tasks.remove(k);
    assert forall|j: usize| rest.contains_key(j) implies held(
        heap,
        #[trigger] rest[j],
        j as u64,
    ) by {
        assert(held(heap, tasks[j], j as u64));
    }
    assert forall|j: usize| rest.contains_key(j) implies (#[trigger] rest[j]).raw.ptr
        != tasks[k].raw.ptr by {
        assert(tasks[j].raw.ptr != tasks[k].raw.ptr);
    }
}

/// A task whose cell is in order and held by no other may enter the registry.
proof fn lemma_task_added<T>(
    heap: Map<usize, Core<T>>,
    tasks: Map<usize, Task>,
    root: Option<Task>,
    k: usize,
    t: Task,
)
    requires
        sound(heap, tasks, root),
        !tasks.contains_key(k),
        held(heap, t, k as u64),
        !pinned(tasks, root, t.raw.ptr),
    ensures
        sound(heap, tasks.insert(k, t), root),
{
    let more = tasks.insert(k, t);
    assert forall|j: usize| more.contains_key(j) implies held(
        heap,
        #[trigger] more[j],
        j as u64,
    ) by {
        if j != k {
            assert(held(heap, tasks[j], j as u64));
        }
    }
    assert forall|a: usize, b: usize|
        more.contains_key(a) && more.contains_key(b) && a != b implies (#[trigger] more[a]).raw.ptr
        != (#[trigger] more[b]).raw.ptr by {
        if a != k && b != k {
            assert(tasks[a].raw.ptr != tasks[b].raw.ptr);
        } else if a == k {
            assert(tasks[b].raw.ptr != t.raw.ptr);
        } else {
            assert(tasks[a].raw.ptr != t.raw.ptr);
        }
    }
    if root is Some {
        assert forall|j: usize| more.contains_key(j) implies (#[trigger] more[j]).raw.ptr
            != root.unwrap().raw.ptr by {
            if j != k {
                assert(tasks[j].raw.ptr != root.unwrap().raw.ptr);
            }
        }
    }
}

/// A new cell disturbs nothing, and no task holds it.
proof fn lemma_cell_added<T>(
    heap: Map<usize, Core<T>>,
    more: Map<usize, Core<T>>,
    tasks: Map<usize, Task>,
    root: Option<Task>,
    ptr: usize,
)
    requires
        sound(heap, tasks, root),
        !heap.contains_key(ptr),
        more.remove(ptr) == heap,
    ensures
        sound(more, tasks, root),
        !pinned(tasks, root, ptr),
{
    assert forall|k: usize| tasks.contains_key(k) implies held(more, #[trigger] tasks[k], k as u64)
        && tasks[k].raw.ptr != ptr by {
        assert(held(heap, tasks[k], k as u64));
        assert(more.remove(ptr)[tasks[k].raw.ptr] == more[tasks[k].raw.ptr]);
    }
    if root is Some {
        let t = root.unwrap();
        assert(held(heap, t, ROOT_ID));
        assert(more.remove(ptr)[t.raw.ptr] == more[t.raw.ptr]);
    }
}

/// Whether every cell that is there is referred to, and only the cell of a
/// task holds a waker of its own.
pub open spec fn tidy<T>(
    heap: Map<usize, Core<T>>,
    tasks: Map<usize, Task>,
    root: Option<Task>,
) -> bool {
    &&& forall|p: usize| heap.contains_key(p) ==> (#[trigger] heap[p]).head.refs >= 1
    &&& forall|p: usize|
        heap.contains_key(p) && (#[trigger] heap[p]).tail.waker.is_some() ==> pinned(
            tasks,
            root,
            p,
        )
}

/// The cell once a poll that came to `output` has been recorded: a panic
/// leaves no output.
pub open spec fn recorded<T>(c: Core<T>, output: Outcome<T>) -> Core<T> {
    match output {
        Outcome::Ready(v) => Core { mid: Middle { poll: Poll::Ready(v) }, ..c },
        Outcome::Pending => Core { mid: Middle { poll: Poll::Pending }, ..c },
        Outcome::Panicked => c,
    }
}

/// What the worker `w` does next, given the registered tasks.
pub open spec fn next_work(w: WorkerView<Note>, tasks: Map<usize, Task>) -> Work {
    if w.queue.len() == 0 {
        Work::Wait
    } else if w.queue[0].0 == SHUTDOWN_ID {
        Work::Exit
    } else if addressed(tasks, w.queue[0]) {
        if tasks[w.queue[0].0 as usize].polling {
            Work::Busy(w.queue[0])
        } else {
            Work::Poll(w.queue[0])
        }
    } else {
        Work::Stale(w.queue[0])
    }
}

/// The worker `w` after it has taken its next notification: occupied while
/// it has a task to poll, and with its queue closed once it leaves.
pub open spec fn at_work(w: WorkerView<Note>, tasks: Map<usize, Task>) -> WorkerView<Note> {
    match next_work(w, tasks) {
        Work::Wait => w,
        Work::Exit => WorkerView { occupied: true, queue: w.queue.drop_first(), open: false, ..w },
        Work::Poll(_) => WorkerView { occupied: true, queue: w.queue.drop_first(), ..w },
        Work::Busy(_) => WorkerView { occupied: false, queue: w.queue.drop_first(), ..w },
        Work::Stale(_) => WorkerView { occupied: false, queue: w.queue.drop_first(), ..w },
    }
}

/// The registered tasks after the worker `w` has taken its next notification:
/// a task that it is to poll is marked as being polled, and a task that
/// somebody else is polling is marked as asked for meanwhile.
pub open spec fn marked(w: WorkerView<Note>, tasks: Map<usize, Task>) -> Map<usize, Task> {
    match next_work(w, tasks) {
        Work::Poll(n) => tasks.insert(
            n.0 as usize,
            Task { polling: true, ..tasks[n.0 as usize] },
        ),
        Work::Busy(n) => tasks.insert(n.0 as usize, Task { woken: true, ..tasks[n.0 as usize] }),
        _ => tasks,
    }
}

/// Whether the oldest notification in `queue` is one to hand on to a worker.
pub open spec fn foreign(queue: Seq<Note>) -> bool {
    queue.len() > 0 && queue[0].0 != ROOT_ID
}

/// The workers after the driver has handed on what waited in `queue` before
/// the first notification for the root task.
pub open spec fn forwarded(m: Map<usize, WorkerView<Note>>, queue: Seq<Note>) -> Map<
    usize,
    WorkerView<Note>,
>
    decreases queue.len(),
{
    if foreign(queue) {
        forwarded(deployed(m, queue[0]), queue.drop_first())
    } else {
        m
    }
}

/// What stays in `queue` once the driver has read up to and including the
/// first notification for the root task.
pub open spec fn unread(queue: Seq<Note>) -> Seq<Note>
    decreases queue.len(),
{
    if queue.len() == 0 {
        queue
    } else if queue[0].0 == ROOT_ID {
        queue.drop_first()
    } else {
        unread(queue.drop_first())
    }
}

/// Whether a notification for the root task waits in `queue`.
pub open spec fn root_called(queue: Seq<Note>) -> bool
    decreases queue.len(),
{
    if queue.len() == 0 {
        false
    } else if queue[0].0 == ROOT_ID {
        true
    } else {
        root_called(queue.drop_first())
    }
}

/// Whether a reference to the cell at `ptr` can be released: the cell is
/// alive, and counted once more than what the runtime itself accounts for,
/// which is the task that owns the cell and the wakers that the runtime
/// holds.
pub open spec fn releasable<T>(
    heap: Map<usize, Core<T>>,
    tasks: Map<usize, Task>,
    root: Option<Task>,
    sources: Map<usize, IoSourceView>,
    ptr: usize,
) -> bool {
    heap.contains_key(ptr) && heap[ptr].head.refs > owner(tasks, root, ptr) + claims(
        heap,
        sources,
        ptr,
    )
}

/// The key under which the registry holds the task of `n`, if the id is one
/// that a key can be.
pub open spec fn key_of(n: Note) -> Option<usize> {
    if n.0 <= usize::MAX {
        Some(n.0 as usize)
    } else {
        None
    }
}

/// Whether `n` is for a registered task.
pub open spec fn addressed(tasks: Map<usize, Task>, n: Note) -> bool {
    key_of(n) matches Some(k) && tasks.contains_key(k)
}

/// The waker that stands for one reference to the cell at `raw`.
pub open spec fn reference<T>(heap: Map<usize, Core<T>>, raw: RawTask) -> Waker {
    Waker { raw, note: Note(heap[raw.ptr].head.id) }
}

/// A waker, if there is one, as a list.
pub open spec fn listed(w: Option<Waker>) -> Seq<Waker> {
    match w {
        Some(w) => seq![w],
        None => Seq::empty(),
    }
}

/// What dropping the task at `raw` comes to: the cell gives up its own waker,
/// and that waker's reference and the task's are released.
pub open spec fn dropped_task<T>(heap: Map<usize, Core<T>>, raw: RawTask) -> Cascade<T> {
    let c = heap[raw.ptr];
    cascaded(
        heap.insert(raw.ptr, Core { tail: Tail { waker: None, h_waker: c.tail.h_waker }, ..c }),
        seq![reference(heap, raw)] + listed(c.tail.waker),
    )
}

/// What one poll of a handle with `waker` comes to: a value that is there is
/// moved out; otherwise a further waker like `waker` takes the place of the
/// waker of the handle, and the one that was there is released.
pub open spec fn handle_polled<T>(heap: Map<usize, Core<T>>, raw: RawTask, waker: Waker) -> Cascade<
    T,
> {
    if heap[raw.ptr].mid.poll is Pending {
        let lent = with_refs(heap, waker.raw, (heap[waker.raw.ptr].head.refs + 1) as u8);
        cascaded(
            lent.insert(raw.ptr, reviewed(lent[raw.ptr], waker)),
            listed(heap[raw.ptr].tail.h_waker),
        )
    } else {
        Cascade { heap: heap.insert(raw.ptr, reviewed(heap[raw.ptr], waker)), gone: Seq::empty() }
    }
}

/// The wakers that wait for the source under `token`, those for reading
/// first.
pub open spec fn waiting(sources: Map<usize, IoSourceView>, token: usize) -> Seq<Waker> {
    if sources.contains_key(token) {
        sources[token].rd + sources[token].wr
    } else {
        Seq::empty()
    }
}

/// The shared state of the runtime, as plain values.
#[verifier::ext_equal]
pub struct ExecutorView<T> {
    /// The task cells by address.
    pub heap: Map<usize, Core<T>>,
    /// The address that the next cell gets.
    pub next_ptr: usize,
    /// The registered tasks by id.
    pub tasks: Map<usize, Task>,
    /// The ids that the next spawned tasks get, in this order, for as long as
    /// no task ends: first those that were freed, the one freed last first,
    /// and at the end the lowest id that was never used.
    pub vacant_ids: Seq<usize>,
    /// The root task, while there is one.
    pub root: Option<Task>,
    /// What waits in the driver's channel, oldest first.
    pub queue: Seq<Note>,
    /// Whether the driver's channel still takes notifications.
    pub listening: bool,
    /// The workers by slot.
    pub workers: Map<usize, WorkerView<Note>>,
    /// The I/O sources by token.
    pub sources: Map<usize, IoSourceView>,
    /// The tokens that the next registered sources get, in the same way.
    pub vacant_tokens: Seq<usize>,
}

impl<T> ExecutorView<T> {
    /// The id that the next spawned task gets.
    pub open spec fn next_id(self) -> usize {
        self.vacant_ids[0]
    }

    /// The token that the next registered source gets.
    pub open spec fn next_token(self) -> usize {
        self.vacant_tokens[0]
    }

    /// Whether heap, registry and root task fit together.
    pub open spec fn sound(self) -> bool {
        sound(self.heap, self.tasks, self.root)
    }

    /// Whether the count of every cell covers the task that owns it and the
    /// wakers for it that the runtime holds, and every such waker is for a
    /// cell that is alive.
    pub open spec fn counted(self) -> bool {
        counted(self.heap, self.tasks, self.root, self.sources, Seq::empty())
    }

    /// Whether a reference to the cell at `raw` can be released.
    pub open spec fn releasable(self, raw: RawTask) -> bool {
        releasable(self.heap, self.tasks, self.root, self.sources, raw.ptr)
    }

    /// Whether the pool has a worker.
    pub open spec fn staffed(self) -> bool {
        self.workers != Map::<usize, WorkerView<Note>>::empty()
    }

    /// The state once a worker has taken its next notification.
    pub open spec fn worked(self, worker: usize) -> ExecutorView<T> {
        ExecutorView {
            workers: self.workers.insert(worker, at_work(self.workers[worker], self.tasks)),
            tasks: marked(self.workers[worker], self.tasks),
            ..self
        }
    }

    /// The heap once the poll of the task of `n` that came to `output` has
    /// been recorded.
    pub open spec fn noted(self, n: Note, output: Outcome<T>) -> Map<usize, Core<T>> {
        let raw = self.tasks[n.0 as usize].raw;
        self.heap.insert(raw.ptr, recorded(self.heap[raw.ptr], output))
    }

    /// The state once a worker has reported that the poll of the task of `n`
    /// came to `output`. A task that is still pending is free to be polled
    /// again, and if it was asked for meanwhile its notification is queued
    /// once more. A task that has ended leaves the registry and is dropped.
    /// What is left open is where the next cell goes.
    pub open spec fn polled(self, worker: usize, n: Note, output: Outcome<T>) -> ExecutorView<T> {
        let free = WorkerView {
            occupied: false,
            ok: self.workers[worker].ok && !(output is Panicked),
            ..self.workers[worker]
        };
        let workers = self.workers.insert(worker, free);
        if !addressed(self.tasks, n) {
            ExecutorView { workers, ..self }
        } else if output is Pending {
            let task = self.tasks[n.0 as usize];
            ExecutorView {
                workers,
                heap: self.noted(n, output),
                tasks: self.tasks.insert(n.0 as usize, Task::at(task.raw)),
                queue: if task.woken {
                    sent(self.queue, self.listening, Some(n))
                } else {
                    self.queue
                },
                ..self
            }
        } else {
            let raw = self.tasks[n.0 as usize].raw;
            ExecutorView {
                workers,
                heap: dropped_task(self.noted(n, output), raw).heap,
                tasks: self.tasks.remove(n.0 as usize),
                vacant_ids: seq![n.0 as usize] + self.vacant_ids,
                queue: sent(self.queue, self.listening, handle_note(self.heap[raw.ptr])),
                ..self
            }
        }
    }

    /// The cells that the report of a poll destroys, in order.
    pub open spec fn polled_cells(self, n: Note, output: Outcome<T>) -> Seq<Core<T>> {
        if addressed(self.tasks, n) && !(output is Pending) {
            dropped_task(self.noted(n, output), self.tasks[n.0 as usize].raw).gone
        } else {
            Seq::empty()
        }
    }

    /// The state once the driver has read its channel.
    pub open spec fn driven(self) -> ExecutorView<T> {
        ExecutorView {
            queue: unread(self.queue),
            workers: forwarded(self.workers, self.queue),
            ..self
        }
    }

    /// The state once the root task has been dropped. What is left open is
    /// where the next cell goes.
    pub open spec fn left(self) -> ExecutorView<T> {
        match self.root {
            Some(t) => ExecutorView {
                root: None,
                heap: dropped_task(self.heap, t.raw).heap,
                queue: sent(self.queue, self.listening, handle_note(self.heap[t.raw.ptr])),
                ..self
            },
            None => self,
        }
    }

    /// The state once a further waker like `waker` has been attached to the
    /// source under `token` for `dir`.
    pub open spec fn attached(self, waker: Waker, token: usize, dir: Direction) -> ExecutorView<T> {
        ExecutorView {
            heap: with_refs(
                self.heap,
                waker.raw,
                (self.heap[waker.raw.ptr].head.refs + 1) as u8,
            ),
            sources: self.sources.insert(token, self.sources[token].with(waker, dir)),
            ..self
        }
    }

    /// The state once the wakers `work` have been released. What is left open
    /// is where the next cell goes.
    pub open spec fn freed(self, work: Seq<Waker>) -> ExecutorView<T> {
        ExecutorView { heap: cascaded(self.heap, work).heap, ..self }
    }
}

/// A task that enters the registry makes no other cell owned.
proof fn lemma_owner_insert(
    tasks: Map<usize, Task>,
    root: Option<Task>,
    k: usize,
    t: Task,
    q: usize,
)
    requires
        q != t.raw.ptr,
    ensures
        owner(tasks.insert(k, t), root, q) <= owner(tasks, root, q),
{
    let more = tasks.insert(k, t);
    if pinned(more, root, q) && !(root matches Some(r) && r.raw.ptr == q) {
        let j = choose|j: usize| more.contains_key(j) && (#[trigger] more[j]).raw.ptr == q;
        assert(tasks.contains_key(j) && tasks[j].raw.ptr == q);
    }
}

/// A task that leaves the registry makes no cell owned.
pub proof fn lemma_owner_remove(tasks: Map<usize, Task>, root: Option<Task>, k: usize, q: usize)
    ensures
        owner(tasks.remove(k), root, q) <= owner(tasks, root, q),
{
    let rest = tasks.remove(k);
    if pinned(rest, root, q) && !(root matches Some(r) && r.raw.ptr == q) {
        let j = choose|j: usize| rest.contains_key(j) && (#[trigger] rest[j]).raw.ptr == q;
        assert(tasks.contains_key(j) && tasks[j].raw.ptr == q);
    }
}

/// A task that leaves the registry leaves the other cells owned as before.
pub proof fn lemma_pinned_kept(tasks: Map<usize, Task>, root: Option<Task>, k: usize, q: usize)
    requires
        tasks.contains_key(k),
        q != tasks[k].raw.ptr,
    ensures
        pinned(tasks.remove(k), root, q) == pinned(tasks, root, q),
{
    let rest = tasks.remove(k);
    if pinned(rest, root, q) && !(root matches Some(r) && r.raw.ptr == q) {
        let j = choose|j: usize| rest.contains_key(j) && (#[trigger] rest[j]).raw.ptr == q;
        assert(tasks.contains_key(j) && tasks[j].raw.ptr == q);
    }
    if pinned(tasks, root, q) && !(root matches Some(r) && r.raw.ptr == q) {
        let j = choose|j: usize| tasks.contains_key(j) && (#[trigger] tasks[j]).raw.ptr == q;
        assert(rest.contains_key(j) && rest[j].raw.ptr == q);
    }
}

/// A task that enters the registry under a new id leaves the cells that were
/// owned owned.
pub proof fn lemma_pinned_more(
    tasks: Map<usize, Task>,
    root: Option<Task>,
    k: usize,
    t: Task,
    q: usize,
)
    requires
        !tasks.contains_key(k),
        pinned(tasks, root, q) || q == t.raw.ptr,
    ensures
        pinned(tasks.insert(k, t), root, q),
{
    let more = tasks.insert(k, t);
    if q == t.raw.ptr {
        assert(more.contains_key(k) && more[k].raw.ptr == q);
    } else if !(root matches Some(r) && r.raw.ptr == q) {
        let j = choose|j: usize| tasks.contains_key(j) && (#[trigger] tasks[j]).raw.ptr == q;
        assert(more.contains_key(j) && more[j].raw.ptr == q);
    }
}

/// A mark on a task changes nothing of what owns which cell.
proof fn lemma_task_marked<T>(
    heap: Map<usize, Core<T>>,
    tasks: Map<usize, Task>,
    root: Option<Task>,
    k: usize,
    t: Task,
)
    requires
        sound(heap, tasks, root),
        tasks.contains_key(k),
        t.raw == tasks[k].raw,
    ensures
        sound(heap, tasks.insert(k, t), root),
        forall|q: usize| owner(tasks.insert(k, t), root, q) == owner(tasks, root, q),
{
    let more = tasks.insert(k, t);
    assert forall|j: usize| more.contains_key(j) implies held(
        heap,
        #[trigger] more[j],
        j as u64,
    ) by {
        assert(held(heap, tasks[j], j as u64));
    }
    assert forall|a: usize, b: usize|
        more.contains_key(a) && more.contains_key(b) && a != b implies (#[trigger] more[a]).raw.ptr
        != (#[trigger] more[b]).raw.ptr by {
        assert(tasks[a].raw.ptr != tasks[b].raw.ptr);
    }
    if root is Some {
        assert forall|j: usize| more.contains_key(j) implies (#[trigger] more[j]).raw.ptr
            != root.unwrap().raw.ptr by {
            assert(tasks[j].raw.ptr != root.unwrap().raw.ptr);
        }
    }
    assert forall|q: usize| owner(more, root, q) == owner(tasks, root, q) by {
        if pinned(more, root, q) && !(root matches Some(r) && r.raw.ptr == q) {
            let j = choose|j: usize| more.contains_key(j) && (#[trigger] more[j]).raw.ptr == q;
            assert(tasks.contains_key(j) && tasks[j].raw.ptr == q);
        }
        if pinned(tasks, root, q) && !(root matches Some(r) && r.raw.ptr == q) {
            let j = choose|j: usize| tasks.contains_key(j) && (#[trigger] tasks[j]).raw.ptr == q;
            assert(more.contains_key(j) && more[j].raw.ptr == q);
        }
    }
}

/// The release of the last waker of a list that is covered leaves the rest
/// covered: either the count goes down by one, or the cell goes and the
/// wakers that it held join the list.
proof fn lemma_release_step<T>(
    heap: Map<usize, Core<T>>,
    tasks: Map<usize, Task>,
    root: Option<Task>,
    sources: Map<usize, IoSourceView>,
    work: Seq<Waker>,
)
    requires
        sound(heap, tasks, root),
        counted(heap, tasks, root, sources, work),
        work.len() > 0,
    ensures
        heap.contains_key(work.last().raw.ptr),
        heap[work.last().raw.ptr].head.refs >= 1,
        heap[work.last().raw.ptr].head.refs > 1 ==> sound(
            released(heap, work.last().raw),
            tasks,
            root,
        ) && counted(released(heap, work.last().raw), tasks, root, sources, work.drop_last()),
        heap[work.last().raw.ptr].head.refs == 1 ==> sound(
            heap.remove(work.last().raw.ptr),
            tasks,
            root,
        ) && counted(
            heap.remove(work.last().raw.ptr),
            tasks,
            root,
            sources,
            work.drop_last() + wakers_of(heap[work.last().raw.ptr]),
        ),
{
    let w = work.last();
    let p = w.raw.ptr;
    let rest = work.drop_last();
    assert(counted_at(heap, tasks, root, sources, work, p));
    let refs = heap[p].head.refs;
    if pinned(tasks, root, p) {
        lemma_pinned_claims(heap, tasks, root, p);
    }
    if refs > 1 {
        let after = released(heap, w.raw);
        lemma_cell_changed(heap, tasks, root, p, after[p]);
        assert forall|q: usize| #[trigger] counted_at(after, tasks, root, sources, rest, q) by {
            assert(counted_at(heap, tasks, root, sources, work, q));
            lemma_same_wakers(heap, p, after[p], q);
        }
    } else {
        let cell = heap[p];
        let after = heap.remove(p);
        let more = rest + wakers_of(cell);
        lemma_cell_gone(heap, tasks, root, p);
        assert forall|q: usize| #[trigger] counted_at(after, tasks, root, sources, more, q) by {
            assert(counted_at(heap, tasks, root, sources, work, q));
            lemma_heap_remove(heap, p, q, limit());
            lemma_list_concat(rest, wakers_of(cell), q);
            lemma_wakers_of(cell, q);
        }
    }
}

/// The cell of a task holds its own waker, which is one claim on it.
pub proof fn lemma_pinned_claims<T>(
    heap: Map<usize, Core<T>>,
    tasks: Map<usize, Task>,
    root: Option<Task>,
    p: usize,
)
    requires
        sound(heap, tasks, root),
        pinned(tasks, root, p),
    ensures
        heap.contains_key(p),
        heap_claims(heap, p, limit()) >= 1,
        heap[p].tail.waker matches Some(w) && w.raw.ptr == p,
        heap[p].head.refs >= 2,
{
    if exists|k: usize| tasks.contains_key(k) && (#[trigger] tasks[k]).raw.ptr == p {
        let k = choose|k: usize| tasks.contains_key(k) && (#[trigger] tasks[k]).raw.ptr == p;
        assert(held(heap, tasks[k], k as u64));
    }
    lemma_share_counts(heap, p, p);
}

/// The shared state of the runtime.
pub struct ExecutorHandle<T> {
    /// The task cells.
    heap: Heap<T>,
    /// Task queue
    storage: Registry<Task>,
    /// The root task, while `block_on` runs.
    root: Option<Task>,
    /// Channel of the driver.
    chan: ChannelPair<Note>,
    /// Thread pool
    pool: ThreadPool<Note>,
    /// I/O Reactor
    reactor: Reactor,
}

impl<T> View for ExecutorHandle<T> {
    type V = ExecutorView<T>;

    closed spec fn view(&self) -> ExecutorView<T> {
        ExecutorView {
            heap: self.heap@,
            next_ptr: self.heap.next_key(),
            tasks: self.storage@,
            vacant_ids: self.storage.vacant(),
            root: self.root,
            queue: self.chan@,
            listening: self.chan.is_open(),
            workers: self.pool@,
            sources: self.reactor@,
            vacant_tokens: self.reactor.vacant(),
        }
    }
}

impl<T> ExecutorHandle<T> {
    /// The state is in order: heap, registry and root task fit together, and
    /// the count of every cell covers what the runtime holds of it.
    pub closed spec fn wf(&self) -> bool {
        self.wf_with(Seq::empty())
    }

    /// The state is in order but for the wakers `work`, which the runtime has
    /// taken out and not yet released.
    spec fn wf_with(&self, work: Seq<Waker>) -> bool {
        &&& self.heap.wf()
        &&& self.storage.wf()
        &&& self.pool.wf()
        &&& self.reactor.wf()
        &&& sound(self.heap@, self.storage@, self.root)
        &&& counted(self.heap@, self.storage@, self.root, self.reactor@, work)
        &&& tidy(self.heap@, self.storage@, self.root)
    }

    /// In a state that is in order heap, registry and root task fit together,
    /// and every cell is counted for what the runtime holds of it.
    pub proof fn lemma_sound(&self)
        requires
            self.wf(),
        ensures
            self@.sound(),
            self@.counted(),
            tidy(self@.heap, self@.tasks, self@.root),
    {
    }

    /// A state that is in order, to which nothing outside refers and in which
    /// nobody awaits in a circle, is closed: what `law_nothing_leaks` asks
    /// for.
    pub proof fn lemma_closed(&self, rank: spec_fn(usize) -> nat)
        requires
            self.wf(),
            self@.unshared(),
            self@.ranked(rank),
        ensures
            closed(self@.heap, self@.tasks, self@.root, self@.sources, Seq::empty(), rank),
    {
        self.heap.lemma_keys_bounded();
    }

    /// The state at the start: no task, no source, nothing queued, and as many
    /// workers as could be started, `amnt` at most.
    pub fn new(amnt: usize, launched: usize) -> (h: Self)
        ensures
            h.wf(),
            h@ == (ExecutorView::<T> {
                heap: Map::empty(),
                next_ptr: 0,
                tasks: Map::empty(),
                vacant_ids: seq![0usize],
                root: None,
                queue: Seq::empty(),
                listening: true,
                workers: h@.workers,
                sources: Map::empty(),
                vacant_tokens: seq![0usize],
            }),
            h@.workers.dom().len() == added(0, amnt, launched),
            forall|k: usize| h@.workers.contains_key(k) <==> k < added(0, amnt, launched),
            forall|k: usize|
                h@.workers.contains_key(k) ==> (#[trigger] h@.workers[k]) == WorkerView::<
                    Note,
                >::started(),
    {
        let mut pool = ThreadPool::new(amnt);
        pool.start(amnt, launched);
        proof {
            lemma_fresh_pool::<Note>(added(0, amnt, launched));
        }
        let h = ExecutorHandle {
            heap: Registry::with_capacity(TASKS),
            storage: Registry::with_capacity(TASKS),
            root: None,
            chan: ChannelPair::new(),
            pool,
            reactor: Reactor::new(),
        };
        proof {
            assert forall|p: usize| #[trigger]
                counted_at(h.heap@, h.storage@, h.root, h.reactor@, Seq::empty(), p) by {
                lemma_heap_empty::<T>(p, limit());
                lemma_sources_empty(p, limit());
            }
        }
        h
    }

    /// The number of registered tasks.
    pub fn tasks_len(&self) -> (n: usize)
        requires
            self.wf(),
        ensures
            n == self@.tasks.dom().len(),
    {
        self.storage.len()
    }

    /// The number of cells that have not been destroyed.
    pub fn cells_len(&self) -> (n: usize)
        requires
            self.wf(),
        ensures
            n == self@.heap.dom().len(),
    {
        self.heap.len()
    }

    /// The number of notifications that wait in the driver's channel.
    pub fn queue_len(&self) -> (n: usize)
        ensures
            n == self@.queue.len(),
    {
        self.chan.len()
    }

    /// Whether there is a root task.
    pub fn has_root(&self) -> (b: bool)
        ensures
            b == self@.root.is_some(),
    {
        self.root.is_some()
    }

    /// Whether the driver has something to hand on to a worker: the oldest
    /// notification in its channel is not for the root task.
    pub fn has_foreign(&self) -> (b: bool)
        ensures
            b == foreign(self@.queue),
    {
        match self.chan.front() {
            Some(n) => !n.is_root(),
            None => false,
        }
    }

    /// Whether the pool has a worker.
    pub fn is_staffed(&self) -> (b: bool)
        requires
            self.wf(),
        ensures
            b == self@.staffed(),
    {
        !self.pool.is_empty()
    }

    /// Whether `n` is for a registered task.
    pub fn is_addressed(&self, n: Note) -> (b: bool)
        ensures
            b == addressed(self@.tasks, n),
    {
        n.0 <= usize::MAX as u64 && self.storage.contains(n.0 as usize)
    }

    /// The registered task of `n`.
    pub fn task(&self, n: Note) -> (t: Option<&Task>)
        ensures
            t.is_some() == addressed(self@.tasks, n),
            t matches Some(t) ==> *t == self@.tasks[n.0 as usize],
    {
        if n.0 <= usize::MAX as u64 {
            self.storage.get(n.0 as usize)
        } else {
            None
        }
    }

    /// The cell at `raw`, if it has not been destroyed.
    pub fn cell(&self, raw: RawTask) -> (c: Option<&Core<T>>)
        ensures
            c.is_some() == self@.heap.contains_key(raw.ptr),
            c matches Some(c) ==> *c == self@.heap[raw.ptr],
    {
        self.heap.get(raw.ptr)
    }

    /// The source under `token`, if one is registered.
    pub fn source(&self, token: usize) -> (r: Option<&IoSource>)
        ensures
            r.is_some() == self@.sources.contains_key(token),
            r matches Some(s) ==> s@ == self@.sources[token],
    {
        self.reactor.source(token)
    }

    /// Whether a source is registered under `token`.
    pub fn has_source(&self, token: usize) -> (b: bool)
        ensures
            b == self@.sources.contains_key(token),
    {
        self.reactor.has_source(token)
    }

    /// Whether the source under `token` has no room for a further waker for
    /// `dir`.
    pub fn is_full(&self, token: usize, dir: Direction) -> (b: bool)
        requires
            self@.sources.contains_key(token),
        ensures
            b == self@.sources[token].is_full(dir),
    {
        self.reactor.is_full(token, dir)
    }

    /// Whether every event that a pass over `events` looks at is for a
    /// registered source: whether `react` may be called on them.
    pub fn knows(&self, events: &Vec<Event>) -> (b: bool)
        ensures
            b == known(self@.sources.dom(), events@),
    {
        self.reactor.knows(events)
    }

    /// The token under which the next source will be registered: the one to
    /// register it with at the selector.
    pub fn vacant_token(&self) -> (token: usize)
        requires
            self.wf(),
        ensures
            token == self@.next_token(),
            !self@.sources.contains_key(token),
    {
        self.reactor.vacant_token()
    }

    /// Whether the cell at `raw` belongs to a registered task or to the root
    /// task. The cell must not have been destroyed.
    pub fn is_pinned(&self, raw: RawTask) -> (b: bool)
        requires
            self.wf(),
            self@.heap.contains_key(raw.ptr),
        ensures
            b == pinned(self@.tasks, self@.root, raw.ptr),
    {
        let id = raw.header(&self.heap).id;
        let by_root = match &self.root {
            Some(t) => t.raw.ptr == raw.ptr,
            None => false,
        };
        let by_task = match self.task(Note(id)) {
            Some(t) => t.raw.ptr == raw.ptr,
            None => false,
        };
        proof {
            if !by_task {
                assert forall|k: usize| self.storage@.contains_key(k) implies (
                #[trigger] self.storage@[k]).raw.ptr != raw.ptr by {
                    assert(held(self.heap@, self.storage@[k], k as u64));
                }
            }
        }
        by_root || by_task
    }

    /// How many wakers for the cell at `raw` the runtime itself holds: as a
    /// task's own waker, as the waker of a handle, or in the list of a source.
    pub fn claims_on(&self, raw: RawTask) -> (n: usize)
        requires
            self.wf(),
        ensures
            n == claims(self@.heap, self@.sources, raw.ptr),
            self@.heap.contains_key(raw.ptr) ==> n <= self@.heap[raw.ptr].head.refs,
    {
        let ghost p = raw.ptr;
        let ghost heap = self.heap@;
        let ghost sources = self.reactor@;
        proof {
            assert(counted_at(heap, self.storage@, self.root, sources, Seq::empty(), p));
            self.heap.lemma_keys_bounded();
        }
        let cells = self.heap.slots();
        let mut n: usize = 0;
        let mut k: usize = 0;
        while k < cells
            invariant
                k <= cells,
                heap == self.heap@,
                p == raw.ptr,
                n == heap_claims(heap, p, k as nat),
                heap_claims(heap, p, limit()) <= 255,
            decreases cells - k,
        {
            proof {
                lemma_heap_grows(heap, p, (k + 1) as nat, limit());
            }
            match self.heap.get(k) {
                Some(c) => {
                    match &c.tail.waker {
                        Some(w) => {
                            if w.raw.ptr == raw.ptr {
                                n = n + 1;
                            }
                        },
                        None => {},
                    }
                    match &c.tail.h_waker {
                        Some(w) => {
                            if w.raw.ptr == raw.ptr {
                                n = n + 1;
                            }
                        },
                        None => {},
                    }
                },
                None => {},
            }
            k = k + 1;
        }
        proof {
            lemma_heap_above(heap, p, cells as nat, limit());
        }
        let tokens = self.reactor.slots();
        let ghost held = n;
        let mut t: usize = 0;
        while t < tokens
            invariant
                t <= tokens,
                sources == self.reactor@,
                p == raw.ptr,
                held == heap_claims(heap, p, limit()),
                n == held + sources_claims(sources, p, t as nat),
                held + sources_claims(sources, p, limit()) <= 255,
            decreases tokens - t,
        {
            proof {
                lemma_sources_grow(sources, p, (t + 1) as nat, limit());
            }
            match self.reactor.source(t) {
                Some(s) => {
                    let rd = s.wakers.rd.count(raw.ptr);
                    let wr = s.wakers.wr.count(raw.ptr);
                    n = n + rd + wr;
                },
                None => {},
            }
            t = t + 1;
        }
        proof {
            lemma_sources_above(sources, p, tokens as nat, limit());
        }
        n
    }

    /// Whether a reference to the cell at `raw` can be released.
    pub fn can_release(&self, raw: RawTask) -> (b: bool)
        requires
            self.wf(),
        ensures
            b == self@.releasable(raw),
    {
        match self.heap.get(raw.ptr) {
            Some(c) => {
                let refs = c.head.refs;
                let own: usize = if self.is_pinned(raw) {
                    1
                } else {
                    0
                };
                let held = self.claims_on(raw);
                refs as usize > own + held
            },
            None => false,
        }
    }

    /// Whether a further waker for the cell at `raw` can be made: the cell is
    /// alive and its count is below the largest.
    pub fn can_clone(&self, raw: RawTask) -> (b: bool)
        ensures
            b == (self@.heap.contains_key(raw.ptr) && self@.heap[raw.ptr].head.refs < u8::MAX),
    {
        match self.heap.get(raw.ptr) {
            Some(c) => c.head.refs < u8::MAX,
            None => false,
        }
    }

    /// Whether the worker that `spawn` would choose still listens. The pool
    /// must have a worker.
    pub fn can_deploy(&self) -> (b: bool)
        requires
            self.wf(),
            self@.staffed(),
        ensures
            b == self@.workers[choice(self@.workers)].open,
    {
        self.pool.can_deploy()
    }

    /// Releases the wakers `work`, the last one first, and whatever the cells
    /// that this destroys still held.
    fn cascade(&mut self, work: Vec<Waker>) -> (gone: Vec<Core<T>>)
        requires
            old(self).wf_with(work@),
        ensures
            final(self).wf(),
            gone@ == cascaded(old(self)@.heap, work@).gone,
            final(self)@ == (ExecutorView {
                next_ptr: final(self)@.next_ptr,
                ..old(self)@.freed(work@)
            }),
    {
        let mut work = work;
        let mut gone: Vec<Core<T>> = Vec::new();
        let ghost start = cascaded(old(self).heap@, work@);
        while work.len() > 0
            invariant
                self.wf_with(work@),
                self.storage@ == old(self).storage@,
                self.storage.vacant() == old(self).storage.vacant(),
                self.root == old(self).root,
                self.chan@ == old(self).chan@,
                self.chan.is_open() == old(self).chan.is_open(),
                self.pool@ == old(self).pool@,
                self.reactor@ == old(self).reactor@,
                self.reactor.vacant() == old(self).reactor.vacant(),
                start.heap == cascaded(self.heap@, work@).heap,
                start.gone == gone@ + cascaded(self.heap@, work@).gone,
            decreases 2 * self.heap@.dom().len() + work@.len(),
        {
            let ghost heap = self.heap@;
            let ghost list = work@;
            proof {
                self.heap.lemma_keys_bounded();
                lemma_release_step(heap, self.storage@, self.root, self.reactor@, list);
            }
            let w = work.pop().unwrap();
            assert(work@ =~= list.drop_last());
            match drop_fn(w, &mut self.heap) {
                Some(cell) => {
                    assert(self.heap@.dom() =~= heap.dom().remove(w.raw.ptr));
                    match &cell.tail.waker {
                        Some(own) => {
                            work.push(Waker { raw: own.raw, note: own.note });
                        },
                        None => {},
                    }
                    match &cell.tail.h_waker {
                        Some(h) => {
                            work.push(Waker { raw: h.raw, note: h.note });
                        },
                        None => {},
                    }
                    assert(work@ =~= list.drop_last() + wakers_of(cell));
                    assert(wakers_of(cell) == wakers_of(heap[w.raw.ptr]));
                    proof {
                        lemma_wakers_of(cell, 0);
                        let after = cascaded(self.heap@, work@);
                        assert(gone@.push(cell) + after.gone =~= gone@ + (seq![cell] + after.gone));
                    }
                    gone.push(cell);
                },
                None => {
                    assert(self.heap@.dom() =~= heap.dom());
                },
            }
        }
        proof {
            self.heap.lemma_keys_bounded();
            assert(work@ =~= Seq::<Waker>::empty());
            assert(gone@ + Seq::<Core<T>>::empty() =~= gone@);
        }
        gone
    }

    /// Registers a new task and deploys its first notification. The pool must
    /// have a worker, and the one that is chosen must still listen. Returns
    /// the handle, the task's notification and the slot of the worker that got
    /// it. What is left open is which id and which address come next.
    pub fn spawn(&mut self) -> (out: (TaskHandle<T>, Note, usize))
        requires
            old(self).wf(),
            old(self)@.staffed(),
            old(self)@.workers[choice(old(self)@.workers)].open,
        ensures
            final(self).wf(),
            out.0.raw().ptr == old(self)@.next_ptr,
            out.1 == Note(old(self)@.next_id() as u64),
            out.1.0 != SHUTDOWN_ID,
            out.2 == choice(old(self)@.workers),
            !old(self)@.heap.contains_key(old(self)@.next_ptr),
            !old(self)@.tasks.contains_key(old(self)@.next_id()),
            final(self)@.releasable(out.0.raw()),
            final(self)@ == (ExecutorView {
                heap: old(self)@.heap.insert(out.0.raw().ptr, born(out.0.raw(), out.1.0, 3)),
                tasks: old(self)@.tasks.insert(old(self)@.next_id(), Task::at(out.0.raw())),
                workers: deployed(old(self)@.workers, out.1),
                vacant_ids: handed_out(old(self)@.vacant_ids),
                next_ptr: final(self)@.next_ptr,
                ..old(self)@
            }),
    {
        let num = self.storage.vacant_key();
        let ghost heap = self.heap@;
        let ghost tasks = self.storage@;
        let (task, note, handle) = Task::new(&mut self.heap, num as u64);
        let ghost p = task.raw.ptr;
        proof {
            assert(self.heap@.remove(p) =~= heap);
            lemma_cell_added(heap, self.heap@, tasks, self.root, p);
            lemma_task_added(self.heap@, tasks, self.root, num, task);
            assert(counted_at(heap, tasks, self.root, self.reactor@, Seq::empty(), p));
            assert forall|q: usize| #[trigger]
                counted_at(
                    self.heap@,
                    tasks.insert(num, task),
                    self.root,
                    self.reactor@,
                    Seq::empty(),
                    q,
                ) by {
                assert(counted_at(heap, tasks, self.root, self.reactor@, Seq::empty(), q));
                lemma_heap_insert(heap, p, born::<T>(task.raw, num as u64, 3), q, limit());
                if q != p {
                    lemma_owner_insert(tasks, self.root, num, task, q);
                }
            }
            lemma_heap_insert(heap, p, born::<T>(task.raw, num as u64, 3), p, limit());
            assert(claims(self.heap@, self.reactor@, p) == 1);
            assert forall|q: usize|
                self.heap@.contains_key(q) && (#[trigger] self.heap@[q]).tail.waker.is_some()
                implies pinned(tasks.insert(num, task), self.root, q) by {
                if q != p {
                    assert(heap[q] == self.heap@[q]);
                }
                lemma_pinned_more(tasks, self.root, num, task, q);
            }
        }
        let key = self.storage.insert(task);
        // If it fails, something terrible happened.
        let (worker, _) = self.pool.deploy(note);
        (handle, note, worker)
    }

    /// One turn of a worker's loop: takes the next notification off the
    /// worker's queue and says what to do with it. A task is given to one
    /// worker at a time: while it is being polled a further notification for
    /// it is kept as a mark on the task.
    pub fn thread_function(&mut self, worker: usize) -> (work: Work)
        requires
            old(self).wf(),
            old(self)@.workers.contains_key(worker),
        ensures
            final(self).wf(),
            work == next_work(old(self)@.workers[worker], old(self)@.tasks),
            final(self)@ == old(self)@.worked(worker),
    {
        let n = match self.pool.worker(worker) {
            Some(w) => w.recv(),
            None => None,
        };
        let ghost tasks = self.storage@;
        let work = match n {
            None => Work::Wait,
            Some(n) => {
                if n.is_shutdown() {
                    match self.pool.worker(worker) {
                        Some(w) => {
                            w.chan.close();
                        },
                        None => {},
                    }
                    Work::Exit
                } else if self.is_addressed(n) {
                    let busy = match self.storage.get_mut(n.0 as usize) {
                        Some(task) => {
                            if task.polling {
                                task.woken = true;
                                true
                            } else {
                                task.polling = true;
                                false
                            }
                        },
                        None => false,
                    };
                    proof {
                        lemma_task_marked(
                            self.heap@,
                            tasks,
                            self.root,
                            n.0 as usize,
                            self.storage@[n.0 as usize],
                        );
                        assert(self.storage@ =~= tasks.insert(
                            n.0 as usize,
                            self.storage@[n.0 as usize],
                        ));
                        assert forall|q: usize|
                            self.heap@.contains_key(q) && (
                            #[trigger] self.heap@[q]).tail.waker.is_some() implies pinned(
                            self.storage@,
                            self.root,
                            q,
                        ) by {
                            assert(owner(self.storage@, self.root, q) == owner(
                                tasks,
                                self.root,
                                q,
                            ));
                        }
                        assert forall|q: usize| #[trigger]
                            counted_at(
                                self.heap@,
                                self.storage@,
                                self.root,
                                self.reactor@,
                                Seq::empty(),
                                q,
                            ) by {
                            assert(counted_at(
                                self.heap@,
                                tasks,
                                self.root,
                                self.reactor@,
                                Seq::empty(),
                                q,
                            ));
                        }
                    }
                    if busy {
                        match self.pool.worker(worker) {
                            Some(w) => {
                                w.done();
                            },
                            None => {},
                        }
                        Work::Busy(n)
                    } else {
                        Work::Poll(n)
                    }
                } else {
                    match self.pool.worker(worker) {
                        Some(w) => {
                            w.done();
                        },
                        None => {},
                    }
                    Work::Stale(n)
                }
            },
        };
        assert(self.pool@ =~= old(self).pool@.insert(
            worker,
            at_work(old(self).pool@[worker], old(self).storage@),
        ));
        assert(self.storage@ =~= marked(old(self).pool@[worker], old(self).storage@));
        work
    }

    /// Takes the own waker out of the cell of a task that has left the
    /// registry or ceased to be the root task, wakes the handle, and releases
    /// the waker's reference and the task's.
    fn drop_task(&mut self, raw: RawTask) -> (gone: Vec<Core<T>>)
        requires
            old(self).heap.wf(),
            old(self).storage.wf(),
            old(self).pool.wf(),
            old(self).reactor.wf(),
            sound(old(self).heap@, old(self).storage@, old(self).root),
            old(self).heap@.contains_key(raw.ptr),
            !pinned(old(self).storage@, old(self).root, raw.ptr),
            old(self).heap@[raw.ptr].head.refs >= 1 + claims(
                old(self).heap@,
                old(self).reactor@,
                raw.ptr,
            ),
            forall|q: usize|
                q != raw.ptr ==> #[trigger] counted_at(
                    old(self).heap@,
                    old(self).storage@,
                    old(self).root,
                    old(self).reactor@,
                    Seq::empty(),
                    q,
                ),
            forall|q: usize|
                old(self).heap@.contains_key(q) ==> (#[trigger] old(self).heap@[q]).head.refs >= 1,
            forall|q: usize|
                q != raw.ptr && old(self).heap@.contains_key(q) && (
                #[trigger] old(self).heap@[q]).tail.waker.is_some() ==> pinned(
                    old(self).storage@,
                    old(self).root,
                    q,
                ),
        ensures
            final(self).wf(),
            gone@ == dropped_task(old(self)@.heap, raw).gone,
            final(self)@ == (ExecutorView {
                heap: dropped_task(old(self)@.heap, raw).heap,
                queue: sent(
                    old(self)@.queue,
                    old(self)@.listening,
                    handle_note(old(self)@.heap[raw.ptr]),
                ),
                next_ptr: final(self)@.next_ptr,
                ..old(self)@
            }),
    {
        let ghost heap = self.heap@;
        let ghost cell = heap[raw.ptr];
        // Wakes up the handle.
        // This is here because the task is considered as finished
        // when it is dropped in the Executor's loop
        raw.wake_handle(&self.heap, &mut self.chan);
        let id = raw.header(&self.heap).id;
        // The waker in the cell is taken out and released,
        // which decreases the ref count.
        let own = raw.set_waker(&mut self.heap, None);
        let mut work: Vec<Waker> = Vec::new();
        work.push(Waker { raw, note: Note(id) });
        match own {
            Some(w) => {
                work.push(w);
            },
            None => {},
        }
        proof {
            let p = raw.ptr;
            assert(work@ =~= seq![reference(heap, raw)] + listed(cell.tail.waker));
            lemma_cell_changed(heap, self.storage@, self.root, p, self.heap@[p]);
            assert forall|q: usize|
                self.heap@.contains_key(q) && (#[trigger] self.heap@[q]).tail.waker.is_some()
                implies pinned(self.storage@, self.root, q) by {
                assert(q != p);
                assert(heap[q] == self.heap@[q]);
            }
            assert forall|q: usize| self.heap@.contains_key(q) implies (
            #[trigger] self.heap@[q]).head.refs >= 1 by {
                assert(heap[q].head.refs >= 1);
            }
            assert forall|q: usize| #[trigger]
                counted_at(self.heap@, self.storage@, self.root, self.reactor@, work@, q) by {
                lemma_heap_insert(heap, p, self.heap@[p], q, limit());
                lemma_list_one(reference(heap, raw), q);
                lemma_list_concat(seq![reference(heap, raw)], listed(cell.tail.waker), q);
                if cell.tail.waker is Some {
                    lemma_list_one(cell.tail.waker.unwrap(), q);
                }
                if q != p {
                    assert(counted_at(
                        heap,
                        self.storage@,
                        self.root,
                        self.reactor@,
                        Seq::empty(),
                        q,
                    ));
                }
            }
        }
        // This decreases the ref count
        // and destroys the cell if it is 0.
        self.cascade(work)
    }

    /// The end of a worker's turn: records what polling the task of `n` came
    /// to. A task that is still pending is free to be polled again; if it was
    /// asked for meanwhile its notification goes to the driver's channel once
    /// more. A task that is done, or whose step panicked, leaves the registry
    /// and is dropped; the cells that this destroys come back. A panic marks
    /// the worker. If the task is no longer registered nothing is recorded.
    pub fn polled(&mut self, worker: usize, n: Note, output: Outcome<T>) -> (gone: Vec<Core<T>>)
        requires
            old(self).wf(),
            old(self)@.workers.contains_key(worker),
        ensures
            final(self).wf(),
            gone@ == old(self)@.polled_cells(n, output),
            final(self)@ == (ExecutorView {
                next_ptr: final(self)@.next_ptr,
                ..old(self)@.polled(worker, n, output)
            }),
    {
        let panicked = match output {
            Outcome::Panicked => true,
            _ => false,
        };
        let mut gone: Vec<Core<T>> = Vec::new();
        if self.is_addressed(n) {
            let key = n.0 as usize;
            let raw = match self.storage.get(key) {
                Some(t) => t.raw,
                None => RawTask::from_ptr(0),
            };
            let ghost heap = self.heap@;
            let ghost tasks = self.storage@;
            let ghost p = raw.ptr;
            proof {
                assert(held(heap, tasks[key], key as u64));
                lemma_cell_changed(heap, tasks, self.root, p, recorded(heap[p], output));
            }
            let ended = match output {
                Outcome::Ready(v) => {
                    raw.poll(&mut self.heap, Poll::Ready(v));
                    true
                },
                Outcome::Pending => {
                    raw.poll(&mut self.heap, Poll::Pending);
                    false
                },
                Outcome::Panicked => {
                    assert(self.heap@ =~= self.heap@.insert(p, self.heap@[p]));
                    true
                },
            };
            let ghost noted = self.heap@;
            proof {
                assert forall|q: usize| #[trigger]
                    counted_at(noted, tasks, self.root, self.reactor@, Seq::empty(), q) by {
                    assert(counted_at(heap, tasks, self.root, self.reactor@, Seq::empty(), q));
                    lemma_same_wakers(heap, p, noted[p], q);
                }
            }
            if ended {
                proof {
                    lemma_task_removed(noted, tasks, self.root, key);
                    assert(pinned(tasks, self.root, p));
                    assert(counted_at(noted, tasks, self.root, self.reactor@, Seq::empty(), p));
                    assert forall|q: usize| q != p implies #[trigger] counted_at(
                        noted,
                        tasks.remove(key),
                        self.root,
                        self.reactor@,
                        Seq::empty(),
                        q,
                    ) by {
                        assert(counted_at(noted, tasks, self.root, self.reactor@, Seq::empty(), q));
                        lemma_owner_remove(tasks, self.root, key, q);
                    }
                    assert forall|q: usize|
                        q != p && noted.contains_key(q) && (
                        #[trigger] noted[q]).tail.waker.is_some() implies pinned(
                        tasks.remove(key),
                        self.root,
                        q,
                    ) by {
                        assert(heap[q] == noted[q]);
                        lemma_pinned_kept(tasks, self.root, key, q);
                    }
                    assert forall|q: usize| noted.contains_key(q) implies (
                    #[trigger] noted[q]).head.refs >= 1 by {
                        assert(heap[q].head.refs >= 1);
                    }
                }
                let _ = self.storage.remove(key);
                gone = self.drop_task(raw);
            } else {
                let woken = match self.storage.get_mut(key) {
                    Some(task) => {
                        let woken = task.woken;
                        task.polling = false;
                        task.woken = false;
                        woken
                    },
                    None => false,
                };
                if woken {
                    let _ = self.chan.send(n);
                }
                proof {
                    lemma_task_marked(noted, tasks, self.root, key, Task::at(raw));
                    assert(self.storage@ =~= tasks.insert(key, Task::at(raw)));
                    assert forall|q: usize|
                        noted.contains_key(q) && (
                        #[trigger] noted[q]).tail.waker.is_some() implies pinned(
                        self.storage@,
                        self.root,
                        q,
                    ) by {
                        assert(heap[q].tail == noted[q].tail);
                        assert(owner(self.storage@, self.root, q) == owner(tasks, self.root, q));
                    }
                    assert forall|q: usize| noted.contains_key(q) implies (
                    #[trigger] noted[q]).head.refs >= 1 by {
                        assert(heap[q].head.refs >= 1);
                    }
                    assert forall|q: usize| #[trigger]
                        counted_at(
                            noted,
                            self.storage@,
                            self.root,
                            self.reactor@,
                            Seq::empty(),
                            q,
                        ) by {
                        assert(counted_at(noted, tasks, self.root, self.reactor@, Seq::empty(), q));
                    }
                }
            }
        }
        match self.pool.worker(worker) {
            Some(w) => {
                w.done();
                if panicked {
                    w.ok = false;
                }
            },
            None => {},
        }
        assert(self.pool@ =~= old(self)@.polled(worker, n, output).workers);
        gone
    }

    /// One poll of `handle` by somebody who is woken through `waker`: the
    /// task's output if it is there, which this moves out; otherwise pending,
    /// and a further waker like `waker` is left behind to be woken when the
    /// task finishes, in place of the one that was there, which is released.
    /// The cells that the release destroys come back.
    ///
    /// The cell of the handle must be alive. Where the task is pending the
    /// cell of `waker` must be alive too, and its count below the largest.
    pub fn review(&mut self, handle: &TaskHandle<T>, waker: &Waker) -> (out: (
        Poll<T>,
        Vec<Core<T>>,
    ))
        requires
            old(self).wf(),
            old(self)@.heap.contains_key(handle.raw().ptr),
            old(self)@.heap[handle.raw().ptr].mid.poll is Pending ==> old(self)@.heap.contains_key(
                waker.raw.ptr,
            ) && old(self)@.heap[waker.raw.ptr].head.refs < u8::MAX,
        ensures
            final(self).wf(),
            out.0 == old(self)@.heap[handle.raw().ptr].mid.poll,
            out.1@ == handle_polled(old(self)@.heap, handle.raw(), *waker).gone,
            final(self)@ == (ExecutorView {
                heap: handle_polled(old(self)@.heap, handle.raw(), *waker).heap,
                next_ptr: final(self)@.next_ptr,
                ..old(self)@
            }),
    {
        let raw = handle.raw();
        let ghost heap = self.heap@;
        let ghost p = raw.ptr;
        let ghost wp = waker.raw.ptr;
        let pending = match self.heap.get(raw.ptr) {
            Some(c) => c.mid.poll.is_pending(),
            None => false,
        };
        if pending {
            proof {
                if pinned(self.storage@, self.root, wp) {
                    lemma_pinned_claims(heap, self.storage@, self.root, wp);
                }
                lemma_cell_changed(
                    heap,
                    self.storage@,
                    self.root,
                    wp,
                    with_refs(heap, waker.raw, (heap[wp].head.refs + 1) as u8)[wp],
                );
            }
            let lent = clone_fn(waker, &mut self.heap);
            let ghost counted_up = self.heap@;
            proof {
                lemma_cell_changed(
                    counted_up,
                    self.storage@,
                    self.root,
                    p,
                    reviewed(counted_up[p], lent),
                );
            }
            let (out, rest) = raw.review(&mut self.heap, lent);
            let mut work: Vec<Waker> = Vec::new();
            match rest {
                Some(w) => {
                    work.push(w);
                },
                None => {},
            }
            proof {
                let old_waker = heap[p].tail.h_waker;
                assert(work@ =~= listed(old_waker));
                assert(counted_up[p].tail == heap[p].tail);
                assert forall|q: usize| #[trigger]
                    counted_at(self.heap@, self.storage@, self.root, self.reactor@, work@, q) by {
                    assert(counted_at(
                        heap,
                        self.storage@,
                        self.root,
                        self.reactor@,
                        Seq::empty(),
                        q,
                    ));
                    lemma_same_wakers(heap, wp, counted_up[wp], q);
                    lemma_heap_insert(counted_up, p, self.heap@[p], q, limit());
                    if old_waker is Some {
                        lemma_list_one(old_waker.unwrap(), q);
                    }
                }
            }
            let gone = self.cascade(work);
            (out, gone)
        } else {
            proof {
                lemma_cell_changed(heap, self.storage@, self.root, p, reviewed(heap[p], *waker));
            }
            let (out, _) = raw.review(&mut self.heap, Waker { raw: waker.raw, note: waker.note });
            proof {
                assert forall|q: usize| #[trigger]
                    counted_at(
                        self.heap@,
                        self.storage@,
                        self.root,
                        self.reactor@,
                        Seq::empty(),
                        q,
                    ) by {
                    assert(counted_at(
                        heap,
                        self.storage@,
                        self.root,
                        self.reactor@,
                        Seq::empty(),
                        q,
                    ));
                    lemma_same_wakers(heap, p, self.heap@[p], q);
                }
            }
            (out, Vec::new())
        }
    }

    /// A reference that can be released, taken out as a waker, leaves the
    /// state in order but for that waker.
    proof fn lemma_spare(&self, w: Waker)
        requires
            self.wf(),
            self@.releasable(w.raw),
        ensures
            self.wf_with(seq![w]),
    {
        assert forall|q: usize| #[trigger]
            counted_at(self.heap@, self.storage@, self.root, self.reactor@, seq![w], q) by {
            assert(counted_at(
                self.heap@,
                self.storage@,
                self.root,
                self.reactor@,
                Seq::empty(),
                q,
            ));
            lemma_list_one(w, q);
        }
    }

    /// Drops `handle`: releases its reference. The cells that this destroys
    /// come back.
    pub fn release(&mut self, handle: TaskHandle<T>) -> (gone: Vec<Core<T>>)
        requires
            old(self).wf(),
            old(self)@.releasable(handle.raw()),
        ensures
            final(self).wf(),
            gone@ == cascaded(old(self)@.heap, seq![reference(old(self)@.heap, handle.raw())]).gone,
            final(self)@ == (ExecutorView {
                next_ptr: final(self)@.next_ptr,
                ..old(self)@.freed(seq![reference(old(self)@.heap, handle.raw())])
            }),
    {
        let raw = handle.raw();
        let id = raw.header(&self.heap).id;
        let w = Waker { raw, note: Note(id) };
        proof {
            self.lemma_spare(w);
        }
        let mut work: Vec<Waker> = Vec::new();
        work.push(w);
        assert(work@ =~= seq![w]);
        self.cascade(work)
    }

    /// The waker with which the task of `n` is to be polled: the one stored
    /// in its cell.
    pub fn waker(&self, n: Note) -> (w: Option<&Waker>)
        requires
            self.wf(),
        ensures
            w.is_some() == addressed(self@.tasks, n),
            w matches Some(w) ==> *w == (Waker { raw: self@.tasks[n.0 as usize].raw, note: n }),
    {
        match self.task(n) {
            Some(t) => {
                assert(held(self.heap@, self.storage@[n.0 as usize], n.0));
                match self.heap.get(t.raw.ptr) {
                    Some(c) => c.waker(),
                    None => None,
                }
            },
            None => None,
        }
    }

    /// A further waker for the same task, counted as one more reference: one
    /// that can be released. The cell must be alive and its count below the
    /// largest.
    pub fn clone_waker(&mut self, waker: &Waker) -> (w: Waker)
        requires
            old(self).wf(),
            old(self)@.heap.contains_key(waker.raw.ptr),
            old(self)@.heap[waker.raw.ptr].head.refs < u8::MAX,
        ensures
            final(self).wf(),
            w == *waker,
            final(self)@.releasable(w.raw),
            final(self)@ == (ExecutorView {
                heap: with_refs(
                    old(self)@.heap,
                    waker.raw,
                    (old(self)@.heap[waker.raw.ptr].head.refs + 1) as u8,
                ),
                ..old(self)@
            }),
    {
        let ghost heap = self.heap@;
        let ghost p = waker.raw.ptr;
        proof {
            if pinned(self.storage@, self.root, p) {
                lemma_pinned_claims(heap, self.storage@, self.root, p);
            }
            lemma_cell_changed(
                heap,
                self.storage@,
                self.root,
                p,
                with_refs(heap, waker.raw, (heap[p].head.refs + 1) as u8)[p],
            );
        }
        let w = clone_fn(waker, &mut self.heap);
        proof {
            assert forall|q: usize| #[trigger]
                counted_at(
                    self.heap@,
                    self.storage@,
                    self.root,
                    self.reactor@,
                    Seq::empty(),
                    q,
                ) by {
                assert(counted_at(
                    heap,
                    self.storage@,
                    self.root,
                    self.reactor@,
                    Seq::empty(),
                    q,
                ));
                lemma_same_wakers(heap, p, self.heap@[p], q);
            }
            assert(counted_at(heap, self.storage@, self.root, self.reactor@, Seq::empty(), p));
            lemma_same_wakers(heap, p, self.heap@[p], p);
        }
        w
    }

    /// Drops `waker`: releases its reference. The cells that this destroys
    /// come back: the waker's own if that was its last reference, and then
    /// those whose last reference was a waker that a destroyed cell held.
    pub fn drop_waker(&mut self, waker: Waker) -> (gone: Vec<Core<T>>)
        requires
            old(self).wf(),
            old(self)@.releasable(waker.raw),
        ensures
            final(self).wf(),
            gone@ == cascaded(old(self)@.heap, seq![waker]).gone,
            final(self)@ == (ExecutorView {
                next_ptr: final(self)@.next_ptr,
                ..old(self)@.freed(seq![waker])
            }),
    {
        proof {
            self.lemma_spare(waker);
        }
        let mut work: Vec<Waker> = Vec::new();
        work.push(waker);
        assert(work@ =~= seq![waker]);
        self.cascade(work)
    }

    /// Wakes the task of `waker`: its notification goes to the driver's
    /// channel.
    pub fn wake(&mut self, waker: &Waker)
        requires
            old(self).wf(),
        ensures
            final(self).wf(),
            final(self)@ == (ExecutorView {
                queue: sent(old(self)@.queue, old(self)@.listening, Some(waker.note)),
                ..old(self)@
            }),
    {
        wake_by_ref_fn(waker, &mut self.chan);
    }

    /// Registers a source, given what the selector answered when the source
    /// was registered there under `vacant_token`; see `Reactor::register`.
    pub fn register<E>(&mut self, selector: Result<(), E>) -> (r: Result<usize, E>)
        requires
            old(self).wf(),
        ensures
            final(self).wf(),
            match selector {
                Ok(_) => r == Ok::<usize, E>(old(self)@.next_token()) && old(self)@.next_token()
                    != SHUTDOWN && final(self)@ == (ExecutorView {
                    sources: registered(old(self)@.sources, old(self)@.next_token()),
                    vacant_tokens: handed_out(old(self)@.vacant_tokens),
                    ..old(self)@
                }),
                Err(e) => r == Err::<usize, E>(e) && final(self)@ == old(self)@,
            },
    {
        let ghost sources = self.reactor@;
        let token = self.reactor.vacant_token();
        let r = self.reactor.register(selector);
        proof {
            if r.is_ok() {
                assert forall|q: usize| #[trigger]
                    counted_at(
                        self.heap@,
                        self.storage@,
                        self.root,
                        self.reactor@,
                        Seq::empty(),
                        q,
                    ) by {
                    assert(counted_at(
                        self.heap@,
                        self.storage@,
                        self.root,
                        sources,
                        Seq::empty(),
                        q,
                    ));
                    lemma_sources_insert(sources, token, self.reactor@[token], q, limit());
                }
            }
        }
        r
    }

    /// Removes the source under `token`, if there is one, and releases the
    /// wakers that still waited for it, without waking them. The cells that
    /// this destroys come back.
    pub fn deregister(&mut self, token: usize) -> (gone: Vec<Core<T>>)
        requires
            old(self).wf(),
        ensures
            final(self).wf(),
            gone@ == cascaded(old(self)@.heap, waiting(old(self)@.sources, token)).gone,
            final(self)@ == (ExecutorView {
                sources: old(self)@.sources.remove(token),
                vacant_tokens: if old(self)@.sources.contains_key(token) {
                    seq![token] + old(self)@.vacant_tokens
                } else {
                    old(self)@.vacant_tokens
                },
                next_ptr: final(self)@.next_ptr,
                ..old(self)@.freed(waiting(old(self)@.sources, token))
            }),
    {
        let ghost sources = self.reactor@;
        match self.reactor.deregister(token) {
            Some(source) => {
                let mut source = source;
                let mut work = source.wakers.rd.take();
                let mut more = source.wakers.wr.take();
                work.append(&mut more);
                proof {
                    assert(work@ =~= waiting(sources, token));
                    assert forall|q: usize| #[trigger]
                        counted_at(
                            self.heap@,
                            self.storage@,
                            self.root,
                            self.reactor@,
                            work@,
                            q,
                        ) by {
                        assert(counted_at(
                            self.heap@,
                            self.storage@,
                            self.root,
                            sources,
                            Seq::empty(),
                            q,
                        ));
                        lemma_sources_remove(sources, token, q, limit());
                        lemma_list_concat(sources[token].rd, sources[token].wr, q);
                    }
                }
                self.cascade(work)
            },
            None => {
                assert(self.reactor@ =~= sources);
                proof {
                    self.heap.lemma_keys_bounded();
                }
                Vec::new()
            },
        }
    }

    /// Attaches a further waker like `waker` to the source under `token`, to
    /// be woken when the source is ready for `dir`. The source must be
    /// registered and have room; the cell of `waker` must be alive and its
    /// count below the largest.
    pub fn attach_waker(&mut self, waker: &Waker, token: usize, dir: Direction)
        requires
            old(self).wf(),
            old(self)@.sources.contains_key(token),
            !old(self)@.sources[token].is_full(dir),
            old(self)@.heap.contains_key(waker.raw.ptr),
            old(self)@.heap[waker.raw.ptr].head.refs < u8::MAX,
        ensures
            final(self).wf(),
            final(self)@ == old(self)@.attached(*waker, token, dir),
    {
        let ghost heap = self.heap@;
        let ghost sources = self.reactor@;
        let ghost p = waker.raw.ptr;
        proof {
            if pinned(self.storage@, self.root, p) {
                lemma_pinned_claims(heap, self.storage@, self.root, p);
            }
            lemma_cell_changed(
                heap,
                self.storage@,
                self.root,
                p,
                with_refs(heap, waker.raw, (heap[p].head.refs + 1) as u8)[p],
            );
        }
        let lent = clone_fn(waker, &mut self.heap);
        self.reactor.attach_waker(lent, token, dir);
        proof {
            assert forall|q: usize| #[trigger]
                counted_at(
                    self.heap@,
                    self.storage@,
                    self.root,
                    self.reactor@,
                    Seq::empty(),
                    q,
                ) by {
                assert(counted_at(heap, self.storage@, self.root, sources, Seq::empty(), q));
                lemma_same_wakers(heap, p, self.heap@[p], q);
                lemma_sources_insert(sources, token, self.reactor@[token], q, limit());
                lemma_list_push(sources[token].rd, lent, q);
                lemma_list_push(sources[token].wr, lent, q);
            }
        }
    }

    /// Settles one non-blocking attempt at reading, writing or flushing on
    /// the source under `token`. If the attempt failed only because it would
    /// block (`would_block` says so), a further waker like `waker` is
    /// attached for `dir`, as `attach_waker` does and on the same conditions,
    /// and the answer is pending. Any other attempt is the answer.
    pub fn handle_async<R, E>(
        &mut self,
        attempt: Result<R, E>,
        would_block: bool,
        waker: &Waker,
        token: usize,
        dir: Direction,
    ) -> (out: Poll<Result<R, E>>)
        requires
            old(self).wf(),
            blocked(attempt, would_block) ==> old(self)@.sources.contains_key(token),
            blocked(attempt, would_block) ==> !old(self)@.sources[token].is_full(dir),
            blocked(attempt, would_block) ==> old(self)@.heap.contains_key(waker.raw.ptr),
            blocked(attempt, would_block) ==> old(self)@.heap[waker.raw.ptr].head.refs < u8::MAX,
        ensures
            final(self).wf(),
            blocked(attempt, would_block) ==> out is Pending && final(self)@
                == old(self)@.attached(*waker, token, dir),
            !blocked(attempt, would_block) ==> out == Poll::Ready(attempt) && final(self)@
                == old(self)@,
    {
        match attempt {
            Err(e) => {
                if would_block {
                    self.attach_waker(waker, token, dir);
                    Poll::Pending
                } else {
                    Poll::Ready(Err(e))
                }
            },
            Ok(done) => Poll::Ready(Ok(done)),
        }
    }

    /// The worker pool.
    pub fn pool_fn(&mut self) -> (p: &mut ThreadPool<Note>)
        requires
            old(self).wf(),
        ensures
            p.wf(),
            p@ == old(self)@.workers,
            final(p).wf() ==> final(self).wf(),
            final(self)@ == (ExecutorView { workers: final(p)@, ..old(self)@ }),
    {
        &mut self.pool
    }

    /// One pass of the reactor's loop over a batch of events, each of which
    /// must be for a registered source up to where the pass ends. The wakers
    /// that waited for the events send their notifications to the driver's
    /// channel and are then released; the cells that this destroys come back.
    /// `true` means that the loop has been told to end.
    pub fn react(&mut self, events: &Vec<Event>) -> (out: (Vec<Core<T>>, bool))
        requires
            old(self).wf(),
            known(old(self)@.sources.dom(), events@),
        ensures
            final(self).wf(),
            out.0@ == cascaded(old(self)@.heap, turn(old(self)@.sources, events@).woken).gone,
            out.1 == turn(old(self)@.sources, events@).shutdown,
            final(self)@ == (ExecutorView {
                sources: turn(old(self)@.sources, events@).sources,
                queue: if old(self)@.listening {
                    old(self)@.queue + notes_of(turn(old(self)@.sources, events@).woken)
                } else {
                    old(self)@.queue
                },
                next_ptr: final(self)@.next_ptr,
                ..old(self)@.freed(turn(old(self)@.sources, events@).woken)
            }),
    {
        let ghost sources = self.reactor@;
        let (woken, stop) = self.reactor.start(events, &mut self.chan);
        proof {
            assert forall|q: usize| #[trigger]
                counted_at(self.heap@, self.storage@, self.root, self.reactor@, woken@, q) by {
                assert(counted_at(
                    self.heap@,
                    self.storage@,
                    self.root,
                    sources,
                    Seq::empty(),
                    q,
                ));
                lemma_turn_conserves(sources, events@, q);
            }
        }
        let gone = self.cascade(woken);
        (gone, stop)
    }

    /// Creates the root task, under the reserved id. There must be none yet.
    /// What is left open is which address comes next.
    pub fn enter(&mut self) -> (raw: RawTask)
        requires
            old(self).wf(),
            old(self)@.root.is_none(),
        ensures
            final(self).wf(),
            raw.ptr == old(self)@.next_ptr,
            !old(self)@.heap.contains_key(raw.ptr),
            final(self)@ == (ExecutorView {
                root: Some(Task::at(raw)),
                heap: old(self)@.heap.insert(raw.ptr, born(raw, ROOT_ID, 2)),
                next_ptr: final(self)@.next_ptr,
                ..old(self)@
            }),
    {
        let ghost heap = self.heap@;
        let task = Task::new_alone(&mut self.heap, ROOT_ID);
        let raw = task.raw;
        let ghost p = raw.ptr;
        proof {
            assert(self.heap@.remove(p) =~= heap);
            lemma_cell_added(heap, self.heap@, self.storage@, self.root, p);
            assert(counted_at(heap, self.storage@, self.root, self.reactor@, Seq::empty(), p));
            assert forall|q: usize| #[trigger]
                counted_at(
                    self.heap@,
                    self.storage@,
                    Some(task),
                    self.reactor@,
                    Seq::empty(),
                    q,
                ) by {
                assert(counted_at(
                    heap,
                    self.storage@,
                    self.root,
                    self.reactor@,
                    Seq::empty(),
                    q,
                ));
                lemma_heap_insert(heap, p, born::<T>(raw, ROOT_ID, 2), q, limit());
            }
        }
        self.root = Some(task);
        raw
    }

    /// Drops the root task, if there is one; the cells that this destroys
    /// come back.
    pub fn leave(&mut self) -> (gone: Vec<Core<T>>)
        requires
            old(self).wf(),
        ensures
            final(self).wf(),
            gone@ == (match old(self)@.root {
                Some(t) => dropped_task(old(self)@.heap, t.raw).gone,
                None => Seq::empty(),
            }),
            final(self)@ == (ExecutorView {
                next_ptr: final(self)@.next_ptr,
                ..old(self)@.left()
            }),
    {
        let ghost heap = self.heap@;
        let ghost root = self.root;
        match self.root.take() {
            Some(task) => {
                let ghost p = task.raw.ptr;
                proof {
                    assert(held(heap, task, ROOT_ID));
                    assert(!pinned(self.storage@, self.root, p));
                    assert(counted_at(heap, self.storage@, root, self.reactor@, Seq::empty(), p));
                    assert forall|q: usize| q != p implies #[trigger] counted_at(
                        heap,
                        self.storage@,
                        self.root,
                        self.reactor@,
                        Seq::empty(),
                        q,
                    ) by {
                        assert(counted_at(
                            heap,
                            self.storage@,
                            root,
                            self.reactor@,
                            Seq::empty(),
                            q,
                        ));
                    }
                }
                self.drop_task(task.raw)
            },
            None => Vec::new(),
        }
    }

    /// Takes the task with the id `key` out of the registry and drops it.
    fn evict(&mut self, key: usize) -> (gone: Vec<Core<T>>)
        requires
            old(self).wf(),
            old(self)@.tasks.contains_key(key),
        ensures
            final(self).wf(),
            gone@ == dropped_task(old(self)@.heap, old(self)@.tasks[key].raw).gone,
            final(self)@ == (ExecutorView {
                heap: dropped_task(old(self)@.heap, old(self)@.tasks[key].raw).heap,
                tasks: old(self)@.tasks.remove(key),
                vacant_ids: seq![key] + old(self)@.vacant_ids,
                queue: sent(
                    old(self)@.queue,
                    old(self)@.listening,
                    handle_note(old(self)@.heap[old(self)@.tasks[key].raw.ptr]),
                ),
                next_ptr: final(self)@.next_ptr,
                ..old(self)@
            }),
    {
        let raw = match self.storage.get(key) {
            Some(t) => t.raw,
            None => RawTask::from_ptr(0),
        };
        let ghost heap = self.heap@;
        let ghost tasks = self.storage@;
        let ghost p = raw.ptr;
        proof {
            assert(held(heap, tasks[key], key as u64));
            lemma_task_removed(heap, tasks, self.root, key);
            assert(pinned(tasks, self.root, p));
            assert(counted_at(heap, tasks, self.root, self.reactor@, Seq::empty(), p));
            assert forall|q: usize| q != p implies #[trigger] counted_at(
                heap,
                tasks.remove(key),
                self.root,
                self.reactor@,
                Seq::empty(),
                q,
            ) by {
                assert(counted_at(heap, tasks, self.root, self.reactor@, Seq::empty(), q));
                lemma_owner_remove(tasks, self.root, key, q);
            }
            assert forall|q: usize|
                q != p && heap.contains_key(q) && (
                #[trigger] heap[q]).tail.waker.is_some() implies pinned(
                tasks.remove(key),
                self.root,
                q,
            ) by {
                lemma_pinned_kept(tasks, self.root, key, q);
            }
        }
        let _ = self.storage.remove(key);
        self.drop_task(raw)
    }

    /// What is done when the runtime is dropped. The driver's channel closes,
    /// so that nobody is woken any more; the root task is dropped if there is
    /// one, then every registered task in the order of the ids, then every
    /// source in the order of the tokens, with the wakers that waited for it.
    /// The cells that this destroys come back, in the order in which they
    /// went.
    pub fn teardown(&mut self) -> (gone: Vec<Core<T>>)
        requires
            old(self).wf(),
        ensures
            final(self).wf(),
            gone@ == torn_down(old(self)@).gone,
            final(self)@ == (ExecutorView {
                heap: torn_down(old(self)@).heap,
                tasks: Map::empty(),
                root: None,
                sources: Map::empty(),
                listening: false,
                next_ptr: final(self)@.next_ptr,
                vacant_ids: final(self)@.vacant_ids,
                vacant_tokens: final(self)@.vacant_tokens,
                ..old(self)@
            }),
    {
        self.chan.close();
        let mut gone = self.leave();
        let ghost first = gone@;
        let ghost heap = self.heap@;
        let ghost tasks = self.storage@;
        proof {
            self.storage.lemma_keys_bounded();
            assert(tasks_from(tasks, 0) =~= tasks);
        }
        let ids = self.storage.slots();
        let mut k: usize = 0;
        while k < ids
            invariant
                self.wf(),
                k <= ids,
                forall|j: usize| tasks.contains_key(j) ==> j < ids,
                self.root.is_none(),
                !self.chan.is_open(),
                self.chan@ == old(self).chan@,
                self.pool@ == old(self).pool@,
                self.reactor@ == old(self).reactor@,
                self.storage@ == tasks_from(tasks, k as nat),
                self.heap@ == tasks_dropped(heap, tasks, k as nat).heap,
                gone@ == first + tasks_dropped(heap, tasks, k as nat).gone,
            decreases ids - k,
        {
            let ghost before = gone@;
            if self.storage.contains(k) {
                let mut more = self.evict(k);
                let ghost added = more@;
                gone.append(&mut more);
                assert(gone@ =~= first + (tasks_dropped(heap, tasks, k as nat).gone + added));
            }
            assert(self.storage@ =~= tasks_from(tasks, (k + 1) as nat));
            k = k + 1;
        }
        let ghost second = gone@;
        let ghost cells = self.heap@;
        let ghost sources = self.reactor@;
        proof {
            lemma_tasks_done(heap, tasks, ids as nat, limit());
            assert(self.storage@ =~= Map::<usize, Task>::empty());
            assert(sources_from(sources, 0) =~= sources);
        }
        let tokens = self.reactor.slots();
        let mut t: usize = 0;
        while t < tokens
            invariant
                self.wf(),
                t <= tokens,
                forall|j: usize| sources.contains_key(j) ==> j < tokens,
                self.root.is_none(),
                !self.chan.is_open(),
                self.chan@ == old(self).chan@,
                self.pool@ == old(self).pool@,
                self.storage@ == Map::<usize, Task>::empty(),
                self.reactor@ == sources_from(sources, t as nat),
                self.heap@ == sources_dropped(cells, sources, t as nat).heap,
                gone@ == second + sources_dropped(cells, sources, t as nat).gone,
            decreases tokens - t,
        {
            if self.reactor.has_source(t) {
                let mut more = self.deregister(t);
                let ghost added = more@;
                gone.append(&mut more);
                assert(gone@ =~= second + (sources_dropped(cells, sources, t as nat).gone + added));
            }
            assert(self.reactor@ =~= sources_from(sources, (t + 1) as nat));
            t = t + 1;
        }
        proof {
            lemma_sources_done(cells, sources, tokens as nat, limit());
            assert(self.reactor@ =~= Map::<usize, IoSourceView>::empty());
            let all = torn_down(old(self)@);
            assert(gone@ =~= all.gone);
        }
        gone
    }

    /// The driver's wait: reads the channel and deploys what is not for the
    /// root task, up to the first notification that is. `true` says that one
    /// came, `false` that the channel is empty. Where there is something to
    /// deploy the pool must have a worker.
    pub fn forward(&mut self) -> (again: bool)
        requires
            old(self).wf(),
            foreign(old(self)@.queue) ==> old(self)@.staffed(),
        ensures
            final(self).wf(),
            again == root_called(old(self)@.queue),
            final(self)@ == old(self)@.driven(),
    {
        let mut again = false;
        let mut more = true;
        while more
            invariant
                self.wf(),
                self.heap@ == old(self).heap@,
                self.storage@ == old(self).storage@,
                self.storage.vacant() == old(self).storage.vacant(),
                self.heap.next_key() == old(self).heap.next_key(),
                self.root == old(self).root,
                self.reactor@ == old(self).reactor@,
                self.reactor.vacant() == old(self).reactor.vacant(),
                self.chan.is_open() == old(self).chan.is_open(),
                more ==> !again,
                more && foreign(self.chan@) ==> self.pool@ != Map::<
                    usize,
                    WorkerView<Note>,
                >::empty(),
                more ==> root_called(old(self).chan@) == root_called(self.chan@),
                more ==> unread(old(self).chan@) == unread(self.chan@),
                more ==> forwarded(old(self).pool@, old(self).chan@) == forwarded(
                    self.pool@,
                    self.chan@,
                ),
                !more ==> again == root_called(old(self).chan@),
                !more ==> self.chan@ == unread(old(self).chan@),
                !more ==> self.pool@ == forwarded(old(self).pool@, old(self).chan@),
            decreases self.chan@.len() + (if more { 1int } else { 0int }),
        {
            let ghost queue = self.chan@;
            let ghost workers = self.pool@;
            match self.chan.recv() {
                None => {
                    more = false;
                },
                Some(n) => {
                    assert(self.chan@ =~= queue.drop_first());
                    if n.is_root() {
                        again = true;
                        more = false;
                    } else {
                        let _ = self.pool.deploy(n);
                        assert(self.pool@.dom() =~= workers.dom());
                        assert(self.pool@ != Map::<usize, WorkerView<Note>>::empty()) by {
                            if self.pool@ == Map::<usize, WorkerView<Note>>::empty() {
                                assert(workers =~= Map::<usize, WorkerView<Note>>::empty());
                            }
                        }
                    }
                },
            }
        }
        again
    }

    /// Tells every worker to stop: each gets the shutdown sentinel.
    pub fn shutdown(&mut self)
        requires
            old(self).wf(),
        ensures
            final(self).wf(),
            final(self)@ == (ExecutorView { workers: final(self)@.workers, ..old(self)@ }),
            final(self)@.workers.dom() == old(self)@.workers.dom(),
            forall|k: usize|
                old(self)@.workers.contains_key(k) ==> (#[trigger] final(self)@.workers[k])
                    == old(self)@.workers[k].took(Note(SHUTDOWN_ID)),
    {
        self.pool.broadcast(Note::shutdown());
    }
}

/// What the driver does after it has read `queue`.
pub open spec fn waited<T>(queue: Seq<Note>) -> Drive<T> {
    if root_called(queue) {
        Drive::Repoll
    } else {
        Drive::Wait
    }
}

/// The runtime as its owner holds it: the shared state, and how the run
/// stands.
pub struct Executor<T> {
    /// Handle to the Executor,
    handle: ExecutorHandle<T>,
    state: RtState,
    /// Whether the runtime has not been shut down.
    live: bool,
}

impl<T> View for Executor<T> {
    type V = ExecutorView<T>;

    closed spec fn view(&self) -> ExecutorView<T> {
        self.handle@
    }
}

impl<T> Executor<T> {
    /// How the run stands.
    pub closed spec fn state(&self) -> RtState {
        self.state
    }

    pub closed spec fn wf(&self) -> bool {
        self.handle.wf()
    }

    /// Whether the runtime has not been shut down. Afterwards nothing may be
    /// spawned or run on it.
    pub closed spec fn live(&self) -> bool {
        self.live
    }

    /// Whether the runtime has not been shut down.
    pub fn is_live(&self) -> (b: bool)
        ensures
            b == self.live(),
    {
        self.live
    }

    /// A runtime with `amnt` workers, as far as threads could be started for
    /// them: `launched` says for how many.
    pub fn new(amnt: usize, launched: usize) -> (e: Executor<T>)
        ensures
            e.wf(),
            e.live(),
            e.state() == RtState::Good,
            e@ == (ExecutorView::<T> {
                heap: Map::empty(),
                next_ptr: 0,
                tasks: Map::empty(),
                vacant_ids: seq![0usize],
                root: None,
                queue: Seq::empty(),
                listening: true,
                workers: e@.workers,
                sources: Map::empty(),
                vacant_tokens: seq![0usize],
            }),
            e@.workers.dom().len() == added(0, amnt, launched),
            forall|k: usize| e@.workers.contains_key(k) <==> k < added(0, amnt, launched),
            forall|k: usize|
                e@.workers.contains_key(k) ==> (#[trigger] e@.workers[k]) == WorkerView::<
                    Note,
                >::started(),
    {
        Executor { handle: ExecutorHandle::new(amnt, launched), state: RtState::Good, live: true }
    }

    /// The shared state, to work on.
    pub fn get(&mut self) -> (h: &mut ExecutorHandle<T>)
        ensures
            h.wf() == old(self).wf(),
            h@ == old(self)@,
            final(self).wf() == final(h).wf(),
            final(self)@ == final(h)@,
            final(self).state() == old(self).state(),
            final(self).live() == old(self).live(),
    {
        &mut self.handle
    }

    /// How the run stands.
    pub fn rt_state(&self) -> (s: RtState)
        ensures
            s == self.state(),
    {
        self.state
    }

    /// Spawn a task onto the runtime; see `ExecutorHandle::spawn`.
    pub fn spawn(&mut self) -> (out: (TaskHandle<T>, Note, usize))
        requires
            old(self).wf(),
            old(self).live(),
            old(self)@.staffed(),
            old(self)@.workers[choice(old(self)@.workers)].open,
        ensures
            final(self).wf(),
            final(self).live(),
            final(self).state() == old(self).state(),
            out.0.raw().ptr == old(self)@.next_ptr,
            out.1 == Note(old(self)@.next_id() as u64),
            out.1.0 != SHUTDOWN_ID,
            out.2 == choice(old(self)@.workers),
            !old(self)@.heap.contains_key(old(self)@.next_ptr),
            !old(self)@.tasks.contains_key(old(self)@.next_id()),
            final(self)@.releasable(out.0.raw()),
            final(self)@ == (ExecutorView {
                heap: old(self)@.heap.insert(out.0.raw().ptr, born(out.0.raw(), out.1.0, 3)),
                tasks: old(self)@.tasks.insert(old(self)@.next_id(), Task::at(out.0.raw())),
                workers: deployed(old(self)@.workers, out.1),
                vacant_ids: handed_out(old(self)@.vacant_ids),
                next_ptr: final(self)@.next_ptr,
                ..old(self)@
            }),
    {
        self.handle.spawn()
    }

    /// Starts a run: creates the root task. There must be none yet.
    pub fn start(&mut self) -> (raw: RawTask)
        requires
            old(self).wf(),
            old(self).live(),
            old(self)@.root.is_none(),
        ensures
            final(self).wf(),
            final(self).live(),
            final(self).state() == RtState::Good,
            raw.ptr == old(self)@.next_ptr,
            !old(self)@.heap.contains_key(raw.ptr),
            final(self)@ == (ExecutorView {
                root: Some(Task::at(raw)),
                heap: old(self)@.heap.insert(raw.ptr, born(raw, ROOT_ID, 2)),
                next_ptr: final(self)@.next_ptr,
                ..old(self)@
            }),
    {
        self.state = RtState::Good;
        self.handle.enter()
    }

    /// The driver's step after one poll of the root task, which came to
    /// `output`. A value ends the run with that value; a panic ends it with
    /// the state `MainTaskPanicked`; either way the root task is dropped.
    /// While the root task is pending the driver reads its channel as
    /// `ExecutorHandle::forward` says: `Repoll` if a notification for the root
    /// task came, `Wait` if the channel ran empty.
    ///
    /// There must be a root task, and a worker where there is something to
    /// deploy.
    pub fn block_on(&mut self, output: Outcome<T>) -> (d: Drive<T>)
        requires
            old(self).wf(),
            old(self).live(),
            old(self)@.root.is_some(),
            output is Pending && foreign(old(self)@.queue) ==> old(self)@.staffed(),
        ensures
            final(self).wf(),
            final(self).live(),
            match output {
                Outcome::Ready(v) => d == Drive::Done(Ok::<T, RtState>(v)) && final(self).state()
                    == old(self).state() && final(self)@ == (ExecutorView {
                    next_ptr: final(self)@.next_ptr,
                    ..old(self)@.left()
                }),
                Outcome::Panicked => d == Drive::<T>::Done(Err(RtState::MainTaskPanicked))
                    && final(self).state() == RtState::MainTaskPanicked && final(self)@ == (
                ExecutorView { next_ptr: final(self)@.next_ptr, ..old(self)@.left() }),
                Outcome::Pending => d == waited::<T>(old(self)@.queue) && final(self).state()
                    == old(self).state() && final(self)@ == old(self)@.driven(),
            },
    {
        match output {
            Outcome::Ready(v) => {
                let _ = self.handle.leave();
                Drive::Done(Ok(v))
            },
            Outcome::Panicked => {
                self.state = RtState::MainTaskPanicked;
                let _ = self.handle.leave();
                Drive::Done(Err(RtState::MainTaskPanicked))
            },
            Outcome::Pending => {
                if self.handle.forward() {
                    Drive::Repoll
                } else {
                    Drive::Wait
                }
            },
        }
    }

    /// The driver's step after a wait: reads the channel again, as
    /// `ExecutorHandle::forward` says.
    pub fn resume(&mut self) -> (d: Drive<T>)
        requires
            old(self).wf(),
            old(self).live(),
            foreign(old(self)@.queue) ==> old(self)@.staffed(),
        ensures
            final(self).wf(),
            final(self).live(),
            final(self).state() == old(self).state(),
            d == waited::<T>(old(self)@.queue),
            final(self)@ == old(self)@.driven(),
    {
        if self.handle.forward() {
            Drive::Repoll
        } else {
            Drive::Wait
        }
    }

    /// Drops the runtime; see `ExecutorHandle::teardown`. The cells that this
    /// destroys come back.
    pub fn drop(self) -> (gone: Vec<Core<T>>)
        requires
            self.wf(),
        ensures
            gone@ == torn_down(self@).gone,
    {
        let mut this = self;
        this.handle.teardown()
    }

    /// Shuts the runtime down: every worker gets the shutdown sentinel, and
    /// nothing may be spawned or run afterwards.
    pub fn shutdown(&mut self)
        requires
            old(self).wf(),
        ensures
            final(self).wf(),
            !final(self).live(),
            final(self).state() == old(self).state(),
            final(self)@ == (ExecutorView { workers: final(self)@.workers, ..old(self)@ }),
            final(self)@.workers.dom() == old(self)@.workers.dom(),
            forall|k: usize|
                old(self)@.workers.contains_key(k) ==> (#[trigger] final(self)@.workers[k])
                    == old(self)@.workers[k].took(Note(SHUTDOWN_ID)),
    {
        self.handle.shutdown();
        self.live = false;
    }
}

/// A spawned task is asked for: its notification is the last in the queue of
/// the worker that was chosen, and the worker that finds it at the front of
/// its queue is told to poll the task.
pub proof fn law_spawned_task_is_polled(
    workers: Map<usize, WorkerView<Note>>,
    tasks: Map<usize, Task>,
    id: usize,
    raw: RawTask,
    w: WorkerView<Note>,
)
    requires
        workers.contains_key(choice(workers)),
        workers[choice(workers)].open,
        id < usize::MAX,
        w.queue.len() > 0,
        w.queue[0] == Note(id as u64),
    ensures
        deployed(workers, Note(id as u64))[choice(workers)].queue.last() == Note(id as u64),
        next_work(w, tasks.insert(id, Task::at(raw))) == Work::Poll(Note(id as u64)),
{
}

/// A task becomes ready once: the report of its output takes it out of the
/// registry, and a later report for the same notification records nothing,
/// removes nothing and destroys nothing.
pub proof fn law_ready_once<T>(
    s: ExecutorView<T>,
    worker: usize,
    n: Note,
    v: T,
    later: usize,
    again: Outcome<T>,
)
    requires
        addressed(s.tasks, n),
    ensures
        !addressed(s.polled(worker, n, Outcome::Ready(v)).tasks, n),
        s.polled(worker, n, Outcome::Ready(v)).polled(later, n, again).heap == s.polled(
            worker,
            n,
            Outcome::Ready(v),
        ).heap,
        s.polled(worker, n, Outcome::Ready(v)).polled(later, n, again).tasks == s.polled(
            worker,
            n,
            Outcome::Ready(v),
        ).tasks,
        s.polled(worker, n, Outcome::Ready(v)).polled_cells(n, again) == Seq::<Core<T>>::empty(),
{
}

/// The handle of a finished task finds the value that the task produced: the
/// report of the output leaves it in the cell, which stays for as long as the
/// handle refers to it.
pub proof fn law_handle_finds_output<T>(s: ExecutorView<T>, worker: usize, n: Note, v: T)
    requires
        s.sound(),
        s.heap.dom().finite(),
        addressed(s.tasks, n),
        s.heap[s.tasks[n.0 as usize].raw.ptr].head.refs >= 3,
    ensures
        s.polled_cells(n, Outcome::Ready(v)) == Seq::<Core<T>>::empty(),
        s.polled(worker, n, Outcome::Ready(v)).heap.contains_key(s.tasks[n.0 as usize].raw.ptr),
        s.polled(worker, n, Outcome::Ready(v)).heap[s.tasks[n.0 as usize].raw.ptr].mid.poll
            == Poll::Ready(v),
{
    let raw = s.tasks[n.0 as usize].raw;
    let p = raw.ptr;
    assert(held(s.heap, s.tasks[n.0 as usize], (n.0 as usize) as u64));
    let noted = s.noted(n, Outcome::Ready(v));
    let c = noted[p];
    let own = c.tail.waker.unwrap();
    let cleared = noted.insert(
        p,
        Core { tail: Tail { waker: None, h_waker: c.tail.h_waker }, ..c },
    );
    let work = seq![reference(noted, raw)] + listed(c.tail.waker);
    assert(work =~= seq![reference(noted, raw), own]);
    assert(work.drop_last() =~= seq![reference(noted, raw)]);
    assert(cleared.dom() =~= s.heap.dom());
    let once = released(cleared, own.raw);
    assert(once.dom() =~= s.heap.dom());
    assert(cascaded(cleared, work) == cascaded(once, seq![reference(noted, raw)]));
    let twice = released(once, raw);
    assert(twice.dom() =~= s.heap.dom());
    assert(seq![reference(noted, raw)].drop_last() =~= Seq::<Waker>::empty());
    assert(cascaded(once, seq![reference(noted, raw)]) == cascaded(twice, Seq::empty()));
}

/// A poll that finds the task still pending changes nothing but this: the
/// worker is free again, and so is the task, to be polled by whoever takes
/// its next notification. The cell and the driver's channel are as before.
pub proof fn law_spurious_poll<T>(s: ExecutorView<T>, worker: usize, n: Note)
    requires
        s.sound(),
        addressed(s.tasks, n),
        s.heap[s.tasks[n.0 as usize].raw.ptr].mid.poll is Pending,
        !s.tasks[n.0 as usize].woken,
    ensures
        s.polled(worker, n, Outcome::Pending) == (ExecutorView {
            workers: s.workers.insert(
                worker,
                WorkerView { occupied: false, ..s.workers[worker] },
            ),
            tasks: s.tasks.insert(n.0 as usize, Task::at(s.tasks[n.0 as usize].raw)),
            ..s
        }),
{
    assert(held(s.heap, s.tasks[n.0 as usize], (n.0 as usize) as u64));
    let raw = s.tasks[n.0 as usize].raw;
    assert(recorded(s.heap[raw.ptr], Outcome::<T>::Pending) == s.heap[raw.ptr]);
    assert(s.noted(n, Outcome::Pending) =~= s.heap);
}

/// A wake that comes while the task is being polled is not lost. The worker
/// that takes the notification leaves the task to the one that polls it and
/// marks it; and when the poll of a marked task is reported as pending, the
/// notification goes to the driver's channel once more.
pub proof fn law_wake_in_flight_is_kept<T>(
    s: ExecutorView<T>,
    taker: usize,
    poller: usize,
    n: Note,
)
    requires
        addressed(s.tasks, n),
        n.0 != SHUTDOWN_ID,
        s.tasks[n.0 as usize].polling,
        s.workers.contains_key(taker),
        s.workers[taker].queue.len() > 0,
        s.workers[taker].queue[0] == n,
        s.listening,
    ensures
        next_work(s.workers[taker], s.tasks) == Work::Busy(n),
        s.worked(taker).tasks[n.0 as usize].woken,
        s.worked(taker).polled(poller, n, Outcome::Pending).queue == s.queue.push(n),
        s.worked(taker).polled(poller, n, Outcome::Pending).tasks[n.0 as usize] == Task::at(
            s.tasks[n.0 as usize].raw,
        ),
{
}

/// What waits in a queue after `note` was sent to it `times` times.
pub open spec fn rung(queue: Seq<Note>, open: bool, note: Note, times: nat) -> Seq<Note>
    decreases times,
{
    if times == 0 {
        queue
    } else {
        sent(rung(queue, open, note, (times - 1) as nat), open, Some(note))
    }
}

/// Every wake is queued: waking a task so many times leaves so many of its
/// notifications in an open channel, behind what waited there.
pub proof fn law_every_wake_is_queued(queue: Seq<Note>, note: Note, times: nat)
    ensures
        rung(queue, true, note, times).len() == queue.len() + times,
        forall|i: int| 0 <= i < queue.len() ==> rung(queue, true, note, times)[i] == queue[i],
        forall|i: int|
            queue.len() <= i < queue.len() + times ==> rung(queue, true, note, times)[i] == note,
        rung(queue, false, note, times) == queue,
    decreases times,
{
    if times > 0 {
        law_every_wake_is_queued(queue, note, (times - 1) as nat);
    }
}

/// The shutdown sentinel reaches a worker behind what it still has to do, and
/// the worker that finds it at the front of its queue leaves and listens no
/// more.
pub proof fn law_shutdown_stops_worker(
    before: WorkerView<Note>,
    w: WorkerView<Note>,
    tasks: Map<usize, Task>,
)
    requires
        before.open,
        w.queue.len() > 0,
        w.queue[0] == Note(SHUTDOWN_ID),
    ensures
        before.took(Note(SHUTDOWN_ID)).queue == before.queue.push(Note(SHUTDOWN_ID)),
        next_work(w, tasks) == Work::Exit,
        !at_work(w, tasks).open,
{
}

} // verus!
