//! What is left when the runtime goes: which cells are destroyed, and when
//! none stays behind.

use crate::reactor::io_source::IoSourceView;
use crate::runtime::executor::{
    dropped_task, lemma_cell_changed, lemma_cell_gone, lemma_pinned_claims, lemma_task_removed,
    listed, pinned, reference, sound, waiting, ExecutorView,
};
use crate::runtime::ledger::{
    cascaded, cell_claims, claims, heap_claims, lemma_heap_insert, lemma_heap_remove,
    lemma_list_concat, lemma_list_one, lemma_same_wakers, lemma_sources_empty, lemma_sources_remove,
    lemma_wakers_of, limit, list_claims, owner, wakers_of, Cascade,
};
use crate::task::task::{released, with_refs, Core, RawTask, Tail, Task};
use crate::task::waker::Waker;
use vstd::prelude::*;

verus! {

/// The heap and the destroyed cells after the registered tasks with an id
/// below `k` have been dropped, in the order of their ids.
pub open spec fn tasks_dropped<T>(
    heap: Map<usize, Core<T>>,
    tasks: Map<usize, Task>,
    k: nat,
) -> Cascade<T>
    decreases k,
{
    if k == 0 {
        Cascade { heap, gone: Seq::empty() }
    } else {
        let before = tasks_dropped(heap, tasks, (k - 1) as nat);
        if tasks.contains_key((k - 1) as usize) {
            let now = dropped_task(before.heap, tasks[(k - 1) as usize].raw);
            Cascade { heap: now.heap, gone: before.gone + now.gone }
        } else {
            before
        }
    }
}

/// The heap and the destroyed cells after the sources with a token below `k`
/// have gone and the wakers that waited for them have been released, in the
/// order of the tokens.
pub open spec fn sources_dropped<T>(
    heap: Map<usize, Core<T>>,
    sources: Map<usize, IoSourceView>,
    k: nat,
) -> Cascade<T>
    decreases k,
{
    if k == 0 {
        Cascade { heap, gone: Seq::empty() }
    } else {
        let before = sources_dropped(heap, sources, (k - 1) as nat);
        if sources.contains_key((k - 1) as usize) {
            let now = cascaded(before.heap, waiting(sources, (k - 1) as usize));
            Cascade { heap: now.heap, gone: before.gone + now.gone }
        } else {
            before
        }
    }
}

/// What dropping the runtime comes to: the root task is dropped, then the
/// registered tasks, then the sources with the wakers that wait for them.
pub open spec fn torn_down<T>(s: ExecutorView<T>) -> Cascade<T> {
    let first = match s.root {
        Some(t) => dropped_task(s.heap, t.raw),
        None => Cascade { heap: s.heap, gone: Seq::empty() },
    };
    let second = tasks_dropped(first.heap, s.tasks, limit());
    let third = sources_dropped(second.heap, s.sources, limit());
    Cascade { heap: third.heap, gone: first.gone + second.gone + third.gone }
}

/// Whether the count of the cell at `p` is exactly what the runtime accounts
/// for: the task that owns the cell, the wakers that the runtime holds, and
/// the wakers `work` that are about to be released. Nobody else refers to the
/// cell.
pub open spec fn exact_at<T>(
    heap: Map<usize, Core<T>>,
    tasks: Map<usize, Task>,
    root: Option<Task>,
    sources: Map<usize, IoSourceView>,
    work: Seq<Waker>,
    p: usize,
) -> bool {
    &&& claims(heap, sources, p) + list_claims(work, p) > 0 ==> heap.contains_key(p)
    &&& heap.contains_key(p) ==> heap[p].head.refs == owner(tasks, root, p) + claims(
        heap,
        sources,
        p,
    ) + list_claims(work, p)
}

/// Whether a cell awaits through the handle of another only where that other
/// ranks higher: nobody awaits in a circle.
pub open spec fn ranked<T>(heap: Map<usize, Core<T>>, rank: spec_fn(usize) -> nat) -> bool {
    forall|p: usize|
        heap.contains_key(p) && (#[trigger] heap[p]).tail.h_waker.is_some() ==> heap.contains_key(
            heap[p].tail.h_waker.unwrap().raw.ptr,
        ) ==> rank(heap[p].tail.h_waker.unwrap().raw.ptr) > rank(p)
}

/// Whether nothing outside the runtime refers to a cell, every cell that is
/// there is referred to, only the cell of a task holds a waker of its own,
/// and nobody awaits in a circle.
pub open spec fn closed<T>(
    heap: Map<usize, Core<T>>,
    tasks: Map<usize, Task>,
    root: Option<Task>,
    sources: Map<usize, IoSourceView>,
    work: Seq<Waker>,
    rank: spec_fn(usize) -> nat,
) -> bool {
    &&& heap.dom().finite()
    &&& sound(heap, tasks, root)
    &&& forall|p: usize| #[trigger] exact_at(heap, tasks, root, sources, work, p)
    &&& forall|p: usize| heap.contains_key(p) ==> (#[trigger] heap[p]).head.refs >= 1
    &&& forall|p: usize|
        heap.contains_key(p) && (#[trigger] heap[p]).tail.waker.is_some() ==> pinned(
            tasks,
            root,
            p,
        )
    &&& ranked(heap, rank)
}

/// Releasing wakers in a state that is closed leaves it closed, and every
/// cell that leaves the heap is among the destroyed ones, once.
pub proof fn lemma_cascade_closed<T>(
    heap: Map<usize, Core<T>>,
    tasks: Map<usize, Task>,
    root: Option<Task>,
    sources: Map<usize, IoSourceView>,
    work: Seq<Waker>,
    rank: spec_fn(usize) -> nat,
)
    requires
        closed(heap, tasks, root, sources, work, rank),
    ensures
        closed(cascaded(heap, work).heap, tasks, root, sources, Seq::empty(), rank),
        cascaded(heap, work).heap.dom().subset_of(heap.dom()),
        cascaded(heap, work).gone.len() + cascaded(heap, work).heap.dom().len() == heap.dom().len(),
    decreases 2 * heap.dom().len() + work.len(),
{
    if work.len() == 0 {
        assert(work =~= Seq::<Waker>::empty());
    } else {
        let w = work.last();
        let p = w.raw.ptr;
        let rest = work.drop_last();
        assert(exact_at(heap, tasks, root, sources, work, p));
        let refs = heap[p].head.refs;
        if pinned(tasks, root, p) {
            lemma_pinned_claims(heap, tasks, root, p);
        }
        if refs > 1 {
            let after = released(heap, w.raw);
            assert(after.dom() =~= heap.dom());
            lemma_cell_changed(heap, tasks, root, p, after[p]);
            assert forall|q: usize| #[trigger] exact_at(after, tasks, root, sources, rest, q) by {
                assert(exact_at(heap, tasks, root, sources, work, q));
                lemma_same_wakers(heap, p, after[p], q);
            }
            assert(ranked(after, rank)) by {
                assert forall|q: usize|
                    after.contains_key(q) && (#[trigger] after[q]).tail.h_waker.is_some()
                        && after.contains_key(
                        after[q].tail.h_waker.unwrap().raw.ptr,
                    ) implies rank(after[q].tail.h_waker.unwrap().raw.ptr) > rank(q) by {
                    assert(heap[q].tail == after[q].tail);
                }
            }
            assert forall|q: usize|
                after.contains_key(q) && (#[trigger] after[q]).tail.waker.is_some() implies pinned(
                tasks,
                root,
                q,
            ) by {
                assert(heap[q].tail == after[q].tail);
            }
            lemma_cascade_closed(after, tasks, root, sources, rest, rank);
        } else {
            let cell = heap[p];
            let after = heap.remove(p);
            let more = rest + wakers_of(cell);
            assert(after.dom() =~= heap.dom().remove(p));
            lemma_cell_gone(heap, tasks, root, p);
            lemma_wakers_of(cell, p);
            assert forall|q: usize| #[trigger] exact_at(after, tasks, root, sources, more, q) by {
                assert(exact_at(heap, tasks, root, sources, work, q));
                lemma_heap_remove(heap, p, q, limit());
                lemma_list_concat(rest, wakers_of(cell), q);
                lemma_wakers_of(cell, q);
            }
            assert(ranked(after, rank)) by {
                assert forall|q: usize|
                    after.contains_key(q) && (#[trigger] after[q]).tail.h_waker.is_some()
                        && after.contains_key(
                        after[q].tail.h_waker.unwrap().raw.ptr,
                    ) implies rank(after[q].tail.h_waker.unwrap().raw.ptr) > rank(q) by {
                    assert(heap[q] == after[q]);
                }
            }
            assert forall|q: usize|
                after.contains_key(q) && (#[trigger] after[q]).tail.waker.is_some() implies pinned(
                tasks,
                root,
                q,
            ) by {
                assert(heap[q] == after[q]);
            }
            assert(wakers_of(with_refs(heap, w.raw, 0)[p]) == wakers_of(cell));
            lemma_cascade_closed(after, tasks, root, sources, more, rank);
        }
    }
}

/// Dropping a task whose cell is no longer owned, in a state that is closed
/// but for that, leaves the state closed.
pub proof fn lemma_dropped_closed<T>(
    heap: Map<usize, Core<T>>,
    tasks: Map<usize, Task>,
    root: Option<Task>,
    sources: Map<usize, IoSourceView>,
    raw: RawTask,
    rank: spec_fn(usize) -> nat,
)
    requires
        heap.dom().finite(),
        sound(heap, tasks, root),
        heap.contains_key(raw.ptr),
        !pinned(tasks, root, raw.ptr),
        heap[raw.ptr].head.refs == 1 + claims(heap, sources, raw.ptr),
        forall|q: usize|
            q != raw.ptr ==> #[trigger] exact_at(heap, tasks, root, sources, Seq::empty(), q),
        forall|q: usize| heap.contains_key(q) ==> (#[trigger] heap[q]).head.refs >= 1,
        forall|q: usize|
            q != raw.ptr && heap.contains_key(q) && (#[trigger] heap[q]).tail.waker.is_some()
                ==> pinned(tasks, root, q),
        ranked(heap, rank),
    ensures
        closed(dropped_task(heap, raw).heap, tasks, root, sources, Seq::empty(), rank),
        dropped_task(heap, raw).heap.dom().subset_of(heap.dom()),
        dropped_task(heap, raw).gone.len() + dropped_task(heap, raw).heap.dom().len()
            == heap.dom().len(),
{
    let p = raw.ptr;
    let cell = heap[p];
    let bare = Core { tail: Tail { waker: None, h_waker: cell.tail.h_waker }, ..cell };
    let cleared = heap.insert(p, bare);
    let work = seq![reference(heap, raw)] + listed(cell.tail.waker);
    assert(cleared.dom() =~= heap.dom());
    lemma_cell_changed(heap, tasks, root, p, bare);
    assert forall|q: usize| #[trigger] exact_at(cleared, tasks, root, sources, work, q) by {
        lemma_heap_insert(heap, p, bare, q, limit());
        lemma_list_one(reference(heap, raw), q);
        lemma_list_concat(seq![reference(heap, raw)], listed(cell.tail.waker), q);
        if cell.tail.waker is Some {
            lemma_list_one(cell.tail.waker.unwrap(), q);
        }
        if q != p {
            assert(exact_at(heap, tasks, root, sources, Seq::empty(), q));
        }
    }
    assert(ranked(cleared, rank)) by {
        assert forall|q: usize|
            cleared.contains_key(q) && (#[trigger] cleared[q]).tail.h_waker.is_some()
                && cleared.contains_key(
                cleared[q].tail.h_waker.unwrap().raw.ptr,
            ) implies rank(cleared[q].tail.h_waker.unwrap().raw.ptr) > rank(q) by {
            assert(heap[q].tail.h_waker == cleared[q].tail.h_waker);
        }
    }
    assert forall|q: usize|
        cleared.contains_key(q) && (#[trigger] cleared[q]).tail.waker.is_some() implies pinned(
        tasks,
        root,
        q,
    ) by {
        assert(q != p);
        assert(heap[q] == cleared[q]);
    }
    assert forall|q: usize| cleared.contains_key(q) implies (#[trigger] cleared[q]).head.refs
        >= 1 by {
        assert(heap[q].head.refs >= 1);
    }
    lemma_cascade_closed(cleared, tasks, root, sources, work, rank);
}

/// The tasks with an id of `k` or more.
pub open spec fn tasks_from(tasks: Map<usize, Task>, k: nat) -> Map<usize, Task> {
    Map::new(|j: usize| tasks.contains_key(j) && j >= k, |j: usize| tasks[j])
}

/// The sources with a token of `k` or more.
pub open spec fn sources_from(sources: Map<usize, IoSourceView>, k: nat) -> Map<
    usize,
    IoSourceView,
> {
    Map::new(|j: usize| sources.contains_key(j) && j >= k, |j: usize| sources[j])
}

/// Dropping the tasks one by one, in a state that is closed and has no root
/// task, leaves the state closed.
pub proof fn lemma_tasks_closed<T>(
    heap: Map<usize, Core<T>>,
    tasks: Map<usize, Task>,
    sources: Map<usize, IoSourceView>,
    k: nat,
    rank: spec_fn(usize) -> nat,
)
    requires
        closed(heap, tasks, None, sources, Seq::empty(), rank),
        k <= limit(),
    ensures
        closed(
            tasks_dropped(heap, tasks, k).heap,
            tasks_from(tasks, k),
            None,
            sources,
            Seq::empty(),
            rank,
        ),
        tasks_dropped(heap, tasks, k).heap.dom().subset_of(heap.dom()),
        tasks_dropped(heap, tasks, k).gone.len() + tasks_dropped(heap, tasks, k).heap.dom().len()
            == heap.dom().len(),
    decreases k,
{
    if k == 0 {
        assert(tasks_from(tasks, 0) =~= tasks);
    } else {
        let j = (k - 1) as usize;
        lemma_tasks_closed(heap, tasks, sources, (k - 1) as nat, rank);
        let before = tasks_dropped(heap, tasks, (k - 1) as nat);
        let here = tasks_from(tasks, (k - 1) as nat);
        let rest = tasks_from(tasks, k);
        if tasks.contains_key(j) {
            assert(rest =~= here.remove(j));
            let raw = tasks[j].raw;
            let p = raw.ptr;
            assert(here.contains_key(j) && here[j].raw.ptr == p);
            lemma_task_removed(before.heap, here, None, j);
            assert(exact_at(before.heap, here, None, sources, Seq::empty(), p));
            assert forall|q: usize| q != p implies #[trigger] exact_at(
                before.heap,
                rest,
                None,
                sources,
                Seq::empty(),
                q,
            ) by {
                assert(exact_at(before.heap, here, None, sources, Seq::empty(), q));
                lemma_owner_kept(here, j, q);
            }
            assert forall|q: usize|
                q != p && before.heap.contains_key(q) && (
                #[trigger] before.heap[q]).tail.waker.is_some() implies pinned(rest, None, q) by {
                lemma_owner_kept(here, j, q);
            }
            lemma_dropped_closed(before.heap, rest, None, sources, raw, rank);
        } else {
            assert(rest =~= here);
        }
    }
}

/// A task that leaves the registry leaves the other cells owned as before.
pub proof fn lemma_owner_kept(tasks: Map<usize, Task>, k: usize, q: usize)
    requires
        tasks.contains_key(k),
        q != tasks[k].raw.ptr,
    ensures
        pinned(tasks.remove(k), None, q) == pinned(tasks, None, q),
{
    let rest = tasks.remove(k);
    if pinned(rest, None, q) {
        let j = choose|j: usize| rest.contains_key(j) && (#[trigger] rest[j]).raw.ptr == q;
        assert(tasks.contains_key(j) && tasks[j].raw.ptr == q);
    }
    if pinned(tasks, None, q) {
        let j = choose|j: usize| tasks.contains_key(j) && (#[trigger] tasks[j]).raw.ptr == q;
        assert(rest.contains_key(j) && rest[j].raw.ptr == q);
    }
}

/// Letting the sources go one by one, in a state that is closed, leaves the
/// state closed.
pub proof fn lemma_sources_closed<T>(
    heap: Map<usize, Core<T>>,
    tasks: Map<usize, Task>,
    sources: Map<usize, IoSourceView>,
    k: nat,
    rank: spec_fn(usize) -> nat,
)
    requires
        closed(heap, tasks, None, sources, Seq::empty(), rank),
        k <= limit(),
    ensures
        closed(
            sources_dropped(heap, sources, k).heap,
            tasks,
            None,
            sources_from(sources, k),
            Seq::empty(),
            rank,
        ),
        sources_dropped(heap, sources, k).heap.dom().subset_of(heap.dom()),
        sources_dropped(heap, sources, k).gone.len() + sources_dropped(
            heap,
            sources,
            k,
        ).heap.dom().len() == heap.dom().len(),
    decreases k,
{
    if k == 0 {
        assert(sources_from(sources, 0) =~= sources);
    } else {
        let j = (k - 1) as usize;
        lemma_sources_closed(heap, tasks, sources, (k - 1) as nat, rank);
        let before = sources_dropped(heap, sources, (k - 1) as nat);
        let here = sources_from(sources, (k - 1) as nat);
        let rest = sources_from(sources, k);
        let work = waiting(sources, j);
        if sources.contains_key(j) {
            assert(rest =~= here.remove(j));
            assert forall|q: usize| #[trigger]
                exact_at(before.heap, tasks, None, rest, work, q) by {
                assert(exact_at(before.heap, tasks, None, here, Seq::empty(), q));
                lemma_sources_remove(here, j, q, limit());
                lemma_list_concat(sources[j].rd, sources[j].wr, q);
            }
            lemma_cascade_closed(before.heap, tasks, None, rest, work, rank);
        } else {
            assert(rest =~= here);
        }
    }
}

/// Where wakers for a cell are held, some cell holds one.
pub proof fn lemma_holder<T>(heap: Map<usize, Core<T>>, p: usize, n: nat) -> (k: usize)
    requires
        heap_claims(heap, p, n) >= 1,
    ensures
        heap.contains_key(k),
        cell_claims(heap[k], p) >= 1,
    decreases n,
{
    if heap.contains_key((n - 1) as usize) && cell_claims(heap[(n - 1) as usize], p) >= 1 {
        (n - 1) as usize
    } else {
        lemma_holder(heap, p, (n - 1) as nat)
    }
}

/// Among the cells that are there, one ranks lowest.
pub proof fn lemma_lowest<T>(
    heap: Map<usize, Core<T>>,
    rank: spec_fn(usize) -> nat,
    p: usize,
) -> (m: usize)
    requires
        heap.contains_key(p),
    ensures
        heap.contains_key(m),
        forall|q: usize| heap.contains_key(q) ==> rank(m) <= rank(q),
    decreases rank(p),
{
    if exists|q: usize| heap.contains_key(q) && rank(q) < rank(p) {
        let q = choose|q: usize| heap.contains_key(q) && rank(q) < rank(p);
        lemma_lowest(heap, rank, q)
    } else {
        p
    }
}

/// When the runtime is dropped and nothing outside it refers to a cell, no
/// cell stays behind, and each cell is destroyed once: as many are destroyed
/// as there were. This needs that nobody awaits in a circle; two tasks that
/// await each other keep each other's cell for good.
pub proof fn law_nothing_leaks<T>(s: ExecutorView<T>, rank: spec_fn(usize) -> nat)
    requires
        closed(s.heap, s.tasks, s.root, s.sources, Seq::empty(), rank),
    ensures
        torn_down(s).heap == Map::<usize, Core<T>>::empty(),
        torn_down(s).gone.len() == s.heap.dom().len(),
{
    let first = match s.root {
        Some(t) => dropped_task(s.heap, t.raw),
        None => Cascade { heap: s.heap, gone: Seq::empty() },
    };
    if s.root is Some {
        let t = s.root.unwrap();
        let p = t.raw.ptr;
        assert(exact_at(s.heap, s.tasks, s.root, s.sources, Seq::empty(), p));
        assert forall|q: usize| q != p implies #[trigger] exact_at(
            s.heap,
            s.tasks,
            None,
            s.sources,
            Seq::empty(),
            q,
        ) by {
            assert(exact_at(s.heap, s.tasks, s.root, s.sources, Seq::empty(), q));
        }
        lemma_dropped_closed(s.heap, s.tasks, None, s.sources, t.raw, rank);
    }
    lemma_tasks_closed(first.heap, s.tasks, s.sources, limit(), rank);
    let second = tasks_dropped(first.heap, s.tasks, limit());
    assert(tasks_from(s.tasks, limit()) =~= Map::<usize, Task>::empty());
    lemma_sources_closed(second.heap, Map::<usize, Task>::empty(), s.sources, limit(), rank);
    let third = sources_dropped(second.heap, s.sources, limit());
    assert(sources_from(s.sources, limit()) =~= Map::<usize, IoSourceView>::empty());
    let none = Map::<usize, Task>::empty();
    let bare = Map::<usize, IoSourceView>::empty();
    if exists|p: usize| third.heap.contains_key(p) {
        let p = choose|p: usize| third.heap.contains_key(p);
        let m = lemma_lowest(third.heap, rank, p);
        assert(exact_at(third.heap, none, None, bare, Seq::empty(), m));
        lemma_sources_empty(m, limit());
        assert(!pinned(none, None, m));
        let k = lemma_holder(third.heap, m, limit());
        assert(!pinned(none, None, k));
        assert(third.heap[k].tail.waker.is_none());
    }
    assert(third.heap =~= Map::<usize, Core<T>>::empty());
    assert(third.heap.dom() =~= Set::<usize>::empty());
}

/// Where no task has an id of `k` or more, dropping the tasks below `k` is
/// dropping them all.
pub proof fn lemma_tasks_done<T>(heap: Map<usize, Core<T>>, tasks: Map<usize, Task>, k: nat, n: nat)
    requires
        k <= n <= limit(),
        forall|j: usize| tasks.contains_key(j) ==> j < k,
    ensures
        tasks_dropped(heap, tasks, n) == tasks_dropped(heap, tasks, k),
    decreases n,
{
    if k < n {
        lemma_tasks_done(heap, tasks, k, (n - 1) as nat);
    }
}

/// Where no source has a token of `k` or more, letting the sources below `k`
/// go is letting them all go.
pub proof fn lemma_sources_done<T>(
    heap: Map<usize, Core<T>>,
    sources: Map<usize, IoSourceView>,
    k: nat,
    n: nat,
)
    requires
        k <= n <= limit(),
        forall|j: usize| sources.contains_key(j) ==> j < k,
    ensures
        sources_dropped(heap, sources, n) == sources_dropped(heap, sources, k),
    decreases n,
{
    if k < n {
        lemma_sources_done(heap, sources, k, (n - 1) as nat);
    }
}

impl<T> ExecutorView<T> {
    /// Whether nothing outside the runtime refers to a cell: every count is
    /// exactly what the runtime itself accounts for.
    pub open spec fn unshared(self) -> bool {
        forall|p: usize| #[trigger]
            exact_at(self.heap, self.tasks, self.root, self.sources, Seq::empty(), p)
    }

    /// Whether a cell awaits through the handle of another only where that
    /// other ranks higher by `rank`.
    pub open spec fn ranked(self, rank: spec_fn(usize) -> nat) -> bool {
        ranked(self.heap, rank)
    }
}

} // verus!
