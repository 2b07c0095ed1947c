//! Who holds the references to a cell: what the executor itself accounts for,
//! and what happens when a reference is released.

use crate::reactor::io_source::{drained, IoSourceView};
use crate::reactor::reactor::{dispatched, known, turn, Event, SHUTDOWN};
use crate::runtime::executor::pinned;
use crate::task::task::{released, with_refs, Core, Task};
use crate::task::waker::Waker;
use vstd::prelude::*;

verus! {

/// One more than the largest key that a table can have.
pub open spec fn limit() -> nat {
    (usize::MAX + 1) as nat
}

/// 1 if `w` is a waker for the cell at `p`, else 0.
pub open spec fn aims(w: Option<Waker>, p: usize) -> nat {
    match w {
        Some(w) => if w.raw.ptr == p {
            1
        } else {
            0
        },
        None => 0,
    }
}

/// How many of the two wakers that the cell `c` holds are for the cell at `p`.
pub open spec fn cell_claims<T>(c: Core<T>, p: usize) -> nat {
    aims(c.tail.waker, p) + aims(c.tail.h_waker, p)
}

/// How many of the wakers `ws` are for the cell at `p`.
pub open spec fn list_claims(ws: Seq<Waker>, p: usize) -> nat
    decreases ws.len(),
{
    if ws.len() == 0 {
        0
    } else {
        list_claims(ws.drop_last(), p) + aims(Some(ws.last()), p)
    }
}

/// How many of the wakers that wait for the source `s` are for the cell at
/// `p`.
pub open spec fn source_claims(s: IoSourceView, p: usize) -> nat {
    list_claims(s.rd, p) + list_claims(s.wr, p)
}

/// How many wakers for the cell at `p` the cells with an address below `n`
/// hold.
pub open spec fn heap_claims<T>(heap: Map<usize, Core<T>>, p: usize, n: nat) -> nat
    decreases n,
{
    if n == 0 {
        0
    } else {
        heap_claims(heap, p, (n - 1) as nat) + (if heap.contains_key((n - 1) as usize) {
            cell_claims(heap[(n - 1) as usize], p)
        } else {
            0
        })
    }
}

/// How many wakers for the cell at `p` wait for the sources with a token
/// below `n`.
pub open spec fn sources_claims(m: Map<usize, IoSourceView>, p: usize, n: nat) -> nat
    decreases n,
{
    if n == 0 {
        0
    } else {
        sources_claims(m, p, (n - 1) as nat) + (if m.contains_key((n - 1) as usize) {
            source_claims(m[(n - 1) as usize], p)
        } else {
            0
        })
    }
}

/// How many wakers for the cell at `p` the runtime itself holds: in cells, as
/// a task's own waker or as the waker of a handle, and in the lists of the
/// sources.
pub open spec fn claims<T>(
    heap: Map<usize, Core<T>>,
    sources: Map<usize, IoSourceView>,
    p: usize,
) -> nat {
    heap_claims(heap, p, limit()) + sources_claims(sources, p, limit())
}

pub proof fn lemma_list_push(ws: Seq<Waker>, w: Waker, p: usize)
    ensures
        list_claims(ws.push(w), p) == list_claims(ws, p) + aims(Some(w), p),
{
    assert(ws.push(w).drop_last() =~= ws);
}

pub proof fn lemma_list_concat(a: Seq<Waker>, b: Seq<Waker>, p: usize)
    ensures
        list_claims(a + b, p) == list_claims(a, p) + list_claims(b, p),
    decreases b.len(),
{
    if b.len() == 0 {
        assert(a + b =~= a);
    } else {
        lemma_list_concat(a, b.drop_last(), p);
        assert((a + b).drop_last() =~= a + b.drop_last());
    }
}

pub proof fn lemma_list_one(w: Waker, p: usize)
    ensures
        list_claims(seq![w], p) == aims(Some(w), p),
{
    assert(seq![w] =~= Seq::<Waker>::empty().push(w));
    lemma_list_push(Seq::<Waker>::empty(), w, p);
}

pub proof fn lemma_list_drained(ws: Seq<Waker>, p: usize)
    ensures
        list_claims(drained(ws), p) == list_claims(ws, p),
    decreases ws.len(),
{
    if ws.len() > 0 {
        lemma_list_drained(ws.drop_last(), p);
        lemma_list_one(ws.last(), p);
        lemma_list_concat(seq![ws.last()], drained(ws.drop_last()), p);
        assert(drained(ws) =~= seq![ws.last()] + drained(ws.drop_last()));
    } else {
        assert(drained(ws) =~= ws);
    }
}

pub proof fn lemma_heap_grows<T>(heap: Map<usize, Core<T>>, p: usize, k: nat, n: nat)
    requires
        k <= n,
    ensures
        heap_claims(heap, p, k) <= heap_claims(heap, p, n),
    decreases n,
{
    if k < n {
        lemma_heap_grows(heap, p, k, (n - 1) as nat);
    }
}

pub proof fn lemma_sources_grow(m: Map<usize, IoSourceView>, p: usize, k: nat, n: nat)
    requires
        k <= n,
    ensures
        sources_claims(m, p, k) <= sources_claims(m, p, n),
    decreases n,
{
    if k < n {
        lemma_sources_grow(m, p, k, (n - 1) as nat);
    }
}

/// Cells at or above `k`, if there are none, add nothing.
pub proof fn lemma_heap_above<T>(heap: Map<usize, Core<T>>, p: usize, k: nat, n: nat)
    requires
        k <= n <= limit(),
        forall|j: usize| heap.contains_key(j) ==> j < k,
    ensures
        heap_claims(heap, p, n) == heap_claims(heap, p, k),
    decreases n,
{
    if k < n {
        lemma_heap_above(heap, p, k, (n - 1) as nat);
    }
}

pub proof fn lemma_sources_above(m: Map<usize, IoSourceView>, p: usize, k: nat, n: nat)
    requires
        k <= n <= limit(),
        forall|j: usize| m.contains_key(j) ==> j < k,
    ensures
        sources_claims(m, p, n) == sources_claims(m, p, k),
    decreases n,
{
    if k < n {
        lemma_sources_above(m, p, k, (n - 1) as nat);
    }
}

/// What the cell at `k` holds, counted only if it is there.
pub open spec fn share<T>(heap: Map<usize, Core<T>>, k: usize, p: usize) -> nat {
    if heap.contains_key(k) {
        cell_claims(heap[k], p)
    } else {
        0
    }
}

/// What waits for the source `k`, counted only if it is there.
pub open spec fn source_share(m: Map<usize, IoSourceView>, k: usize, p: usize) -> nat {
    if m.contains_key(k) {
        source_claims(m[k], p)
    } else {
        0
    }
}

pub proof fn lemma_heap_insert<T>(heap: Map<usize, Core<T>>, k: usize, c: Core<T>, p: usize, n: nat)
    requires
        n <= limit(),
    ensures
        heap_claims(heap.insert(k, c), p, n) + (if k < n {
            share(heap, k, p)
        } else {
            0
        }) == heap_claims(heap, p, n) + (if k < n {
            cell_claims(c, p)
        } else {
            0
        }),
    decreases n,
{
    if n > 0 {
        lemma_heap_insert(heap, k, c, p, (n - 1) as nat);
    }
}

pub proof fn lemma_heap_remove<T>(heap: Map<usize, Core<T>>, k: usize, p: usize, n: nat)
    requires
        n <= limit(),
    ensures
        heap_claims(heap.remove(k), p, n) + (if k < n {
            share(heap, k, p)
        } else {
            0
        }) == heap_claims(heap, p, n),
    decreases n,
{
    if n > 0 {
        lemma_heap_remove(heap, k, p, (n - 1) as nat);
    }
}

pub proof fn lemma_sources_insert(
    m: Map<usize, IoSourceView>,
    k: usize,
    s: IoSourceView,
    p: usize,
    n: nat,
)
    requires
        n <= limit(),
    ensures
        sources_claims(m.insert(k, s), p, n) + (if k < n {
            source_share(m, k, p)
        } else {
            0
        }) == sources_claims(m, p, n) + (if k < n {
            source_claims(s, p)
        } else {
            0
        }),
    decreases n,
{
    if n > 0 {
        lemma_sources_insert(m, k, s, p, (n - 1) as nat);
    }
}

pub proof fn lemma_sources_remove(m: Map<usize, IoSourceView>, k: usize, p: usize, n: nat)
    requires
        n <= limit(),
    ensures
        sources_claims(m.remove(k), p, n) + (if k < n {
            source_share(m, k, p)
        } else {
            0
        }) == sources_claims(m, p, n),
    decreases n,
{
    if n > 0 {
        lemma_sources_remove(m, k, p, (n - 1) as nat);
    }
}

pub proof fn lemma_heap_empty<T>(p: usize, n: nat)
    ensures
        heap_claims(Map::<usize, Core<T>>::empty(), p, n) == 0,
    decreases n,
{
    if n > 0 {
        lemma_heap_empty::<T>(p, (n - 1) as nat);
    }
}

pub proof fn lemma_sources_empty(p: usize, n: nat)
    ensures
        sources_claims(Map::<usize, IoSourceView>::empty(), p, n) == 0,
    decreases n,
{
    if n > 0 {
        lemma_sources_empty(p, (n - 1) as nat);
    }
}

/// An event moves wakers from the lists of a source to those that it wakes:
/// none is lost and none is made.
pub proof fn lemma_event_conserves(s: IoSourceView, readable: bool, writable: bool, p: usize)
    ensures
        source_claims(s.after(readable, writable), p) + list_claims(
            s.woken(readable, writable),
            p,
        ) == source_claims(s, p),
{
    lemma_list_drained(s.rd, p);
    lemma_list_drained(s.wr, p);
    lemma_list_concat(drained(s.rd), drained(s.wr), p);
}

/// A pass over a batch of events moves wakers from the lists of the sources to
/// those that it wakes: none is lost and none is made.
pub proof fn lemma_turn_conserves(m: Map<usize, IoSourceView>, events: Seq<Event>, p: usize)
    requires
        known(m.dom(), events),
    ensures
        sources_claims(turn(m, events).sources, p, limit()) + list_claims(
            turn(m, events).woken,
            p,
        ) == sources_claims(m, p, limit()),
        turn(m, events).sources.dom() == m.dom(),
    decreases events.len(),
{
    if events.len() > 0 && events[0].token != SHUTDOWN {
        let e = events[0];
        let next = dispatched(m, e);
        assert(next.dom() =~= m.dom());
        lemma_turn_conserves(next, events.drop_first(), p);
        lemma_event_conserves(m[e.token], e.readable, e.writable, p);
        lemma_sources_insert(m, e.token, m[e.token].after(e.readable, e.writable), p, limit());
        lemma_list_concat(
            m[e.token].woken(e.readable, e.writable),
            turn(next, events.drop_first()).woken,
            p,
        );
    }
}

/// 1 if a registered task or the root task owns the cell at `p`, else 0.
pub open spec fn owner(tasks: Map<usize, Task>, root: Option<Task>, p: usize) -> nat {
    if pinned(tasks, root, p) {
        1
    } else {
        0
    }
}

/// Whether the count of the cell at `p` covers what refers to it: the task
/// that owns it, the wakers that the runtime holds, and the wakers `work`
/// that are about to be released. A cell that is gone has none of these.
pub open spec fn counted_at<T>(
    heap: Map<usize, Core<T>>,
    tasks: Map<usize, Task>,
    root: Option<Task>,
    sources: Map<usize, IoSourceView>,
    work: Seq<Waker>,
    p: usize,
) -> bool {
    &&& claims(heap, sources, p) + list_claims(work, p) > 0 ==> heap.contains_key(p)
    &&& heap.contains_key(p) ==> heap[p].head.refs >= owner(tasks, root, p) + claims(
        heap,
        sources,
        p,
    ) + list_claims(work, p)
}

/// Whether the count of every cell covers what refers to it.
pub open spec fn counted<T>(
    heap: Map<usize, Core<T>>,
    tasks: Map<usize, Task>,
    root: Option<Task>,
    sources: Map<usize, IoSourceView>,
    work: Seq<Waker>,
) -> bool {
    forall|p: usize| #[trigger] counted_at(heap, tasks, root, sources, work, p)
}

/// The wakers that the cell `c` holds: its own, then that of its handle.
pub open spec fn wakers_of<T>(c: Core<T>) -> Seq<Waker> {
    (match c.tail.waker {
        Some(w) => seq![w],
        None => Seq::empty(),
    }) + (match c.tail.h_waker {
        Some(w) => seq![w],
        None => Seq::empty(),
    })
}

/// What releasing a number of wakers comes to.
pub struct Cascade<T> {
    /// The heap afterwards.
    pub heap: Map<usize, Core<T>>,
    /// The cells that were destroyed, in the order in which they went.
    pub gone: Seq<Core<T>>,
}

/// Releases the wakers `work`, the last one first. A release that takes the
/// last reference to a cell destroys the cell, and the wakers that the cell
/// held are released in turn, before the rest of `work`. A waker whose cell is
/// gone already releases nothing.
pub open spec fn cascaded<T>(heap: Map<usize, Core<T>>, work: Seq<Waker>) -> Cascade<T>
    decreases 2 * heap.dom().len() + work.len(),
    when heap.dom().finite()
    via cascaded_ends::<T>
{
    if work.len() == 0 {
        Cascade { heap, gone: Seq::empty() }
    } else {
        let w = work.last();
        let rest = work.drop_last();
        if !heap.contains_key(w.raw.ptr) || heap[w.raw.ptr].head.refs == 0 {
            cascaded(heap, rest)
        } else if heap[w.raw.ptr].head.refs > 1 {
            cascaded(released(heap, w.raw), rest)
        } else {
            let cell = with_refs(heap, w.raw, 0)[w.raw.ptr];
            let after = cascaded(heap.remove(w.raw.ptr), rest + wakers_of(cell));
            Cascade { heap: after.heap, gone: seq![cell] + after.gone }
        }
    }
}

#[via_fn]
proof fn cascaded_ends<T>(heap: Map<usize, Core<T>>, work: Seq<Waker>) {
    if work.len() > 0 {
        let w = work.last();
        if heap.contains_key(w.raw.ptr) && heap[w.raw.ptr].head.refs > 1 {
            assert(released(heap, w.raw).dom() =~= heap.dom());
        }
        if heap.contains_key(w.raw.ptr) && heap[w.raw.ptr].head.refs == 1 {
            assert(heap.remove(w.raw.ptr).dom() =~= heap.dom().remove(w.raw.ptr));
        }
    }
}

pub proof fn lemma_wakers_of<T>(c: Core<T>, p: usize)
    ensures
        list_claims(wakers_of(c), p) == cell_claims(c, p),
        wakers_of(c).len() <= 2,
{
    let a = match c.tail.waker {
        Some(w) => seq![w],
        None => Seq::empty(),
    };
    let b = match c.tail.h_waker {
        Some(w) => seq![w],
        None => Seq::empty(),
    };
    lemma_list_concat(a, b, p);
    if c.tail.waker is Some {
        lemma_list_one(c.tail.waker.unwrap(), p);
    }
    if c.tail.h_waker is Some {
        lemma_list_one(c.tail.h_waker.unwrap(), p);
    }
}

/// What one cell holds is part of what all cells hold.
pub proof fn lemma_share_counts<T>(heap: Map<usize, Core<T>>, k: usize, p: usize)
    ensures
        share(heap, k, p) <= heap_claims(heap, p, limit()),
{
    lemma_heap_remove(heap, k, p, limit());
}

/// A change to a cell that leaves its wakers alone changes no claim.
pub proof fn lemma_same_wakers<T>(heap: Map<usize, Core<T>>, k: usize, c: Core<T>, p: usize)
    requires
        heap.contains_key(k),
        c.tail == heap[k].tail,
    ensures
        heap_claims(heap.insert(k, c), p, limit()) == heap_claims(heap, p, limit()),
{
    lemma_heap_insert(heap, k, c, p, limit());
}

} // verus!
