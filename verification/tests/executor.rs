use coop_runtime::reactor::reactor::Direction;
use coop_runtime::reactor::reactor::Event;
use coop_runtime::reactor::reactor::SHUTDOWN;
use coop_runtime::runtime::executor::Drive;
use coop_runtime::runtime::executor::Executor;
use coop_runtime::runtime::executor::ExecutorHandle;
use coop_runtime::runtime::executor::Outcome;
use coop_runtime::runtime::executor::RtState;
use coop_runtime::runtime::executor::Work;
use coop_runtime::task::note::Note;
use coop_runtime::task::note::ROOT_ID;
use coop_runtime::task::task::Poll;
use coop_runtime::task::task::RawTask;
use coop_runtime::task::waker::Waker;

fn copy(w: &Waker) -> Waker {
    Waker {
        raw: w.raw,
        note: w.note,
    }
}

fn refs<T>(h: &ExecutorHandle<T>, raw: RawTask) -> u8 {
    h.cell(raw).unwrap().header().refs
}

/// The waker of the root task, as the computation sees it while it is polled.
fn root_waker<T>(h: &ExecutorHandle<T>, root: RawTask) -> Waker {
    copy(h.cell(root).unwrap().waker().unwrap())
}

/// The waker of a registered task, as the computation sees it while it is
/// polled.
fn task_waker<T>(h: &ExecutorHandle<T>, n: Note) -> Waker {
    copy(h.waker(n).unwrap())
}

fn event(token: usize, readable: bool, writable: bool) -> Event {
    Event {
        token,
        readable,
        writable,
    }
}

#[test]
fn new_runtime_is_empty() {
    let mut exec: Executor<u32> = Executor::new(2, 2);
    assert_eq!(exec.rt_state(), RtState::Good);
    let h = exec.get();
    assert_eq!(h.tasks_len(), 0);
    assert_eq!(h.cells_len(), 0);
    assert_eq!(h.queue_len(), 0);
    assert!(h.is_staffed());
    assert!(h.can_deploy());
    assert_eq!(h.pool_fn().len(), 2);
    assert_eq!(h.vacant_token(), 0);
    assert!(!h.is_addressed(Note(0)));
    assert!(h.task(Note(0)).is_none());
    assert!(h.waker(Note(0)).is_none());
    assert!(!h.has_root());
    assert!(!h.has_foreign());
}

#[test]
fn runtime_without_threads_has_no_worker() {
    let mut exec: Executor<u32> = Executor::new(4, 0);
    assert!(!exec.get().is_staffed());
    let mut exec: Executor<u32> = Executor::new(4, 3);
    assert_eq!(exec.get().pool_fn().len(), 3);
}

#[test]
fn immediate_root() {
    let mut exec: Executor<i32> = Executor::new(2, 2);
    let root = exec.start();
    assert_eq!(exec.get().cells_len(), 1);
    assert_eq!(exec.get().cell(root).unwrap().header().id, ROOT_ID);
    assert_eq!(refs(exec.get(), root), 2);
    assert!(exec.get().is_pinned(root));
    assert_eq!(exec.get().claims_on(root), 1);
    assert!(!exec.get().can_release(root));
    let d = exec.block_on(Outcome::Ready(42));
    assert!(matches!(d, Drive::Done(Ok(42))));
    assert_eq!(exec.rt_state(), RtState::Good);
    assert_eq!(exec.get().tasks_len(), 0);
    assert_eq!(exec.get().cells_len(), 0);
    exec.shutdown();
    for k in 0..2 {
        assert_eq!(exec.get().thread_function(k), Work::Exit);
        assert_eq!(exec.get().thread_function(k), Work::Wait);
        assert!(!exec.get().pool_fn().worker(k).unwrap().chan.open());
    }
    exec.get().pool_fn().join();
    assert!(!exec.get().pool_fn().worker(0).unwrap().running);
}

#[test]
fn root_panic_ends_the_run() {
    let mut exec: Executor<i32> = Executor::new(1, 1);
    let _ = exec.start();
    let d = exec.block_on(Outcome::Panicked);
    assert!(matches!(d, Drive::Done(Err(RtState::MainTaskPanicked))));
    assert_eq!(exec.rt_state(), RtState::MainTaskPanicked);
    assert_eq!(exec.get().cells_len(), 0);
    let _ = exec.start();
    assert_eq!(exec.rt_state(), RtState::Good);
}

#[test]
fn pending_root_waits_for_a_notification() {
    let mut exec: Executor<i32> = Executor::new(1, 1);
    let root = exec.start();
    assert!(matches!(exec.block_on(Outcome::Pending), Drive::Wait));
    assert!(matches!(exec.resume(), Drive::Wait));
    let w = root_waker(exec.get(), root);
    exec.get().wake(&w);
    assert_eq!(exec.get().queue_len(), 1);
    assert!(matches!(exec.resume(), Drive::Repoll));
    assert_eq!(exec.get().queue_len(), 0);
    assert!(matches!(exec.block_on(Outcome::Ready(1)), Drive::Done(Ok(1))));
}

#[test]
fn one_spawn() {
    let mut exec: Executor<i32> = Executor::new(2, 2);
    let root = exec.start();

    // The root task spawns and awaits the handle.
    let (handle, note, worker) = exec.spawn();
    assert_eq!(note, Note(0));
    assert_eq!(worker, 0);
    assert_eq!(exec.get().tasks_len(), 1);
    assert_eq!(refs(exec.get(), handle.raw()), 3);
    let w = root_waker(exec.get(), root);
    let (out, gone) = exec.get().review(&handle, &w);
    assert!(out.is_pending());
    assert!(gone.is_empty());
    assert_eq!(refs(exec.get(), root), 3);
    assert_eq!(exec.get().claims_on(root), 2);
    assert!(matches!(exec.block_on(Outcome::Pending), Drive::Wait));

    // A worker polls the spawned task, which is ready with 0.
    assert_eq!(exec.get().thread_function(1), Work::Wait);
    assert_eq!(exec.get().thread_function(worker), Work::Poll(note));
    assert!(exec.get().pool_fn().worker(worker).unwrap().occupied);
    assert!(exec.get().task(note).unwrap().polling);
    assert_eq!(exec.get().waker(note).unwrap().note, note);
    let gone = exec.get().polled(worker, note, Outcome::Ready(0));
    assert!(gone.is_empty());
    assert!(!exec.get().pool_fn().worker(worker).unwrap().occupied);
    assert_eq!(exec.get().pool_fn().worker(worker).unwrap().tasks_received, 1);
    assert_eq!(exec.get().tasks_len(), 0);
    assert!(!exec.get().is_addressed(note));
    assert_eq!(refs(exec.get(), handle.raw()), 1);

    // Finishing woke the root task, which now finds the value.
    assert!(matches!(exec.resume(), Drive::Repoll));
    let (out, gone) = exec.get().review(&handle, &w);
    assert!(matches!(out, Poll::Ready(0)));
    assert!(gone.is_empty());
    let (out, _) = exec.get().review(&handle, &w);
    assert!(out.is_pending());
    assert_eq!(refs(exec.get(), root), 3);

    // Dropping the handle destroys the cell, and with it the waker that it
    // held for the root task.
    assert!(exec.get().can_release(handle.raw()));
    let gone = exec.get().release(handle);
    assert_eq!(gone.len(), 1);
    assert_eq!(gone[0].header().id, 0);
    assert_eq!(refs(exec.get(), root), 2);
    assert!(matches!(exec.block_on(Outcome::Ready(0)), Drive::Done(Ok(0))));
    assert_eq!(exec.get().cells_len(), 0);

    // The slot of the task is free again.
    let _ = exec.start();
    let (_, note, _) = exec.spawn();
    assert_eq!(note, Note(0));
}

#[test]
fn spawned_task_panic() {
    let mut exec: Executor<i32> = Executor::new(1, 1);
    let root = exec.start();
    let (first, a, _) = exec.spawn();
    let (second, b, _) = exec.spawn();
    assert_eq!((a, b), (Note(0), Note(1)));
    let w = root_waker(exec.get(), root);
    let _ = exec.get().review(&second, &w);
    assert!(matches!(exec.block_on(Outcome::Pending), Drive::Wait));

    assert_eq!(exec.get().thread_function(0), Work::Poll(a));
    assert!(exec.get().polled(0, a, Outcome::Panicked).is_empty());
    assert!(!exec.get().is_addressed(a));
    assert!(exec.get().is_addressed(b));
    assert!(!exec.get().pool_fn().worker(0).unwrap().ok);
    assert_eq!(exec.get().queue_len(), 0);

    assert_eq!(exec.get().thread_function(0), Work::Poll(b));
    assert!(exec.get().polled(0, b, Outcome::Ready(7)).is_empty());
    assert_eq!(exec.get().tasks_len(), 0);

    assert!(matches!(exec.resume(), Drive::Repoll));
    let (out, _) = exec.get().review(&second, &w);
    assert!(matches!(out, Poll::Ready(7)));
    assert_eq!(exec.get().release(second).len(), 1);

    // The handle of the task that panicked never gets a value.
    let (out, _) = exec.get().review(&first, &w);
    assert!(out.is_pending());
    assert_eq!(exec.get().release(first).len(), 1);

    assert_eq!(refs(exec.get(), root), 2);
    assert!(matches!(exec.block_on(Outcome::Ready(7)), Drive::Done(Ok(7))));
    assert_eq!(exec.rt_state(), RtState::Good);
    assert_eq!(exec.get().cells_len(), 0);
}

#[test]
fn shutdown_races() {
    let mut exec: Executor<i32> = Executor::new(1, 1);
    let _ = exec.start();
    let (handle, note, worker) = exec.spawn();
    // Woken twice more before any poll.
    let w = task_waker(exec.get(), note);
    exec.get().wake(&w);
    exec.get().wake(&w);
    assert!(matches!(exec.block_on(Outcome::Pending), Drive::Wait));
    assert_eq!(exec.get().pool_fn().worker(worker).unwrap().tasks_received, 3);

    assert_eq!(exec.get().thread_function(worker), Work::Poll(note));
    let _ = exec.get().polled(worker, note, Outcome::Ready(1));
    let gone = exec.get().release(handle);
    assert_eq!(gone.len(), 1);
    assert_eq!(gone[0].header().refs, 0);
    assert!(matches!(gone[0].mid.poll, Poll::Ready(1)));
    assert!(matches!(exec.block_on(Outcome::Ready(0)), Drive::Done(Ok(0))));

    // Two notifications for the finished task are still queued.
    exec.shutdown();
    assert_eq!(exec.get().thread_function(worker), Work::Stale(note));
    assert!(!exec.get().pool_fn().worker(worker).unwrap().occupied);
    assert_eq!(exec.get().thread_function(worker), Work::Stale(note));
    assert_eq!(exec.get().thread_function(worker), Work::Exit);
    assert_eq!(exec.get().thread_function(worker), Work::Wait);
    assert_eq!(exec.get().cells_len(), 0);
    assert_eq!(exec.get().tasks_len(), 0);
}

#[test]
fn late_report_for_a_finished_task_records_nothing() {
    let mut exec: Executor<i32> = Executor::new(2, 2);
    let (handle, note, worker) = exec.spawn();
    assert_eq!(exec.get().thread_function(worker), Work::Poll(note));
    let _ = exec.get().polled(worker, note, Outcome::Ready(5));
    assert!(exec.get().polled(1, note, Outcome::Ready(6)).is_empty());
    assert!(exec.get().polled(1, note, Outcome::Panicked).is_empty());
    assert!(!exec.get().pool_fn().worker(1).unwrap().ok);
    assert!(matches!(exec.get().cell(handle.raw()).unwrap().mid.poll, Poll::Ready(5)));
    assert_eq!(refs(exec.get(), handle.raw()), 1);
    assert!(exec.get().polled(0, Note(u64::MAX), Outcome::Pending).is_empty());
}

#[test]
fn spurious_polls_leave_the_task_registered() {
    let mut exec: Executor<i32> = Executor::new(1, 1);
    let _ = exec.start();
    let (handle, note, worker) = exec.spawn();
    let w = task_waker(exec.get(), note);
    for _ in 0..3 {
        exec.get().wake(&w);
    }
    assert_eq!(exec.get().queue_len(), 3);
    assert!(matches!(exec.block_on(Outcome::Pending), Drive::Wait));
    assert_eq!(exec.get().queue_len(), 0);
    for _ in 0..3 {
        assert_eq!(exec.get().thread_function(worker), Work::Poll(note));
        assert!(exec.get().polled(worker, note, Outcome::Pending).is_empty());
        assert!(exec.get().is_addressed(note));
        assert!(!exec.get().task(note).unwrap().polling);
        assert_eq!(refs(exec.get(), handle.raw()), 3);
        assert!(exec.get().cell(handle.raw()).unwrap().mid.poll.is_pending());
        assert_eq!(exec.get().queue_len(), 0);
    }
    assert_eq!(exec.get().thread_function(worker), Work::Poll(note));
    let _ = exec.get().polled(worker, note, Outcome::Ready(9));
    assert_eq!(exec.get().thread_function(worker), Work::Wait);
    assert_eq!(refs(exec.get(), handle.raw()), 1);
}

#[test]
fn wake_during_a_poll_is_not_lost() {
    let mut exec: Executor<i32> = Executor::new(2, 2);
    let _ = exec.start();
    let (_handle, note, first) = exec.spawn();
    let w = task_waker(exec.get(), note);
    exec.get().wake(&w);
    assert!(matches!(exec.block_on(Outcome::Pending), Drive::Wait));
    let second = 1 - first;
    // One worker polls the task; the other finds it taken.
    assert_eq!(exec.get().thread_function(first), Work::Poll(note));
    assert_eq!(exec.get().thread_function(second), Work::Busy(note));
    assert!(!exec.get().pool_fn().worker(second).unwrap().occupied);
    assert!(exec.get().task(note).unwrap().polling);
    assert!(exec.get().task(note).unwrap().woken);
    assert_eq!(exec.get().queue_len(), 0);
    // The poll comes to pending: the wake is queued again.
    assert!(exec.get().polled(first, note, Outcome::Pending).is_empty());
    assert_eq!(exec.get().queue_len(), 1);
    assert!(!exec.get().task(note).unwrap().polling);
    assert!(!exec.get().task(note).unwrap().woken);
    assert!(matches!(exec.resume(), Drive::Wait));
    assert_eq!(exec.get().queue_len(), 0);
    let polls = [exec.get().thread_function(0), exec.get().thread_function(1)];
    assert!(polls.contains(&Work::Poll(note)));
    assert!(polls.contains(&Work::Wait));
}

#[test]
fn a_finished_poll_forgets_the_mark() {
    let mut exec: Executor<i32> = Executor::new(2, 2);
    let (handle, note, first) = exec.spawn();
    let w = task_waker(exec.get(), note);
    let _ = exec.start();
    exec.get().wake(&w);
    assert!(matches!(exec.block_on(Outcome::Pending), Drive::Wait));
    assert_eq!(exec.get().thread_function(first), Work::Poll(note));
    assert_eq!(exec.get().thread_function(1 - first), Work::Busy(note));
    let _ = exec.get().polled(first, note, Outcome::Ready(4));
    assert_eq!(exec.get().queue_len(), 0);
    assert!(!exec.get().is_addressed(note));
    assert_eq!(refs(exec.get(), handle.raw()), 1);
}

#[test]
fn driver_forwards_what_is_not_for_the_root() {
    let mut exec: Executor<i32> = Executor::new(2, 2);
    let root = exec.start();
    let (_h0, a, wa) = exec.spawn();
    let (_h1, b, wb) = exec.spawn();
    assert_eq!((wa, wb), (0, 1));
    let to_a = task_waker(exec.get(), a);
    let to_b = task_waker(exec.get(), b);
    let to_root = root_waker(exec.get(), root);
    exec.get().wake(&to_b);
    exec.get().wake(&to_a);
    exec.get().wake(&to_root);
    exec.get().wake(&to_a);
    assert!(exec.get().has_foreign());
    assert!(matches!(exec.block_on(Outcome::Pending), Drive::Repoll));
    assert_eq!(exec.get().queue_len(), 1);
    assert_eq!(exec.get().pool_fn().worker(0).unwrap().tasks_received, 2);
    assert_eq!(exec.get().pool_fn().worker(1).unwrap().tasks_received, 2);
    assert_eq!(exec.get().thread_function(0), Work::Poll(a));
    assert_eq!(exec.get().thread_function(1), Work::Poll(b));
    assert!(matches!(exec.block_on(Outcome::Pending), Drive::Wait));
    assert_eq!(exec.get().queue_len(), 0);
    // Both workers are occupied: the least loaded of all gets the note.
    assert_eq!(exec.get().pool_fn().worker(0).unwrap().tasks_received, 3);
}

#[test]
fn waker_references_are_counted() {
    let mut exec: Executor<i32> = Executor::new(1, 1);
    let (handle, note, _) = exec.spawn();
    let raw = handle.raw();
    assert_eq!(refs(exec.get(), raw), 3);
    assert_eq!(exec.get().claims_on(raw), 1);
    let seen = task_waker(exec.get(), note);
    let mut held = Vec::new();
    for i in 0..5 {
        assert!(exec.get().can_clone(raw));
        held.push(exec.get().clone_waker(&seen));
        assert_eq!(refs(exec.get(), raw), 4 + i);
    }
    assert_eq!(exec.get().claims_on(raw), 1);
    held.pop().map(|w| exec.get().drop_waker(w));
    held.pop().map(|w| exec.get().drop_waker(w));
    assert_eq!(refs(exec.get(), raw), 3 + 5 - 2);
    for w in held {
        assert!(exec.get().can_release(w.raw));
        assert!(exec.get().drop_waker(w).is_empty());
    }
    assert_eq!(refs(exec.get(), raw), 3);
    // What the registry and the cell's own waker account for cannot be released.
    assert!(exec.get().can_release(raw));
    assert!(exec.get().release(handle).is_empty());
    assert_eq!(refs(exec.get(), raw), 2);
    assert!(!exec.get().can_release(raw));
    assert!(!exec.get().can_release(RawTask::from_ptr(77)));
    assert!(!exec.get().can_clone(RawTask::from_ptr(77)));
    assert_eq!(exec.get().claims_on(RawTask::from_ptr(77)), 0);
    assert_eq!(exec.get().thread_function(0), Work::Poll(note));
    let gone = exec.get().polled(0, note, Outcome::Ready(3));
    assert_eq!(gone.len(), 1);
    assert_eq!(gone[0].header().refs, 0);
    assert!(matches!(gone[0].mid.poll, Poll::Ready(3)));
    assert_eq!(exec.get().cells_len(), 0);
}

#[test]
fn a_destroyed_cell_releases_the_wakers_it_held() {
    let mut exec: Executor<i32> = Executor::new(1, 1);
    // The second task awaits the first, the third awaits the second.
    let (first, a, _) = exec.spawn();
    let (second, b, _) = exec.spawn();
    let (third, c, _) = exec.spawn();
    let as_second = task_waker(exec.get(), b);
    let as_third = task_waker(exec.get(), c);
    let _ = exec.get().review(&first, &as_second);
    let _ = exec.get().review(&second, &as_third);
    assert_eq!(refs(exec.get(), second.raw()), 4);
    assert_eq!(refs(exec.get(), third.raw()), 4);
    assert_eq!(exec.get().claims_on(second.raw()), 2);
    // All three end; their cells stay for their handles and for the wakers.
    for n in [a, b, c] {
        assert_eq!(exec.get().thread_function(0), Work::Poll(n));
        assert!(exec.get().polled(0, n, Outcome::Ready(1)).is_empty());
    }
    assert_eq!(refs(exec.get(), first.raw()), 1);
    assert_eq!(refs(exec.get(), second.raw()), 2);
    assert_eq!(refs(exec.get(), third.raw()), 2);
    assert!(exec.get().release(third).is_empty());
    assert!(exec.get().release(second).is_empty());
    assert_eq!(exec.get().cells_len(), 3);
    // The last handle goes: the first cell, then the second, then the third.
    let gone = exec.get().release(first);
    assert_eq!(gone.len(), 3);
    assert_eq!(gone[0].header().id, 0);
    assert_eq!(gone[1].header().id, 1);
    assert_eq!(gone[2].header().id, 2);
    assert_eq!(exec.get().cells_len(), 0);
    // Their finishing had woken whoever waited.
    assert_eq!(exec.get().queue_len(), 2);
}

#[test]
fn a_replaced_handle_waker_is_released() {
    let mut exec: Executor<i32> = Executor::new(1, 1);
    let (first, _, _) = exec.spawn();
    let (second, b, _) = exec.spawn();
    let (third, c, _) = exec.spawn();
    let as_second = task_waker(exec.get(), b);
    let as_third = task_waker(exec.get(), c);
    let _ = exec.get().review(&first, &as_second);
    assert_eq!(refs(exec.get(), second.raw()), 4);
    let (out, gone) = exec.get().review(&first, &as_third);
    assert!(out.is_pending());
    assert!(gone.is_empty());
    assert_eq!(refs(exec.get(), second.raw()), 3);
    assert_eq!(refs(exec.get(), third.raw()), 4);
    let held = exec.get().cell(first.raw()).unwrap().tail.h_waker.as_ref().unwrap().note;
    assert_eq!(held, c);
}

#[test]
fn read_before_write() {
    let mut exec: Executor<usize> = Executor::new(1, 1);
    let root = exec.start();
    let token = exec.get().vacant_token();
    assert_eq!(exec.get().register::<&str>(Ok(())), Ok(token));
    assert_eq!(token, 0);

    // The read would block: the root task waits for the source.
    let w = root_waker(exec.get(), root);
    let out = exec.get().handle_async::<usize, &str>(
        Err("would block"),
        true,
        &w,
        token,
        Direction::Read,
    );
    assert!(out.is_pending());
    assert_eq!(refs(exec.get(), root), 3);
    assert_eq!(exec.get().source(token).unwrap().wakers.rd.elements(), 1);
    assert!(matches!(exec.block_on(Outcome::Pending), Drive::Wait));

    // The peer writes one byte: the source becomes readable.
    let events = vec![event(token, true, false)];
    assert!(exec.get().knows(&events));
    let (gone, stop) = exec.get().react(&events);
    assert!(!stop);
    assert!(gone.is_empty());
    assert_eq!(refs(exec.get(), root), 2);
    assert!(!exec.get().source(token).unwrap().has_wakers());
    assert!(matches!(exec.resume(), Drive::Repoll));

    // Now the read gives one byte, and the write of it goes through.
    let out = exec.get().handle_async::<usize, &str>(Ok(1), false, &w, token, Direction::Read);
    assert!(matches!(out, Poll::Ready(Ok(1))));
    let out = exec.get().handle_async::<usize, &str>(Ok(1), false, &w, token, Direction::Write);
    assert!(matches!(out, Poll::Ready(Ok(1))));
    assert_eq!(refs(exec.get(), root), 2);

    // No registration is left behind.
    assert!(exec.get().deregister(token).is_empty());
    assert!(!exec.get().has_source(token));
    assert!(matches!(exec.block_on(Outcome::Ready(1)), Drive::Done(Ok(1))));
    assert_eq!(exec.get().cells_len(), 0);
}

#[test]
fn backpressure() {
    let mut exec: Executor<usize> = Executor::new(1, 1);
    let (handle, note, worker) = exec.spawn();
    let token = exec.get().register::<&str>(Ok(())).unwrap();
    assert_eq!(exec.get().thread_function(worker), Work::Poll(note));
    let w = task_waker(exec.get(), note);

    // The task writes 1024 bytes at a time until the socket is full.
    let mut written = 0;
    let mut pending = false;
    for attempt in [Ok(1024), Ok(1024), Ok(512), Err("full")] {
        let out = exec.get().handle_async::<usize, &str>(
            attempt,
            attempt.is_err(),
            &w,
            token,
            Direction::Write,
        );
        match out {
            Poll::Ready(Ok(n)) => written += n,
            Poll::Ready(Err(_)) => unreachable!(),
            Poll::Pending => pending = true,
        }
    }
    assert_eq!(written, 2560);
    assert!(pending);
    assert_eq!(exec.get().source(token).unwrap().wakers.wr.elements(), 1);
    assert_eq!(exec.get().source(token).unwrap().wakers.rd.elements(), 0);
    assert_eq!(refs(exec.get(), handle.raw()), 4);
    assert!(exec.get().polled(worker, note, Outcome::Pending).is_empty());
    assert_eq!(exec.get().thread_function(worker), Work::Wait);

    // The peer drains: the reactor fires and the task is polled again.
    let (gone, _) = exec.get().react(&vec![event(token, false, true)]);
    assert!(gone.is_empty());
    assert_eq!(refs(exec.get(), handle.raw()), 3);
    assert_eq!(exec.get().queue_len(), 1);
    let _ = exec.start();
    assert!(matches!(exec.block_on(Outcome::Pending), Drive::Wait));
    assert_eq!(exec.get().thread_function(worker), Work::Poll(note));
    let _ = exec.get().polled(worker, note, Outcome::Ready(written));
    let (out, _) = exec.get().review(&handle, &w);
    assert!(matches!(out, Poll::Ready(2560)));
}

#[test]
fn a_waker_in_a_list_keeps_its_cell() {
    let mut exec: Executor<usize> = Executor::new(1, 1);
    let (handle, note, worker) = exec.spawn();
    let token = exec.get().register::<&str>(Ok(())).unwrap();
    let w = task_waker(exec.get(), note);
    exec.get().attach_waker(&w, token, Direction::Read);
    exec.get().attach_waker(&w, token, Direction::Write);
    assert_eq!(exec.get().claims_on(handle.raw()), 3);
    assert_eq!(exec.get().thread_function(worker), Work::Poll(note));
    assert!(exec.get().polled(worker, note, Outcome::Ready(1)).is_empty());
    assert!(exec.get().release(handle).is_empty());
    assert_eq!(exec.get().cells_len(), 1);
    // The source goes: nobody is woken, and the cell goes with its last waker.
    let gone = exec.get().deregister(token);
    assert_eq!(gone.len(), 1);
    assert_eq!(gone[0].header().id, note.0);
    assert_eq!(exec.get().cells_len(), 0);
    assert_eq!(exec.get().queue_len(), 0);
    assert!(exec.get().deregister(token).is_empty());
}

#[test]
fn an_event_releases_the_last_waker_of_a_cell() {
    let mut exec: Executor<usize> = Executor::new(1, 1);
    let (handle, note, worker) = exec.spawn();
    let token = exec.get().register::<&str>(Ok(())).unwrap();
    let w = task_waker(exec.get(), note);
    exec.get().attach_waker(&w, token, Direction::Read);
    assert_eq!(exec.get().thread_function(worker), Work::Poll(note));
    let _ = exec.get().polled(worker, note, Outcome::Ready(1));
    let _ = exec.get().release(handle);
    let (gone, stop) = exec.get().react(&vec![event(token, true, true)]);
    assert!(!stop);
    assert_eq!(gone.len(), 1);
    assert_eq!(exec.get().cells_len(), 0);
    // The wake itself still went out.
    assert_eq!(exec.get().queue_len(), 1);
}

#[test]
fn register_error_changes_nothing() {
    let mut exec: Executor<usize> = Executor::new(1, 1);
    assert_eq!(exec.get().register(Err("no")), Err("no"));
    assert!(!exec.get().has_source(0));
    assert_eq!(exec.get().vacant_token(), 0);
}

#[test]
fn reactor_shutdown_event_ends_the_loop() {
    let mut exec: Executor<usize> = Executor::new(1, 1);
    let events = vec![event(SHUTDOWN, true, false), event(5, true, false)];
    assert!(exec.get().knows(&events));
    assert!(!exec.get().knows(&vec![event(5, true, false)]));
    let (gone, stop) = exec.get().react(&events);
    assert!(gone.is_empty());
    assert!(stop);
    assert_eq!(exec.get().queue_len(), 0);
}

#[test]
fn ids_and_addresses_need_not_agree() {
    let mut exec: Executor<i32> = Executor::new(1, 1);
    let (first, a, _) = exec.spawn();
    assert_eq!(exec.get().thread_function(0), Work::Poll(a));
    let _ = exec.get().polled(0, a, Outcome::Ready(1));
    // The id is free again while the handle still keeps the old cell.
    let (second, b, _) = exec.spawn();
    assert_eq!(b, a);
    assert_ne!(second.raw(), first.raw());
    assert_eq!(exec.get().task(b).unwrap().raw, second.raw());
    assert!(!exec.get().is_pinned(first.raw()));
    assert!(exec.get().is_pinned(second.raw()));
    assert!(matches!(exec.get().cell(first.raw()).unwrap().mid.poll, Poll::Ready(1)));
    assert!(exec.get().cell(second.raw()).unwrap().mid.poll.is_pending());
    assert_eq!(exec.get().cells_len(), 2);
    assert_eq!(exec.get().release(first).len(), 1);
    assert_eq!(exec.get().cells_len(), 1);
}

#[test]
fn shutdown_ends_the_life_of_the_runtime() {
    let mut exec: Executor<u8> = Executor::new(1, 1);
    assert!(exec.is_live());
    exec.shutdown();
    assert!(!exec.is_live());
    assert_eq!(exec.rt_state(), RtState::Good);
}

#[test]
fn teardown_destroys_every_cell_once() {
    let mut exec: Executor<usize> = Executor::new(1, 1);
    let root = exec.start();
    let mut handles = Vec::new();
    for _ in 0..3 {
        handles.push(exec.spawn().0);
    }
    // The root task awaits the first; the second waits for a source.
    let w = root_waker(exec.get(), root);
    let _ = exec.get().review(&handles[0], &w);
    let token = exec.get().register::<&str>(Ok(())).unwrap();
    let as_second = task_waker(exec.get(), Note(1));
    exec.get().attach_waker(&as_second, token, Direction::Read);
    exec.get().attach_waker(&as_second, token, Direction::Write);
    // Nothing outside the runtime refers to a cell any more.
    for h in handles {
        assert!(exec.get().release(h).is_empty());
    }
    assert_eq!(exec.get().cells_len(), 4);
    exec.shutdown();
    let gone = exec.get().teardown();
    assert_eq!(gone.len(), 4);
    assert_eq!(exec.get().cells_len(), 0);
    assert_eq!(exec.get().tasks_len(), 0);
    assert!(!exec.get().has_root());
    assert!(!exec.get().has_source(token));
    assert_eq!(exec.get().queue_len(), 0);
    let mut ids: Vec<u64> = gone.iter().map(|c| c.header().id).collect();
    ids.sort();
    assert_eq!(ids, vec![0, 1, 2, ROOT_ID]);
    assert!(exec.get().teardown().is_empty());
}

#[test]
fn teardown_leaves_what_a_handle_still_holds() {
    let mut exec: Executor<usize> = Executor::new(1, 1);
    let (handle, _, _) = exec.spawn();
    let (other, _, _) = exec.spawn();
    assert!(exec.get().release(other).is_empty());
    let gone = exec.get().teardown();
    assert_eq!(gone.len(), 1);
    assert_eq!(gone[0].header().id, 1);
    assert_eq!(exec.get().cells_len(), 1);
    assert_eq!(refs(exec.get(), handle.raw()), 1);
    assert_eq!(exec.get().release(handle).len(), 1);
    assert_eq!(exec.get().cells_len(), 0);
}

#[test]
fn tasks_that_await_each_other_keep_their_cells() {
    let mut exec: Executor<usize> = Executor::new(1, 1);
    let (first, a, _) = exec.spawn();
    let (second, b, _) = exec.spawn();
    let as_first = task_waker(exec.get(), a);
    let as_second = task_waker(exec.get(), b);
    let _ = exec.get().review(&first, &as_second);
    let _ = exec.get().review(&second, &as_first);
    assert!(exec.get().release(first).is_empty());
    assert!(exec.get().release(second).is_empty());
    let gone = exec.drop();
    assert!(gone.is_empty());
}
