use coop_runtime::channel::ChannelPair;
use coop_runtime::registry::Registry;
use coop_runtime::task::handle::TaskHandle;
use coop_runtime::task::mantle::Mantle;
use coop_runtime::task::note::Note;
use coop_runtime::task::notification::Notification;
use coop_runtime::task::task::Core;
use coop_runtime::task::task::Heap;
use coop_runtime::task::task::Poll;
use coop_runtime::task::task::RawTask;
use coop_runtime::task::task::Task;
use coop_runtime::task::vtable::vtable;
use coop_runtime::task::waker::clone_fn;
use coop_runtime::task::waker::drop_fn;
use coop_runtime::task::waker::make_waker;
use coop_runtime::task::waker::wake_by_ref_fn;
use coop_runtime::task::waker::wake_fn;
use coop_runtime::task::waker::Waker;

fn refs<T>(heap: &Heap<T>, raw: RawTask) -> u8 {
    raw.header(heap).refs
}

fn other_waker(ptr: usize, id: u64) -> Waker {
    Waker {
        raw: RawTask::from_ptr(ptr),
        note: Note(id),
    }
}

#[test]
fn fresh_cell_is_blank() {
    let c: Core<u32> = Core::new(9);
    assert_eq!(c.header().id, 9);
    assert_eq!(c.header().refs, 0);
    assert!(c.middle().poll.is_pending());
    assert!(c.tail().waker.is_none());
    assert!(c.tail().h_waker.is_none());
    assert!(c.waker().is_none());
}

#[test]
fn poll_value_knows_what_it_is() {
    let ready: Poll<u8> = Poll::Ready(1);
    let pending: Poll<u8> = Poll::Pending;
    assert!(ready.is_ready());
    assert!(!ready.is_pending());
    assert!(pending.is_pending());
    assert!(!pending.is_ready());
}

#[test]
fn new_task_has_three_owners() {
    let mut heap: Heap<u32> = Registry::new();
    let (task, note, handle) = Task::new(&mut heap, 5);
    assert_eq!(note, Note(5));
    assert_eq!(task.raw.ptr, 0);
    assert_eq!(handle.raw(), task.raw);
    assert_eq!(refs(&heap, task.raw), 3);
    let cell = heap.get(task.raw.ptr).unwrap();
    assert_eq!(cell.header().id, 5);
    assert!(cell.middle().poll.is_pending());
    let w = cell.waker().unwrap();
    assert_eq!(w.raw, task.raw);
    assert_eq!(w.note, Note(5));
    assert!(cell.tail().h_waker.is_none());
}

#[test]
fn lone_task_has_two_owners() {
    let mut heap: Heap<u32> = Registry::new();
    let task = Task::new_alone(&mut heap, u64::MAX - 1);
    assert_eq!(refs(&heap, task.raw), 2);
    assert_eq!(task.raw.header(&heap).id, u64::MAX - 1);
    let mut chan = ChannelPair::new();
    let gone = task.drop(&mut heap, &mut chan);
    assert!(gone.is_some());
    assert_eq!(gone.unwrap().header().refs, 0);
    assert!(heap.is_empty());
    assert_eq!(chan.len(), 0);
}

#[test]
fn references_are_counted_up_and_down() {
    let mut heap: Heap<u32> = Registry::new();
    let raw = RawTask::new(&mut heap, 1);
    assert_eq!(refs(&heap, raw), 0);
    assert_eq!(raw.ref_inc(&mut heap), 1);
    assert_eq!(raw.ref_inc(&mut heap), 2);
    assert_eq!(raw.ref_inc(&mut heap), 3);
    assert_eq!(raw.ref_dec(&mut heap), 2);
    assert!(raw.ref_destroy(&mut heap).is_none());
    assert_eq!(refs(&heap, raw), 1);
    let gone = raw.ref_destroy(&mut heap);
    assert!(gone.is_some());
    assert!(!heap.contains(raw.ptr));
}

#[test]
fn wakers_count_as_references() {
    let mut heap: Heap<u32> = Registry::new();
    let raw = RawTask::new(&mut heap, 4);
    let first = make_waker(raw, &mut heap);
    assert_eq!(first.note, Note(4));
    assert_eq!(first.raw, raw);
    assert_eq!(refs(&heap, raw), 1);
    let a = clone_fn(&first, &mut heap);
    let b = clone_fn(&a, &mut heap);
    assert_eq!(refs(&heap, raw), 3);
    assert_eq!(b.note, Note(4));
    assert!(drop_fn(a, &mut heap).is_none());
    assert!(drop_fn(b, &mut heap).is_none());
    assert_eq!(refs(&heap, raw), 1);
    let gone = drop_fn(first, &mut heap);
    assert_eq!(gone.unwrap().header().id, 4);
    assert_eq!(heap.len(), 0);
}

#[test]
fn waking_sends_the_task_id() {
    let mut heap: Heap<u32> = Registry::new();
    let mut chan: ChannelPair<Note> = ChannelPair::new();
    let raw = RawTask::new(&mut heap, 8);
    let first = make_waker(raw, &mut heap);
    let w = clone_fn(&first, &mut heap);
    assert_eq!(refs(&heap, raw), 2);
    wake_by_ref_fn(&w, &mut chan);
    wake_by_ref_fn(&w, &mut chan);
    assert_eq!(refs(&heap, raw), 2);
    assert!(wake_fn(w, &mut heap, &mut chan).is_none());
    assert_eq!(refs(&heap, raw), 1);
    assert_eq!(chan.len(), 3);
    assert_eq!(chan.recv(), Some(Note(8)));
    assert_eq!(chan.recv(), Some(Note(8)));
    assert_eq!(chan.recv(), Some(Note(8)));
    assert_eq!(chan.recv(), None);
}

#[test]
fn waking_into_a_closed_channel_is_ignored() {
    let mut heap: Heap<u32> = Registry::new();
    let mut chan: ChannelPair<Note> = ChannelPair::new();
    chan.close();
    let raw = RawTask::new(&mut heap, 2);
    let w = make_waker(raw, &mut heap);
    wake_by_ref_fn(&w, &mut chan);
    let gone = wake_fn(w, &mut heap, &mut chan);
    assert_eq!(chan.len(), 0);
    assert_eq!(gone.unwrap().header().id, 2);
    assert!(heap.is_empty());
}

#[test]
fn a_wake_by_value_releases_the_last_reference() {
    let mut heap: Heap<u32> = Registry::new();
    let mut chan: ChannelPair<Note> = ChannelPair::new();
    let raw = RawTask::new(&mut heap, 6);
    let w = make_waker(raw, &mut heap);
    let gone = wake_fn(w, &mut heap, &mut chan).unwrap();
    assert_eq!(gone.header().refs, 0);
    assert_eq!(chan.recv(), Some(Note(6)));
    assert!(!heap.contains(raw.ptr));
}

#[test]
fn poll_stores_the_output() {
    let mut heap: Heap<u32> = Registry::new();
    let (task, _, _handle) = Task::new(&mut heap, 0);
    assert!(!task.poll(&mut heap, Poll::Pending));
    assert!(heap.get(0).unwrap().middle().poll.is_pending());
    assert!(task.poll(&mut heap, Poll::Ready(11)));
    assert!(matches!(heap.get(0).unwrap().middle().poll, Poll::Ready(11)));
    assert_eq!(refs(&heap, task.raw), 3);
}

#[test]
fn handle_gets_the_value_once() {
    let mut heap: Heap<String> = Registry::new();
    let (task, _, handle) = Task::new(&mut heap, 0);
    task.poll(&mut heap, Poll::Ready(String::from("byte for byte")));
    let (out, rest) = handle.poll(&mut heap, other_waker(9, 9));
    assert!(matches!(out, Poll::Ready(ref s) if s == "byte for byte"));
    let rest = rest.unwrap();
    assert_eq!(rest.note, Note(9));
    assert!(heap.get(0).unwrap().tail().h_waker.is_none());
    let (out, rest) = handle.poll(&mut heap, other_waker(9, 9));
    assert!(out.is_pending());
    assert!(rest.is_none());
    assert_eq!(heap.get(0).unwrap().tail().h_waker.as_ref().unwrap().note, Note(9));
}

#[test]
fn review_of_a_pending_task_keeps_the_latest_waker() {
    let mut heap: Heap<u32> = Registry::new();
    let (task, _, handle) = Task::new(&mut heap, 0);
    let (out, rest) = handle.poll(&mut heap, other_waker(1, 10));
    assert!(out.is_pending());
    assert!(rest.is_none());
    let (out, rest) = handle.poll(&mut heap, other_waker(2, 20));
    assert!(out.is_pending());
    assert_eq!(rest.unwrap().note, Note(10));
    let cell = heap.get(task.raw.ptr).unwrap();
    assert_eq!(cell.tail().h_waker.as_ref().unwrap().note, Note(20));
    assert_eq!(cell.tail().h_waker.as_ref().unwrap().raw.ptr, 2);
    assert_eq!(cell.header().refs, 3);
    assert_eq!(cell.header().id, 0);
    assert!(cell.middle().poll.is_pending());
    assert_eq!(cell.waker().unwrap().note, Note(0));
}

#[test]
fn dropping_a_task_wakes_its_handle() {
    let mut heap: Heap<u32> = Registry::new();
    let mut chan: ChannelPair<Note> = ChannelPair::new();
    let (task, _, handle) = Task::new(&mut heap, 3);
    let _ = handle.poll(&mut heap, other_waker(7, 70));
    task.poll(&mut heap, Poll::Ready(1));
    let raw = task.raw;
    let gone = task.drop(&mut heap, &mut chan);
    assert!(gone.is_none());
    assert_eq!(chan.recv(), Some(Note(70)));
    assert_eq!(chan.recv(), None);
    assert_eq!(refs(&heap, raw), 1);
    assert!(heap.get(raw.ptr).unwrap().waker().is_none());
    let (out, _) = handle.poll(&mut heap, other_waker(7, 70));
    assert!(matches!(out, Poll::Ready(1)));
    let gone = handle.drop(&mut heap);
    assert!(gone.is_some());
    assert!(heap.is_empty());
}

#[test]
fn handle_dropped_first_leaves_the_cell_to_the_task() {
    let mut heap: Heap<u32> = Registry::new();
    let mut chan: ChannelPair<Note> = ChannelPair::new();
    let (task, _, handle) = Task::new(&mut heap, 3);
    assert!(handle.drop(&mut heap).is_none());
    assert_eq!(refs(&heap, task.raw), 2);
    let gone = task.drop(&mut heap, &mut chan).unwrap();
    assert_eq!(gone.header().refs, 0);
    assert!(gone.waker().is_none());
    assert_eq!(chan.len(), 0);
    assert!(heap.is_empty());
}

#[test]
fn raw_task_reaches_the_cell() {
    let mut heap: Heap<u32> = Registry::new();
    let mut chan: ChannelPair<Note> = ChannelPair::new();
    let raw = RawTask::new(&mut heap, 12);
    assert_eq!(RawTask::from_ptr(raw.ptr), raw);
    raw.send_note(&heap, &mut chan);
    assert_eq!(chan.recv(), Some(Note(12)));
    raw.wake_handle(&heap, &mut chan);
    assert_eq!(chan.len(), 0);
    assert!(raw.set_waker(&mut heap, Some(other_waker(raw.ptr, 12))).is_none());
    let prev = raw.set_waker(&mut heap, None);
    assert_eq!(prev.unwrap().note, Note(12));
    let (out, rest) = raw.review(&mut heap, other_waker(5, 50));
    assert!(out.is_pending());
    assert!(rest.is_none());
    raw.wake_handle(&heap, &mut chan);
    assert_eq!(chan.recv(), Some(Note(50)));
    let cell = raw.destroy(&mut heap);
    assert_eq!(cell.header().id, 12);
    assert!(heap.is_empty());
}

#[test]
fn mantle_and_table_do_what_the_raw_task_does() {
    let mut heap: Heap<u32> = Registry::new();
    let mut chan: ChannelPair<Note> = ChannelPair::new();
    let raw = RawTask::new(&mut heap, 2);
    let table = vtable::<u32>();
    assert_eq!(table.ref_inc(raw, &mut heap), 1);
    assert!(table.set_waker(raw, &mut heap, Some(other_waker(raw.ptr, 2))).is_none());
    assert!(table.poll(raw, &mut heap, Poll::Ready(6)));
    table.send_note(raw, &heap, &mut chan);
    assert_eq!(chan.recv(), Some(Note(2)));
    let m: Mantle<u32> = Mantle::from_raw(raw);
    assert_eq!(m.ptr, raw.ptr);
    assert_eq!(m.cell(&heap).header().refs, 1);
    let (out, rest) = m.review(&mut heap, other_waker(1, 1));
    assert!(matches!(out, Poll::Ready(6)));
    assert_eq!(rest.unwrap().note, Note(1));
    let m: Mantle<u32> = Mantle::from_raw(raw);
    m.wake_handle(&heap, &mut chan);
    assert_eq!(chan.len(), 0);
    assert_eq!(table.ref_dec(raw, &mut heap), 0);
    let cell = table.destroy(raw, &mut heap);
    assert_eq!(cell.header().refs, 0);
}

#[test]
fn notification_carries_its_task() {
    let mut heap: Heap<u32> = Registry::new();
    let mut chan: ChannelPair<Notification> = ChannelPair::new();
    let (task, _, _handle) = Task::new(&mut heap, 0);
    let ptr = task.raw.ptr;
    let n = Notification::new(task);
    assert!(!n.test(&mut heap, Poll::Pending));
    n.send(&mut chan);
    assert_eq!(chan.len(), 1);
    let n = chan.recv().unwrap();
    assert_eq!(n.task.raw.ptr, ptr);
    assert!(n.test(&mut heap, Poll::Ready(3)));
    assert!(matches!(heap.get(ptr).unwrap().middle().poll, Poll::Ready(3)));
}

#[test]
fn handle_new_takes_a_reference() {
    let mut heap: Heap<u32> = Registry::new();
    let raw = RawTask::new(&mut heap, 1);
    let h: TaskHandle<u32> = TaskHandle::new(raw, &mut heap);
    assert_eq!(h.raw(), raw);
    assert_eq!(refs(&heap, raw), 1);
    assert!(h.drop(&mut heap).is_some());
}

#[test]
fn addresses_are_reused_after_destruction() {
    let mut heap: Heap<u32> = Registry::new();
    let a = RawTask::new(&mut heap, 1);
    let b = RawTask::new(&mut heap, 2);
    assert_eq!((a.ptr, b.ptr), (0, 1));
    a.destroy(&mut heap);
    let c = RawTask::new(&mut heap, 3);
    assert_eq!(c.ptr, 0);
    assert_eq!(c.header(&heap).id, 3);
    assert_eq!(b.header(&heap).id, 2);
}
