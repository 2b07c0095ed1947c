use coop_runtime::runtime::threads::ThreadPool;
use coop_runtime::runtime::threads::WorkerThread;
use coop_runtime::task::note::Note;

fn pool(n: usize) -> ThreadPool<Note> {
    let mut p = ThreadPool::new(n);
    p.start(n, n);
    p
}

fn received(p: &mut ThreadPool<Note>, k: usize) -> u64 {
    p.worker(k).unwrap().tasks_received
}

#[test]
fn worker_starts_idle_and_empty() {
    let mut w: WorkerThread<u32> = WorkerThread::new();
    assert!(!w.occupied);
    assert_eq!(w.tasks_received, 0);
    assert!(w.chan.open());
    assert_eq!(w.chan.len(), 0);
    assert!(!w.running);
    assert!(w.ok);
    w.start();
    assert!(w.running);
}

#[test]
fn worker_counts_what_it_is_given() {
    let mut w: WorkerThread<u32> = WorkerThread::new();
    assert_eq!(w.push(7), Ok(()));
    assert_eq!(w.push(8), Ok(()));
    assert_eq!(w.tasks_received, 2);
    assert!(!w.occupied);
    assert_eq!(w.recv(), Some(7));
    assert!(w.occupied);
    w.done();
    assert!(!w.occupied);
    assert_eq!(w.recv(), Some(8));
    w.done();
    assert_eq!(w.recv(), None);
    assert!(!w.occupied);
    assert_eq!(w.tasks_received, 2);
}

#[test]
fn worker_counter_wraps() {
    let mut w: WorkerThread<u32> = WorkerThread::new();
    w.tasks_received = u64::MAX;
    assert_eq!(w.push(1), Ok(()));
    assert_eq!(w.tasks_received, 0);
}

#[test]
fn joined_worker_takes_nothing() {
    let mut w: WorkerThread<u32> = WorkerThread::new();
    assert!(!w.join());
    w.rebuild();
    assert!(w.running);
    assert!(w.chan.open());
    assert!(w.join());
    assert!(!w.running);
    assert_eq!(w.push(3), Err(3));
    assert_eq!(w.tasks_received, 1);
    assert_eq!(w.chan.len(), 0);
}

#[test]
fn rebuilt_worker_starts_over() {
    let mut w: WorkerThread<u32> = WorkerThread::new();
    let _ = w.push(1);
    let _ = w.recv();
    w.ok = false;
    w.rebuild();
    assert!(!w.occupied);
    assert_eq!(w.tasks_received, 0);
    assert_eq!(w.chan.len(), 0);
    assert!(w.running);
    assert!(!w.ok);
}

#[test]
fn pool_starts_as_many_workers_as_asked() {
    let mut p: ThreadPool<Note> = ThreadPool::new(3);
    assert_eq!(p.amount(), 3);
    assert!(p.is_empty());
    assert_eq!(p.len(), 0);
    p.start(3, 3);
    assert_eq!(p.len(), 3);
    assert!(!p.is_empty());
    for k in 0..3 {
        let w = p.worker(k).unwrap();
        assert!(w.running);
        assert!(!w.occupied);
        assert_eq!(w.tasks_received, 0);
    }
    assert!(p.worker(3).is_none());
    p.start(3, 5);
    assert_eq!(p.len(), 3);
}

#[test]
fn pool_stays_smaller_when_threads_fail() {
    let mut p: ThreadPool<Note> = ThreadPool::new(4);
    p.start(4, 2);
    assert_eq!(p.len(), 2);
    p.start(4, 1);
    assert_eq!(p.len(), 3);
    p.start(2, 9);
    assert_eq!(p.len(), 3);
    p.start(4, 0);
    assert_eq!(p.len(), 3);
    p.start(10, 1);
    assert_eq!(p.len(), 4);
}

#[test]
fn deploy_prefers_the_lowest_slot_on_a_tie() {
    let mut p = pool(3);
    assert_eq!(p.select(), 0);
    assert_eq!(p.deploy(Note(10)), (0, Ok(())));
    assert_eq!(p.deploy(Note(11)), (1, Ok(())));
    assert_eq!(p.deploy(Note(12)), (2, Ok(())));
    assert_eq!(p.deploy(Note(13)), (0, Ok(())));
    assert_eq!(received(&mut p, 0), 2);
    assert_eq!(received(&mut p, 1), 1);
    assert_eq!(received(&mut p, 2), 1);
    assert_eq!(p.worker(0).unwrap().recv(), Some(Note(10)));
    assert_eq!(p.worker(0).unwrap().recv(), Some(Note(13)));
}

#[test]
fn deploy_picks_the_least_loaded_idle_worker() {
    let mut p = pool(3);
    p.worker(0).unwrap().tasks_received = 5;
    p.worker(1).unwrap().tasks_received = 2;
    p.worker(2).unwrap().tasks_received = 9;
    assert_eq!(p.select(), 1);
    p.worker(1).unwrap().occupied = true;
    assert_eq!(p.select(), 0);
    assert_eq!(p.deploy(Note(1)), (0, Ok(())));
    assert_eq!(received(&mut p, 0), 6);
    p.worker(0).unwrap().occupied = true;
    assert_eq!(p.select(), 2);
}

#[test]
fn deploy_falls_back_to_all_workers_when_none_is_idle() {
    let mut p = pool(3);
    for k in 0..3 {
        p.worker(k).unwrap().occupied = true;
    }
    p.worker(0).unwrap().tasks_received = 4;
    p.worker(1).unwrap().tasks_received = 3;
    p.worker(2).unwrap().tasks_received = 3;
    assert_eq!(p.select(), 1);
    assert_eq!(p.deploy(Note(1)), (1, Ok(())));
    assert_eq!(p.deploy(Note(2)), (2, Ok(())));
    assert_eq!(p.deploy(Note(3)), (0, Ok(())));
}

#[test]
fn deploy_to_a_worker_that_left_gives_the_note_back() {
    let mut p = pool(1);
    assert!(p.can_deploy());
    p.worker(0).unwrap().chan.close();
    assert!(!p.can_deploy());
    assert_eq!(p.deploy(Note(4)), (0, Err(Note(4))));
    assert_eq!(received(&mut p, 0), 1);
}

#[test]
fn broadcast_reaches_every_worker() {
    let mut p = pool(3);
    let _ = p.deploy(Note(1));
    p.worker(2).unwrap().chan.close();
    p.broadcast(Note(u64::MAX));
    assert_eq!(received(&mut p, 0), 2);
    assert_eq!(received(&mut p, 1), 1);
    assert_eq!(received(&mut p, 2), 1);
    assert_eq!(p.worker(0).unwrap().recv(), Some(Note(1)));
    assert_eq!(p.worker(0).unwrap().recv(), Some(Note(u64::MAX)));
    assert_eq!(p.worker(1).unwrap().recv(), Some(Note(u64::MAX)));
    assert_eq!(p.worker(2).unwrap().recv(), None);
}

#[test]
fn join_ends_every_worker() {
    let mut p = pool(2);
    p.join();
    assert_eq!(p.len(), 2);
    for k in 0..2 {
        let w = p.worker(k).unwrap();
        assert!(!w.running);
        assert!(!w.chan.open());
    }
}
