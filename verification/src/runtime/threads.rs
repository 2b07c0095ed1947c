//! The worker pool: who gets the next notification.

use crate::channel::ChannelPair;
use crate::registry::{handed_out, Registry};
use vstd::prelude::*;

verus! {

/// The count after one more message; it wraps like the counter it stands for.
pub open spec fn bumped(count: u64) -> u64 {
    if count == u64::MAX {
        0
    } else {
        (count + 1) as u64
    }
}

/// One worker, as the pool sees it.
pub struct WorkerThread<T> {
    /// Is it currently occupied
    pub occupied: bool,
    /// How much work has been done
    pub tasks_received: u64,
    /// The worker's queue.
    pub chan: ChannelPair<T>,
    /// Whether a thread runs for this worker.
    pub running: bool,
    /// Is the thread okay?
    pub ok: bool,
}

/// A worker as plain values.
#[verifier::ext_equal]
pub struct WorkerView<T> {
    pub occupied: bool,
    pub tasks_received: u64,
    /// What waits in the worker's queue, oldest first.
    pub queue: Seq<T>,
    /// Whether the queue still takes messages.
    pub open: bool,
    pub running: bool,
    pub ok: bool,
}

impl<T> WorkerView<T> {
    /// A worker as `ThreadPool::start` adds it: idle, nothing received, its
    /// queue open and empty, its thread running.
    pub open spec fn started() -> WorkerView<T> {
        WorkerView {
            occupied: false,
            tasks_received: 0,
            queue: Seq::empty(),
            open: true,
            running: true,
            ok: true,
        }
    }

    /// The worker once `notif` was pushed to it: the message is counted, and
    /// queued unless the queue is closed.
    pub open spec fn took(self, notif: T) -> WorkerView<T> {
        WorkerView {
            tasks_received: bumped(self.tasks_received),
            queue: if self.open {
                self.queue.push(notif)
            } else {
                self.queue
            },
            ..self
        }
    }

    /// What a push of `notif` to the worker returns: a closed queue hands the
    /// message back.
    pub open spec fn answer(self, notif: T) -> Result<(), T> {
        if self.open {
            Ok(())
        } else {
            Err(notif)
        }
    }
}

impl<T> View for WorkerThread<T> {
    type V = WorkerView<T>;

    open spec fn view(&self) -> WorkerView<T> {
        WorkerView {
            occupied: self.occupied,
            tasks_received: self.tasks_received,
            queue: self.chan@,
            open: self.chan.is_open(),
            running: self.running,
            ok: self.ok,
        }
    }
}

impl<T> WorkerThread<T> {
    /// A worker without a thread: idle, nothing received, its queue open and
    /// empty.
    pub fn new() -> (w: Self)
        ensures
            w@ == (WorkerView { running: false, ..WorkerView::<T>::started() }),
    {
        Self {
            occupied: false,
            tasks_received: 0,
            chan: ChannelPair::new(),
            running: false,
            ok: true,
        }
    }

    /// Notes that the worker's thread has been started.
    pub fn start(&mut self)
        ensures
            final(self)@ == (WorkerView { running: true, ..old(self)@ }),
    {
        self.running = true;
    }

    /// Counts `notif` and puts it on the worker's queue.
    pub fn push(&mut self, notif: T) -> (r: Result<(), T>)
        ensures
            final(self)@ == old(self)@.took(notif),
            r == old(self)@.answer(notif),
    {
        self.tasks_received = self.tasks_received.wrapping_add(1);
        self.chan.send(notif)
    }

    /// Takes the next notification off the worker's queue. With one in hand
    /// the worker counts as occupied.
    pub fn recv(&mut self) -> (r: Option<T>)
        ensures
            old(self)@.queue.len() == 0 ==> r.is_none() && final(self)@ == old(self)@,
            old(self)@.queue.len() > 0 ==> r == Some(old(self)@.queue[0]) && final(self)@ == (
            WorkerView { occupied: true, queue: old(self)@.queue.drop_first(), ..old(self)@ }),
    {
        let r = self.chan.recv();
        if r.is_some() {
            self.occupied = true;
        }
        r
    }

    /// Notes that the worker is done with the notification it took.
    pub fn done(&mut self)
        ensures
            final(self)@ == (WorkerView { occupied: false, ..old(self)@ }),
    {
        self.occupied = false;
    }

    /// Notes that the worker's thread has ended: its queue takes nothing any
    /// more. Says whether there was a thread to wait for.
    pub fn join(&mut self) -> (had: bool)
        ensures
            had == old(self)@.running,
            final(self)@ == (WorkerView { running: false, open: false, ..old(self)@ }),
    {
        let had = self.running;
        self.running = false;
        self.chan.close();
        had
    }

    /// Rebuilds the worker: a new queue, nothing received, idle, started.
    pub fn rebuild(&mut self)
        ensures
            final(self)@ == (WorkerView { ok: old(self)@.ok, ..WorkerView::<T>::started() }),
    {
        self.chan = ChannelPair::new();
        self.tasks_received = 0;
        self.occupied = false;
        self.running = true;
    }
}

/// Whether some worker of `m` is idle.
pub open spec fn idle_exists<N>(m: Map<usize, WorkerView<N>>) -> bool {
    exists|k: usize| m.contains_key(k) && !(#[trigger] m[k]).occupied
}

/// Whether the worker `k` may be chosen: any idle worker where there is one,
/// any worker at all where there is none.
pub open spec fn eligible<N>(m: Map<usize, WorkerView<N>>, k: usize) -> bool {
    m.contains_key(k) && (idle_exists(m) ==> !m[k].occupied)
}

/// Whether `a` comes before `b` in the order of choice: fewer messages
/// received, the lower slot on a tie.
pub open spec fn before<N>(m: Map<usize, WorkerView<N>>, a: usize, b: usize) -> bool {
    m[a].tasks_received < m[b].tasks_received || (m[a].tasks_received == m[b].tasks_received && a
        <= b)
}

/// Whether `c` is the worker to which the next notification goes.
pub open spec fn is_choice<N>(m: Map<usize, WorkerView<N>>, c: usize) -> bool {
    eligible(m, c) && forall|k: usize| #[trigger] eligible(m, k) ==> before(m, c, k)
}

/// The worker to which the next notification goes.
pub open spec fn choice<N>(m: Map<usize, WorkerView<N>>) -> usize {
    choose|c: usize| is_choice(m, c)
}

/// The workers after `n` was deployed to the chosen one.
pub open spec fn deployed<N>(m: Map<usize, WorkerView<N>>, n: N) -> Map<usize, WorkerView<N>> {
    m.insert(choice(m), m[choice(m)].took(n))
}

/// There is one choice at most.
pub proof fn lemma_choice_unique<N>(m: Map<usize, WorkerView<N>>, a: usize, b: usize)
    requires
        is_choice(m, a),
        is_choice(m, b),
    ensures
        a == b,
{
    assert(eligible(m, a));
    assert(eligible(m, b));
}

/// The pool of workers.
pub struct ThreadPool<Notif> {
    workers: Registry<WorkerThread<Notif>>,
    amount: usize,
}

impl<Notif> View for ThreadPool<Notif> {
    type V = Map<usize, WorkerView<Notif>>;

    /// The workers by slot.
    closed spec fn view(&self) -> Map<usize, WorkerView<Notif>> {
        self.workers@.map_values(|w: WorkerThread<Notif>| w@)
    }
}

/// The vacant slots once the first `n` of them have been handed out.
pub open spec fn handed_out_n(vacant: Seq<usize>, n: nat) -> Seq<usize>
    decreases n,
{
    if n == 0 {
        vacant
    } else {
        handed_out(handed_out_n(vacant, (n - 1) as nat))
    }
}

/// The workers once `n` more have been started, each in the slot that was
/// vacant first.
pub open spec fn hired<N>(m: Map<usize, WorkerView<N>>, vacant: Seq<usize>, n: nat) -> Map<
    usize,
    WorkerView<N>,
>
    decreases n,
{
    if n == 0 {
        m
    } else {
        hired(m, vacant, (n - 1) as nat).insert(
            handed_out_n(vacant, (n - 1) as nat)[0],
            WorkerView::started(),
        )
    }
}

/// In a pool that was empty the first `n` workers have the slots below `n`.
pub proof fn lemma_fresh_pool<N>(n: nat)
    requires
        n <= usize::MAX,
    ensures
        handed_out_n(seq![0usize], n) == seq![n as usize],
        forall|k: usize|
            hired(Map::<usize, WorkerView<N>>::empty(), seq![0usize], n).contains_key(k) <==> k
                < n,
    decreases n,
{
    let none = Map::<usize, WorkerView<N>>::empty();
    if n > 0 {
        lemma_fresh_pool::<N>((n - 1) as nat);
        assert(handed_out(seq![(n - 1) as usize]) =~= seq![n as usize]);
        let before = hired(none, seq![0usize], (n - 1) as nat);
        assert(handed_out_n(seq![0usize], (n - 1) as nat)[0] == (n - 1) as usize);
        assert(hired(none, seq![0usize], n) == before.insert(
            (n - 1) as usize,
            WorkerView::started(),
        ));
        assert forall|k: usize| hired(none, seq![0usize], n).contains_key(k) <==> k < n by {
            assert(before.contains_key(k) <==> k < n - 1);
        }
    }
}

/// How many workers `ThreadPool::start` adds to `have` of them when `amnt` are
/// asked for and `launched` threads could be started.
pub open spec fn added(have: nat, amnt: usize, launched: usize) -> nat {
    if have >= amnt {
        0
    } else if amnt - have <= launched {
        (amnt - have) as nat
    } else {
        launched as nat
    }
}

impl<Notif> ThreadPool<Notif> {
    pub closed spec fn wf(&self) -> bool {
        self.workers.wf()
    }

    /// The slots that the next workers get, in this order.
    pub closed spec fn vacant(&self) -> Seq<usize> {
        self.workers.vacant()
    }

    /// A pool without workers that is meant to have `amount` of them.
    pub fn new(amount: usize) -> (p: Self)
        ensures
            p.wf(),
            p@ == Map::<usize, WorkerView<Notif>>::empty(),
            p.vacant() == seq![0usize],
            p.amount() == amount,
    {
        let p = Self { workers: Registry::with_capacity(amount), amount };
        assert(p@ =~= Map::<usize, WorkerView<Notif>>::empty());
        p
    }

    /// How many workers the pool is meant to have.
    #[verifier::when_used_as_spec(spec_amount)]
    pub fn amount(&self) -> (n: usize)
        ensures
            n == self.amount(),
    {
        self.amount
    }

    pub closed spec fn spec_amount(&self) -> usize {
        self.amount
    }

    /// The number of workers.
    pub fn len(&self) -> (n: usize)
        requires
            self.wf(),
        ensures
            n == self@.dom().len(),
    {
        assert(self@.dom() =~= self.workers@.dom());
        self.workers.len()
    }

    /// Whether the pool has no worker.
    pub fn is_empty(&self) -> (b: bool)
        requires
            self.wf(),
        ensures
            b == (self@ == Map::<usize, WorkerView<Notif>>::empty()),
    {
        let b = self.workers.is_empty();
        proof {
            if b {
                assert(self@ =~= Map::<usize, WorkerView<Notif>>::empty());
            } else {
                assert(self@.dom() =~= self.workers@.dom());
                if self@ == Map::<usize, WorkerView<Notif>>::empty() {
                    assert(self.workers@ =~= Map::<usize, WorkerThread<Notif>>::empty());
                }
            }
        }
        b
    }

    /// The number of slots to scan in order to see every worker.
    pub fn slots(&self) -> (n: usize)
        requires
            self.wf(),
        ensures
            forall|k: usize| self@.contains_key(k) ==> k < n,
    {
        proof {
            self.workers.lemma_keys_bounded();
            assert(self@.dom() =~= self.workers@.dom());
        }
        self.workers.slots()
    }

    /// The worker in slot `key`, to be changed in place.
    pub fn worker(&mut self, key: usize) -> (r: Option<&mut WorkerThread<Notif>>)
        requires
            old(self).wf(),
        ensures
            final(self).wf(),
            r.is_some() == old(self)@.contains_key(key),
            match r {
                Some(w) => w@ == old(self)@[key] && final(self)@ == old(self)@.insert(
                    key,
                    final(w)@,
                ),
                None => final(self)@ == old(self)@,
            },
            final(self).amount() == old(self).amount(),
    {
        self.workers.get_mut(key)
    }

    /// Fills the pool up to `amnt` workers, as far as threads could be started
    /// for them: `launched` says for how many. Where that is too few the pool
    /// stays smaller, and is in order all the same.
    pub fn start(&mut self, amnt: usize, launched: usize)
        requires
            old(self).wf(),
        ensures
            final(self).wf(),
            final(self).amount() == old(self).amount(),
            final(self)@ == hired(
                old(self)@,
                old(self).vacant(),
                added(old(self)@.dom().len(), amnt, launched),
            ),
            final(self).vacant() == handed_out_n(
                old(self).vacant(),
                added(old(self)@.dom().len(), amnt, launched),
            ),
            final(self)@.dom().len() == old(self)@.dom().len() + added(
                old(self)@.dom().len(),
                amnt,
                launched,
            ),
            forall|k: usize|
                #![trigger old(self)@.contains_key(k)]
                old(self)@.contains_key(k) ==> final(self)@.contains_key(k) && final(self)@[k]
                    == old(self)@[k],
            forall|k: usize|
                final(self)@.contains_key(k) && !old(self)@.contains_key(k) ==> (
                #[trigger] final(self)@[k]) == WorkerView::<Notif>::started(),
    {
        let mut left = launched;
        let ghost have = old(self)@.dom().len();
        assert(self@.dom() =~= self.workers@.dom());
        while self.workers.len() < amnt && left > 0
            invariant
                self.wf(),
                self@.dom() == self.workers@.dom(),
                self.amount() == old(self).amount(),
                left <= launched,
                have == old(self)@.dom().len(),
                self@.dom().len() == have + (launched - left),
                self@ == hired(old(self)@, old(self).vacant(), (launched - left) as nat),
                self.vacant() == handed_out_n(old(self).vacant(), (launched - left) as nat),
                have >= amnt ==> left == launched,
                have < amnt ==> self@.dom().len() <= amnt,
                forall|k: usize|
                    #![trigger old(self)@.contains_key(k)]
                    old(self)@.contains_key(k) ==> self@.contains_key(k) && self@[k]
                        == old(self)@[k],
                forall|k: usize|
                    self@.contains_key(k) && !old(self)@.contains_key(k) ==> (#[trigger] self@[k])
                        == WorkerView::<Notif>::started(),
            decreases left,
        {
            let ghost before = self@;
            proof {
                self.workers.lemma_keys_bounded();
                assert(self@.dom() =~= self.workers@.dom());
            }
            let mut th = WorkerThread::new();
            th.start();
            let key = self.workers.insert(th);
            assert(self@ =~= before.insert(key, WorkerView::<Notif>::started()));
            assert(self@.dom() =~= before.dom().insert(key));
            assert(self@.dom() =~= self.workers@.dom());
            left = left - 1;
        }
    }

    /// Notes for every worker that its thread has ended: none runs and none
    /// listens any more.
    pub fn join(&mut self)
        requires
            old(self).wf(),
        ensures
            final(self).wf(),
            final(self).amount() == old(self).amount(),
            final(self)@.dom() == old(self)@.dom(),
            forall|k: usize|
                old(self)@.contains_key(k) ==> (#[trigger] final(self)@[k]) == (WorkerView {
                    running: false,
                    open: false,
                    ..old(self)@[k]
                }),
    {
        let slots = self.slots();
        let mut k: usize = 0;
        while k < slots
            invariant
                self.wf(),
                self.amount() == old(self).amount(),
                k <= slots,
                self@.dom() == old(self)@.dom(),
                forall|j: usize| old(self)@.contains_key(j) ==> j < slots,
                forall|j: usize|
                    old(self)@.contains_key(j) && j < k ==> (#[trigger] self@[j]) == (WorkerView {
                        running: false,
                        open: false,
                        ..old(self)@[j]
                    }),
                forall|j: usize|
                    old(self)@.contains_key(j) && j >= k ==> (#[trigger] self@[j]) == old(self)@[j],
            decreases slots - k,
        {
            let ghost before = self@;
            match self.workers.get_mut(k) {
                Some(w) => {
                    let _ = w.join();
                },
                None => {},
            }
            assert(self@.dom() =~= before.dom());
            assert(before.contains_key(k) ==> self@ =~= before.insert(
                k,
                WorkerView { running: false, open: false, ..before[k] },
            ));
            assert(!before.contains_key(k) ==> self@ =~= before);
            k = k + 1;
        }
    }

    /// Deploys a notification to a chosen worker: the idle worker that has
    /// received the fewest messages, or, where none is idle, the worker that
    /// has; the lowest slot on a tie. The pool must have a worker. Returns the
    /// worker's slot and what its queue said.
    pub fn deploy(&mut self, n: Notif) -> (out: (usize, Result<(), Notif>))
        requires
            old(self).wf(),
            old(self)@ != Map::<usize, WorkerView<Notif>>::empty(),
        ensures
            final(self).wf(),
            final(self).amount() == old(self).amount(),
            is_choice(old(self)@, out.0),
            out.0 == choice(old(self)@),
            out.1 == old(self)@[out.0].answer(n),
            final(self)@ == deployed(old(self)@, n),
    {
        let chosen = self.select();
        let r = match self.workers.get_mut(chosen) {
            Some(w) => w.push(n),
            None => Err(n),
        };
        assert(self@ =~= deployed(old(self)@, n));
        (chosen, r)
    }

    /// Whether the worker to which the next notification goes still listens.
    /// The pool must have a worker.
    pub fn can_deploy(&self) -> (b: bool)
        requires
            self.wf(),
            self@ != Map::<usize, WorkerView<Notif>>::empty(),
        ensures
            b == self@[choice(self@)].open,
    {
        let chosen = self.select();
        match self.workers.get(chosen) {
            Some(w) => w.chan.open(),
            None => false,
        }
    }

    /// The slot of the worker to which the next notification goes.
    pub fn select(&self) -> (chosen: usize)
        requires
            self.wf(),
            self@ != Map::<usize, WorkerView<Notif>>::empty(),
        ensures
            is_choice(self@, chosen),
            chosen == choice(self@),
    {
        let slots = self.slots();
        let ghost m = self@;
        let mut idle: Option<(usize, u64)> = None;
        let mut any: Option<(usize, u64)> = None;
        let mut k: usize = 0;
        while k < slots
            invariant
                self.wf(),
                m == self@,
                k <= slots,
                forall|j: usize| m.contains_key(j) ==> j < slots,
                any.is_none() ==> forall|j: usize| j < k ==> !m.contains_key(j),
                any matches Some(a) ==> a.0 < k && m.contains_key(a.0) && a.1
                    == m[a.0].tasks_received && forall|j: usize|
                    j < k && m.contains_key(j) ==> before(m, a.0, j),
                idle.is_none() ==> forall|j: usize|
                    j < k && m.contains_key(j) ==> (#[trigger] m[j]).occupied,
                idle matches Some(a) ==> a.0 < k && m.contains_key(a.0) && !m[a.0].occupied && a.1
                    == m[a.0].tasks_received && forall|j: usize|
                    j < k && m.contains_key(j) && !(#[trigger] m[j]).occupied ==> before(
                        m,
                        a.0,
                        j,
                    ),
            decreases slots - k,
        {
            match self.workers.get(k) {
                Some(w) => {
                    let received = w.tasks_received;
                    let better = match any {
                        Some(a) => received < a.1,
                        None => true,
                    };
                    if better {
                        any = Some((k, received));
                    }
                    if !w.occupied {
                        let better = match idle {
                            Some(a) => received < a.1,
                            None => true,
                        };
                        if better {
                            idle = Some((k, received));
                        }
                    }
                },
                None => {},
            }
            k = k + 1;
        }
        proof {
            if any.is_none() {
                assert(m =~= Map::<usize, WorkerView<Notif>>::empty());
            }
        }
        let chosen = match idle {
            Some(a) => {
                assert(idle_exists(m));
                a.0
            },
            None => {
                assert(!idle_exists(m));
                match any {
                    Some(a) => a.0,
                    None => 0,
                }
            },
        };
        proof {
            lemma_choice_unique(m, chosen, choice(m));
        }
        chosen
    }
}

impl<Notif: Copy> ThreadPool<Notif> {
    /// Broadcasts a message to each worker.
    /// Copies the argument.
    pub fn broadcast(&mut self, notif: Notif)
        requires
            old(self).wf(),
        ensures
            final(self).wf(),
            final(self).amount() == old(self).amount(),
            final(self)@.dom() == old(self)@.dom(),
            forall|k: usize|
                old(self)@.contains_key(k) ==> (#[trigger] final(self)@[k]) == old(self)@[k].took(
                    notif,
                ),
    {
        let slots = self.slots();
        let mut k: usize = 0;
        while k < slots
            invariant
                self.wf(),
                self.amount() == old(self).amount(),
                k <= slots,
                self@.dom() == old(self)@.dom(),
                forall|j: usize| old(self)@.contains_key(j) ==> j < slots,
                forall|j: usize|
                    old(self)@.contains_key(j) && j < k ==> (#[trigger] self@[j])
                        == old(self)@[j].took(notif),
                forall|j: usize|
                    old(self)@.contains_key(j) && j >= k ==> (#[trigger] self@[j]) == old(self)@[j],
            decreases slots - k,
        {
            let ghost before = self@;
            match self.workers.get_mut(k) {
                Some(w) => {
                    let _ = w.push(notif);
                },
                None => {},
            }
            assert(self@.dom() =~= before.dom());
            assert(before.contains_key(k) ==> self@ =~= before.insert(k, before[k].took(notif)));
            assert(!before.contains_key(k) ==> self@ =~= before);
            k = k + 1;
        }
    }
}

} // verus!
