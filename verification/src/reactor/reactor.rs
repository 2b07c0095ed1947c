//! The reactor's registry of sources and its event loop.

use crate::channel::ChannelPair;
use crate::reactor::io_source::{IoSource, IoSourceView, notes_of, notified_all};
use crate::registry::{handed_out, Registry};
use crate::task::note::Note;
use crate::task::task::Poll;
use crate::task::waker::Waker;
use vstd::prelude::*;

verus! {

/// The token of the waker that ends the event loop. No source has it.
pub const SHUTDOWN: usize = usize::MAX;

/// How many sources the registry makes room for at the start.
pub const SOURCES: usize = 1024;

/// Represents the interest of the underlying io.
#[derive(Clone, Copy, PartialEq, Eq, Debug, Structural)]
pub enum Direction {
    Read,
    Write,
}

/// What the selector reports of one source.
#[derive(Clone, Copy, PartialEq, Eq, Debug, Structural)]
pub struct Event {
    pub token: usize,
    pub readable: bool,
    pub writable: bool,
}

/// The sources after the event `e`, which must be for one of them.
pub open spec fn dispatched(m: Map<usize, IoSourceView>, e: Event) -> Map<usize, IoSourceView> {
    m.insert(e.token, m[e.token].after(e.readable, e.writable))
}

/// The sources with a new one under `token`, for which nobody waits yet.
pub open spec fn registered(m: Map<usize, IoSourceView>, token: usize) -> Map<
    usize,
    IoSourceView,
> {
    m.insert(token, IoSourceView { rd: Seq::empty(), wr: Seq::empty(), token })
}

/// What one pass over a batch of events comes to.
pub struct Turn {
    pub sources: Map<usize, IoSourceView>,
    pub woken: Seq<Waker>,
    pub shutdown: bool,
}

/// One pass over `events`, in order: each event wakes the wakers of its
/// source; the shutdown token ends the pass, and what follows it is not looked
/// at.
pub open spec fn turn(m: Map<usize, IoSourceView>, events: Seq<Event>) -> Turn
    decreases events.len(),
{
    if events.len() == 0 {
        Turn { sources: m, woken: Seq::empty(), shutdown: false }
    } else if events[0].token == SHUTDOWN {
        Turn { sources: m, woken: Seq::empty(), shutdown: true }
    } else {
        let rest = turn(dispatched(m, events[0]), events.drop_first());
        Turn {
            sources: rest.sources,
            woken: m[events[0].token].woken(events[0].readable, events[0].writable) + rest.woken,
            shutdown: rest.shutdown,
        }
    }
}

/// Whether every event that a pass over `events` looks at is for a registered
/// source.
pub open spec fn known(dom: Set<usize>, events: Seq<Event>) -> bool
    decreases events.len(),
{
    events.len() == 0 || events[0].token == SHUTDOWN || (dom.contains(events[0].token) && known(
        dom,
        events.drop_first(),
    ))
}

/// Whether an attempt failed only because it would have had to wait.
pub open spec fn blocked<R, E>(attempt: Result<R, E>, would_block: bool) -> bool {
    attempt is Err && would_block
}

/// The I/O reactor's registry of sources.
pub struct Reactor {
    sources: Registry<IoSource>,
}

impl View for Reactor {
    type V = Map<usize, IoSourceView>;

    /// The registered sources by token.
    closed spec fn view(&self) -> Map<usize, IoSourceView> {
        self.sources@.map_values(|s: IoSource| s@)
    }
}

impl Reactor {
    pub closed spec fn wf(&self) -> bool {
        self.sources.wf()
    }

    /// The token that the next registration will get.
    pub open spec fn next_token(&self) -> usize {
        self.vacant()[0]
    }

    /// The tokens that the next registrations will get, in this order, for as
    /// long as no source is removed: first those that were freed, the one
    /// freed last first, and at the end the lowest token that was never used.
    pub closed spec fn vacant(&self) -> Seq<usize> {
        self.sources.vacant()
    }

    /// A reactor without sources.
    pub fn new() -> (r: Reactor)
        ensures
            r.wf(),
            r@ == Map::<usize, IoSourceView>::empty(),
            r.vacant() == seq![0usize],
    {
        let r = Reactor { sources: Registry::with_capacity(SOURCES) };
        assert(r@ =~= Map::<usize, IoSourceView>::empty());
        r
    }

    /// The token under which the next source will be registered: the one to
    /// register it with at the selector.
    pub fn vacant_token(&self) -> (token: usize)
        requires
            self.wf(),
        ensures
            token == self.next_token(),
            !self@.contains_key(token),
    {
        self.sources.vacant_key()
    }

    /// Whether a source is registered under `token`.
    pub fn has_source(&self, token: usize) -> (b: bool)
        ensures
            b == self@.contains_key(token),
    {
        self.sources.contains(token)
    }

    /// The number of tokens to scan in order to see every source.
    pub fn slots(&self) -> (n: usize)
        requires
            self.wf(),
        ensures
            forall|token: usize| self@.contains_key(token) ==> token < n,
    {
        proof {
            self.sources.lemma_keys_bounded();
            assert(self@.dom() =~= self.sources@.dom());
        }
        self.sources.slots()
    }

    /// The source under `token`, if one is registered.
    pub fn source(&self, token: usize) -> (r: Option<&IoSource>)
        ensures
            r.is_some() == self@.contains_key(token),
            r matches Some(s) ==> s@ == self@[token],
    {
        self.sources.get(token)
    }

    /// Whether the source under `token` has no room for a further waker for
    /// `dir`.
    pub fn is_full(&self, token: usize, dir: Direction) -> (b: bool)
        requires
            self@.contains_key(token),
        ensures
            b == self@[token].is_full(dir),
    {
        match self.sources.get(token) {
            Some(src) => match dir {
                Direction::Read => src.wakers.rd.full(),
                Direction::Write => src.wakers.wr.full(),
            },
            None => false,
        }
    }

    /// Registers a source, given what the selector answered when the source
    /// was registered there under `vacant_token`. If the selector refused,
    /// so does this, with the selector's error, and no source is added. The
    /// token of a source is never the one that is reserved for shutdown.
    pub fn register<E>(&mut self, selector: Result<(), E>) -> (r: Result<usize, E>)
        requires
            old(self).wf(),
        ensures
            final(self).wf(),
            match selector {
                Ok(_) => r == Ok::<usize, E>(old(self).next_token()) && old(self).next_token()
                    != SHUTDOWN && final(self)@ == registered(
                    old(self)@,
                    old(self).next_token(),
                ) && final(self).vacant() == handed_out(old(self).vacant()),
                Err(e) => r == Err::<usize, E>(e) && final(self)@ == old(self)@
                    && final(self).vacant() == old(self).vacant(),
            },
    {
        match selector {
            Ok(_) => {
                let token = self.sources.vacant_key();
                let _ = self.sources.insert(IoSource::new(token));
                assert(self@ =~= registered(old(self)@, token));
                Ok(token)
            },
            Err(e) => Err(e),
        }
    }

    /// Removes the source under `token`, if there is one, and hands back the
    /// wakers that still waited for it, to be released.
    pub fn deregister(&mut self, token: usize) -> (r: Option<IoSource>)
        requires
            old(self).wf(),
        ensures
            final(self).wf(),
            r.is_some() == old(self)@.contains_key(token),
            r matches Some(s) ==> s@ == old(self)@[token],
            final(self)@ == old(self)@.remove(token),
            final(self).vacant() == (if r.is_some() {
                seq![token] + old(self).vacant()
            } else {
                old(self).vacant()
            }),
    {
        let r = self.sources.remove(token);
        assert(self@ =~= old(self)@.remove(token));
        r
    }

    /// Attaches `waker` to the source under `token`, which must be registered
    /// and have room for it.
    pub fn attach_waker(&mut self, waker: Waker, token: usize, dir: Direction)
        requires
            old(self).wf(),
            old(self)@.contains_key(token),
            !old(self)@[token].is_full(dir),
        ensures
            final(self).wf(),
            final(self)@ == old(self)@.insert(token, old(self)@[token].with(waker, dir)),
            final(self).vacant() == old(self).vacant(),
    {
        match self.sources.get_mut(token) {
            Some(src) => {
                src.put(waker, dir);
            },
            None => {},
        }
        assert(self@ =~= old(self)@.insert(token, old(self)@[token].with(waker, dir)));
    }

    /// Whether every event that a pass over `events` looks at is for a
    /// registered source: whether `start` may be called on them.
    pub fn knows(&self, events: &Vec<Event>) -> (b: bool)
        ensures
            b == known(self@.dom(), events@),
    {
        let mut i: usize = 0;
        assert(events@.subrange(0, events@.len() as int) =~= events@);
        while i < events.len()
            invariant
                i <= events.len(),
                known(self@.dom(), events@) == known(
                    self@.dom(),
                    events@.subrange(i as int, events@.len() as int),
                ),
            decreases events.len() - i,
        {
            let ghost rest = events@.subrange(i as int, events@.len() as int);
            assert(rest[0] == events@[i as int]);
            assert(rest.drop_first() =~= events@.subrange(i + 1, events@.len() as int));
            if events[i].token == SHUTDOWN {
                return true;
            }
            if !self.has_source(events[i].token) {
                return false;
            }
            i = i + 1;
        }
        true
    }

    /// Settles one non-blocking attempt at reading, writing or flushing on
    /// the source under `token`. If the attempt failed only because it would
    /// block (`would_block` says so), `waker` is attached for `dir` and the
    /// answer is pending; the source must then be registered and have room.
    /// Any other attempt is the answer, and `waker` comes back unused.
    pub fn handle_async<R, E>(
        &mut self,
        attempt: Result<R, E>,
        would_block: bool,
        waker: Waker,
        token: usize,
        dir: Direction,
    ) -> (out: (Poll<Result<R, E>>, Option<Waker>))
        requires
            old(self).wf(),
            blocked(attempt, would_block) ==> old(self)@.contains_key(token),
            blocked(attempt, would_block) ==> !old(self)@[token].is_full(dir),
        ensures
            final(self).wf(),
            final(self).vacant() == old(self).vacant(),
            blocked(attempt, would_block) ==> out.0 is Pending && out.1.is_none() && final(self)@
                == old(self)@.insert(token, old(self)@[token].with(waker, dir)),
            !blocked(attempt, would_block) ==> out.0 == Poll::Ready(attempt) && out.1 == Some(waker)
                && final(self)@ == old(self)@,
    {
        match attempt {
            Err(e) => {
                if would_block {
                    self.attach_waker(waker, token, dir);
                    (Poll::Pending, None)
                } else {
                    (Poll::Ready(Err(e)), Some(waker))
                }
            },
            Ok(size) => (Poll::Ready(Ok(size)), Some(waker)),
        }
    }

    /// One pass of the event loop over the batch `events` that the selector
    /// returned. Every event that the pass looks at must be for a registered
    /// source. The wakers come back in the order in which they were woken, to
    /// be released; `true` means that the loop has been told to end.
    pub fn start(&mut self, events: &Vec<Event>, chan: &mut ChannelPair<Note>) -> (out: (
        Vec<Waker>,
        bool,
    ))
        requires
            old(self).wf(),
            known(old(self)@.dom(), events@),
        ensures
            final(self).wf(),
            final(self)@ == turn(old(self)@, events@).sources,
            out.0@ == turn(old(self)@, events@).woken,
            out.1 == turn(old(self)@, events@).shutdown,
            final(self).vacant() == old(self).vacant(),
            final(chan).is_open() == old(chan).is_open(),
            final(chan)@ == notified_all(*old(chan), notes_of(out.0@)),
    {
        let mut woken: Vec<Waker> = Vec::new();
        let mut i: usize = 0;
        let mut shutdown = false;
        assert(events@.subrange(0, events@.len() as int) =~= events@);
        assert(notes_of(woken@) =~= Seq::<Note>::empty());
        assert(old(chan)@ + Seq::<Note>::empty() =~= old(chan)@);
        while i < events.len() && !shutdown
            invariant
                self.wf(),
                i <= events.len(),
                self.vacant() == old(self).vacant(),
                self@.dom() == old(self)@.dom(),
                !shutdown ==> known(self@.dom(), events@.subrange(i as int, events@.len() as int)),
                !shutdown ==> turn(old(self)@, events@).sources == turn(
                    self@,
                    events@.subrange(i as int, events@.len() as int),
                ).sources,
                !shutdown ==> turn(old(self)@, events@).woken == woken@ + turn(
                    self@,
                    events@.subrange(i as int, events@.len() as int),
                ).woken,
                !shutdown ==> turn(old(self)@, events@).shutdown == turn(
                    self@,
                    events@.subrange(i as int, events@.len() as int),
                ).shutdown,
                shutdown ==> turn(old(self)@, events@) == (Turn {
                    sources: self@,
                    woken: woken@,
                    shutdown: true,
                }),
                chan.is_open() == old(chan).is_open(),
                chan@ == notified_all(*old(chan), notes_of(woken@)),
            decreases events.len() - i + (if shutdown { 0int } else { 1int }),
        {
            let ghost rest = events@.subrange(i as int, events@.len() as int);
            let ghost before = self@;
            let ghost sofar = woken@;
            let event = events[i];
            assert(rest[0] == event);
            assert(rest.drop_first() =~= events@.subrange(i + 1, events@.len() as int));
            if event.token == SHUTDOWN {
                shutdown = true;
                assert(sofar + Seq::<Waker>::empty() =~= sofar);
            } else {
                match self.sources.get_mut(event.token) {
                    Some(src) => {
                        let mut more = src.wake_with_event(event.readable, event.writable, chan);
                        let ghost added = more@;
                        woken.append(&mut more);
                        assert(notes_of(sofar + added) =~= notes_of(sofar) + notes_of(added));
                        assert((old(chan)@ + notes_of(sofar)) + notes_of(added) =~= old(chan)@ + (
                        notes_of(sofar) + notes_of(added)));
                    },
                    None => {},
                }
                assert(self@ =~= dispatched(before, event));
                assert(self@.dom() =~= before.dom());
                assert(sofar + (before[event.token].woken(event.readable, event.writable) + turn(
                    self@,
                    rest.drop_first(),
                ).woken) =~= woken@ + turn(self@, rest.drop_first()).woken);
                i = i + 1;
            }
        }
        if !shutdown {
            assert(events@.subrange(i as int, events@.len() as int) =~= Seq::<Event>::empty());
            assert(woken@ + Seq::<Waker>::empty() =~= woken@);
        }
        (woken, shutdown)
    }
}

} // verus!
