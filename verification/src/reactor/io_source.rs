//! The wakers that wait for an I/O source to become ready.

use crate::channel::ChannelPair;
use crate::reactor::reactor::Direction;
use crate::runtime::ledger::list_claims;
use crate::task::note::Note;
use crate::task::waker::{wake_by_ref_fn, Waker};
use vstd::prelude::*;

verus! {

/// How many wakers one list takes.
pub const WAKER_AMNT: usize = 64;

/// The wakers of `s` in the order in which a drain wakes them: the one
/// attached last comes first.
pub open spec fn drained(s: Seq<Waker>) -> Seq<Waker> {
    Seq::new(s.len(), |i: int| s[s.len() - 1 - i])
}

/// The notifications that waking each of `ws` sends, in order.
pub open spec fn notes_of(ws: Seq<Waker>) -> Seq<Note> {
    Seq::new(ws.len(), |i: int| ws[i].note)
}

/// What waits in `chan` after `notes` were sent to it: a closed channel takes
/// nothing.
pub open spec fn notified_all(chan: ChannelPair<Note>, notes: Seq<Note>) -> Seq<Note> {
    if chan.is_open() {
        chan@ + notes
    } else {
        chan@
    }
}

/// A bounded list of wakers.
pub struct WakerList {
    blk: Vec<Waker>,
}

impl View for WakerList {
    type V = Seq<Waker>;

    /// The wakers in the order in which they were attached.
    closed spec fn view(&self) -> Seq<Waker> {
        self.blk@
    }
}

impl WakerList {
    pub fn new() -> (l: WakerList)
        ensures
            l@ == Seq::<Waker>::empty(),
    {
        WakerList { blk: Vec::new() }
    }

    /// Wakes every waker once, the last attached first, and empties the list.
    /// The wakers come back in the order in which they were woken, to be
    /// released.
    pub fn wake_all(&mut self, chan: &mut ChannelPair<Note>) -> (woken: Vec<Waker>)
        ensures
            final(self)@ == Seq::<Waker>::empty(),
            woken@ == drained(old(self)@),
            final(chan).is_open() == old(chan).is_open(),
            final(chan)@ == notified_all(*old(chan), notes_of(woken@)),
    {
        let mut woken: Vec<Waker> = Vec::new();
        let ghost all = self.blk@;
        while self.blk.len() != 0
            invariant
                self.blk@.len() + woken@.len() == all.len(),
                forall|i: int| 0 <= i < self.blk@.len() ==> self.blk@[i] == all[i],
                forall|i: int| 0 <= i < woken@.len() ==> woken@[i] == all[all.len() - 1 - i],
                chan.is_open() == old(chan).is_open(),
                chan@ == notified_all(*old(chan), notes_of(woken@)),
            decreases self.blk@.len(),
        {
            let ghost before = woken@;
            let waker = self.blk.pop().unwrap();
            wake_by_ref_fn(&waker, chan);
            woken.push(waker);
            assert(notes_of(woken@) =~= notes_of(before).push(waker.note));
        }
        assert(woken@ =~= drained(all));
        woken
    }

    /// Empties the list without waking anybody. The wakers come back in the
    /// order in which they were attached, to be released.
    pub fn take(&mut self) -> (wakers: Vec<Waker>)
        ensures
            final(self)@ == Seq::<Waker>::empty(),
            wakers@ == old(self)@,
    {
        let mut wakers: Vec<Waker> = Vec::new();
        std::mem::swap(&mut self.blk, &mut wakers);
        wakers
    }

    /// Appends `waker`. The list must have room. A waker that is attached
    /// twice is held twice, and woken twice.
    pub fn put(&mut self, waker: Waker)
        requires
            !old(self).is_full(),
        ensures
            final(self)@ == old(self)@.push(waker),
    {
        self.blk.push(waker);
    }

    /// Whether the list has taken as many wakers as it can.
    pub open spec fn is_full(&self) -> bool {
        self@.len() >= WAKER_AMNT
    }

    pub fn full(&self) -> (b: bool)
        ensures
            b == self.is_full(),
    {
        self.blk.len() >= WAKER_AMNT
    }

    /// How many of the wakers are for the cell at `ptr`.
    pub fn count(&self, ptr: usize) -> (n: usize)
        ensures
            n == list_claims(self@, ptr),
    {
        let mut n: usize = 0;
        let mut i: usize = 0;
        assert(self.blk@.take(0) =~= Seq::<Waker>::empty());
        while i < self.blk.len()
            invariant
                i <= self.blk.len(),
                n <= i,
                n == list_claims(self.blk@.take(i as int), ptr),
            decreases self.blk.len() - i,
        {
            assert(self.blk@.take(i + 1).drop_last() =~= self.blk@.take(i as int));
            if self.blk[i].raw.ptr == ptr {
                n = n + 1;
            }
            i = i + 1;
        }
        assert(self.blk@.take(i as int) =~= self.blk@);
        n
    }

    pub fn elements(&self) -> (n: usize)
        ensures
            n == self@.len(),
    {
        self.blk.len()
    }
}

/// Contains wakers.
pub struct Wakers {
    pub rd: WakerList,
    pub wr: WakerList,
}

impl Wakers {
    /// The list for `dir`.
    pub open spec fn list(&self, dir: Direction) -> WakerList {
        match dir {
            Direction::Read => self.rd,
            Direction::Write => self.wr,
        }
    }

    /// The list for the direction other than `dir`.
    pub open spec fn other(&self, dir: Direction) -> WakerList {
        match dir {
            Direction::Read => self.wr,
            Direction::Write => self.rd,
        }
    }

    /// Appends `waker` to the list for `dir`, which must have room.
    pub fn put(&mut self, waker: Waker, dir: Direction)
        requires
            !old(self).list(dir).is_full(),
        ensures
            final(self).list(dir)@ == old(self).list(dir)@.push(waker),
            final(self).other(dir) == old(self).other(dir),
    {
        match dir {
            Direction::Read => self.rd.put(waker),
            Direction::Write => self.wr.put(waker),
        }
    }

    /// Wakes and removes the wakers for `dir`.
    pub fn wake_all(&mut self, dir: Direction, chan: &mut ChannelPair<Note>) -> (woken: Vec<Waker>)
        ensures
            final(self).list(dir)@ == Seq::<Waker>::empty(),
            final(self).other(dir) == old(self).other(dir),
            woken@ == drained(old(self).list(dir)@),
            final(chan).is_open() == old(chan).is_open(),
            final(chan)@ == notified_all(*old(chan), notes_of(woken@)),
    {
        if !self.has_wakers() {
            assert(Seq::<Waker>::empty() =~= drained(old(self).list(dir)@));
            assert(old(chan)@ + Seq::<Note>::empty() =~= old(chan)@);
            assert(notes_of(Seq::<Waker>::empty()) =~= Seq::<Note>::empty());
            assert(final(self).list(dir)@ =~= Seq::<Waker>::empty());
            return Vec::new();
        }
        match dir {
            Direction::Read => self.rd.wake_all(chan),
            Direction::Write => self.wr.wake_all(chan),
        }
    }

    /// Wakes and removes the wakers for both directions: those for reading
    /// first.
    pub fn wake_all_no_dir(&mut self, chan: &mut ChannelPair<Note>) -> (woken: Vec<Waker>)
        ensures
            final(self).rd@ == Seq::<Waker>::empty(),
            final(self).wr@ == Seq::<Waker>::empty(),
            woken@ == drained(old(self).rd@) + drained(old(self).wr@),
            final(chan).is_open() == old(chan).is_open(),
            final(chan)@ == notified_all(*old(chan), notes_of(woken@)),
    {
        let mut woken = self.rd.wake_all(chan);
        let ghost first = woken@;
        let mut rest = self.wr.wake_all(chan);
        let ghost second = rest@;
        woken.append(&mut rest);
        assert(notes_of(first + second) =~= notes_of(first) + notes_of(second));
        assert((old(chan)@ + notes_of(first)) + notes_of(second) =~= old(chan)@ + (notes_of(first)
            + notes_of(second)));
        woken
    }

    pub fn has_wakers(&self) -> (b: bool)
        ensures
            b == (self.rd@.len() > 0 || self.wr@.len() > 0),
    {
        self.rd.elements() > 0 || self.wr.elements() > 0
    }
}

/// What an I/O source holds, as plain values.
pub struct IoSourceView {
    pub rd: Seq<Waker>,
    pub wr: Seq<Waker>,
    pub token: usize,
}

impl IoSourceView {
    /// The wakers that an event with the given readiness wakes, in order.
    pub open spec fn woken(self, readable: bool, writable: bool) -> Seq<Waker> {
        if readable && writable {
            drained(self.rd) + drained(self.wr)
        } else if readable {
            drained(self.rd)
        } else if writable {
            drained(self.wr)
        } else {
            Seq::empty()
        }
    }

    /// The source after an event with the given readiness.
    pub open spec fn after(self, readable: bool, writable: bool) -> IoSourceView {
        IoSourceView {
            rd: if readable {
                Seq::empty()
            } else {
                self.rd
            },
            wr: if writable {
                Seq::empty()
            } else {
                self.wr
            },
            token: self.token,
        }
    }

    /// The source with `waker` attached for `dir`.
    pub open spec fn with(self, waker: Waker, dir: Direction) -> IoSourceView {
        match dir {
            Direction::Read => IoSourceView { rd: self.rd.push(waker), ..self },
            Direction::Write => IoSourceView { wr: self.wr.push(waker), ..self },
        }
    }

    /// Whether the list for `dir` has no room left.
    pub open spec fn is_full(self, dir: Direction) -> bool {
        match dir {
            Direction::Read => self.rd.len() >= WAKER_AMNT,
            Direction::Write => self.wr.len() >= WAKER_AMNT,
        }
    }
}

/// Represents a connection between a waker and the reactor.
pub struct IoSource {
    pub wakers: Wakers,
    pub token: usize,
}

impl View for IoSource {
    type V = IoSourceView;

    open spec fn view(&self) -> IoSourceView {
        IoSourceView { rd: self.wakers.rd@, wr: self.wakers.wr@, token: self.token }
    }
}

impl IoSource {
    pub fn new(token: usize) -> (s: IoSource)
        ensures
            s@ == (IoSourceView { rd: Seq::empty(), wr: Seq::empty(), token }),
    {
        IoSource { wakers: Wakers { rd: WakerList::new(), wr: WakerList::new() }, token }
    }

    pub fn has_wakers(&self) -> (b: bool)
        ensures
            b == (self@.rd.len() > 0 || self@.wr.len() > 0),
    {
        self.wakers.has_wakers()
    }

    /// Wakes the wakers that wait for what the event reports: those for
    /// reading if it is readable, those for writing if it is writable, both if
    /// it is both, none otherwise.
    pub fn wake_with_event(
        &mut self,
        readable: bool,
        writable: bool,
        chan: &mut ChannelPair<Note>,
    ) -> (woken: Vec<Waker>)
        ensures
            final(self)@ == old(self)@.after(readable, writable),
            woken@ == old(self)@.woken(readable, writable),
            final(chan).is_open() == old(chan).is_open(),
            final(chan)@ == notified_all(*old(chan), notes_of(woken@)),
    {
        match (readable, writable) {
            (true, false) => self.wakers.wake_all(Direction::Read, chan),
            (false, true) => self.wakers.wake_all(Direction::Write, chan),
            (true, true) => self.wakers.wake_all_no_dir(chan),
            (..) => {
                assert(old(chan)@ + Seq::<Note>::empty() =~= old(chan)@);
                assert(notes_of(Seq::<Waker>::empty()) =~= Seq::<Note>::empty());
                Vec::new()
            },
        }
    }

    /// Attaches `waker` for `dir`. The list must have room.
    pub fn put(&mut self, waker: Waker, dir: Direction)
        requires
            !old(self)@.is_full(dir),
        ensures
            final(self)@ == old(self)@.with(waker, dir),
    {
        self.wakers.put(waker, dir)
    }
}

/// A drain wakes every waker of the list once, the last attached first.
pub proof fn law_drain_wakes_each_once(s: Seq<Waker>)
    ensures
        drained(s).len() == s.len(),
        forall|i: int| 0 <= i < s.len() ==> (#[trigger] drained(s)[i]) == s[s.len() - 1 - i],
        notes_of(drained(s)).len() == s.len(),
{
}

/// An event wakes the wakers that wait for what it reports, those for reading
/// first, and nobody else; the same event again wakes nobody.
pub proof fn law_every_waker_once(src: IoSourceView, readable: bool, writable: bool)
    ensures
        src.woken(readable, writable) == (if readable {
            drained(src.rd)
        } else {
            Seq::empty()
        }) + (if writable {
            drained(src.wr)
        } else {
            Seq::empty()
        }),
        src.woken(readable, writable).len() == (if readable {
            src.rd.len()
        } else {
            0
        }) + (if writable {
            src.wr.len()
        } else {
            0
        }),
        src.after(readable, writable).woken(readable, writable) == Seq::<Waker>::empty(),
{
    let rd = if readable {
        drained(src.rd)
    } else {
        Seq::empty()
    };
    let wr = if writable {
        drained(src.wr)
    } else {
        Seq::empty()
    };
    assert(src.woken(readable, writable) =~= rd + wr);
    assert(src.after(readable, writable).woken(readable, writable) =~= Seq::<Waker>::empty());
}

} // verus!
