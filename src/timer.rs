use vstd::prelude::*;
use std::rc::Rc;

verus! {

/// A waker registered for a deadline, in microseconds.
#[derive(Clone, Copy, Debug, PartialEq, Eq, Structural)]
pub struct TimerEntry {
    pub deadline: u64,
    pub waker: u64,
}

pub open spec fn is_due(now: u64) -> spec_fn(TimerEntry) -> bool {
    |e: TimerEntry| e.deadline <= now
}

pub open spec fn not_due(now: u64) -> spec_fn(TimerEntry) -> bool {
    |e: TimerEntry| e.deadline > now
}

/// A monotonic clock with the wakers that wait on it. A waker whose step
/// was dropped fires into nothing: the scheduler ignores stale handles.
pub struct Timer {
    now: u64,
    entries: Vec<TimerEntry>,
}

impl Timer {
    pub closed spec fn now_spec(&self) -> u64 {
        self.now
    }

    pub closed spec fn entries(&self) -> Seq<TimerEntry> {
        self.entries@
    }

    pub fn new(now: u64) -> (r: Timer)
        ensures
            r.now_spec() == now,
            r.entries().len() == 0,
    {
        Timer { now, entries: Vec::new() }
    }

    pub fn now(&self) -> (r: u64)
        ensures
            r == self.now_spec(),
    {
        self.now
    }

    /// Registers `waker` to fire once the clock reaches `deadline`.
    pub fn wait_until(&mut self, deadline: u64, waker: u64)
        ensures
            final(self).now_spec() == old(self).now_spec(),
            final(self).entries() == old(self).entries().push(TimerEntry { deadline, waker }),
    {
        self.entries.push(TimerEntry { deadline, waker });
    }

    /// Registers `waker` to fire `duration` from now (at the end of time
    /// where that overflows).
    pub fn wait(&mut self, duration: u64, waker: u64)
        ensures
            final(self).now_spec() == old(self).now_spec(),
            final(self).entries() == old(self).entries().push(TimerEntry {
                deadline: if old(self).now_spec() + duration > u64::MAX { u64::MAX } else { (old(self).now_spec() + duration) as u64 },
                waker,
            }),
    {
        let deadline = self.now.saturating_add(duration);
        self.wait_until(deadline, waker);
    }

    /// Moves the clock to `now` (never backwards) and hands back the wakers
    /// whose deadline has come, in the order they were registered.
    pub fn advance_clock(&mut self, now: u64) -> (fired: Vec<TimerEntry>)
        ensures
            final(self).now_spec() == if now > old(self).now_spec() { now } else { old(self).now_spec() },
            fired@ == old(self).entries().filter(is_due(final(self).now_spec())),
            final(self).entries() == old(self).entries().filter(not_due(final(self).now_spec())),
    {
        if now > self.now {
            self.now = now;
        }
        let t = self.now;
        let ghost all = self.entries@;
        let mut fired: Vec<TimerEntry> = Vec::new();
        let mut kept: Vec<TimerEntry> = Vec::new();
        let mut i: usize = 0;
        while i < self.entries.len()
            invariant
                self.entries@ == all,
                self.now == t,
                i <= all.len(),
                fired@ == all.take(i as int).filter(is_due(t)),
                kept@ == all.take(i as int).filter(not_due(t)),
            decreases all.len() - i,
        {
            let e = self.entries[i];
            proof {
                assert(all.take(i + 1).drop_last() =~= all.take(i as int));
                reveal(Seq::filter);
            }
            if e.deadline <= t {
                fired.push(e);
            } else {
                kept.push(e);
            }
            i = i + 1;
        }
        proof {
            assert(all.take(all.len() as int) =~= all);
        }
        self.entries = kept;
        fired
    }
}

/// A shared handle to the runtime's timer.
#[derive(Clone)]
pub struct TimerRc(pub Rc<Timer>);

impl TimerRc {
    pub fn timer(&self) -> (r: &Timer)
        ensures
            *r == *self.0,
    {
        &*self.0
    }
}

} // verus!
