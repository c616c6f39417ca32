use vstd::prelude::*;
use crate::fail::Fail;
use crate::queue::{QDesc, QToken};
use crate::scheduler::{count_ready, lemma_raw_injective, polled, Scheduler, SlotMeta, SlotState, Step, TaskHandle};

verus! {

/// A token's entry: its descriptor, the handle of its step, and whether a
/// close cancelled it.
#[derive(Clone, Copy, Debug, PartialEq, Eq, Structural)]
pub struct TokenEntry {
    pub qt: QToken,
    pub qd: QDesc,
    pub handle: TaskHandle,
    pub cancelled: bool,
}

/// What waiting on a token gives.
#[derive(Debug)]
pub enum WaitOutcome<T> {
    /// The step finished; here it is, with its descriptor.
    Completed(QDesc, T),
    /// A close cancelled the operation.
    Cancelled(QDesc),
}

/// Operations in flight: each is a step in the scheduler, named by a token
/// that carries its handle's raw form.
pub struct IoQueue<T> {
    scheduler: Scheduler<T>,
    entries: Vec<TokenEntry>,
}

impl<T> IoQueue<T> {
    pub closed spec fn entries(&self) -> Seq<TokenEntry> {
        self.entries@
    }

    /// The scheduler's slots.
    pub closed spec fn slots(&self) -> Seq<SlotMeta> {
        self.scheduler.view_slots()
    }

    /// Some entry is under token `qt`.
    pub open spec fn has_token(&self, qt: QToken) -> bool {
        exists|j: int| 0 <= j < self.entries().len() && #[trigger] self.entries()[j].qt == qt
    }

    /// The step held in each slot.
    pub closed spec fn tasks(&self) -> Seq<Option<T>> {
        self.scheduler.tasks()
    }

    /// Every token that was not cancelled names a live step: its handle's
    /// generation is that of its slot, and the slot is occupied.
    pub proof fn lemma_live_entry_generation(&self, i: int)
        requires
            self.wf(),
            0 <= i < self.entries().len(),
            !self.entries()[i].cancelled,
        ensures
            ({
                let h = self.entries()[i].handle;
                &&& h.slot < self.slots().len()
                &&& self.slots()[h.slot as int].generation == h.generation
                &&& self.slots()[h.slot as int].state != SlotState::Free
                &&& self.entries()[i].qt.0 == h.raw_spec()
            }),
    {
        assert(self.entries[i] == self.entries()[i]);
    }

    /// The step that `h` names has finished.
    pub open spec fn is_completed(&self, h: TaskHandle) -> bool {
        h.slot < self.slots().len() && self.slots()[h.slot as int].state == SlotState::Completed
    }

    pub closed spec fn wf(&self) -> bool {
        &&& self.scheduler.wf()
        &&& forall|i: int| 0 <= i < self.entries.len() ==> {
            let e = #[trigger] self.entries[i];
            &&& e.qt.0 == e.handle.raw_spec()
            &&& !e.cancelled ==> self.scheduler.is_live(e.handle)
            &&& e.cancelled ==> self.scheduler.retired().contains(e.handle)
        }
        &&& forall|i: int, j: int| 0 <= i < j < self.entries.len() ==> (#[trigger] self.entries[i]).handle
            != (#[trigger] self.entries[j]).handle
    }

    pub fn new() -> (r: IoQueue<T>)
        ensures
            r.wf(),
            r.entries().len() == 0,
    {
        IoQueue { scheduler: Scheduler::new(), entries: Vec::new() }
    }

    /// No two tokens in the table share a raw value.
    pub proof fn lemma_tokens_distinct(&self, i: int, j: int)
        requires
            self.wf(),
            0 <= i < self.entries().len(),
            0 <= j < self.entries().len(),
            i != j,
        ensures
            self.entries()[i].qt != self.entries()[j].qt,
    {
        let a = self.entries[i];
        let b = self.entries[j];
        if i < j {
            assert(a.handle != b.handle);
        } else {
            assert(b.handle != a.handle);
        }
        lemma_raw_injective(a.handle, b.handle);
    }

    /// Schedules `step` for `qd` and hands back its token.
    pub fn submit(&mut self, qd: QDesc, step: T) -> (r: Result<QToken, Fail>)
        requires
            old(self).wf(),
        ensures
            final(self).wf(),
            r is Err ==> r == Err::<QToken, Fail>(Fail::ResourceExhausted) && final(self).entries() == old(self).entries()
                && old(self).slots().len() == u32::MAX,
            r is Ok ==> final(self).entries().len() == old(self).entries().len() + 1
                && final(self).entries().drop_last() == old(self).entries()
                && final(self).entries().last().qt == r->Ok_0
                && final(self).entries().last().qd == qd
                && !final(self).entries().last().cancelled
                && final(self).entries().last().qt.0 == final(self).entries().last().handle.raw_spec()
                && final(self).tasks()[final(self).entries().last().handle.slot as int] == Some(step),
            r is Ok ==> {
                let h = final(self).entries().last().handle;
                &&& h.slot < old(self).slots().len() ==> old(self).slots()[h.slot as int].state == SlotState::Free
                    && h.generation == old(self).slots()[h.slot as int].generation + 1
                &&& h.slot >= old(self).slots().len() ==> h.slot == old(self).slots().len() && h.generation == 0
            },
    {
        let h = match self.scheduler.insert(step) {
            Err(e) => {
                proof {
                    assert forall|i: int| 0 <= i < self.entries.len() implies {
                        let e = #[trigger] self.entries[i];
                        &&& e.qt.0 == e.handle.raw_spec()
                        &&& !e.cancelled ==> self.scheduler.is_live(e.handle)
                        &&& e.cancelled ==> self.scheduler.retired().contains(e.handle)
                    } by {
                        let e = self.entries[i];
                        if !e.cancelled {
                            assert(old(self).scheduler.is_live(e.handle));
                        }
                    }
                }
                return Err(e);
            },
            Ok(h) => h,
        };
        let qt = QToken(h.raw());
        let ghost before = self.entries@;
        self.entries.push(TokenEntry { qt, qd, handle: h, cancelled: false });
        proof {
            assert forall|i: int| 0 <= i < self.entries.len() implies {
                let e = #[trigger] self.entries[i];
                &&& e.qt.0 == e.handle.raw_spec()
                &&& !e.cancelled ==> self.scheduler.is_live(e.handle)
                &&& e.cancelled ==> self.scheduler.retired().contains(e.handle)
            } by {
                if i < before.len() {
                    let e = before[i];
                    assert(self.entries[i] == e);
                    assert(old(self).entries[i] == e);
                    if !e.cancelled {
                        assert(old(self).scheduler.is_live(e.handle));
                        assert(e.handle != h);
                    }
                }
            }
            assert forall|i: int, j: int| 0 <= i < j < self.entries.len() implies (#[trigger] self.entries[i]).handle
                != (#[trigger] self.entries[j]).handle by {
                if j < before.len() {
                    assert(old(self).entries[i] == self.entries[i] && old(self).entries[j] == self.entries[j]);
                } else {
                    let e = old(self).entries[i];
                    assert(self.entries[i] == e);
                    if e.cancelled {
                        assert(old(self).scheduler.retired().contains(e.handle));
                    } else {
                        assert(old(self).scheduler.is_live(e.handle));
                    }
                }
            }
            assert(self.entries@.drop_last() =~= old(self).entries@);
        }
        Ok(qt)
    }

    fn find(&self, qt: QToken) -> (r: Option<usize>)
        requires
            self.wf(),
        ensures
            r is None ==> forall|i: int| 0 <= i < self.entries().len() ==> (#[trigger] self.entries()[i]).qt != qt,
            r is Some ==> r->Some_0 < self.entries().len() && self.entries()[r->Some_0 as int].qt == qt,
    {
        let mut i: usize = 0;
        while i < self.entries.len()
            invariant
                i <= self.entries.len(),
                forall|j: int| 0 <= j < i ==> (#[trigger] self.entries@[j]).qt != qt,
            decreases self.entries.len() - i,
        {
            if self.entries[i].qt.0 == qt.0 {
                return Some(i);
            }
            i = i + 1;
        }
        None
    }

    /// Reaps a token: a finished step is taken out of the scheduler, a
    /// cancelled operation reports so; either way the token is retired. A
    /// pending one times out and stays; an unknown token is invalid.
    pub fn try_wait(&mut self, qt: QToken) -> (r: Result<WaitOutcome<T>, Fail>)
        requires
            old(self).wf(),
        ensures
            final(self).wf(),
            (forall|i: int| 0 <= i < old(self).entries().len() ==> (#[trigger] old(self).entries()[i]).qt != qt)
                ==> r == Err::<WaitOutcome<T>, Fail>(Fail::InvalidArgument) && final(self).entries() == old(self).entries(),
            forall|i: int| 0 <= i < old(self).entries().len() && (#[trigger] old(self).entries()[i]).qt == qt ==> {
                let e = old(self).entries()[i];
                &&& r is Err ==> r == Err::<WaitOutcome<T>, Fail>(Fail::TimedOut) && !e.cancelled
                    && final(self).entries() == old(self).entries()
                &&& r is Ok ==> final(self).entries() == old(self).entries().remove(i) && match r->Ok_0 {
                    WaitOutcome::Completed(qd, step) => qd == e.qd && !e.cancelled
                        && old(self).tasks()[e.handle.slot as int] == Some(step),
                    WaitOutcome::Cancelled(qd) => qd == e.qd && e.cancelled,
                }
                &&& e.cancelled ==> r is Ok
                &&& !e.cancelled ==> (r is Ok <==> old(self).is_completed(e.handle))
            },
    {
        let i = match self.find(qt) {
            None => return Err(Fail::InvalidArgument),
            Some(i) => i,
        };
        proof {
            assert forall|j: int| 0 <= j < self.entries.len() && (#[trigger] self.entries@[j]).qt == qt implies j == i by {
                if j != i {
                    self.lemma_tokens_distinct(i as int, j);
                }
            }
        }
        let e = self.entries[i];
        if e.cancelled {
            self.remove_entry(i);
            return Ok(WaitOutcome::Cancelled(e.qd));
        }
        if !self.scheduler.has_completed(e.handle) {
            return Err(Fail::TimedOut);
        }
        let step = self.scheduler.take(e.handle);
        proof {
            assert forall|j: int| 0 <= j < self.entries.len() implies {
                let f = #[trigger] self.entries[j];
                &&& f.qt.0 == f.handle.raw_spec()
                &&& (!f.cancelled && j != i) ==> self.scheduler.is_live(f.handle)
                &&& (f.cancelled || j == i) ==> self.scheduler.retired().contains(f.handle)
            } by {
                let f = self.entries[j];
                if j != i {
                    if j < i {
                        assert(f.handle != e.handle);
                    } else {
                        assert(e.handle != f.handle);
                    }
                    if !f.cancelled {
                        assert(old(self).scheduler.is_live(f.handle));
                    }
                }
            }
        }
        self.remove_taken(i);
        Ok(WaitOutcome::Completed(e.qd, step))
    }

    fn remove_entry(&mut self, i: usize)
        requires
            old(self).wf(),
            i < old(self).entries().len(),
        ensures
            final(self).wf(),
            final(self).entries() == old(self).entries().remove(i as int),
    {
        let ghost before = self.entries@;
        self.entries.remove(i);
        proof { self.lemma_removed(before, i as int); }
    }

    fn remove_taken(&mut self, i: usize)
        requires
            old(self).scheduler.wf(),
            i < old(self).entries().len(),
            forall|j: int| 0 <= j < old(self).entries.len() ==> {
                let f = #[trigger] old(self).entries[j];
                &&& f.qt.0 == f.handle.raw_spec()
                &&& (!f.cancelled && j != i) ==> old(self).scheduler.is_live(f.handle)
                &&& (f.cancelled || j == i) ==> old(self).scheduler.retired().contains(f.handle)
            },
            forall|a: int, b: int| 0 <= a < b < old(self).entries.len() ==> (#[trigger] old(self).entries[a]).handle
                != (#[trigger] old(self).entries[b]).handle,
        ensures
            final(self).wf(),
            final(self).entries() == old(self).entries().remove(i as int),
    {
        let ghost before = self.entries@;
        self.entries.remove(i);
        proof { self.lemma_removed(before, i as int); }
    }

    proof fn lemma_removed(&self, before: Seq<TokenEntry>, i: int)
        requires
            self.scheduler.wf(),
            0 <= i < before.len(),
            self.entries@ == before.remove(i),
            forall|j: int| 0 <= j < before.len() && j != i ==> {
                let f = #[trigger] before[j];
                &&& f.qt.0 == f.handle.raw_spec()
                &&& !f.cancelled ==> self.scheduler.is_live(f.handle)
                &&& f.cancelled ==> self.scheduler.retired().contains(f.handle)
            },
            forall|a: int, b: int| 0 <= a < b < before.len() ==> (#[trigger] before[a]).handle != (#[trigger] before[b]).handle,
        ensures
            self.wf(),
    {
        assert forall|j: int| 0 <= j < self.entries.len() implies {
            let f = #[trigger] self.entries[j];
            &&& f.qt.0 == f.handle.raw_spec()
            &&& !f.cancelled ==> self.scheduler.is_live(f.handle)
            &&& f.cancelled ==> self.scheduler.retired().contains(f.handle)
        } by {
            let k = if j < i { j } else { j + 1 };
            assert(self.entries[j] == before[k]);
        }
        assert forall|a: int, b: int| 0 <= a < b < self.entries.len() implies (#[trigger] self.entries[a]).handle
            != (#[trigger] self.entries[b]).handle by {
            let a2 = if a < i { a } else { a + 1 };
            let b2 = if b < i { b } else { b + 1 };
            assert(self.entries[a] == before[a2] && self.entries[b] == before[b2]);
        }
    }

    /// Cancels every pending operation of `qd`: its step is dropped, and
    /// waiting on its token reports the cancellation.
    pub fn cancel_all(&mut self, qd: QDesc)
        requires
            old(self).wf(),
        ensures
            final(self).wf(),
            final(self).entries().len() == old(self).entries().len(),
            forall|i: int| 0 <= i < old(self).entries().len() ==> {
                let e = #[trigger] old(self).entries()[i];
                final(self).entries()[i] == if e.qd == qd { TokenEntry { cancelled: true, ..e } } else { e }
            },
    {
        let n = self.entries.len();
        let mut i: usize = 0;
        while i < n
            invariant
                n == self.entries.len(),
                n == old(self).entries.len(),
                i <= n,
                self.wf(),
                forall|j: int| 0 <= j < i ==> {
                    let e = #[trigger] old(self).entries@[j];
                    self.entries@[j] == if e.qd == qd { TokenEntry { cancelled: true, ..e } } else { e }
                },
                forall|j: int| i <= j < n ==> #[trigger] self.entries@[j] == old(self).entries@[j],
            decreases n - i,
        {
            let e = self.entries[i];
            if e.qd.0 == qd.0 && !e.cancelled {
                let _dropped = self.scheduler.take(e.handle);
                let ghost before = self.entries@;
                self.entries.set(i, TokenEntry { cancelled: true, ..e });
                proof {
                    assert forall|j: int| 0 <= j < self.entries.len() implies {
                        let f = #[trigger] self.entries[j];
                        &&& f.qt.0 == f.handle.raw_spec()
                        &&& !f.cancelled ==> self.scheduler.is_live(f.handle)
                        &&& f.cancelled ==> self.scheduler.retired().contains(f.handle)
                    } by {
                        if j != i {
                            let f = before[j];
                            assert(self.entries[j] == f);
                            if j < i {
                                assert(f.handle != e.handle);
                            } else {
                                assert(e.handle != f.handle);
                            }
                        }
                    }
                    assert forall|a: int, b: int| 0 <= a < b < self.entries.len() implies (#[trigger] self.entries[a]).handle
                        != (#[trigger] self.entries[b]).handle by {
                        assert(before[a].handle == self.entries[a].handle);
                        assert(before[b].handle == self.entries[b].handle);
                    }
                }
            }
            i = i + 1;
        }
    }
}

impl<T: Step> IoQueue<T> {
    /// Runs every ready step once; returns how many ran.
    pub fn poll(&mut self) -> (r: usize)
        requires
            old(self).wf(),
        ensures
            final(self).wf(),
            final(self).entries() == old(self).entries(),
            polled(old(self).slots(), final(self).slots()),
            r == count_ready(old(self).slots()),
    {
        let r = self.scheduler.poll();
        proof {
            assert forall|i: int| 0 <= i < self.entries.len() implies {
                let e = #[trigger] self.entries[i];
                &&& e.qt.0 == e.handle.raw_spec()
                &&& !e.cancelled ==> self.scheduler.is_live(e.handle)
                &&& e.cancelled ==> self.scheduler.retired().contains(e.handle)
            } by {
                let e = self.entries[i];
                if !e.cancelled {
                    assert(old(self).scheduler.is_live(e.handle));
                }
            }
        }
        r
    }
}

} // verus!
