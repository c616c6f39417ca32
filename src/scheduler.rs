use vstd::prelude::*;
use crate::fail::Fail;

verus! {

/// What one poll of a step reports.
#[derive(Clone, Copy, Debug, PartialEq, Eq, Structural)]
pub enum StepPoll {
    /// The step finished; its result stays in it until it is taken.
    Done,
    /// The step waits until its handle is woken.
    Pending,
    /// The step woke itself and is polled again on the next round.
    Again,
}

/// A unit of work that the scheduler drives by polling.
pub trait Step {
    fn poll_step(&mut self) -> StepPoll;
}

/// Where a slot stands.
#[derive(Clone, Copy, Debug, PartialEq, Eq, Structural)]
pub enum SlotState {
    Free,
    Ready,
    Waiting,
    Completed,
}

#[derive(Clone, Copy, Debug, PartialEq, Eq, Structural)]
pub struct SlotMeta {
    pub generation: u32,
    pub state: SlotState,
}

/// Where a slot stands after its step reported `o`.
pub open spec fn state_after_spec(o: StepPoll) -> SlotState {
    match o {
        StepPoll::Done => SlotState::Completed,
        StepPoll::Pending => SlotState::Waiting,
        StepPoll::Again => SlotState::Ready,
    }
}

/// A finished step is kept as completed until taken; a pending one waits
/// for a wake; one that woke itself stays ready.
pub fn state_after(o: StepPoll) -> (s: SlotState)
    ensures
        s == state_after_spec(o),
{
    match o {
        StepPoll::Done => SlotState::Completed,
        StepPoll::Pending => SlotState::Waiting,
        StepPoll::Again => SlotState::Ready,
    }
}

/// Number of ready slots.
pub open spec fn count_ready(s: Seq<SlotMeta>) -> nat
    decreases s.len(),
{
    if s.len() == 0 {
        0
    } else {
        count_ready(s.drop_last()) + if s.last().state == SlotState::Ready { 1nat } else { 0nat }
    }
}

/// How one poll of the scheduler may leave the slots: generations kept,
/// a slot that was not ready unchanged, and a ready one in the state that
/// its step's outcome gives.
pub open spec fn polled(before: Seq<SlotMeta>, after: Seq<SlotMeta>) -> bool {
    &&& after.len() == before.len()
    &&& forall|i: int| 0 <= i < before.len() ==> {
        let a = #[trigger] before[i];
        let b = after[i];
        &&& b.generation == a.generation
        &&& a.state != SlotState::Ready ==> b == a
        &&& a.state == SlotState::Ready ==> exists|o: StepPoll| b.state == state_after_spec(o)
    }
}

/// A stable name for a step: its slot and the slot's generation when the
/// step was inserted.
#[derive(Clone, Copy, Debug, PartialEq, Eq, Structural)]
pub struct TaskHandle {
    pub slot: u32,
    pub generation: u32,
}

pub const SLOT_SPAN: u64 = 0x1_0000_0000;

impl TaskHandle {
    /// The handle packed into one integer: generation high, slot low.
    pub open spec fn raw_spec(self) -> nat {
        self.generation as nat * SLOT_SPAN as nat + self.slot as nat
    }

    pub fn raw(&self) -> (r: u64)
        ensures
            r == self.raw_spec(),
    {
        proof {
            assert(self.generation as nat * SLOT_SPAN as nat <= (u32::MAX as nat) * SLOT_SPAN as nat) by (nonlinear_arith)
                requires self.generation <= u32::MAX;
        }
        self.generation as u64 * SLOT_SPAN + self.slot as u64
    }

    pub fn from_raw_parts(raw: u64) -> (r: TaskHandle)
        ensures
            r.raw_spec() == raw,
    {
        let g = raw / SLOT_SPAN;
        let s = raw % SLOT_SPAN;
        assert(g < SLOT_SPAN);
        TaskHandle { slot: s as u32, generation: g as u32 }
    }
}

/// Two handles that pack to the same integer are the same handle.
pub proof fn lemma_raw_injective(a: TaskHandle, b: TaskHandle)
    ensures
        a.raw_spec() == b.raw_spec() ==> a == b,
{
    if a.raw_spec() == b.raw_spec() {
        let x = a.generation as int;
        let y = b.generation as int;
        assert(x * SLOT_SPAN + a.slot == y * SLOT_SPAN + b.slot);
        assert(a.slot < SLOT_SPAN && b.slot < SLOT_SPAN);
        assert(x == y) by (nonlinear_arith)
            requires
                x * 0x1_0000_0000 + a.slot as int == y * 0x1_0000_0000 + b.slot as int,
                0 <= a.slot < 0x1_0000_0000,
                0 <= b.slot < 0x1_0000_0000,
                0 <= x,
                0 <= y,
        ;
    }
}

/// A single-threaded cooperative executor. Steps live in slots; a slot is
/// reused with a higher generation, so a handle to a step that was taken
/// never resolves again.
pub struct Scheduler<T> {
    slots: Vec<SlotMeta>,
    tasks: Vec<Option<T>>,
    issued: Ghost<Set<TaskHandle>>,
    retired: Ghost<Set<TaskHandle>>,
}

impl<T> Scheduler<T> {
    pub closed spec fn view_slots(&self) -> Seq<SlotMeta> {
        self.slots@
    }

    /// The step held in each slot.
    pub closed spec fn tasks(&self) -> Seq<Option<T>> {
        self.tasks@
    }

    /// Handles that once named a step that has since been taken.
    pub closed spec fn retired(&self) -> Set<TaskHandle> {
        self.retired@
    }

    /// Handles that `insert` has handed out.
    pub closed spec fn issued(&self) -> Set<TaskHandle> {
        self.issued@
    }

    /// A handle names a step in the scheduler.
    pub open spec fn is_live(&self, h: TaskHandle) -> bool {
        &&& h.slot < self.view_slots().len()
        &&& self.view_slots()[h.slot as int].state != SlotState::Free
        &&& self.view_slots()[h.slot as int].generation == h.generation
    }

    pub closed spec fn wf(&self) -> bool {
        &&& self.slots.len() == self.tasks.len()
        &&& self.slots.len() <= u32::MAX
        &&& forall|i: int| 0 <= i < self.slots.len() ==> ((#[trigger] self.slots[i]).state != SlotState::Free
            <==> self.tasks[i] is Some)
        &&& forall|h: TaskHandle| #[trigger] self.retired@.contains(h) ==> h.slot < self.slots.len() && (
            self.slots[h.slot as int].generation > h.generation || (self.slots[h.slot as int].generation
                == h.generation && self.slots[h.slot as int].state == SlotState::Free))
        &&& forall|h: TaskHandle| #[trigger] self.issued@.contains(h) && !self.retired@.contains(h) ==> self.is_live(h)
    }

    /// Every handle that was handed out and not yet taken names its slot's
    /// current generation.
    pub proof fn lemma_live_handle_generation(&self, h: TaskHandle)
        requires
            self.wf(),
            self.issued().contains(h),
            !self.retired().contains(h),
        ensures
            h.slot < self.view_slots().len(),
            self.view_slots()[h.slot as int].generation == h.generation,
            self.view_slots()[h.slot as int].state != SlotState::Free,
    {
    }

    /// No two distinct live handles share a raw value.
    pub proof fn lemma_live_raw_unique(&self, a: TaskHandle, b: TaskHandle)
        requires
            self.wf(),
            self.is_live(a),
            self.is_live(b),
            a != b,
        ensures
            a.raw_spec() != b.raw_spec(),
    {
        lemma_raw_injective(a, b);
    }

    /// A retired handle is never live.
    pub proof fn lemma_retired_not_live(&self, h: TaskHandle)
        requires
            self.wf(),
            self.retired().contains(h),
        ensures
            !self.is_live(h),
    {
    }

    pub fn new() -> (r: Scheduler<T>)
        ensures
            r.wf(),
            r.view_slots().len() == 0,
            r.retired() == Set::<TaskHandle>::empty(),
            r.issued() == Set::<TaskHandle>::empty(),
    {
        Scheduler { slots: Vec::new(), tasks: Vec::new(), issued: Ghost(Set::empty()), retired: Ghost(Set::empty()) }
    }

    /// Adds a step, ready to run. A free slot is reused with the next
    /// generation; otherwise a new slot is made. Fails when no slot is left.
    pub fn insert(&mut self, task: T) -> (r: Result<TaskHandle, Fail>)
        requires
            old(self).wf(),
        ensures
            final(self).wf(),
            final(self).retired() == old(self).retired(),
            r is Ok ==> final(self).issued() == old(self).issued().insert(r->Ok_0),
            r is Err ==> final(self).issued() == old(self).issued(),
            r is Ok ==> {
                let h = r->Ok_0;
                &&& !old(self).is_live(h)
                &&& !old(self).retired().contains(h)
                &&& final(self).is_live(h)
                &&& final(self).view_slots()[h.slot as int].state == SlotState::Ready
                &&& forall|g: TaskHandle| g != h ==> (#[trigger] final(self).is_live(g) == old(self).is_live(g))
                &&& final(self).tasks().len() == final(self).view_slots().len()
                &&& final(self).tasks()[h.slot as int] == Some(task)
                &&& forall|i: int| 0 <= i < old(self).tasks().len() && i != h.slot ==> #[trigger] final(self).tasks()[i]
                    == old(self).tasks()[i]
                &&& h.slot < old(self).view_slots().len() ==> {
                    &&& old(self).view_slots()[h.slot as int].state == SlotState::Free
                    &&& h.generation == old(self).view_slots()[h.slot as int].generation + 1
                    &&& final(self).view_slots() == old(self).view_slots().update(
                        h.slot as int,
                        SlotMeta { generation: h.generation, state: SlotState::Ready },
                    )
                }
                &&& h.slot >= old(self).view_slots().len() ==> {
                    &&& h.slot == old(self).view_slots().len()
                    &&& h.generation == 0
                    &&& final(self).view_slots() == old(self).view_slots().push(
                        SlotMeta { generation: 0, state: SlotState::Ready },
                    )
                }
            },
            r is Err ==> r == Err::<TaskHandle, Fail>(Fail::ResourceExhausted) && final(self).view_slots()
                == old(self).view_slots() && old(self).view_slots().len() == u32::MAX,
    {
        let n = self.slots.len();
        let mut i: usize = 0;
        while i < n
            invariant
                n == self.slots.len(),
                self.wf(),
                self.slots@ == old(self).slots@,
                self.tasks@ == old(self).tasks@,
                self.retired@ == old(self).retired@,
                self.issued@ == old(self).issued@,
                0 <= i <= n,
                forall|j: int| 0 <= j < i ==> (#[trigger] self.slots[j]).state != SlotState::Free
                    || self.slots[j].generation == u32::MAX,
            decreases n - i,
        {
            let m = self.slots[i];
            if m.state == SlotState::Free && m.generation < u32::MAX {
                let h = TaskHandle { slot: i as u32, generation: m.generation + 1 };
                self.slots.set(i, SlotMeta { generation: m.generation + 1, state: SlotState::Ready });
                self.tasks.set(i, Some(task));
                self.issued = Ghost(self.issued@.insert(h));
                proof {
                    assert forall|g: TaskHandle| #[trigger] self.retired@.contains(g) implies g.slot < self.slots.len() && (
                        self.slots[g.slot as int].generation > g.generation || (self.slots[g.slot as int].generation
                            == g.generation && self.slots[g.slot as int].state == SlotState::Free)) by {
                        assert(old(self).retired@.contains(g));
                        if g.slot == i {
                            assert(old(self).slots[i as int] == m);
                        }
                    }
                    assert(!old(self).retired().contains(h));
                    assert forall|g: TaskHandle| g != h implies (#[trigger] self.is_live(g) == old(self).is_live(g)) by {
                        if g.slot == i {
                            assert(!old(self).is_live(g));
                        }
                    }
                }
                return Ok(h);
            }
            i = i + 1;
        }
        if n >= u32::MAX as usize {
            return Err(Fail::ResourceExhausted);
        }
        let h = TaskHandle { slot: n as u32, generation: 0 };
        self.slots.push(SlotMeta { generation: 0, state: SlotState::Ready });
        self.tasks.push(Some(task));
        self.issued = Ghost(self.issued@.insert(h));
        proof {
            assert forall|g: TaskHandle| g != h implies (#[trigger] self.is_live(g) == old(self).is_live(g)) by {
                if g.slot < n {
                    assert(self.slots[g.slot as int] == old(self).slots[g.slot as int]);
                }
            }
            assert forall|g: TaskHandle| #[trigger] self.retired@.contains(g) implies g.slot < self.slots.len() && (
                self.slots[g.slot as int].generation > g.generation || (self.slots[g.slot as int].generation
                    == g.generation && self.slots[g.slot as int].state == SlotState::Free)) by {
                assert(old(self).retired@.contains(g));
                assert(self.slots[g.slot as int] == old(self).slots[g.slot as int]);
            }
            assert forall|j: int| 0 <= j < self.slots.len() implies ((#[trigger] self.slots[j]).state != SlotState::Free
                <==> self.tasks[j] is Some) by {
                if j < n {
                    assert(self.slots[j] == old(self).slots[j]);
                    assert(self.tasks[j] == old(self).tasks[j]);
                }
            }
        }
        Ok(h)
    }

    /// Resolves a raw handle; a stale one, or one that names no step, is
    /// absent.
    pub fn from_raw(&self, raw: u64) -> (r: Option<TaskHandle>)
        requires
            self.wf(),
        ensures
            r is Some <==> exists|h: TaskHandle| h.raw_spec() == raw && #[trigger] self.is_live(h),
            r is Some ==> r->Some_0.raw_spec() == raw && self.is_live(r->Some_0),
    {
        let h = TaskHandle::from_raw_parts(raw);
        proof {
            assert forall|g: TaskHandle| g.raw_spec() == raw implies g == h by {
                lemma_raw_injective(g, h);
            }
        }
        if (h.slot as usize) < self.slots.len() {
            let m = self.slots[h.slot as usize];
            if m.state != SlotState::Free && m.generation == h.generation {
                assert(h.raw_spec() == raw && self.is_live(h));
                return Some(h);
            }
        }
        assert(!self.is_live(h));
        None
    }

    /// Whether the step of a live handle has finished.
    pub fn has_completed(&self, h: TaskHandle) -> (r: bool)
        requires
            self.wf(),
            self.is_live(h),
        ensures
            r == (self.view_slots()[h.slot as int].state == SlotState::Completed),
    {
        self.slots[h.slot as usize].state == SlotState::Completed
    }

    /// Re-queues a waiting step; anything else is left as it is.
    pub fn wake(&mut self, h: TaskHandle)
        requires
            old(self).wf(),
        ensures
            final(self).wf(),
            final(self).retired() == old(self).retired(),
            final(self).issued() == old(self).issued(),
            old(self).is_live(h) && old(self).view_slots()[h.slot as int].state == SlotState::Waiting
                ==> final(self).view_slots() == old(self).view_slots().update(
                h.slot as int,
                SlotMeta { generation: h.generation, state: SlotState::Ready },
            ),
            !(old(self).is_live(h) && old(self).view_slots()[h.slot as int].state == SlotState::Waiting)
                ==> final(self).view_slots() == old(self).view_slots(),
    {
        if (h.slot as usize) < self.slots.len() {
            let m = self.slots[h.slot as usize];
            if m.state == SlotState::Waiting && m.generation == h.generation {
                self.slots.set(h.slot as usize, SlotMeta { generation: h.generation, state: SlotState::Ready });
                proof {
                    assert forall|g: TaskHandle| #[trigger] self.retired@.contains(g) implies g.slot < self.slots.len() && (
                        self.slots[g.slot as int].generation > g.generation || (self.slots[g.slot as int].generation
                            == g.generation && self.slots[g.slot as int].state == SlotState::Free)) by {
                        assert(old(self).retired@.contains(g));
                    }
                    assert(self.slots@ =~= old(self).slots@.update(
                        h.slot as int,
                        SlotMeta { generation: h.generation, state: SlotState::Ready },
                    ));
                    assert forall|g: TaskHandle| #[trigger] self.issued@.contains(g) && !self.retired@.contains(g)
                        implies self.is_live(g) by {
                        assert(old(self).is_live(g));
                    }
                }
            }
        }
    }

    /// Removes a step and hands it back, finished or not; its handle is
    /// retired.
    pub fn take(&mut self, h: TaskHandle) -> (r: T)
        requires
            old(self).wf(),
            old(self).is_live(h),
        ensures
            final(self).wf(),
            old(self).tasks()[h.slot as int] == Some(r),
            final(self).tasks() == old(self).tasks().update(h.slot as int, None),
            final(self).retired() == old(self).retired().insert(h),
            final(self).issued() == old(self).issued(),
            !final(self).is_live(h),
            forall|g: TaskHandle| g != h ==> (#[trigger] final(self).is_live(g) == old(self).is_live(g)),
            final(self).view_slots() == old(self).view_slots().update(
                h.slot as int,
                SlotMeta { generation: h.generation, state: SlotState::Free },
            ),
    {
        let i = h.slot as usize;
        let mut t: Option<T> = None;
        std::mem::swap(&mut t, &mut self.tasks[i]);
        self.slots.set(i, SlotMeta { generation: h.generation, state: SlotState::Free });
        self.retired = Ghost(self.retired@.insert(h));
        proof {
            assert forall|j: int| 0 <= j < self.slots.len() implies ((#[trigger] self.slots[j]).state != SlotState::Free
                <==> self.tasks[j] is Some) by {
                if j != i {
                    assert(self.tasks[j] == old(self).tasks[j]);
                }
            }
            assert forall|g: TaskHandle| #[trigger] self.retired@.contains(g) implies g.slot < self.slots.len() && (
                self.slots[g.slot as int].generation > g.generation || (self.slots[g.slot as int].generation
                    == g.generation && self.slots[g.slot as int].state == SlotState::Free)) by {
                if g != h {
                    assert(old(self).retired@.contains(g));
                    if g.slot == h.slot {
                        assert(old(self).is_live(h));
                    }
                }
            }
            assert(self.slots@ =~= old(self).slots@.update(
                h.slot as int,
                SlotMeta { generation: h.generation, state: SlotState::Free },
            ));
        }
        match t {
            Some(x) => x,
            None => vstd::pervasive::unreached(),
        }
    }
}

impl<T: Step> Scheduler<T> {
    /// Polls every ready step once. A finished step is kept as completed
    /// until it is taken; a pending one waits for a wake; one that woke
    /// itself stays ready. No other slot changes. Returns how many steps ran.
    pub fn poll(&mut self) -> (r: usize)
        requires
            old(self).wf(),
        ensures
            final(self).wf(),
            final(self).retired() == old(self).retired(),
            final(self).issued() == old(self).issued(),
            polled(old(self).view_slots(), final(self).view_slots()),
            r == count_ready(old(self).view_slots()),
            forall|h: TaskHandle| #[trigger] final(self).is_live(h) == old(self).is_live(h),
    {
        let n = self.slots.len();
        let mut ran: usize = 0;
        let mut i: usize = 0;
        assert(old(self).slots@.take(0) =~= Seq::<SlotMeta>::empty());
        while i < n
            invariant
                n == self.slots.len(),
                n == old(self).slots.len(),
                self.wf(),
                ran <= i <= n,
                ran == count_ready(old(self).slots@.take(i as int)),
                self.retired@ == old(self).retired@,
                self.issued@ == old(self).issued@,
                forall|j: int| 0 <= j < n ==> {
                    let a = #[trigger] old(self).slots@[j];
                    let b = self.slots@[j];
                    &&& b.generation == a.generation
                    &&& (a.state != SlotState::Ready || j >= i) ==> b == a
                    &&& (a.state == SlotState::Ready && j < i) ==> exists|o: StepPoll| b.state == state_after_spec(o)
                },
            decreases n - i,
        {
            let m = self.slots[i];
            proof {
                assert(old(self).slots@.take(i + 1).drop_last() =~= old(self).slots@.take(i as int));
                assert(old(self).slots@[i as int] == m);
            }
            if m.state == SlotState::Ready {
                let outcome = match &mut self.tasks[i] {
                    Some(task) => task.poll_step(),
                    None => vstd::pervasive::unreached(),
                };
                let state = state_after(outcome);
                let ghost before = self.slots@;
                self.slots.set(i, SlotMeta { generation: m.generation, state });
                ran = ran + 1;
                proof {
                    assert(self.slots@[i as int].state == state_after_spec(outcome));
                    assert forall|j: int| 0 <= j < self.slots.len() implies ((#[trigger] self.slots[j]).state
                        != SlotState::Free <==> self.tasks[j] is Some) by {
                        if j != i {
                            assert(self.slots[j] == before[j]);
                        }
                    }
                    assert forall|g: TaskHandle| #[trigger] self.retired@.contains(g) implies g.slot < self.slots.len()
                        && (self.slots[g.slot as int].generation > g.generation || (self.slots[g.slot as int].generation
                        == g.generation && self.slots[g.slot as int].state == SlotState::Free)) by {
                        if g.slot == i {
                            assert(before[i as int].generation == m.generation);
                        } else {
                            assert(self.slots[g.slot as int] == before[g.slot as int]);
                        }
                    }
                    assert forall|g: TaskHandle| #[trigger] self.issued@.contains(g) && !self.retired@.contains(g)
                        implies self.is_live(g) by {
                        if g.slot != i {
                            assert(self.slots[g.slot as int] == before[g.slot as int]);
                        }
                    }
                }
            }
            i = i + 1;
        }
        proof {
            assert(old(self).slots@.take(n as int) =~= old(self).slots@);
            assert forall|h: TaskHandle| #[trigger] self.is_live(h) == old(self).is_live(h) by {
                if h.slot < n {
                    let a = old(self).slots@[h.slot as int];
                    assert(self.slots@[h.slot as int].generation == a.generation);
                }
            }
        }
        ran
    }
}

} // verus!
