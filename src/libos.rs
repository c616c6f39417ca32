use vstd::prelude::*;
use crate::fail::Fail;
use crate::ioqueue::IoQueue;
use crate::queue::{QDesc, QToken, SocketAddrV4};
use crate::runtime::DPDKRuntime;
use crate::scheduler::{count_ready, polled, SlotState, Step};
use crate::sockets::Socket;
use crate::sockets::{connect_error, OpKind, SocketKind, SocketState, SocketTable};
use crate::udp::UdpPeer;

verus! {

/// The library operating system on a device runtime: the runtime, the
/// descriptor table, the operations in flight with their steps, and the
/// host's UDP endpoints.
pub struct CatnipLibos<T> {
    pub runtime: DPDKRuntime,
    pub sockets: SocketTable,
    pub queue: IoQueue<T>,
    pub udp: UdpPeer,
}

impl<T> CatnipLibos<T> {
    /// Every operation in the descriptor table is under the token of a step
    /// in the queue.
    pub open spec fn wf(&self) -> bool {
        &&& self.queue.wf()
        &&& self.sockets.wf()
        &&& forall|i: int| 0 <= i < self.sockets@.ops.len() ==> self.queue.has_token(#[trigger] self.sockets@.ops[i].qt)
    }

    /// Starts a connect on `qd` to `remote`, driven by `step`: the step is
    /// scheduled, and the socket's operation is recorded under the token
    /// that carries the step's handle. Fails, with nothing changed, where
    /// the socket cannot connect or the scheduler is full.
    pub fn connect(&mut self, qd: QDesc, remote: SocketAddrV4, step: T) -> (r: Result<QToken, Fail>)
        requires
            old(self).wf(),
        ensures
            final(self).wf(),
            connect_error(old(self).sockets@, qd) is Some ==> r == Err::<QToken, Fail>(
                connect_error(old(self).sockets@, qd)->Some_0,
            ) && final(self).sockets@ == old(self).sockets@ && final(self).queue.entries() == old(self).queue.entries(),
            connect_error(old(self).sockets@, qd) is None && r is Err ==> r == Err::<QToken, Fail>(Fail::ResourceExhausted)
                && final(self).sockets@ == old(self).sockets@ && final(self).queue.entries() == old(self).queue.entries()
                && old(self).queue.slots().len() == u32::MAX,
            r is Ok ==> connect_error(old(self).sockets@, qd) is None && final(self).queue.entries().last().qt == r->Ok_0
                && final(self).queue.entries().last().qd == qd && final(self).queue.entries().drop_last()
                == old(self).queue.entries() && final(self).sockets@ == old(self).sockets@.with_socket(
                qd,
                Socket { kind: SocketKind::Stream, state: SocketState::Connecting { remote } },
            ).with_op(qd, OpKind::Connect, r->Ok_0),
    {
        match self.sockets.can_connect(qd) {
            Err(e) => return Err(e),
            Ok(()) => {},
        }
        let ghost ops0 = self.sockets@.ops;
        let qt = match self.queue.submit(qd, step) {
            Err(e) => {
                proof {
                    assert forall|i: int| 0 <= i < self.sockets@.ops.len() implies self.queue.has_token(
                        #[trigger] self.sockets@.ops[i].qt,
                    ) by {
                        assert(old(self).queue.has_token(ops0[i].qt));
                        let j = choose|j: int|
                            0 <= j < old(self).queue.entries().len() && #[trigger] old(self).queue.entries()[j].qt
                                == ops0[i].qt;
                        assert(self.queue.entries()[j].qt == ops0[i].qt);
                    }
                }
                return Err(e);
            },
            Ok(qt) => qt,
        };
        proof {
            let n = self.queue.entries().len();
            assert forall|i: int| 0 <= i < ops0.len() implies ops0[i].qt != qt && self.queue.has_token(ops0[i].qt) by {
                assert(old(self).queue.has_token(ops0[i].qt));
                let j = choose|j: int|
                    0 <= j < old(self).queue.entries().len() && #[trigger] old(self).queue.entries()[j].qt == ops0[i].qt;
                assert(self.queue.entries().drop_last()[j] == old(self).queue.entries()[j]);
                assert(self.queue.entries()[j].qt == ops0[i].qt);
                self.queue.lemma_tokens_distinct(j, n - 1);
            }
            assert(!self.sockets@.has_token(qt));
        }
        let r = self.sockets.connect(qd, remote, qt);
        proof {
            let n = self.queue.entries().len();
            assert forall|i: int| 0 <= i < self.sockets@.ops.len() implies self.queue.has_token(
                #[trigger] self.sockets@.ops[i].qt,
            ) by {
                if i < ops0.len() {
                    assert(self.sockets@.ops[i] == ops0[i]);
                } else {
                    assert(self.queue.entries()[n - 1].qt == self.sockets@.ops[i].qt);
                }
            }
        }
        Ok(qt)
    }

    /// A stack with no socket open and nothing scheduled, on the runtime's
    /// address.
    pub fn new(runtime: DPDKRuntime) -> (r: CatnipLibos<T>)
        ensures
            r.sockets.wf(),
            r.sockets@.sockets.len() == 0,
            r.sockets@.ops.len() == 0,
            r.queue.wf(),
            r.queue.entries().len() == 0,
            r.udp.wf(),
            r.udp@.ip == runtime.ipv4_addr,
            r.udp@.locals.len() == 0,
            r.runtime == runtime,
            r.wf(),
    {
        let ip = runtime.ipv4_addr;
        CatnipLibos { runtime, sockets: SocketTable::new(), queue: IoQueue::new(), udp: UdpPeer::new(ip) }
    }

    /// Schedules `step` for `qd`; its token carries the step's handle.
    pub fn spawn(&mut self, qd: QDesc, step: T) -> (r: Result<QToken, Fail>)
        requires
            old(self).wf(),
        ensures
            final(self).wf(),
            r is Err ==> r == Err::<QToken, Fail>(Fail::ResourceExhausted) && final(self).queue.entries()
                == old(self).queue.entries() && old(self).queue.slots().len() == u32::MAX,
            r is Ok ==> final(self).queue.entries() == old(self).queue.entries().push(final(self).queue.entries().last())
                && final(self).queue.entries().last().qt == r->Ok_0 && final(self).queue.entries().last().qd == qd
                && !final(self).queue.entries().last().cancelled
                && final(self).queue.entries().last().qt.0 == final(self).queue.entries().last().handle.raw_spec(),
            r is Ok ==> {
                let h = final(self).queue.entries().last().handle;
                &&& h.slot < old(self).queue.slots().len() ==> old(self).queue.slots()[h.slot as int].state
                    == SlotState::Free && h.generation == old(self).queue.slots()[h.slot as int].generation + 1
                &&& h.slot >= old(self).queue.slots().len() ==> h.slot == old(self).queue.slots().len()
                    && h.generation == 0
                &&& h.slot < final(self).queue.slots().len()
                &&& final(self).queue.slots()[h.slot as int].generation == h.generation
            },
    {
        let ghost ops0 = self.sockets@.ops;
        let r = self.queue.submit(qd, step);
        proof {
            assert forall|i: int| 0 <= i < self.sockets@.ops.len() implies self.queue.has_token(
                #[trigger] self.sockets@.ops[i].qt,
            ) by {
                assert(old(self).queue.has_token(ops0[i].qt));
                let j = choose|j: int|
                    0 <= j < old(self).queue.entries().len() && #[trigger] old(self).queue.entries()[j].qt == ops0[i].qt;
                if r is Ok {
                    assert(self.queue.entries().drop_last()[j] == old(self).queue.entries()[j]);
                }
                assert(self.queue.entries()[j].qt == ops0[i].qt);
            }
            if r is Ok {
                assert(self.queue.entries() =~= old(self).queue.entries().push(self.queue.entries().last()));
                self.queue.lemma_live_entry_generation(self.queue.entries().len() - 1);
            }
        }
        r
    }
}

impl<T: Step> CatnipLibos<T> {
    /// Runs every ready step once; returns how many ran.
    pub fn poll(&mut self) -> (r: usize)
        requires
            old(self).wf(),
        ensures
            final(self).wf(),
            final(self).queue.entries() == old(self).queue.entries(),
            polled(old(self).queue.slots(), final(self).queue.slots()),
            r == count_ready(old(self).queue.slots()),
    {
        let ghost ops0 = self.sockets@.ops;
        let r = self.queue.poll();
        proof {
            assert forall|i: int| 0 <= i < self.sockets@.ops.len() implies self.queue.has_token(
                #[trigger] self.sockets@.ops[i].qt,
            ) by {
                assert(old(self).queue.has_token(ops0[i].qt));
                let j = choose|j: int|
                    0 <= j < old(self).queue.entries().len() && #[trigger] old(self).queue.entries()[j].qt == ops0[i].qt;
                assert(self.queue.entries()[j].qt == ops0[i].qt);
            }
        }
        r
    }
}

} // verus!
