use vstd::prelude::*;
use std::collections::VecDeque;
use crate::fail::Fail;
use crate::queue::SocketAddrV4;

verus! {

/// A datagram on its way to another host.
#[derive(Debug)]
pub struct Datagram {
    pub src: SocketAddrV4,
    pub dst: SocketAddrV4,
    pub payload: Vec<u8>,
}

/// A datagram waiting to be popped: where it came from and its bytes.
#[derive(Debug)]
pub struct Received {
    pub src: SocketAddrV4,
    pub payload: Vec<u8>,
}

/// Bound endpoints of one host and the datagrams queued at each.
pub struct UdpView {
    pub ip: u32,
    pub locals: Seq<SocketAddrV4>,
    pub queues: Seq<Seq<(SocketAddrV4, Seq<u8>)>>,
}

impl UdpView {
    pub open spec fn bound(self, addr: SocketAddrV4) -> bool {
        exists|i: int| 0 <= i < self.locals.len() && #[trigger] self.locals[i] == addr
    }

    pub open spec fn index_of(self, addr: SocketAddrV4) -> int {
        choose|i: int| 0 <= i < self.locals.len() && #[trigger] self.locals[i] == addr
    }

    /// The datagrams queued at a bound endpoint.
    pub open spec fn queue(self, addr: SocketAddrV4) -> Seq<(SocketAddrV4, Seq<u8>)> {
        self.queues[self.index_of(addr)]
    }

    /// The host after a datagram from `src` reaches `dst`: queued there if
    /// `dst` is bound, dropped otherwise.
    pub open spec fn deliver(self, src: SocketAddrV4, dst: SocketAddrV4, payload: Seq<u8>) -> UdpView {
        if self.bound(dst) {
            UdpView {
                queues: self.queues.update(self.index_of(dst), self.queue(dst).push((src, payload))),
                ..self
            }
        } else {
            self
        }
    }

    /// What `pop` on a bound endpoint gives and leaves.
    pub open spec fn popped(self, local: SocketAddrV4) -> (UdpView, Option<(SocketAddrV4, Seq<u8>)>) {
        if self.queue(local).len() == 0 {
            (self, None)
        } else {
            (
                UdpView { queues: self.queues.update(self.index_of(local), self.queue(local).skip(1)), ..self },
                Some(self.queue(local)[0]),
            )
        }
    }
}

/// The UDP endpoints of one host.
pub struct UdpPeer {
    ip: u32,
    locals: Vec<SocketAddrV4>,
    queues: Vec<VecDeque<Received>>,
}

pub open spec fn received_view(r: Received) -> (SocketAddrV4, Seq<u8>) {
    (r.src, r.payload@)
}

impl View for UdpPeer {
    type V = UdpView;

    closed spec fn view(&self) -> UdpView {
        UdpView {
            ip: self.ip,
            locals: self.locals@,
            queues: self.queues@.map_values(|q: VecDeque<Received>| q@.map_values(|r: Received| received_view(r))),
        }
    }
}

impl UdpPeer {
    pub closed spec fn wf(&self) -> bool {
        &&& self.locals.len() == self.queues.len()
        &&& forall|i: int, j: int| 0 <= i < j < self.locals.len() ==> self.locals[i] != self.locals[j]
    }

    proof fn lemma_index(&self, i: int)
        requires
            self.wf(),
            0 <= i < self.locals.len(),
        ensures
            self@.bound(self.locals[i]),
            self@.index_of(self.locals[i]) == i,
    {
        assert(self@.locals[i] == self.locals[i]);
        let k = self@.index_of(self.locals[i]);
        if k != i {
            if k < i {
                assert(self.locals[k] != self.locals[i]);
            } else {
                assert(self.locals[i] != self.locals[k]);
            }
        }
    }

    /// A host on `ip` with nothing bound.
    pub fn new(ip: u32) -> (r: UdpPeer)
        ensures
            r.wf(),
            r@.ip == ip,
            r@.locals.len() == 0,
    {
        UdpPeer { ip, locals: Vec::new(), queues: Vec::new() }
    }

    fn find(&self, addr: SocketAddrV4) -> (r: Option<usize>)
        requires
            self.wf(),
        ensures
            r is None <==> !self@.bound(addr),
            r is Some ==> r->Some_0 < self.locals.len() && self@.index_of(addr) == r->Some_0 && self.locals[r->Some_0 as int] == addr,
    {
        let mut i: usize = 0;
        while i < self.locals.len()
            invariant
                self.wf(),
                i <= self.locals.len(),
                forall|j: int| 0 <= j < i ==> self.locals[j] != addr,
            decreases self.locals.len() - i,
        {
            let l = self.locals[i];
            if l.ip == addr.ip && l.port == addr.port {
                proof { self.lemma_index(i as int); }
                return Some(i);
            }
            i = i + 1;
        }
        proof {
            if self@.bound(addr) {
                let k = self@.index_of(addr);
                assert(self.locals[k] == addr);
            }
        }
        None
    }

    /// Binds an endpoint; an address bound already is in use.
    pub fn bind(&mut self, addr: SocketAddrV4) -> (r: Result<(), Fail>)
        requires
            old(self).wf(),
        ensures
            final(self).wf(),
            old(self)@.bound(addr) ==> r == Err::<(), Fail>(Fail::AddressInUse) && final(self)@ == old(self)@,
            !old(self)@.bound(addr) ==> r == Ok::<(), Fail>(()) && final(self)@ == (UdpView {
                locals: old(self)@.locals.push(addr),
                queues: old(self)@.queues.push(Seq::empty()),
                ..old(self)@
            }),
    {
        if self.find(addr).is_some() {
            return Err(Fail::AddressInUse);
        }
        self.locals.push(addr);
        self.queues.push(VecDeque::new());
        proof {
            assert forall|i: int, j: int| 0 <= i < j < self.locals.len() implies self.locals[i] != self.locals[j] by {
                if j == self.locals.len() - 1 {
                    assert(self.locals[i] == old(self).locals[i]);
                    assert(old(self)@.locals[i] == old(self).locals[i]);
                } else {
                    assert(self.locals[i] == old(self).locals[i] && self.locals[j] == old(self).locals[j]);
                }
            }
            assert(self@.locals =~= old(self)@.locals.push(addr));
            assert(self@.queues =~~= old(self)@.queues.push(Seq::empty()));
        }
        Ok(())
    }

    fn enqueue(&mut self, i: usize, src: SocketAddrV4, payload: Vec<u8>)
        requires
            old(self).wf(),
            i < old(self).locals.len(),
        ensures
            final(self).wf(),
            final(self)@ == (UdpView {
                queues: old(self)@.queues.update(i as int, old(self)@.queues[i as int].push((src, payload@))),
                ..old(self)@
            }),
    {
        self.queues[i].push_back(Received { src, payload });
        proof {
            assert(self@.queues =~~= old(self)@.queues.update(i as int, old(self)@.queues[i as int].push((src, payload@))));
        }
    }

    /// Takes a datagram off the wire: it is queued at its destination if
    /// that is bound here, dropped otherwise. Returns whether it was queued.
    pub fn receive(&mut self, d: Datagram) -> (r: bool)
        requires
            old(self).wf(),
        ensures
            final(self).wf(),
            r == old(self)@.bound(d.dst),
            final(self)@ == old(self)@.deliver(d.src, d.dst, d.payload@),
    {
        match self.find(d.dst) {
            None => false,
            Some(i) => {
                self.enqueue(i, d.src, d.payload);
                true
            },
        }
    }

    /// Sends `payload` from the bound endpoint `local` to `dst`. To this
    /// host's own address it is delivered at once; otherwise the datagram
    /// for the wire is returned.
    pub fn pushto(&mut self, local: SocketAddrV4, payload: Vec<u8>, dst: SocketAddrV4) -> (r: Result<Option<Datagram>, Fail>)
        requires
            old(self).wf(),
        ensures
            final(self).wf(),
            !old(self)@.bound(local) ==> r == Err::<Option<Datagram>, Fail>(Fail::NotConnected) && final(self)@ == old(self)@,
            old(self)@.bound(local) && dst.ip == old(self)@.ip ==> r == Ok::<Option<Datagram>, Fail>(None)
                && final(self)@ == old(self)@.deliver(local, dst, payload@),
            old(self)@.bound(local) && dst.ip != old(self)@.ip ==> final(self)@ == old(self)@ && r is Ok
                && r->Ok_0 is Some && r->Ok_0->Some_0.src == local && r->Ok_0->Some_0.dst == dst
                && r->Ok_0->Some_0.payload@ == payload@,
    {
        if self.find(local).is_none() {
            return Err(Fail::NotConnected);
        }
        if dst.ip == self.ip {
            let d = Datagram { src: local, dst, payload };
            self.receive(d);
            Ok(None)
        } else {
            Ok(Some(Datagram { src: local, dst, payload }))
        }
    }

    /// Takes the oldest datagram queued at a bound endpoint.
    pub fn pop(&mut self, local: SocketAddrV4) -> (r: Result<Option<Received>, Fail>)
        requires
            old(self).wf(),
        ensures
            final(self).wf(),
            !old(self)@.bound(local) ==> r == Err::<Option<Received>, Fail>(Fail::BadDescriptor) && final(self)@ == old(self)@,
            old(self)@.bound(local) ==> r is Ok && final(self)@ == old(self)@.popped(local).0 && match r->Ok_0 {
                Some(x) => old(self)@.popped(local).1 == Some(received_view(x)),
                None => old(self)@.popped(local).1 is None,
            },
    {
        let i = match self.find(local) {
            None => return Err(Fail::BadDescriptor),
            Some(i) => i,
        };
        let x = self.queues[i].pop_front();
        proof {
            let old_q = old(self).queues[i as int]@;
            if old_q.len() > 0 {
                assert(self.queues[i as int]@ =~= old_q.skip(1));
                assert(self@.queues =~~= old(self)@.queues.update(i as int, old(self)@.queue(local).skip(1)));
            } else {
                assert(self@.queues =~~= old(self)@.queues);
            }
        }
        Ok(x)
    }
}

/// On a bound endpoint with nothing queued, a datagram sent to itself comes
/// back from `pop` with the same source and bytes.
pub proof fn lemma_loopback_round_trip(v: UdpView, local: SocketAddrV4, payload: Seq<u8>)
    requires
        v.bound(local),
        v.queue(local).len() == 0,
        0 <= v.index_of(local) < v.queues.len(),
    ensures
        v.deliver(local, local, payload).popped(local).1 == Some((local, payload)),
{
    let w = v.deliver(local, local, payload);
    assert(w.locals == v.locals);
    assert(w.index_of(local) == v.index_of(local));
}

} // verus!
