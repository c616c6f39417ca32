use vstd::prelude::*;
use crate::handshake::TcpState;
use crate::queue::SocketAddrV4;
use crate::reassembly::{receive_post, Receiver, HALF_SPACE};
use crate::send::SendBuffer;
use crate::tcp::{ack_post, effective_mss, seq_add, seq_dist, seq_plus, AckKind, RtoCalculator, Sender, MAX_WINDOW};

verus! {

/// A connection's control block: its endpoints, state, send and receive
/// halves, and round-trip estimator.
pub struct ControlBlock {
    pub local: SocketAddrV4,
    pub remote: SocketAddrV4,
    pub state: TcpState,
    pub send: SendBuffer,
    pub recv: Receiver,
    pub rto: RtoCalculator,
}

impl ControlBlock {
    pub open spec fn wf(&self) -> bool {
        &&& self.send.wf()
        &&& self.recv.wf()
        &&& self.rto.wf()
    }

    /// The block of a connection that just completed its handshake: our
    /// SYN (ISS) and the peer's (IRS) are acknowledged, so both streams
    /// start one past them.
    pub fn established(
        local: SocketAddrV4,
        remote: SocketAddrV4,
        iss: u32,
        irs: u32,
        peer_wnd: u32,
        local_mss: u32,
        peer_mss: u32,
        rcv_wnd: usize,
    ) -> (r: ControlBlock)
        requires
            local_mss > 0,
            peer_mss > 0,
            0 < rcv_wnd < HALF_SPACE,
        ensures
            r.wf(),
            r.state == TcpState::Established,
            r.local == local && r.remote == remote,
            r.send.sender().una == seq_plus(iss, 1),
            r.send.sender().nxt == seq_plus(iss, 1),
            r.send.sender().wnd == if peer_wnd > MAX_WINDOW { MAX_WINDOW } else { peer_wnd },
            r.send.sender().mss == if local_mss <= peer_mss { local_mss } else { peer_mss },
            r.send.data().len() == 0,
            r.recv.rcv_nxt() == seq_plus(irs, 1),
    {
        let mss = effective_mss(local_mss, peer_mss);
        let wnd = if peer_wnd > MAX_WINDOW { MAX_WINDOW } else { peer_wnd };
        let sender = Sender::new(seq_add(iss, 1), wnd, mss);
        ControlBlock {
            local,
            remote,
            state: TcpState::Established,
            send: SendBuffer::new(sender),
            recv: Receiver::new(irs, rcv_wnd),
            rto: RtoCalculator::new(),
        }
    }

    /// An incoming segment on an established connection: its
    /// acknowledgement goes to the send half and its bytes to the receive
    /// half. Returns the acknowledgement to send back.
    pub fn on_segment(&mut self, seq: u32, ack: u32, wnd: u32, payload: &Vec<u8>) -> (r: (AckKind, u32))
        requires
            old(self).wf(),
            payload@.len() < HALF_SPACE,
        ensures
            final(self).wf(),
            final(self).state == old(self).state,
            r.1 == final(self).recv.rcv_nxt(),
            final(self).local == old(self).local && final(self).remote == old(self).remote,
            final(self).rto == old(self).rto,
            ack_post(old(self).send.sender(), ack, wnd, final(self).send.sender(), r.0),
            receive_post(old(self).recv, seq, payload@, final(self).recv),
            match r.0 {
                AckKind::New(n) => final(self).send.data() == old(self).send.data().skip(n as int)
                    && final(self).send.sender().una == ack && n == seq_dist(ack, old(self).send.sender().una),
                _ => final(self).send.data() == old(self).send.data(),
            },
    {
        let kind = self.send.on_ack(ack, wnd);
        let next = self.recv.receive(seq, payload);
        (kind, next)
    }
}

/// For every control block in Established: SND.UNA <= SND.NXT <=
/// SND.UNA + SND.WND, measured in sequence space from SND.UNA.
pub proof fn lemma_established_send_bounds(cb: &ControlBlock)
    requires
        cb.wf(),
        cb.state == TcpState::Established,
    ensures
        seq_dist(cb.send.sender().nxt, cb.send.sender().una) <= cb.send.sender().wnd,
        cb.send.sender().nxt == seq_plus(cb.send.sender().una, seq_dist(cb.send.sender().nxt, cb.send.sender().una)),
{
    crate::send::lemma_send_buffer_bounds(&cb.send);
}

} // verus!
