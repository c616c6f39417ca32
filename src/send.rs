use vstd::prelude::*;
use std::collections::VecDeque;
use crate::tcp::{ack_post, min_nat, ssthresh_after_timeout, nagle_allows, seq_dist, AckKind, Sender, MAX_WINDOW};

verus! {

/// Bytes a send buffer holds at most.
pub const MAX_BUFFERED: usize = 0x4000_0000;

/// A segment to put on the wire: its first sequence number and its bytes.
#[derive(Debug, PartialEq, Eq)]
pub struct Segment {
    pub seq: u32,
    pub payload: Vec<u8>,
}

/// The send path of a connection: the sequence state, and the bytes from
/// SND.UNA on, first those in flight, then those not yet sent.
pub struct SendBuffer {
    sender: Sender,
    data: VecDeque<u8>,
}

impl SendBuffer {
    pub closed spec fn sender(&self) -> Sender {
        self.sender
    }

    /// The bytes from SND.UNA on.
    pub closed spec fn data(&self) -> Seq<u8> {
        self.data@
    }

    pub closed spec fn wf(&self) -> bool {
        &&& self.sender.wf()
        &&& self.sender.in_flight() <= self.data@.len()
        &&& self.data@.len() <= MAX_BUFFERED
    }

    /// An empty buffer over `sender`, which has nothing in flight.
    pub fn new(sender: Sender) -> (r: SendBuffer)
        requires
            sender.wf(),
            sender.in_flight() == 0,
        ensures
            r.wf(),
            r.sender() == sender,
            r.data().len() == 0,
    {
        SendBuffer { sender, data: VecDeque::new() }
    }

    pub fn sender_state(&self) -> (r: Sender)
        ensures
            r == self.sender(),
    {
        self.sender
    }

    /// Bytes buffered and not yet sent.
    pub fn unsent_len(&self) -> (r: usize)
        requires
            self.wf(),
        ensures
            r == self.data().len() - self.sender().in_flight(),
    {
        let flight = crate::tcp::seq_sub(self.sender.nxt, self.sender.una);
        self.data.len() - flight as usize
    }

    /// Appends the user's bytes, as many as fit under `MAX_BUFFERED`;
    /// returns how many were taken.
    pub fn push(&mut self, bytes: &Vec<u8>) -> (r: usize)
        requires
            old(self).wf(),
        ensures
            final(self).wf(),
            final(self).sender() == old(self).sender(),
            r == if old(self).data().len() + bytes@.len() <= MAX_BUFFERED {
                bytes@.len()
            } else {
                (MAX_BUFFERED - old(self).data().len()) as nat
            },
            final(self).data() == old(self).data() + bytes@.take(r as int),
    {
        let room = MAX_BUFFERED - self.data.len();
        let n = if bytes.len() <= room { bytes.len() } else { room };
        let mut i: usize = 0;
        while i < n
            invariant
                i <= n,
                n <= bytes@.len(),
                self.sender == old(self).sender,
                self.data@ =~= old(self).data@ + bytes@.take(i as int),
            decreases n - i,
        {
            self.data.push_back(bytes[i]);
            i = i + 1;
        }
        n
    }

    /// The next segment to send, if the windows and Nagle's rule (when
    /// `nagle` is set) allow one: up to one segment of the unsent bytes,
    /// starting at SND.NXT, which then moves past it.
    pub fn next_segment(&mut self, nagle: bool, timer_fired: bool) -> (r: Option<Segment>)
        requires
            old(self).wf(),
        ensures
            final(self).wf(),
            final(self).data() == old(self).data(),
            ({
                let flight = old(self).sender().in_flight();
                let unsent = old(self).data().len() - flight;
                let avail = if unsent > u32::MAX { u32::MAX as nat } else { unsent as nat };
                let n = min_nat(min_nat(avail, old(self).sender().mss as nat), old(self).sender().usable());
                &&& r is None <==> (n == 0 || (nagle && !(n >= old(self).sender().mss || flight == 0 || timer_fired)))
                &&& r is Some ==> r->Some_0.payload@.len() == n
            }),
            r is None ==> final(self).sender() == old(self).sender(),
            r is Some ==> {
                let s = r->Some_0;
                let flight = old(self).sender().in_flight();
                let len = s.payload@.len();
                &&& len > 0
                &&& s.seq == old(self).sender().nxt
                &&& s.payload@ == old(self).data().subrange(flight as int, (flight + len) as int)
                &&& len <= old(self).sender().mss
                &&& flight + len <= old(self).sender().wnd
                &&& (!nagle || len >= old(self).sender().mss || flight == 0 || timer_fired)
                &&& final(self).sender().in_flight() == flight + len
                &&& final(self).sender().una == old(self).sender().una
            },
    {
        let flight = crate::tcp::seq_sub(self.sender.nxt, self.sender.una);
        let unsent = self.data.len() - flight as usize;
        let avail: u32 = if unsent > u32::MAX as usize { u32::MAX } else { unsent as u32 };
        let len = self.sender.next_segment_len(avail);
        if len == 0 {
            return None;
        }
        if nagle && !nagle_allows(len, self.sender.mss, flight, timer_fired) {
            return None;
        }
        let start = flight as usize;
        let mut payload: Vec<u8> = Vec::new();
        let mut i: usize = 0;
        while i < len as usize
            invariant
                i <= len,
                start == flight,
                start + len <= self.data@.len(),
                self.data@.len() <= MAX_BUFFERED,
                payload@ =~= self.data@.subrange(start as int, start + i),
            decreases len - i,
        {
            payload.push(self.data[start + i]);
            i = i + 1;
        }
        let seq = self.sender.nxt;
        self.sender.on_send(len);
        Some(Segment { seq, payload })
    }

    /// The first segment in flight, to send again after a loss.
    pub fn retransmission(&self) -> (r: Option<Segment>)
        requires
            self.wf(),
        ensures
            self.sender().in_flight() == 0 ==> r is None,
            self.sender().in_flight() > 0 ==> r is Some && r->Some_0.seq == self.sender().una && r->Some_0.payload@
                == self.data().take(
                if self.sender().in_flight() <= self.sender().mss { self.sender().in_flight() as int } else { self.sender().mss as int },
            ),
    {
        let flight = crate::tcp::seq_sub(self.sender.nxt, self.sender.una);
        if flight == 0 {
            return None;
        }
        let len: usize = if flight <= self.sender.mss { flight as usize } else { self.sender.mss as usize };
        let mut payload: Vec<u8> = Vec::new();
        let mut i: usize = 0;
        while i < len
            invariant
                i <= len,
                len <= self.data@.len(),
                payload@ =~= self.data@.take(i as int),
            decreases len - i,
        {
            payload.push(self.data[i]);
            i = i + 1;
        }
        Some(Segment { seq: self.sender.una, payload })
    }

    /// Handles an acknowledgement; bytes it acknowledges leave the buffer.
    pub fn on_ack(&mut self, ack: u32, adv_wnd: u32) -> (r: AckKind)
        requires
            old(self).wf(),
        ensures
            final(self).wf(),
            ack_post(old(self).sender(), ack, adv_wnd, final(self).sender(), r),
            match r {
                AckKind::New(n) => final(self).data() == old(self).data().skip(n as int)
                    && final(self).sender().una == ack && n == seq_dist(ack, old(self).sender().una),
                _ => final(self).data() == old(self).data(),
            },
    {
        let r = self.sender.on_ack(ack, adv_wnd);
        let ghost s1 = self.sender;
        match r {
            AckKind::New(n) => {
                let mut i: u32 = 0;
                while i < n
                    invariant
                        i <= n,
                        n as nat <= old(self).data@.len(),
                        self.data@ =~= old(self).data@.skip(i as int),
                        self.sender == s1,
                    decreases n - i,
                {
                    self.data.pop_front();
                    i = i + 1;
                }
            },
            _ => {},
        }
        r
    }

    /// A retransmission timeout: everything in flight will be sent again.
    pub fn on_timeout(&mut self)
        requires
            old(self).wf(),
            2 * old(self).sender().mss as nat <= u32::MAX,
        ensures
            final(self).wf(),
            final(self).data() == old(self).data(),
            final(self).sender() == (Sender {
                nxt: old(self).sender().una,
                cwnd: old(self).sender().mss,
                ssthresh: ssthresh_after_timeout(old(self).sender().in_flight(), old(self).sender().mss),
                dup_acks: 0,
                ..old(self).sender()
            }),
            final(self).sender().in_flight() == 0,
    {
        self.sender.on_timeout();
    }
}

/// A sender never has more in flight than the peer's window, nor more than
/// it buffered.
pub proof fn lemma_send_buffer_bounds(b: &SendBuffer)
    requires
        b.wf(),
    ensures
        b.sender().in_flight() <= b.sender().wnd,
        b.sender().in_flight() <= b.data().len(),
        b.sender().wnd <= MAX_WINDOW,
{
}

} // verus!
