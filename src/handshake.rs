use vstd::prelude::*;
use std::collections::VecDeque;
use crate::options::TcpOptions;
use crate::queue::SocketAddrV4;
use crate::sockets::MAX_BACKLOG;
use crate::tcp::{seq_add, seq_plus};

verus! {

/// What an active open asks for next.
#[derive(Clone, Copy, Debug, PartialEq, Eq, Structural)]
pub enum OpenAction {
    /// Send (again) a SYN and wait one handshake timeout.
    SendSyn,
    /// The SYN-ACK acknowledged our SYN: send the final ACK; established.
    Established,
    /// No answer after every retry, or a reset: the connect fails.
    Refused,
    /// The segment does not belong to this handshake.
    Ignore,
}

/// A connect in SYN-SENT: the initial sequence number and the retries left.
#[derive(Clone, Copy, Debug)]
pub struct ActiveOpen {
    pub iss: u32,
    pub retries_left: usize,
    pub timeout: u64,
}

impl ActiveOpen {
    /// Starts a connect: the first SYN goes out now.
    pub fn new(iss: u32, options: &TcpOptions) -> (r: (ActiveOpen, OpenAction))
        ensures
            r.0.iss == iss,
            r.0.retries_left == options.handshake_retries,
            r.0.timeout == options.handshake_timeout,
            r.1 == OpenAction::SendSyn,
    {
        (ActiveOpen { iss, retries_left: options.handshake_retries, timeout: options.handshake_timeout }, OpenAction::SendSyn)
    }

    /// A handshake timeout: resend while retries are left, else refuse.
    pub fn on_timeout(&mut self) -> (r: OpenAction)
        ensures
            (*final(self), r) == timeout_step(*old(self)),
    {
        if self.retries_left > 0 {
            self.retries_left = self.retries_left - 1;
            OpenAction::SendSyn
        } else {
            OpenAction::Refused
        }
    }

    /// A SYN-ACK: it completes the handshake when it acknowledges ISS + 1.
    pub fn on_syn_ack(&self, ack: u32) -> (r: OpenAction)
        ensures
            r == if ack == seq_plus(self.iss, 1) { OpenAction::Established } else { OpenAction::Ignore },
    {
        if ack == seq_add(self.iss, 1) {
            OpenAction::Established
        } else {
            OpenAction::Ignore
        }
    }

    /// A reset that acknowledges our SYN refuses the connect; any other is
    /// ignored.
    pub fn on_reset(&self, ack: u32) -> (r: OpenAction)
        ensures
            r == if ack == seq_plus(self.iss, 1) { OpenAction::Refused } else { OpenAction::Ignore },
    {
        if ack == seq_add(self.iss, 1) {
            OpenAction::Refused
        } else {
            OpenAction::Ignore
        }
    }
}

/// What a handshake timeout does: resend while retries are left, else
/// refuse.
pub open spec fn timeout_step(o: ActiveOpen) -> (ActiveOpen, OpenAction) {
    if o.retries_left > 0 {
        (ActiveOpen { retries_left: (o.retries_left - 1) as usize, ..o }, OpenAction::SendSyn)
    } else {
        (o, OpenAction::Refused)
    }
}

/// The connect after `k` handshake timeouts.
pub open spec fn after_timeouts(o: ActiveOpen, k: nat) -> ActiveOpen
    decreases k,
{
    if k == 0 {
        o
    } else {
        timeout_step(after_timeouts(o, (k - 1) as nat)).0
    }
}

proof fn lemma_retries_count_down(o: ActiveOpen, k: nat)
    requires
        k <= o.retries_left,
    ensures
        after_timeouts(o, k).retries_left == o.retries_left - k,
        after_timeouts(o, k).timeout == o.timeout,
    decreases k,
{
    if k > 0 {
        lemma_retries_count_down(o, (k - 1) as nat);
    }
}

/// A connect that gets no answer sends one more SYN at each of its first
/// `handshake_retries` timeouts and is refused at the next one: after
/// `handshake_retries + 1` handshake timeouts from the first SYN.
pub proof fn lemma_refused_after_retries(options: TcpOptions, iss: u32, k: nat)
    requires
        k <= options.handshake_retries,
    ensures
        ({
            let o = ActiveOpen { iss, retries_left: options.handshake_retries, timeout: options.handshake_timeout };
            &&& k < options.handshake_retries ==> timeout_step(after_timeouts(o, k)).1 == OpenAction::SendSyn
            &&& k == options.handshake_retries ==> timeout_step(after_timeouts(o, k)).1 == OpenAction::Refused
        }),
{
    let o = ActiveOpen { iss, retries_left: options.handshake_retries, timeout: options.handshake_timeout };
    lemma_retries_count_down(o, k);
}

/// What becomes of a completed handshake at a listener.
#[derive(Clone, Copy, Debug, PartialEq, Eq, Structural)]
pub enum HandshakeDone {
    /// The connection joined the accept queue.
    Queued,
    /// The accept queue was full: the connection is reset.
    Reset,
    /// The peer had no handshake in progress here.
    Unknown,
}

/// A listening socket: the peers whose SYN it answered, and the accept
/// queue of established connections, which holds at most `backlog`.
pub struct Listener {
    backlog: usize,
    half_open: Vec<SocketAddrV4>,
    ready: VecDeque<SocketAddrV4>,
}

impl Listener {
    pub closed spec fn backlog(&self) -> nat {
        self.backlog as nat
    }

    /// Peers whose SYN was answered and whose handshake is not complete.
    pub closed spec fn half_open(&self) -> Seq<SocketAddrV4> {
        self.half_open@
    }

    /// Established connections waiting for `accept`, oldest first.
    pub closed spec fn ready(&self) -> Seq<SocketAddrV4> {
        self.ready@
    }

    pub closed spec fn wf(&self) -> bool {
        &&& self.backlog > 0
        &&& self.ready@.len() <= self.backlog
    }

    /// The accept queue never holds more than the backlog.
    pub proof fn lemma_queue_bounded(&self)
        requires
            self.wf(),
        ensures
            self.ready().len() <= self.backlog(),
    {
    }

    /// A listener; a backlog of zero is taken as one, and one above
    /// `MAX_BACKLOG` as that.
    pub fn new(backlog: usize) -> (r: Listener)
        ensures
            r.wf(),
            r.backlog() == crate::sockets::effective_backlog(backlog),
            r.half_open().len() == 0,
            r.ready().len() == 0,
    {
        let b = if backlog == 0 { 1 } else if backlog > MAX_BACKLOG { MAX_BACKLOG } else { backlog };
        Listener { backlog: b, half_open: Vec::new(), ready: VecDeque::new() }
    }

    fn position(&self, peer: SocketAddrV4) -> (r: Option<usize>)
        ensures
            r is None <==> !self.half_open().contains(peer),
            r is Some ==> r->Some_0 < self.half_open().len() && self.half_open()[r->Some_0 as int] == peer,
    {
        let mut i: usize = 0;
        while i < self.half_open.len()
            invariant
                i <= self.half_open.len(),
                forall|j: int| 0 <= j < i ==> self.half_open@[j] != peer,
            decreases self.half_open.len() - i,
        {
            let p = self.half_open[i];
            if p.ip == peer.ip && p.port == peer.port {
                return Some(i);
            }
            i = i + 1;
        }
        None
    }

    /// A SYN from `peer` is answered with a SYN-ACK and the peer is
    /// recorded as half-open (once).
    pub fn on_syn(&mut self, peer: SocketAddrV4)
        requires
            old(self).wf(),
        ensures
            final(self).wf(),
            final(self).backlog() == old(self).backlog(),
            final(self).ready() == old(self).ready(),
            old(self).half_open().contains(peer) ==> final(self).half_open() == old(self).half_open(),
            !old(self).half_open().contains(peer) ==> final(self).half_open() == old(self).half_open().push(peer),
    {
        if self.position(peer).is_none() {
            self.half_open.push(peer);
        }
    }

    /// The ACK of our SYN-ACK from `peer`: the connection joins the accept
    /// queue if it has room, and is reset otherwise.
    pub fn on_ack(&mut self, peer: SocketAddrV4) -> (r: HandshakeDone)
        requires
            old(self).wf(),
        ensures
            final(self).wf(),
            final(self).backlog() == old(self).backlog(),
            !old(self).half_open().contains(peer) ==> r == HandshakeDone::Unknown && final(self).half_open()
                == old(self).half_open() && final(self).ready() == old(self).ready(),
            old(self).half_open().contains(peer) ==> exists|i: int|
                0 <= i < old(self).half_open().len() && #[trigger] old(self).half_open()[i] == peer
                    && final(self).half_open() == old(self).half_open().remove(i),
            old(self).half_open().contains(peer) && old(self).ready().len() < old(self).backlog() ==> r
                == HandshakeDone::Queued && final(self).ready() == old(self).ready().push(peer),
            old(self).half_open().contains(peer) && old(self).ready().len() >= old(self).backlog() ==> r
                == HandshakeDone::Reset && final(self).ready() == old(self).ready(),
    {
        match self.position(peer) {
            None => HandshakeDone::Unknown,
            Some(i) => {
                self.half_open.remove(i);
                if self.ready.len() < self.backlog {
                    self.ready.push_back(peer);
                    HandshakeDone::Queued
                } else {
                    HandshakeDone::Reset
                }
            },
        }
    }

    /// The oldest established connection, if any.
    pub fn accept(&mut self) -> (r: Option<SocketAddrV4>)
        requires
            old(self).wf(),
        ensures
            final(self).wf(),
            final(self).backlog() == old(self).backlog(),
            final(self).half_open() == old(self).half_open(),
            old(self).ready().len() == 0 ==> r is None && final(self).ready() == old(self).ready(),
            old(self).ready().len() > 0 ==> r == Some(old(self).ready()[0]) && final(self).ready() == old(self).ready().skip(1),
    {
        let r = self.ready.pop_front();
        proof {
            if old(self).ready@.len() > 0 {
                assert(self.ready@ =~= old(self).ready@.skip(1));
            }
        }
        r
    }
}

/// Connection states.
#[derive(Clone, Copy, Debug, PartialEq, Eq, Structural)]
pub enum TcpState {
    Closed,
    Listen,
    SynSent,
    SynReceived,
    Established,
    FinWait1,
    FinWait2,
    CloseWait,
    Closing,
    LastAck,
    TimeWait,
}

/// The user closes: a FIN goes out where one is owed.
pub fn on_user_close(s: TcpState) -> (r: (TcpState, bool))
    ensures
        r == match s {
            TcpState::Established => (TcpState::FinWait1, true),
            TcpState::SynReceived => (TcpState::FinWait1, true),
            TcpState::CloseWait => (TcpState::LastAck, true),
            TcpState::Listen => (TcpState::Closed, false),
            TcpState::SynSent => (TcpState::Closed, false),
            _ => (s, false),
        },
{
    match s {
        TcpState::Established => (TcpState::FinWait1, true),
        TcpState::SynReceived => (TcpState::FinWait1, true),
        TcpState::CloseWait => (TcpState::LastAck, true),
        TcpState::Listen => (TcpState::Closed, false),
        TcpState::SynSent => (TcpState::Closed, false),
        _ => (s, false),
    }
}

/// The peer's FIN arrives.
pub fn on_fin(s: TcpState) -> (r: TcpState)
    ensures
        r == match s {
            TcpState::Established => TcpState::CloseWait,
            TcpState::SynReceived => TcpState::CloseWait,
            TcpState::FinWait1 => TcpState::Closing,
            TcpState::FinWait2 => TcpState::TimeWait,
            _ => s,
        },
{
    match s {
        TcpState::Established => TcpState::CloseWait,
        TcpState::SynReceived => TcpState::CloseWait,
        TcpState::FinWait1 => TcpState::Closing,
        TcpState::FinWait2 => TcpState::TimeWait,
        _ => s,
    }
}

/// Our FIN is acknowledged.
pub fn on_fin_acked(s: TcpState) -> (r: TcpState)
    ensures
        r == match s {
            TcpState::FinWait1 => TcpState::FinWait2,
            TcpState::Closing => TcpState::TimeWait,
            TcpState::LastAck => TcpState::Closed,
            _ => s,
        },
{
    match s {
        TcpState::FinWait1 => TcpState::FinWait2,
        TcpState::Closing => TcpState::TimeWait,
        TcpState::LastAck => TcpState::Closed,
        _ => s,
    }
}

/// A forced close or a reset: straight to Closed; a reset is sent where
/// the peer may still hold the connection.
pub fn on_abort(s: TcpState) -> (r: (TcpState, bool))
    ensures
        r.0 == TcpState::Closed,
        r.1 == !(s is Closed || s is Listen || s is SynSent || s is TimeWait),
{
    let send_rst = match s {
        TcpState::Closed => false,
        TcpState::Listen => false,
        TcpState::SynSent => false,
        TcpState::TimeWait => false,
        _ => true,
    };
    (TcpState::Closed, send_rst)
}

} // verus!
