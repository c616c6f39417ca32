use vstd::prelude::*;

verus! {

pub const SEQ_SPACE: u64 = 0x1_0000_0000;

/// Largest send window, so that the window never spans half the sequence
/// space.
pub const MAX_WINDOW: u32 = 0x4000_0000;

/// How far sequence number `a` lies ahead of `b`, modulo 2^32.
pub open spec fn seq_dist(a: u32, b: u32) -> nat {
    if a >= b {
        (a - b) as nat
    } else {
        (a + SEQ_SPACE - b) as nat
    }
}

/// `a` advanced by `n`, modulo 2^32.
pub open spec fn seq_plus(a: u32, n: nat) -> u32 {
    ((a as nat + n) % (SEQ_SPACE as nat)) as u32
}

pub fn seq_sub(a: u32, b: u32) -> (r: u32)
    ensures
        r == seq_dist(a, b),
{
    if a >= b {
        a - b
    } else {
        (a as u64 + SEQ_SPACE - b as u64) as u32
    }
}

pub fn seq_add(a: u32, n: u32) -> (r: u32)
    ensures
        r == seq_plus(a, n as nat),
        seq_dist(r, a) == n,
{
    let s: u64 = a as u64 + n as u64;
    if s >= SEQ_SPACE {
        (s - SEQ_SPACE) as u32
    } else {
        s as u32
    }
}

pub open spec fn min_nat(a: nat, b: nat) -> nat {
    if a <= b { a } else { b }
}

pub fn min_u32(a: u32, b: u32) -> (r: u32)
    ensures
        r == if a <= b { a } else { b },
{
    if a <= b { a } else { b }
}

pub fn max_u32(a: u32, b: u32) -> (r: u32)
    ensures
        r == if a >= b { a } else { b },
{
    if a >= b { a } else { b }
}

/// Congestion window after an acknowledgement of new data: one segment more
/// in slow start, about one segment per round trip after it.
pub open spec fn cwnd_after_ack(cwnd: u32, ssthresh: u32, mss: u32) -> u32 {
    let inc: nat = if cwnd < ssthresh {
        mss as nat
    } else if mss as nat * mss as nat / cwnd as nat >= 1 {
        mss as nat * mss as nat / cwnd as nat
    } else {
        1
    };
    if cwnd as nat + inc > u32::MAX { u32::MAX } else { (cwnd as nat + inc) as u32 }
}

/// Slow-start threshold after a retransmission timeout.
pub open spec fn ssthresh_after_timeout(flight: nat, mss: u32) -> u32 {
    if flight / 2 >= 2 * mss as nat {
        (flight / 2) as u32
    } else {
        (2 * mss as nat) as u32
    }
}

/// What an incoming acknowledgement was.
#[derive(Clone, Copy, Debug, PartialEq, Eq, Structural)]
pub enum AckKind {
    /// It acknowledged this many new bytes.
    New(u32),
    /// It repeated the last acknowledgement while data was in flight.
    Duplicate,
    /// The third duplicate: the first unacknowledged segment is resent.
    FastRetransmit,
    /// It acknowledged nothing sent, or lies outside what was sent; ignored.
    Ignored,
}

/// What `Sender::on_ack` does: new data acknowledged moves SND.UNA and
/// grows the congestion window; the third duplicate halves the threshold
/// and sets the window to it plus three segments; anything else is
/// ignored. The window never drops below what is in flight.
pub open spec fn ack_post(before: Sender, ack: u32, adv_wnd: u32, after: Sender, r: AckKind) -> bool {
    &&& after.mss == before.mss
    &&& after.nxt == before.nxt
    &&& ({
        let acked = seq_dist(ack, before.una);
        let flight = before.in_flight();
        let w = if adv_wnd > MAX_WINDOW { MAX_WINDOW } else { adv_wnd };
        if 0 < acked <= flight {
            &&& r == AckKind::New(acked as u32)
            &&& after.una == ack
            &&& after.dup_acks == 0
            &&& after.cwnd == cwnd_after_ack(before.cwnd, before.ssthresh, before.mss)
            &&& after.ssthresh == before.ssthresh
            &&& after.wnd == (if w as nat >= flight - acked { w as nat } else { (flight - acked) as nat })
        } else if acked == 0 && flight > 0 {
            &&& after.una == before.una
            &&& after.wnd == (if w as nat >= flight { w as nat } else { flight })
            &&& if before.dup_acks == 2 {
                &&& r == AckKind::FastRetransmit
                &&& after.dup_acks == 3
                &&& after.ssthresh == before.ssthresh / 2
                &&& after.cwnd == (if before.ssthresh / 2 + 3 * before.mss as nat > u32::MAX {
                    u32::MAX as nat
                } else {
                    (before.ssthresh / 2 + 3 * before.mss as nat) as nat
                })
            } else {
                &&& r == AckKind::Duplicate
                &&& after.dup_acks == (if before.dup_acks == u32::MAX { u32::MAX as nat } else { (before.dup_acks + 1) as nat })
                &&& after.cwnd == before.cwnd
                &&& after.ssthresh == before.ssthresh
            }
        } else {
            r == AckKind::Ignored && after == before
        }
    })
}

/// The send half of a connection's control block: SND.UNA, SND.NXT,
/// SND.WND, the segment size, and the congestion state.
#[derive(Clone, Copy, Debug)]
pub struct Sender {
    pub una: u32,
    pub nxt: u32,
    pub wnd: u32,
    pub mss: u32,
    pub cwnd: u32,
    pub ssthresh: u32,
    pub dup_acks: u32,
}

impl Sender {
    /// Bytes sent and not yet acknowledged.
    pub open spec fn in_flight(&self) -> nat {
        seq_dist(self.nxt, self.una)
    }

    /// SND.UNA <= SND.NXT <= SND.UNA + SND.WND, in sequence space.
    pub open spec fn wf(&self) -> bool {
        &&& self.in_flight() <= self.wnd
        &&& self.wnd <= MAX_WINDOW
        &&& self.mss > 0
        &&& self.cwnd > 0
    }

    /// A sender with nothing in flight, whose next byte is `una`, with the
    /// peer's window and segment size.
    pub fn new(una: u32, wnd: u32, mss: u32) -> (r: Sender)
        requires
            wnd <= MAX_WINDOW,
            mss > 0,
        ensures
            r.wf(),
            r.una == una && r.nxt == una && r.wnd == wnd && r.mss == mss,
            r.cwnd == mss,
            r.ssthresh == u32::MAX,
            r.dup_acks == 0,
    {
        Sender { una, nxt: una, wnd, mss, cwnd: mss, ssthresh: u32::MAX, dup_acks: 0 }
    }

    /// What both the peer's window and the congestion window leave over.
    pub open spec fn usable(&self) -> nat {
        let by_peer = self.wnd as nat - self.in_flight();
        let by_cwnd = if self.cwnd >= self.in_flight() { (self.cwnd - self.in_flight()) as nat } else { 0 };
        if by_peer <= by_cwnd { by_peer as nat } else { by_cwnd }
    }

    /// The most that may be sent now.
    pub fn usable_window(&self) -> (r: u32)
        requires
            self.wf(),
        ensures
            r == self.usable(),
    {
        let flight = seq_sub(self.nxt, self.una);
        let by_peer = self.wnd - flight;
        let by_cwnd = if self.cwnd >= flight { self.cwnd - flight } else { 0 };
        min_u32(by_peer, by_cwnd)
    }

    /// Length of the next segment when `available` bytes wait: at most one
    /// segment and what the windows allow.
    pub fn next_segment_len(&self, available: u32) -> (r: u32)
        requires
            self.wf(),
        ensures
            r == min_nat(min_nat(available as nat, self.mss as nat), self.usable()),
            r as nat + self.in_flight() <= self.wnd,
    {
        let w = self.usable_window();
        min_u32(min_u32(available, self.mss), w)
    }

    /// Records that `len` more bytes went out.
    pub fn on_send(&mut self, len: u32)
        requires
            old(self).wf(),
            old(self).in_flight() + len <= old(self).wnd,
        ensures
            final(self).wf(),
            final(self).nxt == seq_plus(old(self).una, old(self).in_flight() + len as nat),
            final(self).in_flight() == old(self).in_flight() + len,
            *final(self) == (Sender { nxt: final(self).nxt, ..*old(self) }),
    {
        self.nxt = seq_add(self.nxt, len);
        proof {
            lemma_seq_add_dist(old(self).una, old(self).nxt, len as nat);
        }
    }

    /// Handles an acknowledgement `ack` with the peer's window `adv_wnd`.
    /// New data acknowledged moves SND.UNA and grows the congestion window;
    /// the third duplicate halves the threshold and sets the window to it
    /// plus three segments. The window never drops below what is in flight.
    pub fn on_ack(&mut self, ack: u32, adv_wnd: u32) -> (r: AckKind)
        requires
            old(self).wf(),
        ensures
            final(self).wf(),
            ack_post(*old(self), ack, adv_wnd, *final(self), r),
    {
        let acked = seq_sub(ack, self.una);
        let flight = seq_sub(self.nxt, self.una);
        let w = min_u32(adv_wnd, MAX_WINDOW);
        if 0 < acked && acked <= flight {
            let ghost old_una = self.una;
            self.una = ack;
            proof {
                lemma_seq_dist_split(old_una, ack, self.nxt);
            }
            let left = flight - acked;
            self.wnd = max_u32(w, left);
            self.dup_acks = 0;
            let mss = self.mss as u64;
            let cwnd = self.cwnd as u64;
            let inc: u64 = if self.cwnd < self.ssthresh {
                mss
            } else {
                proof {
                    assert(mss * mss <= 0xffff_ffff * 0xffff_ffff) by (nonlinear_arith)
                        requires mss <= 0xffff_ffff;
                }
                let q = mss * mss / cwnd;
                if q >= 1 { q } else { 1 }
            };
            let grown = cwnd + inc;
            self.cwnd = if grown > u32::MAX as u64 { u32::MAX } else { grown as u32 };
            AckKind::New(acked)
        } else if acked == 0 && flight > 0 {
            self.wnd = max_u32(w, flight);
            if self.dup_acks == 2 {
                self.dup_acks = 3;
                self.ssthresh = self.ssthresh / 2;
                let c: u64 = self.ssthresh as u64 + 3 * self.mss as u64;
                self.cwnd = if c > u32::MAX as u64 { u32::MAX } else { c as u32 };
                AckKind::FastRetransmit
            } else {
                self.dup_acks = if self.dup_acks == u32::MAX { u32::MAX } else { self.dup_acks + 1 };
                AckKind::Duplicate
            }
        } else {
            AckKind::Ignored
        }
    }

    /// A retransmission timeout: everything in flight is sent again from
    /// SND.UNA, the threshold drops to half of what was in flight (at least
    /// two segments) and the congestion window to one segment.
    pub fn on_timeout(&mut self)
        requires
            old(self).wf(),
            2 * old(self).mss as nat <= u32::MAX,
        ensures
            final(self).wf(),
            *final(self) == (Sender {
                nxt: old(self).una,
                cwnd: old(self).mss,
                ssthresh: ssthresh_after_timeout(old(self).in_flight(), old(self).mss),
                dup_acks: 0,
                ..*old(self)
            }),
    {
        let flight = seq_sub(self.nxt, self.una);
        self.ssthresh = max_u32(flight / 2, 2 * self.mss);
        self.cwnd = self.mss;
        self.nxt = self.una;
        self.dup_acks = 0;
    }
}

proof fn lemma_seq_add_dist(una: u32, nxt: u32, n: nat)
    requires
        seq_dist(nxt, una) + n < SEQ_SPACE,
    ensures
        seq_dist(seq_plus(nxt, n), una) == seq_dist(nxt, una) + n,
        seq_plus(nxt, n) == seq_plus(una, seq_dist(nxt, una) + n),
{
}

proof fn lemma_seq_dist_split(una: u32, ack: u32, nxt: u32)
    requires
        seq_dist(ack, una) <= seq_dist(nxt, una),
    ensures
        seq_dist(nxt, ack) == seq_dist(nxt, una) - seq_dist(ack, una),
{
}

/// For every sender: SND.UNA <= SND.NXT <= SND.UNA + SND.WND, measured in
/// sequence space from SND.UNA.
pub proof fn lemma_send_sequence_bounds(s: Sender)
    requires
        s.wf(),
    ensures
        0 <= seq_dist(s.nxt, s.una) <= s.wnd,
        s.nxt == seq_plus(s.una, seq_dist(s.nxt, s.una)),
{
}

/// Largest payload of a segment: the smaller of our segment size and the
/// one the peer advertised.
pub fn effective_mss(local_mss: u32, peer_mss: u32) -> (r: u32)
    ensures
        r == if local_mss <= peer_mss { local_mss } else { peer_mss },
{
    min_u32(local_mss, peer_mss)
}

/// Nagle's rule: a segment shorter than a full one waits unless nothing is
/// in flight or the trailing-acknowledgement timer fired.
pub fn nagle_allows(len: u32, mss: u32, in_flight: u32, timer_fired: bool) -> (r: bool)
    ensures
        r == (len >= mss || in_flight == 0 || timer_fired),
{
    len >= mss || in_flight == 0 || timer_fired
}

/// Whether an in-order segment is acknowledged at once. The
/// acknowledgement may be delayed (by at most the trailing-ack delay) only
/// when nothing waits to go the other way and fewer than two full segments
/// arrived unacknowledged.
pub fn ack_now(pending_send: bool, unacked_bytes: u32, mss: u32) -> (r: bool)
    ensures
        r == (pending_send || unacked_bytes as nat >= 2 * mss as nat),
{
    pending_send || unacked_bytes as u64 >= 2 * mss as u64
}

/// Shortest retransmission timeout, in microseconds.
pub const RTO_MIN_US: u64 = 200_000;

/// Longest retransmission timeout, in microseconds.
pub const RTO_MAX_US: u64 = 60_000_000;

/// Timeout before any round trip was measured, in microseconds.
pub const RTO_INITIAL_US: u64 = 1_000_000;

pub open spec fn clamp_rto(x: nat) -> nat {
    if x < RTO_MIN_US {
        RTO_MIN_US as nat
    } else if x > RTO_MAX_US {
        RTO_MAX_US as nat
    } else {
        x
    }
}

pub open spec fn abs_diff(a: nat, b: nat) -> nat {
    if a >= b { (a - b) as nat } else { (b - a) as nat }
}

/// Smoothed round-trip time, its variation and the retransmission timeout
/// after Jacobson and Karels, in microseconds.
#[derive(Clone, Copy, Debug)]
pub struct RtoCalculator {
    pub srtt: u64,
    pub rttvar: u64,
    pub rto: u64,
    pub measured: bool,
}

impl RtoCalculator {
    pub open spec fn wf(&self) -> bool {
        &&& self.srtt <= u32::MAX
        &&& self.rttvar <= u32::MAX
        &&& RTO_MIN_US <= self.rto <= RTO_MAX_US
    }

    pub fn new() -> (r: RtoCalculator)
        ensures
            r.wf(),
            r.rto == RTO_INITIAL_US,
            !r.measured,
    {
        RtoCalculator { srtt: 0, rttvar: 0, rto: RTO_INITIAL_US, measured: false }
    }

    /// Takes one round-trip sample. The first sets SRTT to it and RTTVAR to
    /// half of it; later ones move RTTVAR a quarter and SRTT an eighth of
    /// the way. The timeout is SRTT + 4 RTTVAR, kept within [200 ms, 60 s].
    pub fn add_sample(&mut self, rtt: u32)
        requires
            old(self).wf(),
        ensures
            final(self).wf(),
            final(self).measured,
            !old(self).measured ==> final(self).srtt == rtt && final(self).rttvar == rtt / 2,
            old(self).measured ==> final(self).rttvar == (3 * old(self).rttvar + abs_diff(
                old(self).srtt as nat,
                rtt as nat,
            )) / 4 && final(self).srtt == (7 * old(self).srtt + rtt) / 8,
            final(self).rto == clamp_rto((final(self).srtt + 4 * final(self).rttvar) as nat),
    {
        let r = rtt as u64;
        if !self.measured {
            self.srtt = r;
            self.rttvar = r / 2;
            self.measured = true;
        } else {
            let d: u64 = if self.srtt >= r { self.srtt - r } else { r - self.srtt };
            self.rttvar = (3 * self.rttvar + d) / 4;
            self.srtt = (7 * self.srtt + r) / 8;
        }
        let x: u64 = self.srtt + 4 * self.rttvar;
        self.rto = if x < RTO_MIN_US { RTO_MIN_US } else if x > RTO_MAX_US { RTO_MAX_US } else { x };
    }

    /// Doubles the timeout after an expiry, up to the cap.
    pub fn back_off(&mut self)
        requires
            old(self).wf(),
        ensures
            final(self).wf(),
            final(self).rto == if 2 * old(self).rto > RTO_MAX_US { RTO_MAX_US as nat } else { (2 * old(self).rto) as nat },
            final(self).srtt == old(self).srtt,
            final(self).rttvar == old(self).rttvar,
            final(self).measured == old(self).measured,
    {
        let d = 2 * self.rto;
        self.rto = if d > RTO_MAX_US { RTO_MAX_US } else { d };
    }
}

} // verus!
