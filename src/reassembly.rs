use vstd::prelude::*;
use std::collections::VecDeque;
use crate::tcp::{seq_add, seq_dist, seq_plus, seq_sub};

verus! {

pub const HALF_SPACE: u64 = 0x8000_0000;

/// Number of filled cells at the front.
pub open spec fn lead_some(s: Seq<Option<u8>>) -> nat
    decreases s.len(),
{
    if s.len() == 0 || s[0] is None {
        0
    } else {
        1 + lead_some(s.skip(1))
    }
}

/// The bytes of the first `k` cells, all filled.
pub open spec fn cell_bytes(s: Seq<Option<u8>>, k: nat) -> Seq<u8> {
    Seq::new(k, |i: int| s[i]->Some_0)
}

/// Index into a segment that starts `d` ahead of RCV.NXT (or `2^32 - d`
/// behind it) of the byte that belongs at window cell `p`.
pub open spec fn seg_index(d: nat, p: int) -> int {
    if d < HALF_SPACE {
        p - d
    } else {
        p + (0x1_0000_0000 - d)
    }
}

/// The window after a segment's bytes fill the cells that were empty;
/// bytes already queued are kept.
pub open spec fn merged(cells: Seq<Option<u8>>, d: nat, bytes: Seq<u8>) -> Seq<Option<u8>> {
    Seq::new(
        cells.len(),
        |p: int|
            if cells[p] is Some {
                cells[p]
            } else if 0 <= seg_index(d, p) < bytes.len() {
                Some(bytes[seg_index(d, p)])
            } else {
                None
            },
    )
}

proof fn lemma_lead_some_bounds(s: Seq<Option<u8>>)
    ensures
        lead_some(s) <= s.len(),
        forall|i: int| 0 <= i < lead_some(s) ==> #[trigger] s[i] is Some,
        lead_some(s) < s.len() ==> s[lead_some(s) as int] is None,
    decreases s.len(),
{
    if s.len() > 0 && s[0] is Some {
        lemma_lead_some_bounds(s.skip(1));
        assert forall|i: int| 0 <= i < lead_some(s) implies #[trigger] s[i] is Some by {
            if i > 0 {
                assert(s.skip(1)[i - 1] == s[i]);
            }
        }
    }
}

/// What `Receiver::receive` does: the segment's bytes fill the empty cells
/// they fall on, and every filled cell contiguous with RCV.NXT is delivered.
pub open spec fn receive_post(before: Receiver, seq: u32, bytes: Seq<u8>, after: Receiver) -> bool {
    let m = merged(before.cells(), seq_dist(seq, before.rcv_nxt()), bytes);
    let k = lead_some(m);
    &&& after.stream_start() == before.stream_start()
    &&& after.cells() == m.skip(k as int) + Seq::new(k, |p: int| None::<u8>)
    &&& after.delivered() == before.delivered() + cell_bytes(m, k)
    &&& after.ready() == before.ready() + cell_bytes(m, k)
    &&& after.rcv_nxt() == seq_plus(before.rcv_nxt(), k)
}

/// The receive half of a connection's control block: RCV.NXT, a window of
/// cells for bytes that arrived ahead of it, and the bytes ready for the
/// user.
pub struct Receiver {
    rcv_nxt: u32,
    window: Vec<Option<u8>>,
    ready: VecDeque<u8>,
    delivered: Ghost<Seq<u8>>,
    start: Ghost<u32>,
}

impl Receiver {
    pub closed spec fn rcv_nxt(&self) -> u32 {
        self.rcv_nxt
    }

    /// Window cells: cell `p` holds the byte at RCV.NXT + p once it arrived.
    pub closed spec fn cells(&self) -> Seq<Option<u8>> {
        self.window@
    }

    /// Bytes delivered in order and not yet read by the user.
    pub closed spec fn ready(&self) -> Seq<u8> {
        self.ready@
    }

    /// Every byte delivered in order since the connection began.
    pub closed spec fn delivered(&self) -> Seq<u8> {
        self.delivered@
    }

    /// IRS + 1: the sequence number of the first byte of the stream.
    pub closed spec fn stream_start(&self) -> u32 {
        self.start@
    }

    pub closed spec fn wf(&self) -> bool {
        &&& self.window.len() > 0
        &&& self.window.len() < HALF_SPACE
        &&& self.window[0] is None
        &&& self.rcv_nxt == seq_plus(self.start@, self.delivered@.len())
        &&& self.ready@.len() <= self.delivered@.len()
        &&& self.ready@ == self.delivered@.skip(self.delivered@.len() - self.ready@.len())
    }

    /// A receiver whose stream starts at `irs + 1`, with a window of `size`
    /// bytes.
    pub fn new(irs: u32, size: usize) -> (r: Receiver)
        requires
            0 < size < HALF_SPACE,
        ensures
            r.wf(),
            r.rcv_nxt() == seq_plus(irs, 1),
            r.stream_start() == seq_plus(irs, 1),
            r.cells() == Seq::new(size as nat, |p: int| None::<u8>),
            r.ready().len() == 0,
            r.delivered().len() == 0,
    {
        let start = seq_add(irs, 1);
        let mut window: Vec<Option<u8>> = Vec::new();
        let mut i: usize = 0;
        while i < size
            invariant
                i <= size,
                window@ =~= Seq::new(i as nat, |p: int| None::<u8>),
            decreases size - i,
        {
            window.push(None);
            i = i + 1;
        }
        let r = Receiver { rcv_nxt: start, window, ready: VecDeque::new(), delivered: Ghost(Seq::empty()), start: Ghost(start) };
        assert(r.ready@ =~= r.delivered@.skip(0));
        r
    }

    pub fn rcv_nxt_exec(&self) -> (r: u32)
        ensures
            r == self.rcv_nxt(),
    {
        self.rcv_nxt
    }

    /// Takes a segment whose first byte has sequence number `seq`. Its bytes
    /// fill the empty cells they fall on, bytes already queued or delivered
    /// are kept, and what lies past the window is dropped. Then every byte
    /// contiguous with RCV.NXT is delivered in order. Returns the new
    /// RCV.NXT, the acknowledgement to send.
    pub fn receive(&mut self, seq: u32, bytes: &Vec<u8>) -> (ack: u32)
        requires
            old(self).wf(),
            bytes@.len() < HALF_SPACE,
        ensures
            final(self).wf(),
            receive_post(*old(self), seq, bytes@, *final(self)),
            ack == final(self).rcv_nxt(),
    {
        let w = self.window.len();
        let d = seq_sub(seq, self.rcv_nxt);
        let ghost m = merged(old(self).cells(), d as nat, bytes@);
        let n = bytes.len();
        let mut p: usize = 0;
        while p < w
            invariant
                w == self.window.len(),
                w == old(self).window.len(),
                n == bytes@.len(),
                n < HALF_SPACE,
                w < HALF_SPACE,
                p <= w,
                m == merged(old(self).cells(), d as nat, bytes@),
                forall|q: int| 0 <= q < p ==> #[trigger] self.window@[q] == m[q],
                forall|q: int| p <= q < w ==> #[trigger] self.window@[q] == old(self).window@[q],
                self.rcv_nxt == old(self).rcv_nxt,
                self.ready@ == old(self).ready@,
                self.delivered@ == old(self).delivered@,
                self.start@ == old(self).start@,
            decreases w - p,
        {
            if self.window[p].is_none() {
                let in_seg: bool;
                let j: u64;
                if (d as u64) < HALF_SPACE {
                    in_seg = p as u64 >= d as u64 && (p as u64 - d as u64) < n as u64;
                    j = if in_seg { p as u64 - d as u64 } else { 0 };
                } else {
                    let back: u64 = 0x1_0000_0000 - d as u64;
                    in_seg = p as u64 + back < n as u64;
                    j = if in_seg { p as u64 + back } else { 0 };
                }
                if in_seg {
                    self.window.set(p, Some(bytes[j as usize]));
                }
            }
            p = p + 1;
        }
        proof {
            assert(self.window@ =~= m);
            lemma_lead_some_bounds(m);
        }
        let mut k: usize = 0;
        while k < w && self.window[k].is_some()
            invariant
                w == self.window.len(),
                self.window@ == m,
                k <= lead_some(m),
                lead_some(m) <= w,
                forall|i: int| 0 <= i < lead_some(m) ==> #[trigger] m[i] is Some,
                lead_some(m) < m.len() ==> m[lead_some(m) as int] is None,
            decreases w - k,
        {
            k = k + 1;
        }
        assert(k == lead_some(m));
        if k > 0 {
            let mut j: usize = 0;
            while j < k
                invariant
                    j <= k,
                    k == lead_some(m),
                    k <= w,
                    w == self.window.len(),
                    self.window@ == m,
                    forall|i: int| 0 <= i < lead_some(m) ==> #[trigger] m[i] is Some,
                    self.ready@ == old(self).ready@ + cell_bytes(m, j as nat),
                    self.rcv_nxt == old(self).rcv_nxt,
                    self.delivered@ == old(self).delivered@,
                    self.start@ == old(self).start@,
                decreases k - j,
            {
                let b = match self.window[j] {
                    Some(b) => b,
                    None => 0,
                };
                self.ready.push_back(b);
                proof {
                    assert(cell_bytes(m, (j + 1) as nat) =~= cell_bytes(m, j as nat).push(b));
                }
                j = j + 1;
            }
            let mut next: Vec<Option<u8>> = Vec::new();
            let mut q: usize = k;
            while q < w
                invariant
                    k <= q <= w,
                    w == self.window.len(),
                    self.window@ == m,
                    next@ =~= m.subrange(k as int, q as int),
                decreases w - q,
            {
                next.push(self.window[q]);
                q = q + 1;
            }
            let mut q: usize = 0;
            while q < k
                invariant
                    q <= k,
                    k <= w,
                    next@ =~= m.skip(k as int) + Seq::new(q as nat, |p: int| None::<u8>),
                decreases k - q,
            {
                next.push(None);
                q = q + 1;
            }
            self.window = next;
            self.rcv_nxt = seq_add(self.rcv_nxt, k as u32);
            self.delivered = Ghost(self.delivered@ + cell_bytes(m, k as nat));
            proof {
                lemma_lead_some_bounds(m);
                if k < w {
                    assert(self.window@[0] == m[k as int]);
                } else {
                    assert(self.window@[0] == None::<u8>);
                }
                let dl = old(self).delivered@.len();
                assert(seq_plus(seq_plus(old(self).start@, dl), k as nat) == seq_plus(old(self).start@, dl + k as nat)) by {
                    lemma_seq_plus_assoc(old(self).start@, dl, k as nat);
                }
                lemma_suffix_append(old(self).delivered@, old(self).ready@, cell_bytes(m, k as nat));
            }
        } else {
            proof {
                assert(cell_bytes(m, 0) =~= Seq::<u8>::empty());
                assert(old(self).delivered@ + cell_bytes(m, 0) =~= old(self).delivered@);
                assert(old(self).ready@ + cell_bytes(m, 0) =~= old(self).ready@);
                assert(m.skip(0) + Seq::new(0, |p: int| None::<u8>) =~= m);
                assert(seq_plus(old(self).rcv_nxt, 0) == old(self).rcv_nxt);
                assert(m[0] is None);
            }
        }
        self.rcv_nxt
    }

    /// Reads up to `max` ready bytes (all of them when `max` is `None`), in
    /// order.
    pub fn pop(&mut self, max: Option<usize>) -> (r: Vec<u8>)
        requires
            old(self).wf(),
        ensures
            final(self).wf(),
            final(self).rcv_nxt() == old(self).rcv_nxt(),
            final(self).cells() == old(self).cells(),
            final(self).delivered() == old(self).delivered(),
            ({
                let n = match max {
                    Some(m) => if m < old(self).ready().len() { m as nat } else { old(self).ready().len() },
                    None => old(self).ready().len(),
                };
                &&& r@ == old(self).ready().take(n as int)
                &&& final(self).ready() == old(self).ready().skip(n as int)
            }),
    {
        let avail = self.ready.len();
        let n: usize = match max {
            Some(m) => if m < avail { m } else { avail },
            None => avail,
        };
        let mut out: Vec<u8> = Vec::new();
        let mut i: usize = 0;
        while i < n
            invariant
                i <= n,
                n <= avail,
                avail == old(self).ready@.len(),
                out@ =~= old(self).ready@.take(i as int),
                self.ready@ =~= old(self).ready@.skip(i as int),
                self.rcv_nxt == old(self).rcv_nxt,
                self.window@ == old(self).window@,
                self.delivered@ == old(self).delivered@,
                self.start@ == old(self).start@,
            decreases n - i,
        {
            match self.ready.pop_front() {
                Some(b) => out.push(b),
                None => {},
            }
            i = i + 1;
        }
        proof {
            let d = self.delivered@;
            let o = old(self).ready@;
            assert(self.ready@ =~= d.skip(d.len() - self.ready@.len()));
        }
        out
    }

    /// No byte waits at RCV.NXT itself, so every queued byte lies beyond it;
    /// each sequence number has one cell, so queued ranges never overlap;
    /// and the delivered bytes cover exactly [IRS + 1, RCV.NXT).
    pub proof fn lemma_reassembly_cover(&self)
        requires
            self.wf(),
        ensures
            self.cells().len() > 0,
            self.cells()[0] is None,
            forall|p: int| 0 <= p < self.cells().len() && (#[trigger] self.cells()[p]) is Some ==> p >= 1,
            self.rcv_nxt() == seq_plus(self.stream_start(), self.delivered().len()),
            self.ready() == self.delivered().skip(self.delivered().len() - self.ready().len()),
    {
    }
}

proof fn lemma_suffix_append(d: Seq<u8>, r: Seq<u8>, c: Seq<u8>)
    requires
        r.len() <= d.len(),
        r == d.skip(d.len() - r.len()),
    ensures
        r + c == (d + c).skip((d + c).len() - (r + c).len()),
{
    let lhs = r + c;
    let rhs = (d + c).skip((d + c).len() - (r + c).len());
    assert(lhs.len() == rhs.len());
    assert forall|i: int| 0 <= i < lhs.len() implies lhs[i] == rhs[i] by {
        if i < r.len() {
            assert(rhs[i] == d[d.len() - r.len() + i]);
            assert(r[i] == d.skip(d.len() - r.len())[i]);
        } else {
            assert(rhs[i] == (d + c)[d.len() - r.len() + i]);
        }
    }
    assert(lhs =~= rhs);
}

proof fn lemma_seq_plus_assoc(a: u32, x: nat, y: nat)
    ensures
        seq_plus(seq_plus(a, x), y) == seq_plus(a, x + y),
{
    let s = 0x1_0000_0000nat;
    assert(((a as nat + x) % s + y) % s == (a as nat + x + y) % s) by {
        vstd::arithmetic::div_mod::lemma_add_mod_noop((a as nat + x) as int, y as int, s as int);
        vstd::arithmetic::div_mod::lemma_mod_twice((a as nat + x) as int, s as int);
    }
}

} // verus!
