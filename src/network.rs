use vstd::prelude::*;
use crate::fail::Fail;
use crate::manager::{
    buffer_bytes, valid_buffer, Buffer, MemView, MemoryManager, PoolKind, MIN_PAYLOAD_SIZE,
};

verus! {

/// A frame ready for the wire: a header buffer, chained to a body buffer
/// where the body did not fit inline.
#[derive(Debug)]
pub struct Frame {
    pub head: Buffer,
    pub next: Option<Buffer>,
}

pub open spec fn buffer_len(b: Buffer) -> nat {
    match b {
        Buffer::Pooled { len, .. } => len as nat,
        Buffer::External(v) => v@.len(),
    }
}

pub open spec fn zeros(n: nat) -> Seq<u8> {
    Seq::new(n, |i: int| 0u8)
}

/// The body does not fit after a header of `h` bytes and is chained.
pub open spec fn is_chained(m: MemView, h: nat, body: Option<Buffer>) -> bool {
    body is Some && buffer_len(body->Some_0) > m.header.buf_size - h
}

/// Length of an inline frame: header and body, padded to the minimum.
pub open spec fn inline_len(h: nat, b: nat) -> nat {
    if h + b < MIN_PAYLOAD_SIZE {
        MIN_PAYLOAD_SIZE as nat
    } else {
        h + b
    }
}

pub open spec fn body_bytes(m: MemView, body: Option<Buffer>) -> Seq<u8> {
    match body {
        Some(b) => buffer_bytes(m, b),
        None => Seq::empty(),
    }
}

/// What goes on the wire for `header` and `body`.
pub open spec fn expected_frame(m: MemView, header: Seq<u8>, body: Option<Buffer>) -> Seq<u8> {
    let b = body_bytes(m, body);
    if is_chained(m, header.len(), body) {
        header + b
    } else {
        header + b + zeros((inline_len(header.len(), b.len()) - header.len() - b.len()) as nat)
    }
}

/// The pools' accounting after a frame is laid out: one header region is
/// taken; an external chained body takes one body region; an inline body's
/// handle is dropped once its bytes are copied.
pub open spec fn transmit_pools(m0: MemView, h: nat, body: Option<Buffer>) -> MemView {
    let m1 = m0.with_pool(PoolKind::Header, m0.header.taken());
    if is_chained(m0, h, body) {
        match body {
            Some(Buffer::External(_)) => m1.with_pool(PoolKind::Body, m1.body.taken()),
            _ => m1,
        }
    } else {
        without_body(m1, body)
    }
}

/// The header buffer of a frame: the most recently freed header region,
/// holding the header alone when the body is chained, else the padded
/// inline frame.
pub open spec fn frame_head(m: MemView, h: nat, body: Option<Buffer>) -> Buffer {
    Buffer::Pooled {
        kind: PoolKind::Header,
        index: m.header.free.last(),
        offset: 0,
        len: (if is_chained(m, h, body) {
            h
        } else {
            inline_len(h, body_bytes(m, body).len())
        }) as usize,
    }
}

/// The chained body: a pooled body itself, without a copy; external bytes
/// in the most recently freed body region.
pub open spec fn chained_body(m: MemView, body: Option<Buffer>) -> Option<Buffer> {
    match body {
        Some(Buffer::External(v)) => Some(
            Buffer::Pooled { kind: PoolKind::Body, index: m.body.free.last(), offset: 0, len: v@.len() as usize },
        ),
        _ => body,
    }
}

pub open spec fn frame_bytes(m: MemView, f: Frame) -> Seq<u8> {
    buffer_bytes(m, f.head) + match f.next {
        Some(b) => buffer_bytes(m, b),
        None => Seq::empty(),
    }
}

pub open spec fn valid_frame(m: MemView, f: Frame) -> bool {
    &&& valid_buffer(m, f.head)
    &&& f.next is Some ==> valid_buffer(m, f.next->Some_0)
}

/// The pools after the handle of `body` is dropped.
pub open spec fn without_body(m: MemView, body: Option<Buffer>) -> MemView {
    match body {
        Some(Buffer::Pooled { kind, index, .. }) => m.with_pool(kind, m.pool(kind).released(index as int)),
        _ => m,
    }
}

impl MemoryManager {
    fn drop_body(&mut self, body: Option<Buffer>)
        requires
            old(self).wf(),
            body is Some ==> valid_buffer(old(self)@, body->Some_0),
        ensures
            final(self).wf(),
            final(self)@ == without_body(old(self)@, body),
    {
        match body {
            Some(b) => self.release_buffer(b),
            None => {},
        }
    }

    /// Lays `header` and `body` out as a frame. A body that fits in the
    /// header buffer's free space is copied there, and a short frame is
    /// padded with zeros to the minimum payload; a larger body is chained,
    /// pooled bodies without a copy and external ones copied into a body
    /// buffer. The header takes the most recently freed header buffer, an
    /// external chained body the most recently freed body buffer. Fails only
    /// when a needed pool is empty; the body is then dropped.
    pub fn transmit(&mut self, header: &Vec<u8>, body: Option<Buffer>) -> (r: Result<Frame, Fail>)
        requires
            old(self).wf(),
            header@.len() <= old(self)@.header.buf_size,
            body is Some ==> valid_buffer(old(self)@, body->Some_0),
            is_chained(old(self)@, header@.len(), body) && body->Some_0 is External
                ==> buffer_len(body->Some_0) <= old(self)@.body.buf_size,
        ensures
            final(self).wf(),
            r is Err <==> old(self)@.header.free.len() == 0 || (is_chained(old(self)@, header@.len(), body)
                && body->Some_0 is External && old(self)@.body.free.len() == 0),
            r is Err ==> r == Err::<Frame, Fail>(Fail::ResourceExhausted)
                && final(self)@ == without_body(old(self)@, body),
            r is Ok ==> valid_frame(final(self)@, r->Ok_0)
                && frame_bytes(final(self)@, r->Ok_0) == expected_frame(old(self)@, header@, body)
                && (r->Ok_0.next is Some <==> is_chained(old(self)@, header@.len(), body)),
            r is Ok ==> r->Ok_0.head == frame_head(old(self)@, header@.len(), body),
            r is Ok ==> final(self)@.header.inventory() == transmit_pools(old(self)@, header@.len(), body).header.inventory(),
            r is Ok ==> final(self)@.body.inventory() == transmit_pools(old(self)@, header@.len(), body).body.inventory(),
            r is Ok && is_chained(old(self)@, header@.len(), body) ==> r->Ok_0.next == chained_body(
                old(self)@,
                body,
            ),
    {
        proof { self.lemma_wf(); }
        let hs = self.header_size();
        let h = header.len();
        let blen: usize = match &body {
            None => 0,
            Some(Buffer::Pooled { len, .. }) => *len,
            Some(Buffer::External(v)) => v.len(),
        };
        let chained = body.is_some() && blen > hs - h;
        let ghost m0 = self@;
        proof {
            old(self).lemma_wf();
            old(self).lemma_free_unused();
        }
        let hidx = match self.take_from(PoolKind::Header) {
            Err(e) => {
                self.drop_body(body);
                return Err(e);
            },
            Ok(i) => i,
        };
        proof {
            self.lemma_wf();
            if body is Some {
                lemma_take_keeps(m0, PoolKind::Header, body->Some_0);
            }
        }
        if chained {
            let next: Buffer = match body {
                Some(Buffer::Pooled { kind, index, offset, len }) => Buffer::Pooled { kind, index, offset, len },
                Some(Buffer::External(v)) => {
                    proof { self.lemma_free_unused(); }
                    let bidx = match self.take_from(PoolKind::Body) {
                        Err(e) => {
                            self.release_region(PoolKind::Header, hidx);
                            proof {
                                let p = m0.header;
                                assert(p.taken().released(hidx as int).refcount =~= p.refcount);
                                assert(p.taken().released(hidx as int).free =~= p.free);
                            }
                            return Err(e);
                        },
                        Ok(i) => i,
                    };
                    proof { self.lemma_wf(); }
                    self.write_region(PoolKind::Body, bidx, 0, &v);
                    proof {
                        self.lemma_wf();
                        let nb = Buffer::Pooled { kind: PoolKind::Body, index: bidx, offset: 0, len: v.len() };
                        assert(buffer_bytes(self@, nb) =~= v@);
                    }
                    Buffer::Pooled { kind: PoolKind::Body, index: bidx, offset: 0, len: v.len() }
                },
                None => Buffer::External(Vec::new()),
            };
            let ghost m2 = self@;
            proof {
                assert(valid_buffer(m2, next));
                assert(buffer_bytes(m2, next) == body_bytes(m0, body));
                assert(next is Pooled && next->Pooled_kind == PoolKind::Header ==> next->Pooled_index != hidx);
                lemma_write_keeps(m2, PoolKind::Header, hidx as int, 0, header@, next);
            }
            self.write_region(PoolKind::Header, hidx, 0, header);
            proof {
                self.lemma_wf();
                let head = Buffer::Pooled { kind: PoolKind::Header, index: hidx, offset: 0, len: h };
                assert(buffer_bytes(self@, head) =~= header@);
            }
            Ok(Frame { head: Buffer::Pooled { kind: PoolKind::Header, index: hidx, offset: 0, len: h }, next: Some(next) })
        } else {
            let mut content: Vec<u8> = Vec::new();
            let mut j: usize = 0;
            while j < h
                invariant
                    j <= h,
                    h == header.len(),
                    content@ =~= header@.take(j as int),
                decreases h - j,
            {
                content.push(header[j]);
                j = j + 1;
            }
            let copied = self.body_copy(&body);
            let mut j: usize = 0;
            while j < copied.len()
                invariant
                    j <= copied.len(),
                    h == header.len(),
                    content@ =~= header@ + copied@.take(j as int),
                decreases copied.len() - j,
            {
                content.push(copied[j]);
                j = j + 1;
            }
            let total: usize = if h + blen < MIN_PAYLOAD_SIZE { MIN_PAYLOAD_SIZE } else { h + blen };
            let ghost unpadded = content@;
            assert(unpadded =~= header@ + body_bytes(m0, body));
            while content.len() < total
                invariant
                    unpadded.len() <= content.len() <= total,
                    content@ =~= unpadded + zeros((content.len() - unpadded.len()) as nat),
                decreases total - content.len(),
            {
                content.push(0u8);
            }
            proof {
                if body is Some {
                    assert(body->Some_0 is Pooled && body->Some_0->Pooled_kind == PoolKind::Header
                        ==> body->Some_0->Pooled_index != hidx);
                }
            }
            self.drop_body(body);
            proof {
                self.lemma_wf();
                assert(self@.header.refcount[hidx as int] == 1);
            }
            self.write_region(PoolKind::Header, hidx, 0, &content);
            proof {
                self.lemma_wf();
                let head = Buffer::Pooled { kind: PoolKind::Header, index: hidx, offset: 0, len: total };
                assert(buffer_bytes(self@, head) =~= content@);
                assert(content@ =~= expected_frame(old(self)@, header@, body));
            }
            Ok(Frame { head: Buffer::Pooled { kind: PoolKind::Header, index: hidx, offset: 0, len: total }, next: None })
        }
    }

    /// Copies the bytes of an optional body.
    fn body_copy(&self, body: &Option<Buffer>) -> (r: Vec<u8>)
        requires
            self.wf(),
            body is Some ==> valid_buffer(self@, body->Some_0),
        ensures
            r@ == body_bytes(self@, *body),
    {
        proof { self.lemma_wf(); }
        match body {
            None => Vec::new(),
            Some(Buffer::Pooled { kind, index, offset, len }) => self.read_region(*kind, *index, *offset, *len),
            Some(Buffer::External(v)) => {
                let mut out: Vec<u8> = Vec::new();
                let mut j: usize = 0;
                while j < v.len()
                    invariant
                        j <= v.len(),
                        out@ =~= v@.take(j as int),
                    decreases v.len() - j,
                {
                    out.push(v[j]);
                    j = j + 1;
                }
                out
            },
        }
    }
}

/// Taking a free region leaves every live buffer as it was.
proof fn lemma_take_keeps(m0: MemView, k: PoolKind, b: Buffer)
    requires
        valid_buffer(m0, b),
        m0.header.data.len() == m0.header.capacity(),
        m0.body.data.len() == m0.body.capacity(),
        m0.pool(k).free.len() > 0,
        m0.pool(k).free.last() < m0.pool(k).capacity(),
        m0.pool(k).refcount[m0.pool(k).free.last() as int] == 0,
    ensures
        valid_buffer(m0.with_pool(k, m0.pool(k).taken()), b),
        buffer_bytes(m0.with_pool(k, m0.pool(k).taken()), b) == buffer_bytes(m0, b),
        b is Pooled && b->Pooled_kind == k ==> b->Pooled_index != m0.pool(k).free.last(),
{
    let m1 = m0.with_pool(k, m0.pool(k).taken());
    match b {
        Buffer::Pooled { kind, index, offset, len } => {
            if kind == k {
                let last = m0.pool(k).free.last();
                assert(m0.pool(k).refcount[index as int] > 0);
                assert(index != last);
                assert(m1.pool(k).refcount == m0.pool(k).refcount.update(last as int, 1));
                assert(m1.pool(kind).refcount[index as int] == m0.pool(kind).refcount[index as int]);
            }
            assert(m1.pool(kind).data == m0.pool(kind).data);
        },
        _ => {},
    }
}

/// Writing into one region leaves every buffer over another region as it was.
proof fn lemma_write_keeps(m: MemView, k: PoolKind, i: int, off: int, bytes: Seq<u8>, b: Buffer)
    requires
        valid_buffer(m, b),
        m.header.data.len() == m.header.capacity(),
        m.body.data.len() == m.body.capacity(),
        0 <= i < m.pool(k).capacity(),
        b is Pooled && b->Pooled_kind == k ==> b->Pooled_index != i,
    ensures
        valid_buffer(m.with_pool(k, m.pool(k).written(i, off, bytes)), b),
        buffer_bytes(m.with_pool(k, m.pool(k).written(i, off, bytes)), b) == buffer_bytes(m, b),
{
    let m1 = m.with_pool(k, m.pool(k).written(i, off, bytes));
    match b {
        Buffer::Pooled { kind, index, offset, len } => {
            assert(m1.pool(kind).refcount == m.pool(kind).refcount);
            assert(m1.pool(kind).data[index as int] == m.pool(kind).data[index as int]);
        },
        _ => {},
    }
}

} // verus!
