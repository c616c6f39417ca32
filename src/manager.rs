use vstd::prelude::*;
use crate::fail::Fail;
use crate::memory::{BufferPool, PoolView};

verus! {

/// Which of the two pools a region belongs to.
#[derive(Clone, Copy, Debug, PartialEq, Eq, Structural)]
pub enum PoolKind {
    /// Small buffers sized for protocol headers.
    Header,
    /// Large buffers sized for a full payload.
    Body,
}

/// A handle to bytes: a window into a pooled region, or bytes owned by the
/// handle itself.
#[derive(Debug)]
pub enum Buffer {
    Pooled { kind: PoolKind, index: usize, offset: usize, len: usize },
    External(Vec<u8>),
}

/// One segment of a scatter-gather array.
#[derive(Debug)]
pub enum SgaSeg {
    /// A window into a region of the pool that the array's cookie names.
    Region { index: usize, offset: usize, len: usize },
    /// Bytes allocated by the user.
    Bytes(Vec<u8>),
}

/// A scatter-gather array: its segments, and the pool that owns them
/// (`None` for memory the user allocated).
#[derive(Debug)]
pub struct Sga {
    pub cookie: Option<PoolKind>,
    pub segs: Vec<SgaSeg>,
}

/// Both pools.
pub struct MemView {
    pub header: PoolView,
    pub body: PoolView,
}

impl MemView {
    pub open spec fn pool(self, k: PoolKind) -> PoolView {
        match k {
            PoolKind::Header => self.header,
            PoolKind::Body => self.body,
        }
    }

    pub open spec fn with_pool(self, k: PoolKind, p: PoolView) -> MemView {
        match k {
            PoolKind::Header => MemView { header: p, ..self },
            PoolKind::Body => MemView { body: p, ..self },
        }
    }

    /// The pool that a request of `size` bytes is served from.
    pub open spec fn pool_for(self, size: nat) -> PoolKind {
        if size <= self.header.buf_size {
            PoolKind::Header
        } else {
            PoolKind::Body
        }
    }
}

/// A region window that a live handle may read.
pub open spec fn valid_region(m: MemView, k: PoolKind, index: int, offset: int, len: int) -> bool {
    &&& m.pool(k).in_use(index)
    &&& 0 <= offset
    &&& 0 <= len
    &&& offset + len <= m.pool(k).buf_size
}

pub open spec fn region_bytes(m: MemView, k: PoolKind, index: int, offset: int, len: int) -> Seq<u8> {
    m.pool(k).data[index].subrange(offset, offset + len)
}

pub open spec fn valid_buffer(m: MemView, b: Buffer) -> bool {
    match b {
        Buffer::Pooled { kind, index, offset, len } => valid_region(m, kind, index as int, offset as int, len as int),
        Buffer::External(_) => true,
    }
}

/// The bytes that a buffer shows.
pub open spec fn buffer_bytes(m: MemView, b: Buffer) -> Seq<u8> {
    match b {
        Buffer::Pooled { kind, index, offset, len } => region_bytes(m, kind, index as int, offset as int, len as int),
        Buffer::External(v) => v@,
    }
}

/// Concatenation of the user-allocated segments.
pub open spec fn segs_bytes(segs: Seq<SgaSeg>) -> Seq<u8>
    decreases segs.len(),
{
    if segs.len() == 0 {
        Seq::empty()
    } else {
        segs_bytes(segs.drop_last()) + match segs.last() {
            SgaSeg::Bytes(v) => v@,
            SgaSeg::Region { .. } => Seq::empty(),
        }
    }
}

pub open spec fn valid_sga(m: MemView, sga: Sga) -> bool {
    match sga.cookie {
        Some(k) => sga.segs.len() == 1 && match sga.segs[0] {
            SgaSeg::Region { index, offset, len } => valid_region(m, k, index as int, offset as int, len as int),
            SgaSeg::Bytes(_) => false,
        },
        None => forall|i: int| 0 <= i < sga.segs.len() ==> (#[trigger] sga.segs[i]) is Bytes,
    }
}

/// The bytes that a scatter-gather array shows.
pub open spec fn sga_bytes(m: MemView, sga: Sga) -> Seq<u8> {
    match sga.cookie {
        Some(k) => match sga.segs[0] {
            SgaSeg::Region { index, offset, len } => region_bytes(m, k, index as int, offset as int, len as int),
            SgaSeg::Bytes(v) => v@,
        },
        None => segs_bytes(sga.segs@),
    }
}

/// What `alloc_sga` does: a one-segment array over a fresh region of the
/// pool that fits `size`.
pub open spec fn alloc_sga_effect(m0: MemView, size: nat, m1: MemView, r: Result<Sga, Fail>) -> bool {
    if size > m0.body.buf_size {
        r == Err::<Sga, Fail>(Fail::InvalidArgument) && m1 == m0
    } else if m0.pool(m0.pool_for(size)).free.len() == 0 {
        r == Err::<Sga, Fail>(Fail::ResourceExhausted) && m1 == m0
    } else {
        let k = m0.pool_for(size);
        let i = m0.pool(k).free.last();
        &&& r is Ok
        &&& r->Ok_0.cookie == Some(k)
        &&& r->Ok_0.segs@ == seq![SgaSeg::Region { index: i, offset: 0, len: size as usize }]
        &&& m1 == m0.with_pool(k, m0.pool(k).taken())
    }
}

/// What `free_sga` does: the region of a pooled array loses one handle.
pub open spec fn free_sga_effect(m1: MemView, sga: Sga, m2: MemView) -> bool {
    match sga.cookie {
        Some(k) => match sga.segs[0] {
            SgaSeg::Region { index, .. } => m2 == m1.with_pool(k, m1.pool(k).released(index as int)),
            SgaSeg::Bytes(_) => m2 == m1,
        },
        None => m2 == m1,
    }
}

/// What `into_sga` does: a pooled buffer keeps its region, without a copy;
/// external bytes are copied into a fresh region of the pool that fits
/// them, which fails only when they fit no buffer or that pool is empty.
pub open spec fn into_sga_post(m0: MemView, buf: Buffer, m1: MemView, r: Result<Sga, Fail>) -> bool {
    &&& r is Ok ==> valid_sga(m1, r->Ok_0) && sga_bytes(m1, r->Ok_0) == buffer_bytes(m0, buf)
    &&& match buf {
        Buffer::Pooled { kind, index, offset, len } => m1 == m0 && r is Ok && r->Ok_0.cookie == Some(kind)
            && r->Ok_0.segs@ == seq![SgaSeg::Region { index, offset, len }],
        Buffer::External(v) => {
            &&& v@.len() > m0.body.buf_size ==> r == Err::<Sga, Fail>(Fail::InvalidArgument)
            &&& v@.len() <= m0.body.buf_size ==> (r is Err <==> m0.pool(m0.pool_for(v@.len())).free.len() == 0)
            &&& r is Err ==> r == Err::<Sga, Fail>(Fail::InvalidArgument) || r == Err::<Sga, Fail>(
                Fail::ResourceExhausted,
            )
            &&& r is Err ==> m1 == m0
        },
    }
}

/// What `clone_sga` does: a pooled array gives a buffer on its own region,
/// whose reference count grows by one; user bytes are copied into an
/// external buffer.
pub open spec fn clone_sga_post(m0: MemView, sga: Sga, m1: MemView, r: Result<Buffer, Fail>) -> bool {
    &&& r is Ok ==> valid_buffer(m1, r->Ok_0) && buffer_bytes(m1, r->Ok_0) == sga_bytes(m0, sga)
    &&& match sga.cookie {
        Some(k) => {
            let index = sga.segs[0]->Region_index;
            &&& m0.pool(k).refcount[index as int] == u64::MAX ==> r == Err::<Buffer, Fail>(Fail::ResourceExhausted)
                && m1 == m0
            &&& m0.pool(k).refcount[index as int] < u64::MAX ==> r == Ok::<Buffer, Fail>(Buffer::Pooled {
                kind: k,
                index,
                offset: sga.segs[0]->Region_offset,
                len: sga.segs[0]->Region_len,
            }) && m1 == m0.with_pool(k, m0.pool(k).retained(index as int))
        },
        None => r is Ok && r->Ok_0 is External && m1 == m0,
    }
}

/// The two pools that back every buffer of the stack.
pub struct MemoryManager {
    header: BufferPool,
    body: BufferPool,
}

/// Smallest frame payload on the wire; shorter frames are padded with zeros.
pub const MIN_PAYLOAD_SIZE: usize = 46;

impl View for MemoryManager {
    type V = MemView;

    closed spec fn view(&self) -> MemView {
        MemView { header: self.header@, body: self.body@ }
    }
}

impl MemoryManager {
    pub closed spec fn wf(&self) -> bool {
        &&& self.header.wf()
        &&& self.body.wf()
        &&& MIN_PAYLOAD_SIZE <= self.header@.buf_size <= self.body@.buf_size
    }

    /// Two pools of free, zeroed buffers.
    pub fn new(header_count: usize, header_size: usize, body_count: usize, body_size: usize) -> (r: MemoryManager)
        requires
            MIN_PAYLOAD_SIZE <= header_size <= body_size,
        ensures
            r.wf(),
            r@.header.capacity() == header_count,
            r@.header.buf_size == header_size,
            r@.body.capacity() == body_count,
            r@.body.buf_size == body_size,
            r@.header.free.len() == header_count,
            r@.body.free.len() == body_count,
    {
        let header = BufferPool::new(header_count, header_size);
        let body = BufferPool::new(body_count, body_size);
        proof {
            header.lemma_accounting();
            body.lemma_accounting();
            crate::memory::lemma_none_in_use(header@.refcount);
            crate::memory::lemma_none_in_use(body@.refcount);
        }
        MemoryManager { header, body }
    }

    pub proof fn lemma_wf(&self)
        requires
            self.wf(),
        ensures
            MIN_PAYLOAD_SIZE <= self@.header.buf_size <= self@.body.buf_size,
            self@.header.data.len() == self@.header.capacity(),
            self@.body.data.len() == self@.body.capacity(),
            forall|i: int| 0 <= i < self@.header.capacity() ==> (#[trigger] self@.header.data[i]).len() == self@.header.buf_size,
            forall|i: int| 0 <= i < self@.body.capacity() ==> (#[trigger] self@.body.data[i]).len() == self@.body.buf_size,
    {
        self.header.lemma_accounting();
        self.body.lemma_accounting();
    }

    /// The most recently freed region of each pool is unused.
    pub proof fn lemma_free_unused(&self)
        requires
            self.wf(),
        ensures
            self@.header.free.len() > 0 ==> self@.header.refcount[self@.header.free.last() as int] == 0
                && self@.header.free.last() < self@.header.capacity(),
            self@.body.free.len() > 0 ==> self@.body.refcount[self@.body.free.last() as int] == 0
                && self@.body.free.last() < self@.body.capacity(),
    {
        self.header.lemma_accounting();
        self.body.lemma_accounting();
        if self@.header.free.len() > 0 {
            assert(self@.header.free[self@.header.free.len() - 1] == self@.header.free.last());
        }
        if self@.body.free.len() > 0 {
            assert(self@.body.free[self@.body.free.len() - 1] == self@.body.free.last());
        }
    }

    pub fn header_size(&self) -> (r: usize)
        ensures
            r == self@.header.buf_size,
    {
        self.header.buf_size()
    }

    pub fn body_size(&self) -> (r: usize)
        ensures
            r == self@.body.buf_size,
    {
        self.body.buf_size()
    }

    pub(crate) fn take_from(&mut self, k: PoolKind) -> (r: Result<usize, Fail>)
        requires
            old(self).wf(),
        ensures
            final(self).wf(),
            old(self)@.pool(k).free.len() == 0 ==> r == Err::<usize, Fail>(Fail::ResourceExhausted)
                && final(self)@ == old(self)@,
            old(self)@.pool(k).free.len() > 0 ==> r == Ok::<usize, Fail>(old(self)@.pool(k).free.last())
                && final(self)@ == old(self)@.with_pool(k, old(self)@.pool(k).taken()),
    {
        match k {
            PoolKind::Header => self.header.take_free(),
            PoolKind::Body => self.body.take_free(),
        }
    }

    pub(crate) fn release_region(&mut self, k: PoolKind, i: usize)
        requires
            old(self).wf(),
            old(self)@.pool(k).in_use(i as int),
        ensures
            final(self).wf(),
            final(self)@ == old(self)@.with_pool(k, old(self)@.pool(k).released(i as int)),
    {
        match k {
            PoolKind::Header => self.header.release(i),
            PoolKind::Body => self.body.release(i),
        }
    }

    pub(crate) fn write_region(&mut self, k: PoolKind, i: usize, offset: usize, bytes: &Vec<u8>)
        requires
            old(self).wf(),
            i < old(self)@.pool(k).capacity(),
            offset + bytes@.len() <= old(self)@.pool(k).buf_size,
        ensures
            final(self).wf(),
            final(self)@ == old(self)@.with_pool(k, old(self)@.pool(k).written(i as int, offset as int, bytes@)),
    {
        match k {
            PoolKind::Header => self.header.write(i, offset, bytes),
            PoolKind::Body => self.body.write(i, offset, bytes),
        }
    }

    pub(crate) fn read_region(&self, k: PoolKind, i: usize, offset: usize, len: usize) -> (r: Vec<u8>)
        requires
            self.wf(),
            i < self@.pool(k).capacity(),
            offset + len <= self@.pool(k).buf_size,
        ensures
            r@ == region_bytes(self@, k, i as int, offset as int, len as int),
    {
        match k {
            PoolKind::Header => self.header.read(i, offset, len),
            PoolKind::Body => self.body.read(i, offset, len),
        }
    }

    /// A whole header-pool buffer.
    pub fn alloc_header(&mut self) -> (r: Result<Buffer, Fail>)
        requires
            old(self).wf(),
        ensures
            final(self).wf(),
            old(self)@.header.free.len() == 0 ==> r == Err::<Buffer, Fail>(Fail::ResourceExhausted)
                && final(self)@ == old(self)@,
            old(self)@.header.free.len() > 0 ==> r == Ok::<Buffer, Fail>(Buffer::Pooled {
                kind: PoolKind::Header,
                index: old(self)@.header.free.last(),
                offset: 0,
                len: old(self)@.header.buf_size as usize,
            }) && final(self)@ == old(self)@.with_pool(PoolKind::Header, old(self)@.header.taken()),
    {
        let len = self.header.buf_size();
        match self.take_from(PoolKind::Header) {
            Ok(index) => Ok(Buffer::Pooled { kind: PoolKind::Header, index, offset: 0, len }),
            Err(e) => Err(e),
        }
    }

    /// A whole body-pool buffer.
    pub fn alloc_body(&mut self) -> (r: Result<Buffer, Fail>)
        requires
            old(self).wf(),
        ensures
            final(self).wf(),
            old(self)@.body.free.len() == 0 ==> r == Err::<Buffer, Fail>(Fail::ResourceExhausted)
                && final(self)@ == old(self)@,
            old(self)@.body.free.len() > 0 ==> r == Ok::<Buffer, Fail>(Buffer::Pooled {
                kind: PoolKind::Body,
                index: old(self)@.body.free.last(),
                offset: 0,
                len: old(self)@.body.buf_size as usize,
            }) && final(self)@ == old(self)@.with_pool(PoolKind::Body, old(self)@.body.taken()),
    {
        let len = self.body.buf_size();
        match self.take_from(PoolKind::Body) {
            Ok(index) => Ok(Buffer::Pooled { kind: PoolKind::Body, index, offset: 0, len }),
            Err(e) => Err(e),
        }
    }

    /// Drops a buffer handle; a pooled region loses one reference.
    pub fn release_buffer(&mut self, b: Buffer)
        requires
            old(self).wf(),
            valid_buffer(old(self)@, b),
        ensures
            final(self).wf(),
            match b {
                Buffer::Pooled { kind, index, .. } => final(self)@ == old(self)@.with_pool(
                    kind,
                    old(self)@.pool(kind).released(index as int),
                ),
                Buffer::External(_) => final(self)@ == old(self)@,
            },
    {
        match b {
            Buffer::Pooled { kind, index, .. } => self.release_region(kind, index),
            Buffer::External(_) => {},
        }
    }

    /// A one-segment array over a fresh region that holds `size` bytes.
    pub fn alloc_sga(&mut self, size: usize) -> (r: Result<Sga, Fail>)
        requires
            old(self).wf(),
        ensures
            final(self).wf(),
            alloc_sga_effect(old(self)@, size as nat, final(self)@, r),
            r is Ok ==> valid_sga(final(self)@, r->Ok_0) && sga_bytes(final(self)@, r->Ok_0).len() == size,
    {
        if size > self.body.buf_size() {
            return Err(Fail::InvalidArgument);
        }
        let k = if size <= self.header.buf_size() { PoolKind::Header } else { PoolKind::Body };
        match self.take_from(k) {
            Err(e) => Err(e),
            Ok(index) => {
                let mut segs: Vec<SgaSeg> = Vec::new();
                segs.push(SgaSeg::Region { index, offset: 0, len: size });
                let sga = Sga { cookie: Some(k), segs };
                proof {
                    self.lemma_wf();
                    assert(sga.segs@ =~= seq![SgaSeg::Region { index, offset: 0, len: size }]);
                    old(self).lemma_wf();
                    old(self).header.lemma_accounting();
                    old(self).body.lemma_accounting();
                    let last = old(self)@.pool(k).free.len() - 1;
                    assert(old(self)@.pool(k).free[last] == index);
                    assert(index < old(self)@.pool(k).capacity());
                    assert(self@.pool(k).refcount[index as int] == 1);
                    assert(size <= self@.pool(k).buf_size);
                    assert(self@.pool(k).data[index as int].len() == self@.pool(k).buf_size);
                    assert(sga.segs[0] == SgaSeg::Region { index, offset: 0, len: size });
                }
                Ok(sga)
            },
        }
    }

    /// Gives back a scatter-gather array; a pooled region loses one reference.
    pub fn free_sga(&mut self, sga: Sga)
        requires
            old(self).wf(),
            valid_sga(old(self)@, sga),
        ensures
            final(self).wf(),
            free_sga_effect(old(self)@, sga, final(self)@),
    {
        match sga.cookie {
            Some(k) => {
                match &sga.segs[0] {
                    SgaSeg::Region { index, .. } => self.release_region(k, *index),
                    SgaSeg::Bytes(_) => {},
                }
            },
            None => {},
        }
    }

    /// Hands a buffer to the user. A pooled buffer keeps its region, without
    /// a copy; external bytes are copied into a fresh region.
    pub fn into_sga(&mut self, buf: Buffer) -> (r: Result<Sga, Fail>)
        requires
            old(self).wf(),
            valid_buffer(old(self)@, buf),
        ensures
            final(self).wf(),
            into_sga_post(old(self)@, buf, final(self)@, r),
    {
        match buf {
            Buffer::Pooled { kind, index, offset, len } => {
                let mut segs: Vec<SgaSeg> = Vec::new();
                segs.push(SgaSeg::Region { index, offset, len });
                proof {
                    assert(segs@ =~= seq![SgaSeg::Region { index, offset, len }]);
                }
                Ok(Sga { cookie: Some(kind), segs })
            },
            Buffer::External(bytes) => {
                let n = bytes.len();
                match self.alloc_sga(n) {
                    Err(e) => Err(e),
                    Ok(sga) => {
                        let k = if n <= self.header.buf_size() { PoolKind::Header } else { PoolKind::Body };
                        let index = self.region_index(&sga);
                        proof { self.lemma_wf(); }
                        self.write_region(k, index, 0, &bytes);
                        proof {
                            self.lemma_wf();
                            assert(region_bytes(self@, k, index as int, 0, n as int) =~= bytes@);
                        }
                        Ok(sga)
                    },
                }
            },
        }
    }

    /// The region index of a pooled one-segment array.
    fn region_index(&self, sga: &Sga) -> (r: usize)
        requires
            sga.cookie is Some,
            sga.segs.len() == 1,
            sga.segs[0] is Region,
        ensures
            r == sga.segs[0]->Region_index,
    {
        match &sga.segs[0] {
            SgaSeg::Region { index, .. } => *index,
            SgaSeg::Bytes(_) => 0,
        }
    }

    /// Takes a user's array onto the transmit path. A pooled array shares
    /// its region (one more reference); user bytes are copied into an
    /// external buffer.
    pub fn clone_sga(&mut self, sga: &Sga) -> (r: Result<Buffer, Fail>)
        requires
            old(self).wf(),
            valid_sga(old(self)@, *sga),
        ensures
            final(self).wf(),
            clone_sga_post(old(self)@, *sga, final(self)@, r),
    {
        match sga.cookie {
            Some(k) => {
                let (index, offset, len) = match &sga.segs[0] {
                    SgaSeg::Region { index, offset, len } => (*index, *offset, *len),
                    SgaSeg::Bytes(_) => (0, 0, 0),
                };
                let res = match k {
                    PoolKind::Header => self.header.retain(index),
                    PoolKind::Body => self.body.retain(index),
                };
                match res {
                    Err(e) => Err(e),
                    Ok(()) => Ok(Buffer::Pooled { kind: k, index, offset, len }),
                }
            },
            None => {
                let out = concat_segs(&sga.segs);
                Ok(Buffer::External(out))
            },
        }
    }
}

impl MemoryManager {
    /// Copies out the bytes that a buffer shows.
    pub fn buffer_to_vec(&self, b: &Buffer) -> (r: Vec<u8>)
        requires
            self.wf(),
            valid_buffer(self@, *b),
        ensures
            r@ == buffer_bytes(self@, *b),
    {
        proof { self.lemma_wf(); }
        match b {
            Buffer::Pooled { kind, index, offset, len } => self.read_region(*kind, *index, *offset, *len),
            Buffer::External(v) => copy_bytes(v),
        }
    }

    /// Copies out the bytes that a scatter-gather array shows.
    pub fn sga_to_vec(&self, sga: &Sga) -> (r: Vec<u8>)
        requires
            self.wf(),
            valid_sga(self@, *sga),
        ensures
            r@ == sga_bytes(self@, *sga),
    {
        proof { self.lemma_wf(); }
        match sga.cookie {
            Some(k) => match &sga.segs[0] {
                SgaSeg::Region { index, offset, len } => self.read_region(k, *index, *offset, *len),
                SgaSeg::Bytes(v) => copy_bytes(v),
            },
            None => concat_segs(&sga.segs),
        }
    }
}

fn copy_bytes(v: &Vec<u8>) -> (r: Vec<u8>)
    ensures
        r@ == v@,
{
    let mut out: Vec<u8> = Vec::new();
    let mut j: usize = 0;
    while j < v.len()
        invariant
            j <= v.len(),
            out@ =~= v@.take(j as int),
        decreases v.len() - j,
    {
        out.push(v[j]);
        j = j + 1;
    }
    out
}

fn concat_segs(segs: &Vec<SgaSeg>) -> (r: Vec<u8>)
    ensures
        r@ == segs_bytes(segs@),
{
    let mut out: Vec<u8> = Vec::new();
    let mut i: usize = 0;
    while i < segs.len()
        invariant
            i <= segs.len(),
            out@ == segs_bytes(segs@.take(i as int)),
        decreases segs.len() - i,
    {
        assert(segs@.take(i + 1).drop_last() =~= segs@.take(i as int));
        match &segs[i] {
            SgaSeg::Bytes(v) => {
                let mut j: usize = 0;
                let ghost start = out@;
                while j < v.len()
                    invariant
                        j <= v.len(),
                        out@ =~= start + v@.take(j as int),
                    decreases v.len() - j,
                {
                    out.push(v[j]);
                    j = j + 1;
                }
                assert(v@.take(v.len() as int) =~= v@);
            },
            SgaSeg::Region { .. } => {},
        }
        i = i + 1;
    }
    assert(segs@.take(segs.len() as int) =~= segs@);
    out
}

/// The pool's accounting: every buffer is in use or free, and where no
/// buffer is shared the reference counts and the free list add up to the
/// capacity.
pub proof fn lemma_pool_accounting(m: &MemoryManager, k: PoolKind)
    requires
        m.wf(),
    ensures
        crate::memory::count_in_use(m@.pool(k).refcount) + m@.pool(k).free.len() == m@.pool(k).capacity(),
        (forall|i: int| 0 <= i < m@.pool(k).capacity() ==> #[trigger] m@.pool(k).refcount[i] <= 1)
            ==> crate::memory::sum_refcounts(m@.pool(k).refcount) + m@.pool(k).free.len()
            == m@.pool(k).capacity(),
{
    m.header.lemma_accounting();
    m.body.lemma_accounting();
}

/// Allocating an array and freeing it leaves both pools as they were.
pub proof fn lemma_alloc_free_identity(
    m0: &MemoryManager,
    size: nat,
    m1: MemView,
    r: Result<Sga, Fail>,
    m2: MemView,
)
    requires
        m0.wf(),
        alloc_sga_effect(m0@, size, m1, r),
        r is Ok,
        free_sga_effect(m1, r->Ok_0, m2),
    ensures
        m2 == m0@,
        m2.header.inventory() == m0@.header.inventory(),
        m2.body.inventory() == m0@.body.inventory(),
{
    m0.header.lemma_accounting();
    m0.body.lemma_accounting();
    let k = m0@.pool_for(size);
    let p = m0@.pool(k);
    let i = p.free.last() as int;
    assert(p.refcount[i] == 0);
    assert(p.taken().released(i).refcount =~= p.refcount);
    assert(p.taken().released(i).free =~= p.free);
    assert(p.taken().released(i) == p);
    assert(r->Ok_0.segs@[0] == SgaSeg::Region { index: i as usize, offset: 0, len: size as usize });
}

/// An array taken onto the transmit path and handed back shows the same
/// bytes; a pooled one comes back as the same region, without a copy.
pub proof fn lemma_clone_into_round_trip(
    m0: MemView,
    sga: Sga,
    m1: MemView,
    b: Result<Buffer, Fail>,
    m2: MemView,
    out: Result<Sga, Fail>,
)
    requires
        valid_sga(m0, sga),
        clone_sga_post(m0, sga, m1, b),
        b is Ok,
        into_sga_post(m1, b->Ok_0, m2, out),
        out is Ok,
    ensures
        sga_bytes(m2, out->Ok_0) == sga_bytes(m0, sga),
        sga.cookie is Some ==> out->Ok_0.cookie == sga.cookie && out->Ok_0.segs@ == sga.segs@ && m2 == m1,
{
    if sga.cookie is Some {
        assert(sga.segs@ =~= seq![sga.segs[0]]);
    }
}

} // verus!
