use vstd::prelude::*;
use crate::fail::Fail;

verus! {

/// Number of nonzero reference counts: the buffers in use.
pub open spec fn count_in_use(rc: Seq<u64>) -> nat
    decreases rc.len(),
{
    if rc.len() == 0 {
        0
    } else {
        count_in_use(rc.drop_last()) + if rc.last() > 0 { 1nat } else { 0nat }
    }
}

/// Sum of all reference counts.
pub open spec fn sum_refcounts(rc: Seq<u64>) -> nat
    decreases rc.len(),
{
    if rc.len() == 0 {
        0
    } else {
        sum_refcounts(rc.drop_last()) + rc.last() as nat
    }
}

proof fn lemma_count_in_use_update(rc: Seq<u64>, i: int, v: u64)
    requires
        0 <= i < rc.len(),
    ensures
        count_in_use(rc.update(i, v)) + (if rc[i] > 0 { 1int } else { 0int })
            == count_in_use(rc) + (if v > 0 { 1int } else { 0int }),
    decreases rc.len(),
{
    if i == rc.len() - 1 {
        assert(rc.update(i, v).drop_last() =~= rc.drop_last());
    } else {
        lemma_count_in_use_update(rc.drop_last(), i, v);
        assert(rc.update(i, v).drop_last() =~= rc.drop_last().update(i, v));
    }
}

proof fn lemma_sum_is_count(rc: Seq<u64>)
    requires
        forall|i: int| 0 <= i < rc.len() ==> rc[i] <= 1,
    ensures
        sum_refcounts(rc) == count_in_use(rc),
    decreases rc.len(),
{
    if rc.len() > 0 {
        lemma_sum_is_count(rc.drop_last());
    }
}

pub proof fn lemma_none_in_use(rc: Seq<u64>)
    requires
        forall|i: int| 0 <= i < rc.len() ==> #[trigger] rc[i] == 0,
    ensures
        count_in_use(rc) == 0,
    decreases rc.len(),
{
    if rc.len() > 0 {
        lemma_none_in_use(rc.drop_last());
    }
}

/// What a pool holds: one region per buffer, its reference count, and the
/// indices of the buffers that are free.
pub struct PoolView {
    pub buf_size: nat,
    pub data: Seq<Seq<u8>>,
    pub refcount: Seq<u64>,
    pub free: Seq<usize>,
}

impl PoolView {
    pub open spec fn capacity(self) -> nat {
        self.refcount.len()
    }

    /// The buffer at `i` is held by at least one handle.
    pub open spec fn in_use(self, i: int) -> bool {
        0 <= i < self.refcount.len() && self.refcount[i] > 0
    }

    /// Which buffers are free and how often each other one is held.
    pub open spec fn inventory(self) -> (Seq<u64>, Seq<usize>) {
        (self.refcount, self.free)
    }

    /// The pool after its most recently freed buffer is handed out.
    pub open spec fn taken(self) -> PoolView {
        PoolView {
            refcount: self.refcount.update(self.free.last() as int, 1),
            free: self.free.drop_last(),
            ..self
        }
    }

    /// The pool after one more handle to buffer `i` is made.
    pub open spec fn retained(self, i: int) -> PoolView {
        PoolView { refcount: self.refcount.update(i, (self.refcount[i] + 1) as u64), ..self }
    }

    /// The pool after one handle to buffer `i` is dropped.
    pub open spec fn released(self, i: int) -> PoolView {
        if self.refcount[i] == 1 {
            PoolView { refcount: self.refcount.update(i, 0), free: self.free.push(i as usize), ..self }
        } else {
            PoolView { refcount: self.refcount.update(i, (self.refcount[i] - 1) as u64), ..self }
        }
    }

    /// The pool after `bytes` are written into buffer `i` from `offset` on.
    pub open spec fn written(self, i: int, offset: int, bytes: Seq<u8>) -> PoolView {
        PoolView {
            data: self.data.update(
                i,
                self.data[i].take(offset) + bytes + self.data[i].skip(offset + bytes.len()),
            ),
            ..self
        }
    }
}

/// A fixed number of equally sized, reference-counted regions.
pub struct BufferPool {
    buf_size: usize,
    data: Vec<Vec<u8>>,
    refcount: Vec<u64>,
    free: Vec<usize>,
}

impl View for BufferPool {
    type V = PoolView;

    closed spec fn view(&self) -> PoolView {
        PoolView {
            buf_size: self.buf_size as nat,
            data: self.data@.map_values(|v: Vec<u8>| v@),
            refcount: self.refcount@,
            free: self.free@,
        }
    }
}

impl BufferPool {
    pub closed spec fn wf(&self) -> bool {
        &&& self.data.len() == self.refcount.len()
        &&& forall|i: int| 0 <= i < self.data.len() ==> (#[trigger] self.data[i]).len() == self.buf_size
        &&& forall|k: int|
            0 <= k < self.free.len() ==> (#[trigger] self.free[k]) < self.refcount.len()
                && self.refcount[self.free[k] as int] == 0
        &&& self.free@.no_duplicates()
        &&& count_in_use(self.refcount@) + self.free.len() == self.refcount.len()
    }

    proof fn lemma_view_wf(&self)
        requires
            self.wf(),
        ensures
            self@.data.len() == self@.capacity(),
            forall|i: int| 0 <= i < self@.capacity() ==> (#[trigger] self@.data[i]).len() == self@.buf_size,
            forall|k: int|
                0 <= k < self@.free.len() ==> (#[trigger] self@.free[k]) < self@.capacity()
                    && self@.refcount[self@.free[k] as int] == 0,
            count_in_use(self@.refcount) + self@.free.len() == self@.capacity(),
    {
        assert forall|i: int| 0 <= i < self@.capacity() implies (#[trigger] self@.data[i]).len()
            == self@.buf_size by {
            assert(self.data[i].len() == self.buf_size);
        }
    }

    /// A pool of `count` free buffers of `buf_size` zeroed bytes each.
    pub fn new(count: usize, buf_size: usize) -> (r: BufferPool)
        ensures
            r.wf(),
            r@.capacity() == count,
            r@.buf_size == buf_size,
            forall|i: int| 0 <= i < count ==> (#[trigger] r@.refcount[i]) == 0,
    {
        let mut data: Vec<Vec<u8>> = Vec::new();
        let mut refcount: Vec<u64> = Vec::new();
        let mut free: Vec<usize> = Vec::new();
        let mut i: usize = 0;
        while i < count
            invariant
                i <= count,
                data.len() == i,
                refcount.len() == i,
                free.len() == i,
                forall|j: int| 0 <= j < i ==> (#[trigger] data[j]).len() == buf_size,
                forall|j: int| 0 <= j < i ==> (#[trigger] refcount[j]) == 0,
                forall|k: int| 0 <= k < i ==> (#[trigger] free[k]) == k,
                count_in_use(refcount@) == 0,
            decreases count - i,
        {
            let region: Vec<u8> = vec![0u8; buf_size];
            data.push(region);
            let ghost prev = refcount@;
            refcount.push(0);
            assert(refcount@.drop_last() =~= prev);
            free.push(i);
            i = i + 1;
        }
        let r = BufferPool { buf_size, data, refcount, free };
        assert(r.free@.no_duplicates()) by {
            assert forall|a: int, b: int| 0 <= a < r.free.len() && 0 <= b < r.free.len() && a != b
                implies r.free@[a] != r.free@[b] by {
                assert(r.free[a] == a && r.free[b] == b);
            }
        }
        proof { r.lemma_view_wf(); }
        r
    }

    pub fn buf_size(&self) -> (r: usize)
        ensures
            r == self@.buf_size,
    {
        self.buf_size
    }

    /// Takes the most recently freed buffer; fails when none is free.
    pub fn take_free(&mut self) -> (r: Result<usize, Fail>)
        requires
            old(self).wf(),
        ensures
            final(self).wf(),
            old(self)@.free.len() == 0 ==> r == Err::<usize, Fail>(Fail::ResourceExhausted)
                && final(self)@ == old(self)@,
            old(self)@.free.len() > 0 ==> r == Ok::<usize, Fail>(old(self)@.free.last())
                && final(self)@ == old(self)@.taken(),
    {
        match self.free.pop() {
            None => Err(Fail::ResourceExhausted),
            Some(i) => {
                proof {
                    assert(old(self).free[old(self).free.len() - 1] == i);
                    lemma_count_in_use_update(self.refcount@, i as int, 1);
                    assert forall|a: int, b: int| 0 <= a < self.free.len() && 0 <= b < self.free.len() && a != b
                        implies self.free@[a] != self.free@[b] by {
                        assert(old(self).free@[a] == self.free@[a]);
                        assert(old(self).free@[b] == self.free@[b]);
                    }
                    assert forall|k: int| 0 <= k < self.free.len() implies self.free[k] != i by {
                        assert(old(self).free@[k] == self.free@[k]);
                        assert(old(self).free@[old(self).free.len() - 1] == i);
                    }
                }
                self.refcount.set(i, 1);
                proof {
                    assert(self@.refcount =~= old(self)@.refcount.update(i as int, 1));
                    assert(self@.free =~= old(self)@.free.drop_last());
                    assert(self@.data =~= old(self)@.data);
                }
                Ok(i)
            },
        }
    }

    /// Adds one handle to a buffer in use.
    pub fn retain(&mut self, i: usize) -> (r: Result<(), Fail>)
        requires
            old(self).wf(),
            old(self)@.in_use(i as int),
        ensures
            final(self).wf(),
            old(self)@.refcount[i as int] == u64::MAX ==> r == Err::<(), Fail>(Fail::ResourceExhausted)
                && final(self)@ == old(self)@,
            old(self)@.refcount[i as int] < u64::MAX ==> r == Ok::<(), Fail>(())
                && final(self)@ == old(self)@.retained(i as int),
    {
        let c = self.refcount[i];
        if c == u64::MAX {
            return Err(Fail::ResourceExhausted);
        }
        proof {
            lemma_count_in_use_update(self.refcount@, i as int, (c + 1) as u64);
        }
        self.refcount.set(i, c + 1);
        proof {
            assert(self@.refcount =~= old(self)@.refcount.update(i as int, (c + 1) as u64));
            assert(self@.data =~= old(self)@.data);
        }
        Ok(())
    }

    /// Drops one handle; the buffer goes back to the free list with the last.
    pub fn release(&mut self, i: usize)
        requires
            old(self).wf(),
            old(self)@.in_use(i as int),
        ensures
            final(self).wf(),
            final(self)@ == old(self)@.released(i as int),
    {
        let c = self.refcount[i];
        proof {
            lemma_count_in_use_update(self.refcount@, i as int, (c - 1) as u64);
        }
        self.refcount.set(i, c - 1);
        if c == 1 {
            proof {
                assert forall|k: int| 0 <= k < self.free.len() implies self.free[k] != i by {
                    assert(old(self).refcount[old(self).free[k] as int] == 0);
                }
            }
            self.free.push(i);
            proof {
                assert forall|a: int, b: int| 0 <= a < self.free.len() && 0 <= b < self.free.len() && a != b
                    implies self.free@[a] != self.free@[b] by {
                    if a < old(self).free.len() && b < old(self).free.len() {
                        assert(old(self).free@[a] == self.free@[a]);
                        assert(old(self).free@[b] == self.free@[b]);
                    } else if a < old(self).free.len() {
                        assert(old(self).free@[a] == self.free@[a]);
                    } else {
                        assert(old(self).free@[b] == self.free@[b]);
                    }
                }
            }
        }
        proof {
            assert(self@.data =~= old(self)@.data);
            if c == 1 {
                assert(self@.refcount =~= old(self)@.refcount.update(i as int, 0));
                assert(self@.free =~= old(self)@.free.push(i));
            } else {
                assert(self@.refcount =~= old(self)@.refcount.update(i as int, (c - 1) as u64));
                assert(self@.free =~= old(self)@.free);
            }
        }
    }

    /// Every buffer is either in use or on the free list, once.
    pub proof fn lemma_accounting(&self)
        requires
            self.wf(),
        ensures
            count_in_use(self@.refcount) + self@.free.len() == self@.capacity(),
            (forall|i: int| 0 <= i < self@.capacity() ==> #[trigger] self@.refcount[i] <= 1)
                ==> sum_refcounts(self@.refcount) + self@.free.len() == self@.capacity(),
            self@.data.len() == self@.capacity(),
            forall|i: int| 0 <= i < self@.capacity() ==> (#[trigger] self@.data[i]).len() == self@.buf_size,
            forall|k: int|
                0 <= k < self@.free.len() ==> (#[trigger] self@.free[k]) < self@.capacity()
                    && self@.refcount[self@.free[k] as int] == 0,
    {
        self.lemma_view_wf();
        if forall|i: int| 0 <= i < self@.capacity() ==> #[trigger] self@.refcount[i] <= 1 {
            lemma_sum_is_count(self@.refcount);
        }
    }

    /// Writes `bytes` into buffer `i` from `offset` on.
    pub fn write(&mut self, i: usize, offset: usize, bytes: &Vec<u8>)
        requires
            old(self).wf(),
            i < old(self)@.capacity(),
            offset + bytes@.len() <= old(self)@.buf_size,
        ensures
            final(self).wf(),
            final(self)@ == old(self)@.written(i as int, offset as int, bytes@),
    {
        let ghost region = self.data[i as int]@;
        assert(region.len() == self.buf_size);
        let n = bytes.len();
        let mut j: usize = 0;
        while j < n
            invariant
                n == bytes@.len(),
                j <= n,
                offset + n <= region.len(),
                region.len() == self.buf_size,
                region == old(self).data[i as int]@,
                self.buf_size == old(self).buf_size,
                self.refcount@ == old(self).refcount@,
                self.free@ == old(self).free@,
                self.data.len() == old(self).data.len(),
                i < self.data.len(),
                forall|k: int| 0 <= k < self.data.len() && k != i ==> #[trigger] self.data[k] == old(self).data[k],
                self.data[i as int]@ =~= region.take(offset as int) + bytes@.take(j as int) + region.skip(offset + j),
            decreases n - j,
        {
            self.data[i].set(offset + j, bytes[j]);
            j = j + 1;
        }
        proof {
            assert(bytes@.take(n as int) =~= bytes@);
            assert(self@.data =~= old(self)@.data.update(
                i as int,
                region.take(offset as int) + bytes@ + region.skip(offset + bytes@.len()),
            ));
            assert forall|k: int| 0 <= k < self.data.len() implies (#[trigger] self.data[k]).len()
                == self.buf_size by {
                if k != i {
                    assert(self.data[k] == old(self).data[k]);
                }
            }
        }
    }

    /// Copies `len` bytes of buffer `i` from `offset` on.
    pub fn read(&self, i: usize, offset: usize, len: usize) -> (r: Vec<u8>)
        requires
            self.wf(),
            i < self@.capacity(),
            offset + len <= self@.buf_size,
        ensures
            r@ == self@.data[i as int].subrange(offset as int, offset + len),
    {
        proof { self.lemma_view_wf(); }
        let mut out: Vec<u8> = Vec::new();
        let mut j: usize = 0;
        while j < len
            invariant
                self.wf(),
                i < self.data.len(),
                offset + len <= self.buf_size,
                j <= len,
                out@ =~= self@.data[i as int].subrange(offset as int, offset + j),
            decreases len - j,
        {
            out.push(self.data[i][offset + j]);
            j = j + 1;
        }
        out
    }
}


} // verus!
