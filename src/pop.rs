use vstd::prelude::*;
use crate::queue::QDesc;
use crate::ring::SharedRingBuffer;

verus! {

/// Outcome of one poll of a pop.
#[derive(Debug, PartialEq, Eq)]
pub enum PopPoll {
    /// The ring is empty; poll again later.
    Pending,
    /// The bytes read, and whether the end of the stream was reached.
    Ready(Vec<u8>, bool),
}

/// The first `n` cells carry data bytes, and `bytes` are those bytes.
pub open spec fn data_cells(cells: Seq<u16>, n: nat, bytes: Seq<u8>) -> bool {
    &&& n <= cells.len()
    &&& bytes.len() == n
    &&& forall|i: int| 0 <= i < n ==> (#[trigger] cells[i]) < 256 && bytes[i] == cells[i] as u8
}

/// A pop of at most `size` bytes reads the data cells in front of the ring,
/// stops after `size` of them, at an end marker (which it consumes), or
/// where the ring runs dry; it waits while the ring is empty. A pop of
/// zero bytes on a ring that holds cells is ready with nothing read.
pub open spec fn pop_outcome(cells: Seq<u16>, size: nat, r: PopPoll, rest: Seq<u16>) -> bool {
    match r {
        PopPoll::Pending => cells.len() == 0 && rest == cells,
        PopPoll::Ready(bytes, eof) => {
            let n = bytes@.len();
            &&& n <= size
            &&& cells.len() > 0
            &&& data_cells(cells, n, bytes@)
            &&& if eof {
                n < size && n < cells.len() && cells[n as int] >= 256 && rest == cells.skip(n + 1 as int)
            } else {
                (n == size || n == cells.len()) && rest == cells.skip(n as int)
            }
        },
    }
}

/// A pending pop on a shared-memory pipe.
pub struct PopFuture {
    qd: QDesc,
    size: Option<usize>,
}

/// Bytes read by a pop that gives no bound.
pub const POP_SIZE_MAX: usize = 9216;

impl PopFuture {
    pub closed spec fn size_spec(&self) -> nat {
        match self.size {
            Some(n) => n as nat,
            None => POP_SIZE_MAX as nat,
        }
    }

    pub closed spec fn qd_spec(&self) -> QDesc {
        self.qd
    }

    pub closed spec fn size_field(&self) -> Option<usize> {
        self.size
    }

    /// A pop of at most `size` bytes, `POP_SIZE_MAX` where none is given.
    pub fn new(qd: QDesc, size: Option<usize>) -> (r: PopFuture)
        ensures
            r.qd_spec() == qd,
            r.size_field() == size,
            r.size_spec() == match size {
                Some(n) => n as nat,
                None => POP_SIZE_MAX as nat,
            },
    {
        PopFuture { qd, size }
    }

    pub fn get_qd(&self) -> (r: QDesc)
        ensures
            r == self.qd_spec(),
    {
        self.qd
    }

    /// Reads from `ring` as `pop_outcome` describes.
    pub fn poll(&self, ring: &mut SharedRingBuffer) -> (r: PopPoll)
        requires
            old(ring).wf(),
        ensures
            final(ring).wf(),
            final(ring).capacity() == old(ring).capacity(),
            pop_outcome(old(ring)@, self.size_spec(), r, final(ring)@),
    {
        let size: usize = match self.size {
            Some(n) => n,
            None => POP_SIZE_MAX,
        };
        if size == 0 {
            if ring.is_empty() {
                return PopPoll::Pending;
            }
            proof {
                assert(ring@.skip(0) =~= ring@);
            }
            return PopPoll::Ready(Vec::new(), false);
        }
        let ghost cells = ring@;
        let mut buf: Vec<u8> = Vec::new();
        let mut eof: bool = false;
        loop
            invariant_except_break
                ring.wf(),
                ring.capacity() == old(ring).capacity(),
                buf.len() < size,
                data_cells(cells, buf@.len(), buf@),
                ring@ == cells.skip(buf@.len() as int),
                !eof,
            ensures
                ring.wf(),
                ring.capacity() == old(ring).capacity(),
                buf.len() <= size,
                data_cells(cells, buf@.len(), buf@),
                eof ==> buf.len() < size && buf.len() < cells.len() && cells[buf.len() as int] >= 256
                    && ring@ == cells.skip(buf.len() + 1),
                !eof ==> (buf.len() == size || buf.len() == cells.len()) && ring@ == cells.skip(
                    buf.len() as int,
                ),
            decreases cells.len() - buf.len(),
        {
            match ring.try_dequeue() {
                Some(x) => {
                    proof {
                        assert(cells.skip(buf.len() as int)[0] == cells[buf.len() as int]);
                        assert(cells.skip(buf.len() as int).skip(1) =~= cells.skip(buf.len() + 1));
                    }
                    if x >= 256 {
                        eof = true;
                        break;
                    }
                    buf.push(x as u8);
                    if buf.len() >= size {
                        break;
                    }
                },
                None => {
                    break;
                },
            }
        }
        if buf.len() == 0 && !eof {
            assert(cells.len() == 0);
            assert(ring@ =~= cells);
            PopPoll::Pending
        } else {
            assert(cells.len() > 0);
            let r = PopPoll::Ready(buf, eof);
            assert(pop_outcome(cells, self.size_spec(), r, ring@));
            r
        }
    }
}

} // verus!
