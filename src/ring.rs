use vstd::prelude::*;
use std::collections::VecDeque;

verus! {

/// A bounded first-in first-out ring of 16-bit cells, the medium of a
/// shared-memory pipe. A cell below 256 carries one data byte; any other
/// cell marks the end of the stream.
pub struct SharedRingBuffer {
    cells: VecDeque<u16>,
    capacity: usize,
}

/// The cell that marks the end of a stream.
pub const EOF_CELL: u16 = 0x100;

impl View for SharedRingBuffer {
    type V = Seq<u16>;

    closed spec fn view(&self) -> Seq<u16> {
        self.cells@
    }
}

impl SharedRingBuffer {
    pub closed spec fn capacity(&self) -> nat {
        self.capacity as nat
    }

    pub closed spec fn wf(&self) -> bool {
        self.cells@.len() <= self.capacity
    }

    pub fn new(capacity: usize) -> (r: SharedRingBuffer)
        ensures
            r.wf(),
            r@ == Seq::<u16>::empty(),
            r.capacity() == capacity,
    {
        SharedRingBuffer { cells: VecDeque::new(), capacity }
    }

    pub fn is_empty(&self) -> (r: bool)
        ensures
            r == (self@.len() == 0),
    {
        self.cells.len() == 0
    }

    /// Appends a cell; false, with nothing changed, when the ring is full.
    pub fn try_enqueue(&mut self, x: u16) -> (r: bool)
        requires
            old(self).wf(),
        ensures
            final(self).wf(),
            final(self).capacity() == old(self).capacity(),
            r == (old(self)@.len() < old(self).capacity()),
            r ==> final(self)@ == old(self)@.push(x),
            !r ==> final(self)@ == old(self)@,
    {
        if self.cells.len() < self.capacity {
            self.cells.push_back(x);
            true
        } else {
            false
        }
    }

    /// Removes the oldest cell, if any.
    pub fn try_dequeue(&mut self) -> (r: Option<u16>)
        requires
            old(self).wf(),
        ensures
            final(self).wf(),
            final(self).capacity() == old(self).capacity(),
            old(self)@.len() == 0 ==> r is None && final(self)@ == old(self)@,
            old(self)@.len() > 0 ==> r == Some(old(self)@[0]) && final(self)@ == old(self)@.skip(1),
    {
        let r = self.cells.pop_front();
        proof {
            if old(self)@.len() > 0 {
                assert(self.cells@ =~= old(self)@.skip(1));
            }
        }
        r
    }
}

} // verus!
