//! A fixed-capacity byte arena holding bytes read but not yet consumed.
use vstd::prelude::*;
use vstd::slice::slice_subrange;

use crate::frame::{delim_free, delim_pos, lemma_delim_at, lemma_delim_none, DELIMITER};

verus! {

/// Bytes `[0, filled)` of `data` are pending; `[filled, data.len())` is free
/// space for the next read. The capacity never changes.
pub struct FrameBuffer {
    data: Vec<u8>,
    filled: usize,
}

impl View for FrameBuffer {
    type V = Seq<u8>;

    /// The pending bytes.
    closed spec fn view(&self) -> Seq<u8> {
        self.data@.take(self.filled as int)
    }
}

impl FrameBuffer {
    /// The fixed number of bytes the buffer can hold.
    pub closed spec fn capacity_spec(&self) -> nat {
        self.data@.len()
    }

    pub closed spec fn wf(&self) -> bool {
        &&& self.filled <= self.data@.len()
        &&& self.data@.len() > 0
        &&& self.data@.len() <= usize::MAX
    }

    /// The pending bytes fit the capacity, which fits a `usize`.
    pub proof fn lemma_bounds(&self)
        requires
            self.wf(),
        ensures
            0 < self.capacity_spec() <= usize::MAX,
            self@.len() <= self.capacity_spec(),
    {
    }

    /// An empty buffer of `capacity` bytes.
    pub fn new(capacity: usize) -> (r: FrameBuffer)
        requires
            capacity > 0,
        ensures
            r.wf(),
            r@ == Seq::<u8>::empty(),
            r.capacity_spec() == capacity,
    {
        let r = FrameBuffer { data: vec![0u8; capacity], filled: 0 };
        assert(r@ =~= Seq::<u8>::empty());
        r
    }

    pub fn capacity(&self) -> (r: usize)
        requires
            self.wf(),
        ensures
            r == self.capacity_spec(),
    {
        self.data.len()
    }

    /// Number of pending bytes.
    pub fn len(&self) -> (r: usize)
        requires
            self.wf(),
        ensures
            r == self@.len(),
    {
        self.filled
    }

    /// Size of the writable region `[filled, capacity)`.
    pub fn free_space(&self) -> (r: usize)
        requires
            self.wf(),
        ensures
            r == self.capacity_spec() - self@.len(),
    {
        self.data.len() - self.filled
    }

    /// Appends the bytes that a read delivered into the free region.
    pub fn record_write(&mut self, chunk: &[u8])
        requires
            old(self).wf(),
            old(self)@.len() + chunk@.len() <= old(self).capacity_spec(),
        ensures
            final(self).wf(),
            final(self)@ == old(self)@.add(chunk@),
            final(self).capacity_spec() == old(self).capacity_spec(),
    {
        let start = self.filled;
        let cap = self.data.len();
        let mut i: usize = 0;
        while i < chunk.len()
            invariant
                start == old(self).filled,
                start + chunk@.len() <= cap,
                self.data@.len() == cap,
                cap == old(self).data@.len(),
                self.filled == start,
                0 <= i <= chunk@.len(),
                forall|j: int| 0 <= j < start ==> self.data@[j] == old(self).data@[j],
                forall|j: int| 0 <= j < i ==> self.data@[start + j] == chunk@[j],
            decreases chunk@.len() - i,
        {
            self.data.set(start + i, chunk[i]);
            i = i + 1;
        }
        self.filled = start + chunk.len();
        assert(self@ =~= old(self)@.add(chunk@));
    }

    /// Index of the first delimiter among the pending bytes.
    pub fn scan_delimiter(&self) -> (r: Option<usize>)
        requires
            self.wf(),
        ensures
            match r {
                Some(i) => delim_pos(self@) == Some(i as nat),
                None => delim_pos(self@) == None::<nat>,
            },
    {
        let mut i: usize = 0;
        while i < self.filled
            invariant
                self.wf(),
                0 <= i <= self.filled,
                forall|j: int| 0 <= j < i ==> self.data@[j] != DELIMITER,
            decreases self.filled - i,
        {
            if self.data[i] == DELIMITER {
                proof {
                    assert(self@.take(i as int) =~= self.data@.take(i as int));
                    lemma_delim_at(self@, i as int);
                }
                return Some(i);
            }
            i = i + 1;
        }
        proof {
            assert(delim_free(self@));
            lemma_delim_none(self@);
        }
        None
    }

    /// Drops the first `past` pending bytes and moves the rest to the front.
    pub fn compact(&mut self, past: usize)
        requires
            old(self).wf(),
            past <= old(self)@.len(),
        ensures
            final(self).wf(),
            final(self)@ == old(self)@.subrange(past as int, old(self)@.len() as int),
            final(self).capacity_spec() == old(self).capacity_spec(),
    {
        let n = self.filled - past;
        let mut i: usize = 0;
        while i < n
            invariant
                self.wf(),
                self.filled == old(self).filled,
                n == old(self).filled - past,
                past <= old(self).filled,
                self.data@.len() == old(self).data@.len(),
                0 <= i <= n,
                forall|j: int| 0 <= j < i ==> self.data@[j] == old(self).data@[past + j],
                forall|j: int| i + past <= j < self.data@.len() ==> self.data@[j] == old(self).data@[j],
            decreases n - i,
        {
            let b = self.data[past + i];
            self.data.set(i, b);
            i = i + 1;
        }
        self.filled = n;
        assert(self@ =~= old(self)@.subrange(past as int, old(self)@.len() as int));
    }

    /// A copy of the first `end` pending bytes.
    pub fn copy_prefix(&self, end: usize) -> (r: Vec<u8>)
        requires
            self.wf(),
            end <= self@.len(),
        ensures
            r@ == self@.take(end as int),
    {
        let mut r: Vec<u8> = Vec::with_capacity(end);
        let mut i: usize = 0;
        while i < end
            invariant
                self.wf(),
                end <= self.filled,
                0 <= i <= end,
                r@ == self.data@.take(i as int),
            decreases end - i,
        {
            r.push(self.data[i]);
            i = i + 1;
            assert(r@ =~= self.data@.take(i as int));
        }
        assert(self@.take(end as int) =~= self.data@.take(end as int));
        r
    }

    /// A view of the first `end` pending bytes, valid while the buffer is not changed.
    pub fn prefix(&self, end: usize) -> (r: &[u8])
        requires
            self.wf(),
            end <= self@.len(),
        ensures
            r@ == self@.take(end as int),
    {
        let r = slice_subrange(self.data.as_slice(), 0, end);
        assert(r@ =~= self@.take(end as int));
        r
    }
}

} // verus!
