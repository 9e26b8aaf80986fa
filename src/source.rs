//! A scripted byte source: a fixed sequence of canned reads, each delivered
//! at most as far as the reader's free space allows.
use vstd::prelude::*;

verus! {

/// Bytes left over in the canned reads from read `idx`, byte `off` on, up to
/// the end of the first one that is not used up.
pub open spec fn current_left(chunks: Seq<Seq<u8>>, idx: int, off: int) -> nat
    decreases chunks.len() - idx,
{
    if idx < 0 || idx >= chunks.len() {
        0
    } else if off < chunks[idx].len() {
        (chunks[idx].len() - off) as nat
    } else {
        current_left(chunks, idx + 1, 0)
    }
}

/// Replays canned reads in order. A read returns the rest of the current
/// canned read, cut to the space offered; what was cut comes with the next
/// read. Empty canned reads deliver nothing and are passed over; after the
/// last one every read returns no bytes, the end of the stream.
pub struct ScriptedSource {
    reads: Vec<Vec<u8>>,
    idx: usize,
    off: usize,
}

impl ScriptedSource {
    pub closed spec fn chunks(&self) -> Seq<Seq<u8>> {
        self.reads@.map_values(|v: Vec<u8>| v@)
    }

    pub closed spec fn wf(&self) -> bool {
        &&& self.idx <= self.reads@.len()
        &&& self.idx < self.reads@.len() ==> self.off <= self.reads@[self.idx as int]@.len()
        &&& self.idx == self.reads@.len() ==> self.off == 0
    }

    /// The bytes that later reads will deliver, in order.
    pub closed spec fn remaining(&self) -> Seq<u8> {
        self.chunks().skip(self.idx as int).flatten().skip(self.off as int)
    }

    /// How many bytes a read offering `max` bytes of space returns.
    pub closed spec fn next_read_len(&self, max: nat) -> nat {
        let left = current_left(self.chunks(), self.idx as int, self.off as int);
        if left < max {
            left
        } else {
            max
        }
    }

    /// A source that replays `reads`; all of their bytes remain to be read.
    pub fn new(reads: Vec<Vec<u8>>) -> (r: ScriptedSource)
        ensures
            r.wf(),
            r.remaining() == reads@.map_values(|v: Vec<u8>| v@).flatten(),
    {
        let r = ScriptedSource { reads, idx: 0, off: 0 };
        assert(r.chunks().skip(0) =~= r.chunks());
        assert(r.remaining() =~= r.chunks().flatten());
        r
    }

    /// Passes over used-up and empty canned reads.
    fn settle(&mut self)
        requires
            old(self).wf(),
        ensures
            final(self).wf(),
            final(self).reads == old(self).reads,
            final(self).remaining() == old(self).remaining(),
            forall|max: nat| #[trigger] final(self).next_read_len(max) == old(self).next_read_len(max),
            final(self).idx < final(self).reads@.len()
                ==> final(self).off < final(self).reads@[final(self).idx as int]@.len(),
    {
        while self.idx < self.reads.len() && self.off == self.reads[self.idx].len()
            invariant
                self.wf(),
                self.reads == old(self).reads,
                self.remaining() == old(self).remaining(),
                current_left(self.chunks(), self.idx as int, self.off as int) == current_left(
                    old(self).chunks(),
                    old(self).idx as int,
                    old(self).off as int,
                ),
            decreases self.reads@.len() - self.idx,
        {
            proof {
                let c = self.chunks();
                let i = self.idx as int;
                assert(c.skip(i).drop_first() =~= c.skip(i + 1));
                assert(c.skip(i)[0] == c[i]);
                assert(c.skip(i).flatten() == c[i].add(c.skip(i + 1).flatten()));
                assert(c.skip(i).flatten().skip(c[i].len() as int) =~= c.skip(i + 1).flatten());
                assert(c.skip(i + 1).flatten().skip(0) =~= c.skip(i + 1).flatten());
            }
            self.idx = self.idx + 1;
            self.off = 0;
        }
    }

    /// Reads at most `max` bytes.
    pub fn read(&mut self, max: usize) -> (r: Vec<u8>)
        requires
            old(self).wf(),
            max > 0,
        ensures
            final(self).wf(),
            r@.len() == old(self).next_read_len(max as nat),
            r@.len() <= max,
            r@.len() <= old(self).remaining().len(),
            r@ == old(self).remaining().take(r@.len() as int),
            final(self).remaining() == old(self).remaining().skip(r@.len() as int),
            r@.len() == 0 <==> old(self).remaining().len() == 0,
    {
        self.settle();
        assert(self.next_read_len(max as nat) == old(self).next_read_len(max as nat));
        if self.idx == self.reads.len() {
            proof {
                assert(self.chunks().skip(self.idx as int) =~= Seq::<Seq<u8>>::empty());
                assert(self.remaining() =~= Seq::<u8>::empty());
            }
            return Vec::new();
        }
        let ghost c = self.chunks();
        let ghost i = self.idx as int;
        let ghost before = self.remaining();
        let chunk = &self.reads[self.idx];
        let n = chunk.len();
        let left = n - self.off;
        assert(current_left(c, i, self.off as int) == left);
        let k = if left < max { left } else { max };
        let mut r: Vec<u8> = Vec::with_capacity(k);
        let mut j: usize = 0;
        while j < k
            invariant
                self.wf(),
                c == self.chunks(),
                0 <= i < c.len(),
                chunk@ == c[i],
                chunk@.len() == n,
                self.off + k <= n,
                0 <= j <= k,
                r@ == chunk@.subrange(self.off as int, self.off + j),
            decreases k - j,
        {
            r.push(chunk[self.off + j]);
            j = j + 1;
            assert(r@ =~= chunk@.subrange(self.off as int, self.off + j));
        }
        proof {
            assert(c.skip(i).drop_first() =~= c.skip(i + 1));
            assert(c.skip(i)[0] == c[i]);
            assert(c.skip(i).flatten() == c[i].add(c.skip(i + 1).flatten()));
            assert(r@ =~= before.take(k as int));
        }
        self.off = self.off + k;
        proof {
            assert(self.remaining() =~= before.skip(k as int));
        }
        r
    }
}

} // verus!
