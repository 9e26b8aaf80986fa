//! The framing state machine: one synchronous object that decides, for each
//! request of the next frame, whether a frame is ready, a read is needed, or
//! the sequence has ended. It performs no I/O; a driver performs the reads it
//! asks for and hands back what they delivered.
use vstd::prelude::*;

use crate::buffer::FrameBuffer;
use crate::frame::{delim_pos, lemma_delim_pos};

verus! {

/// Capacity of the frame buffer when none is given.
pub const DEFAULT_CAPACITY: usize = 1024;

/// Fatal conditions that end a sequence of frames.
#[derive(Clone, Copy, Debug, PartialEq, Eq, Structural)]
pub enum FrameError {
    /// The byte source failed.
    Transport,
    /// No delimiter arrived before the buffer filled up.
    FrameTooLarge,
    /// The codec rejected the bytes of a frame.
    MalformedFrame,
}

/// What the framer decided on a request for the next frame (owned mode).
#[derive(Debug)]
pub enum Step {
    /// A complete frame, without its delimiter, copied out of the buffer.
    Frame(Vec<u8>),
    /// No complete frame is pending: read at most this many bytes (never 0)
    /// and hand them to `complete_read`.
    NeedRead(usize),
    /// The stream ended; an unterminated tail, if any, was dropped.
    Closed,
    /// The buffer is full and holds no delimiter.
    FrameTooLarge,
}

/// What the framer decided on a request for the next frame (lending mode).
#[derive(Clone, Copy, Debug, PartialEq, Eq, Structural)]
pub enum LendStep {
    /// A complete frame of this many bytes is lent out; `lent` shows it.
    Frame(usize),
    /// As `Step::NeedRead`.
    NeedRead(usize),
    /// As `Step::Closed`.
    Closed,
    /// As `Step::FrameTooLarge`.
    FrameTooLarge,
}

/// What a request for the next frame finds, before either mode acts on it.
enum Decision {
    /// A complete frame occupies the first this many pending bytes.
    FrameAt(usize),
    NeedRead(usize),
    Closed,
    FrameTooLarge,
}

/// The framing state: a buffer of pending bytes, the length of a frame still
/// lent out (plus its delimiter), and whether the source has closed.
pub struct Framer {
    buf: FrameBuffer,
    skip: usize,
    closed: bool,
}

impl Framer {
    pub closed spec fn wf(&self) -> bool {
        &&& self.buf.wf()
        &&& self.skip <= self.buf@.len()
    }

    pub closed spec fn capacity_spec(&self) -> nat {
        self.buf.capacity_spec()
    }

    /// Bytes received and not yet handed out as part of a frame.
    pub closed spec fn pending(&self) -> Seq<u8> {
        self.buf@.subrange(self.skip as int, self.buf@.len() as int)
    }

    /// Whether the byte source has reported end of stream.
    pub closed spec fn closed_spec(&self) -> bool {
        self.closed
    }

    /// The frame lent out by the last `lend_step`, until the next request.
    pub closed spec fn lent_spec(&self) -> Option<Seq<u8>> {
        if self.skip > 0 {
            Some(self.buf@.take(self.skip - 1))
        } else {
            None
        }
    }

    /// The pending bytes fit the buffer, whose capacity is positive.
    pub proof fn lemma_bounds(&self)
        requires
            self.wf(),
        ensures
            0 < self.capacity_spec() <= usize::MAX,
            self.pending().len() <= self.capacity_spec(),
    {
        self.buf.lemma_bounds();
    }

    /// A framer with an empty buffer of `capacity` bytes.
    pub fn with_capacity(capacity: usize) -> (r: Framer)
        requires
            capacity > 0,
        ensures
            r.wf(),
            r.capacity_spec() == capacity,
            r.pending() == Seq::<u8>::empty(),
            !r.closed_spec(),
            r.lent_spec() is None,
    {
        let r = Framer { buf: FrameBuffer::new(capacity), skip: 0, closed: false };
        assert(r.pending() =~= Seq::<u8>::empty());
        r
    }

    /// A framer with a buffer of `DEFAULT_CAPACITY` bytes.
    pub fn new() -> (r: Framer)
        ensures
            r.wf(),
            r.capacity_spec() == DEFAULT_CAPACITY,
            r.pending() == Seq::<u8>::empty(),
            !r.closed_spec(),
            r.lent_spec() is None,
    {
        Framer::with_capacity(DEFAULT_CAPACITY)
    }

    pub fn capacity(&self) -> (r: usize)
        requires
            self.wf(),
        ensures
            r == self.capacity_spec(),
    {
        self.buf.capacity()
    }

    pub fn is_closed(&self) -> (r: bool)
        ensures
            r == self.closed_spec(),
    {
        self.closed
    }

    /// Number of pending bytes.
    pub fn pending_len(&self) -> (r: usize)
        requires
            self.wf(),
        ensures
            r == self.pending().len(),
    {
        self.buf.len() - self.skip
    }

    /// Takes back a lent frame and its delimiter, so the buffer holds exactly
    /// the pending bytes.
    fn release(&mut self)
        requires
            old(self).wf(),
        ensures
            final(self).wf(),
            final(self).skip == 0,
            final(self).buf@ == old(self).pending(),
            final(self).pending() == old(self).pending(),
            final(self).closed == old(self).closed,
            final(self).capacity_spec() == old(self).capacity_spec(),
    {
        if self.skip > 0 {
            self.buf.compact(self.skip);
            self.skip = 0;
        }
        assert(self.pending() =~= self.buf@);
    }

    /// Decides on a request for the next frame, leaving a found frame's bytes
    /// in place; shared by both modes. On `FrameAt(i)` the frame is `[0, i)`.
    fn decide(&mut self) -> (r: Decision)
        requires
            old(self).wf(),
        ensures
            final(self).wf(),
            final(self).skip == 0,
            final(self).buf@ == old(self).pending(),
            final(self).closed == old(self).closed,
            final(self).capacity_spec() == old(self).capacity_spec(),
            match r {
                Decision::FrameAt(i) => delim_pos(old(self).pending()) == Some(i as nat) && i
                    < final(self).buf@.len(),
                Decision::Closed => delim_pos(old(self).pending()) is None && old(self).closed
                    && old(self).pending().len() < old(self).capacity_spec(),
                Decision::FrameTooLarge => delim_pos(old(self).pending()) is None && old(
                    self,
                ).pending().len() == old(self).capacity_spec(),
                Decision::NeedRead(k) => delim_pos(old(self).pending()) is None && !old(self).closed
                    && old(self).pending().len() < old(self).capacity_spec() && k == old(
                    self,
                ).capacity_spec() - old(self).pending().len(),
            },
    {
        self.release();
        proof {
            lemma_delim_pos(self.buf@);
            self.buf.lemma_bounds();
        }
        match self.buf.scan_delimiter() {
            Some(i) => Decision::FrameAt(i),
            None => {
                if self.buf.len() == self.buf.capacity() {
                    Decision::FrameTooLarge
                } else if self.closed {
                    Decision::Closed
                } else {
                    Decision::NeedRead(self.buf.free_space())
                }
            },
        }
    }

    /// Requests the next frame as an owned copy. A frame lent out before is
    /// taken back first. Only the first pending frame is handed out; later
    /// ones wait for later requests.
    pub fn next_step(&mut self) -> (r: Step)
        requires
            old(self).wf(),
        ensures
            final(self).wf(),
            final(self).capacity_spec() == old(self).capacity_spec(),
            final(self).closed_spec() == old(self).closed_spec(),
            final(self).lent_spec() is None,
            match delim_pos(old(self).pending()) {
                Some(i) => r matches Step::Frame(f) && f@ == old(self).pending().take(i as int)
                    && final(self).pending() == old(self).pending().subrange(
                        i as int + 1,
                        old(self).pending().len() as int,
                    ),
                None => final(self).pending() == old(self).pending() && if old(self).pending().len()
                    == old(self).capacity_spec() {
                    r matches Step::FrameTooLarge
                } else if old(self).closed_spec() {
                    r matches Step::Closed
                } else {
                    r matches Step::NeedRead(k) && k == old(self).capacity_spec() - old(
                        self,
                    ).pending().len()
                },
            },
    {
        proof {
            lemma_delim_pos(self.pending());
        }
        match self.decide() {
            Decision::FrameAt(i) => {
                proof {
                    self.buf.lemma_bounds();
                }
                let f = self.buf.copy_prefix(i);
                self.buf.compact(i + 1);
                Step::Frame(f)
            },
            Decision::Closed => Step::Closed,
            Decision::FrameTooLarge => Step::FrameTooLarge,
            Decision::NeedRead(k) => Step::NeedRead(k),
        }
    }

    /// Requests the next frame as a loan: on `LendStep::Frame` the frame
    /// stays in the buffer, readable through `lent`, until the next request.
    pub fn lend_step(&mut self) -> (r: LendStep)
        requires
            old(self).wf(),
        ensures
            final(self).wf(),
            final(self).capacity_spec() == old(self).capacity_spec(),
            final(self).closed_spec() == old(self).closed_spec(),
            match delim_pos(old(self).pending()) {
                Some(i) => r == LendStep::Frame(i as usize)
                    && final(self).lent_spec() == Some(old(self).pending().take(i as int))
                    && final(self).pending() == old(self).pending().subrange(
                        i as int + 1,
                        old(self).pending().len() as int,
                    ),
                None => final(self).pending() == old(self).pending()
                    && final(self).lent_spec() is None
                    && if old(self).pending().len() == old(self).capacity_spec() {
                    r == LendStep::FrameTooLarge
                } else if old(self).closed_spec() {
                    r == LendStep::Closed
                } else {
                    r == LendStep::NeedRead(
                        (old(self).capacity_spec() - old(self).pending().len()) as usize,
                    )
                },
            },
    {
        proof {
            lemma_delim_pos(self.pending());
        }
        match self.decide() {
            Decision::FrameAt(i) => {
                proof {
                    self.buf.lemma_bounds();
                }
                self.skip = i + 1;
                assert(self.buf@.take(i as int) =~= old(self).pending().take(i as int));
                LendStep::Frame(i)
            },
            Decision::Closed => LendStep::Closed,
            Decision::FrameTooLarge => LendStep::FrameTooLarge,
            Decision::NeedRead(k) => LendStep::NeedRead(k),
        }
    }

    /// The frame lent out by the last `lend_step`. The borrow of `self` keeps
    /// it from outliving the next request.
    pub fn lent(&self) -> (r: &[u8])
        requires
            self.wf(),
            self.lent_spec() is Some,
        ensures
            self.lent_spec() == Some(r@),
    {
        self.buf.prefix(self.skip - 1)
    }

    /// Hands over what a read delivered. An empty chunk is the end of the
    /// stream: the framer is closed from then on.
    pub fn complete_read(&mut self, chunk: &[u8])
        requires
            old(self).wf(),
            !old(self).closed_spec(),
            old(self).pending().len() + chunk@.len() <= old(self).capacity_spec(),
        ensures
            final(self).wf(),
            final(self).capacity_spec() == old(self).capacity_spec(),
            final(self).lent_spec() is None,
            chunk@.len() == 0 ==> final(self).closed_spec() && final(self).pending()
                == old(self).pending(),
            chunk@.len() > 0 ==> !final(self).closed_spec() && final(self).pending()
                == old(self).pending().add(chunk@),
    {
        self.release();
        if chunk.len() == 0 {
            self.closed = true;
        } else {
            self.buf.record_write(chunk);
            assert(self.pending() =~= self.buf@);
        }
    }
}

} // verus!
