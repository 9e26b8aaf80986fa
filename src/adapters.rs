//! Three ways to expose the framer as a demand-driven sequence, over a
//! scripted byte source: a pull reader whose `next` runs the read loop until
//! a frame or the end, a poll reader that makes at most one read per probe
//! and reports `Pending` in between, and a push procedure that hands every
//! frame to a sink. A lending pull reader shows frames in place instead of
//! copying them. All of them produce `outcome` of the bytes the source holds.
use vstd::prelude::*;

use crate::frame::{
    delim_free, delim_pos, encode_frames, lemma_delim_pos, lemma_encoded_frames, lemma_outcome_frame,
    lemma_outcome_full, lemma_outcome_tail, outcome, Termination,
};
use crate::framer::{FrameError, Framer, LendStep, Step};
use crate::source::ScriptedSource;
use vstd::slice::slice_to_vec;

verus! {

/// Pull interface: each call of `next` produces the next item or the end.
pub trait AfitAsyncIter {
    type Item;

    /// The iterator's own consistency, kept by every call.
    spec fn wf(&self) -> bool;

    fn next(&mut self) -> (r: Option<Self::Item>)
        requires
            old(self).wf(),
        ensures
            final(self).wf(),
    ;
}

/// Result of one probe of a poll interface.
#[derive(Debug)]
pub enum Poll<T> {
    Ready(T),
    /// No item yet: probe again later.
    Pending,
}

/// Poll interface: each probe makes what progress it can without waiting.
pub trait PollNextAsyncIter {
    type Item;

    /// The iterator's own consistency, kept by every probe.
    spec fn wf(&self) -> bool;

    fn poll_next(&mut self) -> (r: Poll<Option<Self::Item>>)
        requires
            old(self).wf(),
        ensures
            final(self).wf(),
    ;
}

/// Lending pull interface: the item borrows the iterator, so it is gone
/// before `next` can be called again.
pub trait LendAfitAsyncIter {
    /// The iterator's own consistency, kept by every call.
    spec fn wf(&self) -> bool;

    fn next(&mut self) -> (r: Option<Result<&[u8], FrameError>>)
        requires
            old(self).wf(),
        ensures
            final(self).wf(),
    ;
}

/// The byte sequences held by a vector of byte vectors.
pub open spec fn frames_view(v: Seq<Vec<u8>>) -> Seq<Seq<u8>> {
    v.map_values(|f: Vec<u8>| f@)
}

/// All bytes of a script of reads, in order.
pub open spec fn script_bytes(reads: Seq<Vec<u8>>) -> Seq<u8> {
    frames_view(reads).flatten()
}

/// What is left to come from a framer fed by a source.
pub open spec fn future_of(framer: Framer, source: ScriptedSource) -> (Seq<Seq<u8>>, Termination) {
    outcome(framer.pending().add(source.remaining()), framer.capacity_spec())
}

/// A framer and its source are consistent: once closed, the source is drained.
pub open spec fn linked(framer: Framer, source: ScriptedSource) -> bool {
    &&& framer.wf()
    &&& source.wf()
    &&& framer.closed_spec() ==> source.remaining().len() == 0
}

/// A measure of the work left before the source is drained and closed.
pub open spec fn work(framer: Framer, source: ScriptedSource) -> nat {
    2 * (2 * source.remaining().len() + framer.pending().len()) + if framer.closed_spec() {
        0nat
    } else {
        1nat
    }
}

/// What a request for the next item yields, given what is left to come.
pub open spec fn item_of(fut: (Seq<Seq<u8>>, Termination), r: Option<Result<Seq<u8>, FrameError>>) -> bool {
    match r {
        Some(Ok(f)) => fut.0.len() > 0 && f == fut.0[0],
        Some(Err(e)) => fut.0.len() == 0 && fut.1 == Termination::FrameTooLarge && e
            == FrameError::FrameTooLarge,
        None => fut.0.len() == 0 && fut.1 == Termination::Closed,
    }
}

/// What is left to come after an item was produced.
pub open spec fn after_item(fut: (Seq<Seq<u8>>, Termination), r: Option<Result<Seq<u8>, FrameError>>) -> (Seq<Seq<u8>>, Termination) {
    match r {
        Some(Ok(_)) => (fut.0.drop_first(), fut.1),
        _ => fut,
    }
}

/// The framer can answer a request without reading: a delimiter is among
/// the pending bytes, the stream has closed, or the buffer is full.
pub open spec fn settles_without_read(f: Framer) -> bool {
    delim_pos(f.pending()) is Some || f.closed_spec() || f.pending().len() >= f.capacity_spec()
}

/// The stream has closed and nothing more can come out of the pending
/// bytes: every later request ends the sequence.
pub open spec fn at_end(f: Framer) -> bool {
    &&& f.closed_spec()
    &&& delim_pos(f.pending()) is None
    &&& f.pending().len() < f.capacity_spec()
}

/// The bytes of an item that holds an owned frame.
pub open spec fn owned_view(r: Option<Result<Vec<u8>, FrameError>>) -> Option<Result<Seq<u8>, FrameError>> {
    match r {
        Some(Ok(f)) => Some(Ok(f@)),
        Some(Err(e)) => Some(Err(e)),
        None => None,
    }
}

/// However a stream of encoded frames is cut into reads, every reader of this
/// module yields exactly those frames, in order, and then ends cleanly: their
/// results are `outcome` of the script's bytes, which is `(fs, Closed)`.
pub proof fn lemma_any_chunking(reads: Seq<Vec<u8>>, fs: Seq<Seq<u8>>, cap: nat)
    requires
        cap > 0,
        script_bytes(reads) == encode_frames(fs),
        forall|k: int| 0 <= k < fs.len() ==> delim_free(#[trigger] fs[k]) && fs[k].len() < cap,
    ensures
        outcome(script_bytes(reads), cap) == (fs, Termination::Closed),
{
    lemma_encoded_frames(fs, cap);
}

/// One framer decision in owned mode: the frame or the end when there is
/// one, else the number of bytes to read. Changes nothing on a read request.
fn take_item(framer: &mut Framer, source: &ScriptedSource) -> (r: Result<Option<Result<Vec<u8>, FrameError>>, usize>)
    requires
        linked(*old(framer), *source),
        old(framer).lent_spec() is None,
    ensures
        linked(*final(framer), *source),
        final(framer).lent_spec() is None,
        final(framer).capacity_spec() == old(framer).capacity_spec(),
        match r {
            Ok(item) => item_of(future_of(*old(framer), *source), owned_view(item))
                && future_of(*final(framer), *source) == after_item(
                future_of(*old(framer), *source),
                owned_view(item),
            ),
            Err(k) => final(framer).pending() == old(framer).pending()
                && final(framer).closed_spec() == old(framer).closed_spec() && !old(framer).closed_spec()
                && delim_pos(old(framer).pending()) is None
                && k == old(framer).capacity_spec() - old(framer).pending().len() && k > 0,
        },
        settles_without_read(*old(framer)) <==> r is Ok,
        at_end(*old(framer)) <==> r matches Ok(None),
        r matches Ok(None) ==> at_end(*final(framer)),
{
    let ghost p = framer.pending();
    let ghost u = source.remaining();
    let ghost cap = framer.capacity_spec();
    proof {
        framer.lemma_bounds();
        lemma_delim_pos(p);
    }
    match framer.next_step() {
        Step::Frame(f) => {
            proof {
                lemma_outcome_frame(p, u, cap);
            }
            Ok(Some(Ok(f)))
        },
        Step::FrameTooLarge => {
            proof {
                lemma_outcome_full(p, u, cap);
            }
            Ok(Some(Err(FrameError::FrameTooLarge)))
        },
        Step::Closed => {
            proof {
                assert(p.add(u) =~= p);
                lemma_outcome_tail(p, cap);
            }
            Ok(None)
        },
        Step::NeedRead(k) => {
            Err(k)
        },
    }
}

/// Performs the read the framer asked for and hands it the result.
fn fill(framer: &mut Framer, source: &mut ScriptedSource, k: usize)
    requires
        linked(*old(framer), *old(source)),
        old(framer).lent_spec() is None,
        !old(framer).closed_spec(),
        k == old(framer).capacity_spec() - old(framer).pending().len(),
        k > 0,
    ensures
        linked(*final(framer), *final(source)),
        final(framer).lent_spec() is None,
        final(framer).capacity_spec() == old(framer).capacity_spec(),
        future_of(*final(framer), *final(source)) == future_of(*old(framer), *old(source)),
        work(*final(framer), *final(source)) < work(*old(framer), *old(source)),
{
    let ghost p = framer.pending();
    let ghost u = source.remaining();
    let chunk = source.read(k);
    framer.complete_read(chunk.as_slice());
    proof {
        if chunk@.len() > 0 {
            assert(framer.pending().add(source.remaining()) =~= p.add(u));
        } else {
            assert(source.remaining() =~= u);
        }
    }
}

/// One framer decision and, where it asks for one, one read.
fn advance(framer: &mut Framer, source: &mut ScriptedSource) -> (r: Option<Option<Result<Vec<u8>, FrameError>>>)
    requires
        linked(*old(framer), *old(source)),
        old(framer).lent_spec() is None,
    ensures
        linked(*final(framer), *final(source)),
        final(framer).lent_spec() is None,
        final(framer).capacity_spec() == old(framer).capacity_spec(),
        match r {
            Some(item) => item_of(future_of(*old(framer), *old(source)), owned_view(item))
                && future_of(*final(framer), *final(source)) == after_item(
                future_of(*old(framer), *old(source)),
                owned_view(item),
            ),
            None => future_of(*final(framer), *final(source)) == future_of(*old(framer), *old(source))
                && work(*final(framer), *final(source)) < work(*old(framer), *old(source)),
        },
        settles_without_read(*old(framer)) ==> r is Some && *final(source) == *old(source),
        at_end(*old(framer)) <==> r matches Some(None),
        r matches Some(None) ==> at_end(*final(framer)),
{
    match take_item(framer, source) {
        Ok(item) => Some(item),
        Err(k) => {
            fill(framer, source, k);
            None
        },
    }
}

/// Pull reader: `next` reads until a frame is complete or the stream ends.
pub struct PullReader {
    framer: Framer,
    source: ScriptedSource,
}

impl PullReader {
    /// The framing state.
    pub closed spec fn framer(&self) -> Framer {
        self.framer
    }

    /// The bytes the source has not delivered yet.
    pub closed spec fn unread(&self) -> Seq<u8> {
        self.source.remaining()
    }

    /// The frames still to come, and how the sequence ends.
    pub closed spec fn future(&self) -> (Seq<Seq<u8>>, Termination) {
        future_of(self.framer, self.source)
    }

    /// A reader over the canned `reads` with a buffer of `capacity` bytes.
    pub fn new(reads: Vec<Vec<u8>>, capacity: usize) -> (r: PullReader)
        requires
            capacity > 0,
        ensures
            r.wf(),
            r.future() == outcome(script_bytes(reads@), capacity as nat),
    {
        let source = ScriptedSource::new(reads);
        let framer = Framer::with_capacity(capacity);
        assert(framer.pending().add(source.remaining()) =~= source.remaining());
        PullReader { framer, source }
    }
}

impl AfitAsyncIter for PullReader {
    type Item = Result<Vec<u8>, FrameError>;

    closed spec fn wf(&self) -> bool {
        linked(self.framer, self.source) && self.framer.lent_spec() is None
    }

    /// Yields the first frame still to come, or how the sequence ended.
    fn next(&mut self) -> (r: Option<Result<Vec<u8>, FrameError>>)
        ensures
            item_of(old(self).future(), owned_view(r)),
            final(self).future() == after_item(old(self).future(), owned_view(r)),
            settles_without_read(old(self).framer()) ==> final(self).unread() == old(self).unread(),
            at_end(old(self).framer()) ==> r is None,
            r is None ==> at_end(final(self).framer()),
    {
        loop
            invariant
                linked(self.framer, self.source),
                self.framer.lent_spec() is None,
                self.future() == old(self).future(),
                settles_without_read(old(self).framer) ==> self.framer == old(self).framer
                    && self.source == old(self).source,
                at_end(old(self).framer) ==> self.framer == old(self).framer
                    && self.source == old(self).source,
            decreases work(self.framer, self.source),
        {
            if let Some(item) = advance(&mut self.framer, &mut self.source) {
                return item;
            }
        }
    }
}

/// Reads every frame through the pull reader.
pub fn collect_pull(reads: Vec<Vec<u8>>, capacity: usize) -> (r: (Vec<Vec<u8>>, Termination))
    requires
        capacity > 0,
    ensures
        (frames_view(r.0@), r.1) == outcome(script_bytes(reads@), capacity as nat),
{
    let ghost total = outcome(script_bytes(reads@), capacity as nat);
    let mut reader = PullReader::new(reads, capacity);
    let mut frames: Vec<Vec<u8>> = Vec::new();
    loop
        invariant
            total == outcome(script_bytes(reads@), capacity as nat),
            reader.wf(),
            frames_view(frames@).add(reader.future().0) == total.0,
            reader.future().1 == total.1,
        decreases reader.future().0.len(),
    {
        let ghost fut = reader.future();
        match reader.next() {
            Some(Ok(f)) => {
                proof {
                    assert(frames_view(frames@.push(f)) =~= frames_view(frames@).push(f@));
                    assert(frames_view(frames@).push(f@).add(fut.0.drop_first()) =~= frames_view(frames@).add(fut.0));
                }
                frames.push(f);
            },
            Some(Err(_)) => {
                assert(frames_view(frames@).add(fut.0) =~= frames_view(frames@));
                return (frames, Termination::FrameTooLarge);
            },
            None => {
                assert(frames_view(frames@).add(fut.0) =~= frames_view(frames@));
                return (frames, Termination::Closed);
            },
        }
    }
}

/// Poll reader: each probe completes the read issued by the previous probe,
/// if any, then either yields an item or issues a read and reports `Pending`.
/// All progress is kept in the reader itself between probes.
pub struct PollReader {
    framer: Framer,
    source: ScriptedSource,
    in_flight: bool,
    requested: usize,
}

impl PollReader {
    /// The framing state.
    pub closed spec fn framer(&self) -> Framer {
        self.framer
    }

    /// The bytes the source has not delivered yet.
    pub closed spec fn unread(&self) -> Seq<u8> {
        self.source.remaining()
    }

    /// A read was issued by the last probe and completes at the next one.
    pub closed spec fn read_issued(&self) -> bool {
        self.in_flight
    }

    /// The frames still to come, and how the sequence ends.
    pub closed spec fn future(&self) -> (Seq<Seq<u8>>, Termination) {
        future_of(self.framer, self.source)
    }

    /// Decreases with every probe that reports `Pending`.
    pub closed spec fn progress(&self) -> nat {
        2 * work(self.framer, self.source) + if self.in_flight {
            0nat
        } else {
            1nat
        }
    }

    /// A reader over the canned `reads` with a buffer of `capacity` bytes.
    pub fn new(reads: Vec<Vec<u8>>, capacity: usize) -> (r: PollReader)
        requires
            capacity > 0,
        ensures
            r.wf(),
            r.future() == outcome(script_bytes(reads@), capacity as nat),
    {
        let source = ScriptedSource::new(reads);
        let framer = Framer::with_capacity(capacity);
        assert(framer.pending().add(source.remaining()) =~= source.remaining());
        PollReader { framer, source, in_flight: false, requested: 0 }
    }
}

impl PollNextAsyncIter for PollReader {
    type Item = Result<Vec<u8>, FrameError>;

    closed spec fn wf(&self) -> bool {
        &&& linked(self.framer, self.source)
        &&& self.framer.lent_spec() is None
        &&& self.in_flight ==> !self.framer.closed_spec() && self.requested > 0
            && delim_pos(self.framer.pending()) is None
            && self.requested == self.framer.capacity_spec() - self.framer.pending().len()
    }

    /// `Pending` changes nothing that is still to come and brings the reader
    /// closer to its next item; `Ready` yields what `next` of the pull reader
    /// would. A probe answers `Ready` without reading whenever the framer can
    /// decide without a read, and `Pending` only after issuing a read. Once
    /// the sequence has ended, every probe ends it again.
    fn poll_next(&mut self) -> (r: Poll<Option<Result<Vec<u8>, FrameError>>>)
        ensures
            match r {
                Poll::Ready(item) => item_of(old(self).future(), owned_view(item))
                    && final(self).future() == after_item(old(self).future(), owned_view(item)),
                Poll::Pending => final(self).future() == old(self).future()
                    && final(self).progress() < old(self).progress(),
            },
            settles_without_read(old(self).framer()) ==> r is Ready && final(self).unread() == old(
                self,
            ).unread(),
            r is Pending ==> !settles_without_read(old(self).framer()) && final(self).read_issued(),
            at_end(old(self).framer()) ==> r matches Poll::Ready(None),
            r matches Poll::Ready(None) ==> at_end(final(self).framer()),
    {
        if self.in_flight {
            fill(&mut self.framer, &mut self.source, self.requested);
            self.in_flight = false;
        }
        match take_item(&mut self.framer, &self.source) {
            Ok(item) => Poll::Ready(item),
            Err(k) => {
                self.in_flight = true;
                self.requested = k;
                Poll::Pending
            },
        }
    }
}

/// Reads every frame through the poll reader, probing again after `Pending`.
pub fn collect_poll(reads: Vec<Vec<u8>>, capacity: usize) -> (r: (Vec<Vec<u8>>, Termination))
    requires
        capacity > 0,
    ensures
        (frames_view(r.0@), r.1) == outcome(script_bytes(reads@), capacity as nat),
{
    let ghost total = outcome(script_bytes(reads@), capacity as nat);
    let mut reader = PollReader::new(reads, capacity);
    let mut frames: Vec<Vec<u8>> = Vec::new();
    loop
        invariant
            total == outcome(script_bytes(reads@), capacity as nat),
            reader.wf(),
            frames_view(frames@).add(reader.future().0) == total.0,
            reader.future().1 == total.1,
        decreases reader.future().0.len(), reader.progress(),
    {
        let ghost fut = reader.future();
        match reader.poll_next() {
            Poll::Pending => {},
            Poll::Ready(Some(Ok(f))) => {
                proof {
                    assert(frames_view(frames@.push(f)) =~= frames_view(frames@).push(f@));
                    assert(frames_view(frames@).push(f@).add(fut.0.drop_first()) =~= frames_view(frames@).add(fut.0));
                }
                frames.push(f);
            },
            Poll::Ready(Some(Err(_))) => {
                assert(frames_view(frames@).add(fut.0) =~= frames_view(frames@));
                return (frames, Termination::FrameTooLarge);
            },
            Poll::Ready(None) => {
                assert(frames_view(frames@).add(fut.0) =~= frames_view(frames@));
                return (frames, Termination::Closed);
            },
        }
    }
}

/// Push procedure: reads and frames in one loop, handing each frame to
/// `sink` as soon as it is complete, and returns how the sequence ended.
pub fn push_frames(reads: Vec<Vec<u8>>, capacity: usize, sink: &mut Vec<Vec<u8>>) -> (r: Termination)
    requires
        capacity > 0,
    ensures
        frames_view(final(sink)@) == frames_view(old(sink)@).add(outcome(script_bytes(reads@), capacity as nat).0),
        r == outcome(script_bytes(reads@), capacity as nat).1,
{
    let ghost total = outcome(script_bytes(reads@), capacity as nat);
    let mut source = ScriptedSource::new(reads);
    let mut framer = Framer::with_capacity(capacity);
    assert(framer.pending().add(source.remaining()) =~= source.remaining());
    loop
        invariant
            total == outcome(script_bytes(reads@), capacity as nat),
            linked(framer, source),
            framer.lent_spec() is None,
            frames_view(sink@).add(future_of(framer, source).0) == frames_view(old(sink)@).add(total.0),
            future_of(framer, source).1 == total.1,
        decreases future_of(framer, source).0.len(), work(framer, source),
    {
        let ghost fut = future_of(framer, source);
        match advance(&mut framer, &mut source) {
            None => {},
            Some(Some(Ok(f))) => {
                proof {
                    assert(frames_view(sink@.push(f)) =~= frames_view(sink@).push(f@));
                    assert(frames_view(sink@).push(f@).add(fut.0.drop_first()) =~= frames_view(sink@).add(fut.0));
                }
                sink.push(f);
            },
            Some(Some(Err(_))) => {
                assert(frames_view(sink@).add(fut.0) =~= frames_view(sink@));
                return Termination::FrameTooLarge;
            },
            Some(None) => {
                assert(frames_view(sink@).add(fut.0) =~= frames_view(sink@));
                return Termination::Closed;
            },
        }
    }
}

/// Lending pull reader: frames are shown in place in the buffer. The view
/// borrows the reader, so it cannot be kept across the next call.
pub struct LendReader {
    framer: Framer,
    source: ScriptedSource,
}

/// The bytes of an item that holds a lent frame.
pub open spec fn lent_view(r: Option<Result<&[u8], FrameError>>) -> Option<Result<Seq<u8>, FrameError>> {
    match r {
        Some(Ok(f)) => Some(Ok(f@)),
        Some(Err(e)) => Some(Err(e)),
        None => None,
    }
}

impl LendReader {
    /// The framing state.
    pub closed spec fn framer(&self) -> Framer {
        self.framer
    }

    /// The bytes the source has not delivered yet.
    pub closed spec fn unread(&self) -> Seq<u8> {
        self.source.remaining()
    }

    /// The frames still to come, and how the sequence ends.
    pub closed spec fn future(&self) -> (Seq<Seq<u8>>, Termination) {
        future_of(self.framer, self.source)
    }

    /// A reader over the canned `reads` with a buffer of `capacity` bytes.
    pub fn new(reads: Vec<Vec<u8>>, capacity: usize) -> (r: LendReader)
        requires
            capacity > 0,
        ensures
            r.wf(),
            r.future() == outcome(script_bytes(reads@), capacity as nat),
    {
        let source = ScriptedSource::new(reads);
        let framer = Framer::with_capacity(capacity);
        assert(framer.pending().add(source.remaining()) =~= source.remaining());
        LendReader { framer, source }
    }
}

impl LendAfitAsyncIter for LendReader {
    closed spec fn wf(&self) -> bool {
        linked(self.framer, self.source)
    }

    /// Yields a view of the first frame still to come, or how the sequence ended.
    fn next(&mut self) -> (r: Option<Result<&[u8], FrameError>>)
        ensures
            item_of(old(self).future(), lent_view(r)),
            final(self).future() == after_item(old(self).future(), lent_view(r)),
            settles_without_read(old(self).framer()) ==> final(self).unread() == old(self).unread(),
            at_end(old(self).framer()) ==> r is None,
            r is None ==> at_end(final(self).framer()),
    {
        loop
            invariant
                linked(self.framer, self.source),
                self.future() == old(self).future(),
                settles_without_read(old(self).framer) ==> self.framer.pending() == old(
                    self,
                ).framer.pending() && self.framer.closed_spec() == old(self).framer.closed_spec()
                    && self.framer.capacity_spec() == old(self).framer.capacity_spec()
                    && self.source == old(self).source,
                at_end(old(self).framer) ==> self.source == old(self).source,
            decreases work(self.framer, self.source),
        {
            let ghost p = self.framer.pending();
            let ghost u = self.source.remaining();
            let ghost cap = self.framer.capacity_spec();
            proof {
                self.framer.lemma_bounds();
                lemma_delim_pos(p);
            }
            match self.framer.lend_step() {
                LendStep::Frame(_) => {
                    proof {
                        lemma_outcome_frame(p, u, cap);
                    }
                    return Some(Ok(self.framer.lent()));
                },
                LendStep::FrameTooLarge => {
                    proof {
                        lemma_outcome_full(p, u, cap);
                    }
                    return Some(Err(FrameError::FrameTooLarge));
                },
                LendStep::Closed => {
                    proof {
                        assert(p.add(u) =~= p);
                        lemma_outcome_tail(p, cap);
                    }
                    return None;
                },
                LendStep::NeedRead(k) => {
                    fill(&mut self.framer, &mut self.source, k);
                },
            }
        }
    }
}

/// Reads every frame through the lending reader, copying each one out
/// before asking for the next.
pub fn collect_lend(reads: Vec<Vec<u8>>, capacity: usize) -> (r: (Vec<Vec<u8>>, Termination))
    requires
        capacity > 0,
    ensures
        (frames_view(r.0@), r.1) == outcome(script_bytes(reads@), capacity as nat),
{
    let ghost total = outcome(script_bytes(reads@), capacity as nat);
    let mut reader = LendReader::new(reads, capacity);
    let mut frames: Vec<Vec<u8>> = Vec::new();
    loop
        invariant
            total == outcome(script_bytes(reads@), capacity as nat),
            reader.wf(),
            frames_view(frames@).add(reader.future().0) == total.0,
            reader.future().1 == total.1,
        decreases reader.future().0.len(),
    {
        let ghost fut = reader.future();
        match reader.next() {
            Some(Ok(view)) => {
                let f = slice_to_vec(view);
                proof {
                    assert(frames_view(frames@.push(f)) =~= frames_view(frames@).push(f@));
                    assert(frames_view(frames@).push(f@).add(fut.0.drop_first()) =~= frames_view(frames@).add(fut.0));
                }
                frames.push(f);
            },
            Some(Err(_)) => {
                assert(frames_view(frames@).add(fut.0) =~= frames_view(frames@));
                return (frames, Termination::FrameTooLarge);
            },
            None => {
                assert(frames_view(frames@).add(fut.0) =~= frames_view(frames@));
                return (frames, Termination::Closed);
            },
        }
    }
}

} // verus!
