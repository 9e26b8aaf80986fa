//! The mathematical model of framing: where a frame ends, and what a whole
//! byte stream decodes to.
use vstd::prelude::*;

verus! {

/// The sentinel byte that ends every frame (`b'\n'`).
pub const DELIMITER: u8 = 0x0A;

/// How a sequence of frames ends.
#[derive(Clone, Copy, Debug, PartialEq, Eq, Structural)]
pub enum Termination {
    /// The byte source reported end of stream; any unterminated tail was dropped.
    Closed,
    /// A frame did not fit into the buffer.
    FrameTooLarge,
}

/// Position of the first delimiter in `s`, if there is one.
pub open spec fn delim_pos(s: Seq<u8>) -> Option<nat>
    decreases s.len(),
{
    if s.len() == 0 {
        None
    } else if s[0] == DELIMITER {
        Some(0)
    } else {
        match delim_pos(s.drop_first()) {
            Some(k) => Some(k + 1),
            None => None,
        }
    }
}

/// `s` holds no delimiter.
pub open spec fn delim_free(s: Seq<u8>) -> bool {
    forall|j: int| 0 <= j < s.len() ==> s[j] != DELIMITER
}

/// Everything a framer with a buffer of `cap` bytes produces from the byte
/// stream `s`: the frames, in order, and how the sequence ends. A segment of
/// `cap` bytes or more (counted without its delimiter) cannot be held and
/// ends the sequence with `FrameTooLarge`; an unterminated tail shorter than
/// that is dropped at end of stream.
pub open spec fn outcome(s: Seq<u8>, cap: nat) -> (Seq<Seq<u8>>, Termination)
    decreases s.len(),
{
    match delim_pos(s) {
        Some(i) => {
            if i >= cap || i >= s.len() {
                (Seq::empty(), Termination::FrameTooLarge)
            } else {
                let rest = outcome(s.subrange(i as int + 1, s.len() as int), cap);
                (seq![s.take(i as int)].add(rest.0), rest.1)
            }
        },
        None => {
            if s.len() >= cap {
                (Seq::empty(), Termination::FrameTooLarge)
            } else {
                (Seq::empty(), Termination::Closed)
            }
        },
    }
}

/// One frame as it travels on the wire: its bytes, then the delimiter.
pub open spec fn encode_frame(f: Seq<u8>) -> Seq<u8> {
    f.push(DELIMITER)
}

/// A stream made of the given frames, each followed by the delimiter.
pub open spec fn encode_frames(fs: Seq<Seq<u8>>) -> Seq<u8>
    decreases fs.len(),
{
    if fs.len() == 0 {
        Seq::empty()
    } else {
        encode_frame(fs[0]).add(encode_frames(fs.drop_first()))
    }
}

/// What `delim_pos` denotes: the index of the first delimiter, or none at all.
pub proof fn lemma_delim_pos(s: Seq<u8>)
    ensures
        match delim_pos(s) {
            Some(i) => i < s.len() && s[i as int] == DELIMITER && delim_free(s.take(i as int)),
            None => delim_free(s),
        },
    decreases s.len(),
{
    if s.len() > 0 && s[0] != DELIMITER {
        lemma_delim_pos(s.drop_first());
        match delim_pos(s.drop_first()) {
            Some(k) => {
                assert forall|j: int| 0 <= j < k + 1 implies #[trigger] s.take(k as int + 1)[j] != DELIMITER by {
                    if j > 0 {
                        assert(s.drop_first().take(k as int)[j - 1] == s[j]);
                    }
                }
            },
            None => {
                assert forall|j: int| 0 <= j < s.len() implies s[j] != DELIMITER by {
                    if j > 0 {
                        assert(s.drop_first()[j - 1] == s[j]);
                    }
                }
            },
        }
    }
}

/// The first delimiter of `s` is the one at `i`, when `s[i]` is one and none comes before.
pub proof fn lemma_delim_at(s: Seq<u8>, i: int)
    requires
        0 <= i < s.len(),
        s[i] == DELIMITER,
        delim_free(s.take(i)),
    ensures
        delim_pos(s) == Some(i as nat),
{
    lemma_delim_pos(s);
    match delim_pos(s) {
        Some(k) => {
            if k < i {
                assert(s.take(i)[k as int] == s[k as int]);
            } else if k > i {
                assert(s.take(k as int)[i] == s[i]);
            }
        },
        None => {},
    }
}

/// A sequence without delimiters has no first delimiter.
pub proof fn lemma_delim_none(s: Seq<u8>)
    requires
        delim_free(s),
    ensures
        delim_pos(s) == None::<nat>,
{
    lemma_delim_pos(s);
    match delim_pos(s) {
        Some(k) => {
            assert(s.take(k as int).len() == k);
        },
        None => {},
    }
}

/// Bytes that follow a complete frame do not change that frame: with a
/// delimiter inside `p`, the stream `p + u` first yields the frame that `p`
/// ends, then whatever the rest of it yields.
pub proof fn lemma_outcome_frame(p: Seq<u8>, u: Seq<u8>, cap: nat)
    requires
        delim_pos(p) is Some,
        p.len() <= cap,
    ensures
        ({
            let i = delim_pos(p)->Some_0 as int;
            let rest = outcome(p.subrange(i + 1, p.len() as int).add(u), cap);
            outcome(p.add(u), cap) == (seq![p.take(i)].add(rest.0), rest.1)
        }),
{
    lemma_delim_pos(p);
    let i = delim_pos(p)->Some_0 as int;
    let s = p.add(u);
    assert(s.take(i) =~= p.take(i));
    lemma_delim_at(s, i);
    assert(s.subrange(i + 1, s.len() as int) =~= p.subrange(i + 1, p.len() as int).add(u));
}

/// A buffer filled to capacity without a delimiter means the frame is too
/// large, whatever follows it.
pub proof fn lemma_outcome_full(p: Seq<u8>, u: Seq<u8>, cap: nat)
    requires
        delim_free(p),
        p.len() >= cap,
    ensures
        outcome(p.add(u), cap) == (Seq::<Seq<u8>>::empty(), Termination::FrameTooLarge),
{
    let s = p.add(u);
    lemma_delim_pos(s);
    match delim_pos(s) {
        Some(i) => {
            if i < p.len() {
                assert(s[i as int] == p[i as int]);
            }
        },
        None => {},
    }
}

/// At end of stream, an unterminated tail that fits is dropped.
pub proof fn lemma_outcome_tail(p: Seq<u8>, cap: nat)
    requires
        delim_free(p),
        p.len() < cap,
    ensures
        outcome(p, cap) == (Seq::<Seq<u8>>::empty(), Termination::Closed),
{
    lemma_delim_none(p);
}

/// Frames shorter than the buffer, each followed by the delimiter, come back
/// exactly and in order, and the sequence ends cleanly.
pub proof fn lemma_encoded_frames(fs: Seq<Seq<u8>>, cap: nat)
    requires
        cap > 0,
        forall|k: int| 0 <= k < fs.len() ==> delim_free(#[trigger] fs[k]) && fs[k].len() < cap,
    ensures
        outcome(encode_frames(fs), cap) == (fs, Termination::Closed),
    decreases fs.len(),
{
    if fs.len() == 0 {
        lemma_delim_none(Seq::<u8>::empty());
    } else {
        let f = fs[0];
        let rest = fs.drop_first();
        assert forall|k: int| 0 <= k < rest.len() implies delim_free(#[trigger] rest[k])
            && rest[k].len() < cap by {
            assert(rest[k] == fs[k + 1]);
        }
        lemma_encoded_frames(rest, cap);
        let e = encode_frame(f);
        assert(e.take(f.len() as int) =~= f);
        lemma_delim_at(e, f.len() as int);
        lemma_outcome_frame(e, encode_frames(rest), cap);
        assert(e.subrange(f.len() as int + 1, e.len() as int).add(encode_frames(rest)) =~= encode_frames(rest));
        assert(seq![f].add(rest) =~= fs);
    }
}

/// The largest frame that fits: `cap - 1` bytes and the delimiter fill the
/// buffer exactly, and the frame is delivered.
pub proof fn lemma_largest_frame_fits(f: Seq<u8>, rest: Seq<u8>, cap: nat)
    requires
        delim_free(f),
        f.len() + 1 == cap,
    ensures
        outcome(encode_frame(f).add(rest), cap) == (
            seq![f].add(outcome(rest, cap).0),
            outcome(rest, cap).1,
        ),
{
    let e = encode_frame(f);
    assert(e.take(f.len() as int) =~= f);
    lemma_delim_at(e, f.len() as int);
    lemma_outcome_frame(e, rest, cap);
    assert(e.subrange(f.len() as int + 1, e.len() as int).add(rest) =~= rest);
}

/// Two delimiters in the pending bytes make two frames for two requests:
/// once the first frame `[0, i)` is taken, the second, `[i + 1, j)`, is the
/// first frame of what remains.
pub proof fn lemma_second_frame_next(p: Seq<u8>, i: int, j: int)
    requires
        delim_pos(p) == Some(i as nat),
        0 <= i < j < p.len(),
        p[j] == DELIMITER,
        delim_free(p.subrange(i + 1, j)),
    ensures
        delim_pos(p.subrange(i + 1, p.len() as int)) == Some((j - i - 1) as nat),
        p.subrange(i + 1, p.len() as int).take(j - i - 1) == p.subrange(i + 1, j),
{
    let rest = p.subrange(i + 1, p.len() as int);
    assert(rest.take(j - i - 1) =~= p.subrange(i + 1, j));
    lemma_delim_at(rest, j - i - 1);
}

} // verus!
