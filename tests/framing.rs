use json_line_parser::adapters::{
    collect_lend, collect_poll, collect_pull, push_frames, AfitAsyncIter, LendAfitAsyncIter,
    LendReader, Poll, PollNextAsyncIter, PollReader, PullReader,
};
use json_line_parser::buffer::FrameBuffer;
use json_line_parser::frame::Termination;
use json_line_parser::framer::{FrameError, Framer, LendStep, Step, DEFAULT_CAPACITY};
use json_line_parser::source::ScriptedSource;

fn frames(list: &[&str]) -> Vec<Vec<u8>> {
    list.iter().map(|s| s.as_bytes().to_vec()).collect()
}

/// Splits `bytes` after every position whose bit is set in `mask`.
fn split_by_mask(bytes: &[u8], mask: u32) -> Vec<Vec<u8>> {
    let mut out = Vec::new();
    let mut cur = Vec::new();
    for (i, b) in bytes.iter().enumerate() {
        cur.push(*b);
        if i + 1 < bytes.len() && mask & (1 << i) != 0 {
            out.push(std::mem::take(&mut cur));
        }
    }
    out.push(cur);
    out
}

fn all_adapters(reads: Vec<Vec<u8>>, cap: usize) -> (Vec<Vec<u8>>, Termination) {
    let pull = collect_pull(reads.clone(), cap);
    let poll = collect_poll(reads.clone(), cap);
    let lend = collect_lend(reads.clone(), cap);
    let mut sink = Vec::new();
    let end = push_frames(reads, cap, &mut sink);
    assert_eq!(pull, poll);
    assert_eq!(pull, lend);
    assert_eq!(pull, (sink, end));
    pull
}

#[test]
fn every_chunking_gives_the_same_frames() {
    let stream = b"a\nbb\nccc\n";
    let expected = (frames(&["a", "bb", "ccc"]), Termination::Closed);
    for mask in 0..(1u32 << (stream.len() - 1)) {
        let reads = split_by_mask(stream, mask);
        assert_eq!(all_adapters(reads, 16), expected);
    }
}

#[test]
fn every_chunking_with_small_buffer() {
    let stream = b"{\"Hello\":[\"x\",1]}\n\"Ping\"\n";
    let expected = (frames(&["{\"Hello\":[\"x\",1]}", "\"Ping\""]), Termination::Closed);
    for mask in (0..(1u32 << (stream.len() - 1))).step_by(9973) {
        let reads = split_by_mask(stream, mask);
        assert_eq!(all_adapters(reads, 18), expected);
    }
}

#[test]
fn one_read_with_two_delimiters_gives_one_frame_per_request() {
    let mut f = Framer::with_capacity(16);
    match f.next_step() {
        Step::NeedRead(k) => assert_eq!(k, 16),
        other => panic!("unexpected {:?}", other),
    }
    f.complete_read(b"ab\ncd\nef");
    match f.next_step() {
        Step::Frame(v) => assert_eq!(v, b"ab".to_vec()),
        other => panic!("unexpected {:?}", other),
    }
    assert_eq!(f.pending_len(), 5);
    match f.next_step() {
        Step::Frame(v) => assert_eq!(v, b"cd".to_vec()),
        other => panic!("unexpected {:?}", other),
    }
    match f.next_step() {
        Step::NeedRead(k) => assert_eq!(k, 14),
        other => panic!("unexpected {:?}", other),
    }
}

#[test]
fn pull_reader_gives_second_frame_on_next_call() {
    let mut r = PullReader::new(vec![b"one\ntwo\n".to_vec()], 32);
    assert_eq!(r.next(), Some(Ok(b"one".to_vec())));
    assert_eq!(r.next(), Some(Ok(b"two".to_vec())));
    assert_eq!(r.next(), None);
}

#[test]
fn largest_frame_fits_exactly() {
    let mut frame = vec![b'x'; 7];
    frame.push(b'\n');
    let (out, end) = all_adapters(vec![frame], 8);
    assert_eq!(out, vec![vec![b'x'; 7]]);
    assert_eq!(end, Termination::Closed);
}

#[test]
fn largest_frame_fits_default_capacity() {
    let mut frame = vec![b'y'; DEFAULT_CAPACITY - 1];
    frame.push(b'\n');
    let mut f = Framer::new();
    f.complete_read(&frame);
    match f.next_step() {
        Step::Frame(v) => assert_eq!(v.len(), DEFAULT_CAPACITY - 1),
        other => panic!("unexpected {:?}", other),
    }
}

#[test]
fn frame_of_capacity_bytes_is_too_large() {
    let mut frame = vec![b'x'; 8];
    frame.push(b'\n');
    let (out, end) = all_adapters(vec![b"ok\n".to_vec(), frame], 8);
    assert_eq!(out, frames(&["ok"]));
    assert_eq!(end, Termination::FrameTooLarge);

    let mut f = Framer::with_capacity(8);
    f.complete_read(&[b'z'; 8]);
    assert!(matches!(f.next_step(), Step::FrameTooLarge));
}

#[test]
fn full_buffer_at_end_of_stream_is_too_large() {
    let (out, end) = all_adapters(vec![vec![b'q'; 12]], 8);
    assert!(out.is_empty());
    assert_eq!(end, Termination::FrameTooLarge);
}

#[test]
fn end_of_stream_without_residual_closes() {
    assert_eq!(all_adapters(vec![], 8), (vec![], Termination::Closed));
    assert_eq!(all_adapters(vec![b"a\n".to_vec()], 8), (frames(&["a"]), Termination::Closed));
    let mut f = Framer::with_capacity(8);
    f.complete_read(b"");
    assert!(f.is_closed());
    assert!(matches!(f.next_step(), Step::Closed));
}

#[test]
fn end_of_stream_drops_unterminated_tail() {
    assert_eq!(
        all_adapters(vec![b"a\npart".to_vec()], 8),
        (frames(&["a"]), Termination::Closed)
    );
    let mut f = Framer::with_capacity(8);
    f.complete_read(b"part");
    f.complete_read(b"");
    assert!(matches!(f.next_step(), Step::Closed));
    assert_eq!(f.pending_len(), 4);
}

#[test]
fn adapters_agree_on_scripts() {
    let scripts: Vec<Vec<Vec<u8>>> = vec![
        vec![b"x\ny".to_vec(), b"\n".to_vec(), vec![], b"zz\n\n".to_vec()],
        vec![b"\n\n\n".to_vec()],
        vec![b"abcdefgh".to_vec(), b"ij\nk".to_vec()],
        vec![b"abc".to_vec(), b"defg".to_vec(), b"\nhi\n".to_vec()],
    ];
    let expected = vec![
        (frames(&["x", "y", "zz", ""]), Termination::Closed),
        (frames(&["", "", ""]), Termination::Closed),
        (vec![], Termination::FrameTooLarge),
        (frames(&["abcdefg", "hi"]), Termination::Closed),
    ];
    for (s, e) in scripts.into_iter().zip(expected) {
        assert_eq!(all_adapters(s, 8), e);
    }
}

#[test]
fn poll_reader_reports_pending_before_each_read() {
    let mut r = PollReader::new(vec![b"ab".to_vec(), b"\n".to_vec()], 8);
    assert!(matches!(r.poll_next(), Poll::Pending));
    assert!(matches!(r.poll_next(), Poll::Pending));
    match r.poll_next() {
        Poll::Ready(Some(Ok(v))) => assert_eq!(v, b"ab".to_vec()),
        other => panic!("unexpected {:?}", other),
    }
    assert!(matches!(r.poll_next(), Poll::Pending));
    assert!(matches!(r.poll_next(), Poll::Ready(None)));
}

#[test]
fn lending_reader_shows_frames_in_place() {
    let mut r = LendReader::new(vec![b"ab\ncd\n".to_vec()], 8);
    let first = r.next().map(|x| x.map(|v| v.to_vec()));
    assert_eq!(first, Some(Ok(b"ab".to_vec())));
    let second = r.next().map(|x| x.map(|v| v.to_vec()));
    assert_eq!(second, Some(Ok(b"cd".to_vec())));
    assert!(r.next().is_none());
}

#[test]
fn lending_reader_reports_too_large() {
    let mut r = LendReader::new(vec![vec![b'a'; 9]], 4);
    assert_eq!(r.next(), Some(Err(FrameError::FrameTooLarge)));
}

#[test]
fn framer_lends_and_takes_back() {
    let mut f = Framer::with_capacity(8);
    f.complete_read(b"ab\ncd\n");
    assert_eq!(f.lend_step(), LendStep::Frame(2));
    assert_eq!(f.lent(), b"ab");
    assert_eq!(f.pending_len(), 3);
    assert_eq!(f.lend_step(), LendStep::Frame(2));
    assert_eq!(f.lent(), b"cd");
    assert_eq!(f.lend_step(), LendStep::NeedRead(8));
}

#[test]
fn scripted_source_cuts_reads_to_space() {
    let mut s = ScriptedSource::new(vec![b"abcde".to_vec(), vec![], b"fg".to_vec()]);
    assert_eq!(s.read(2), b"ab".to_vec());
    assert_eq!(s.read(10), b"cde".to_vec());
    assert_eq!(s.read(10), b"fg".to_vec());
    assert_eq!(s.read(10), Vec::<u8>::new());
}

#[test]
fn buffer_scans_and_compacts() {
    let mut b = FrameBuffer::new(6);
    assert_eq!(b.capacity(), 6);
    b.record_write(b"ab\nc");
    assert_eq!(b.len(), 4);
    assert_eq!(b.free_space(), 2);
    assert_eq!(b.scan_delimiter(), Some(2));
    assert_eq!(b.copy_prefix(2), b"ab".to_vec());
    b.compact(3);
    assert_eq!(b.len(), 1);
    assert_eq!(b.prefix(1), b"c");
    assert_eq!(b.scan_delimiter(), None);
    b.compact(1);
    assert_eq!(b.len(), 0);
}

#[test]
fn poll_reader_gives_buffered_frames_without_pending() {
    let mut r = PollReader::new(vec![b"ab\ncd\n".to_vec()], 8);
    assert!(matches!(r.poll_next(), Poll::Pending));
    match r.poll_next() {
        Poll::Ready(Some(Ok(v))) => assert_eq!(v, b"ab".to_vec()),
        other => panic!("unexpected {:?}", other),
    }
    match r.poll_next() {
        Poll::Ready(Some(Ok(v))) => assert_eq!(v, b"cd".to_vec()),
        other => panic!("unexpected {:?}", other),
    }
}

#[test]
fn poll_reader_reports_full_buffer() {
    let mut r = PollReader::new(vec![vec![b'a'; 8], b"\n".to_vec()], 8);
    assert!(matches!(r.poll_next(), Poll::Pending));
    assert!(matches!(r.poll_next(), Poll::Ready(Some(Err(FrameError::FrameTooLarge)))));
    assert!(matches!(r.poll_next(), Poll::Ready(Some(Err(FrameError::FrameTooLarge)))));
}

#[test]
fn poll_reader_end_is_terminal() {
    let mut r = PollReader::new(vec![b"tail".to_vec()], 8);
    assert!(matches!(r.poll_next(), Poll::Pending));
    assert!(matches!(r.poll_next(), Poll::Pending));
    assert!(matches!(r.poll_next(), Poll::Ready(None)));
    assert!(matches!(r.poll_next(), Poll::Ready(None)));
    assert!(matches!(r.poll_next(), Poll::Ready(None)));
}

#[test]
fn pull_reader_end_is_terminal() {
    let mut r = PullReader::new(vec![b"x\ntail".to_vec()], 8);
    assert_eq!(r.next(), Some(Ok(b"x".to_vec())));
    assert_eq!(r.next(), None);
    assert_eq!(r.next(), None);
}
