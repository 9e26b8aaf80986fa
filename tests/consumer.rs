use json_line_parser::adapters::{AfitAsyncIter, Poll, PollNextAsyncIter};
use json_line_parser::forward::{PollStream, StringStream};
use json_line_parser::framer::FrameError;
use json_line_parser::message::{Counter, Flow, Message};
use json_line_parser::pages::{PageAction, Pager};

#[test]
fn counter_sums_greetings() {
    let mut c = Counter::new();
    assert_eq!(c.on_item(Some(Ok(Message::Hello("Hello".to_string(), 12)))), Flow::Continue);
    assert_eq!(c.on_item(Some(Ok(Message::Ping))), Flow::Continue);
    assert_eq!(c.on_item(Some(Ok(Message::Hello("x".to_string(), 30)))), Flow::Continue);
    assert_eq!(c.on_item(None), Flow::Done(42));
    assert_eq!(c.total(), 42);
}

#[test]
fn counter_with_no_messages() {
    let mut c = Counter::new();
    assert_eq!(c.on_item(None), Flow::Done(0));
}

#[test]
fn counter_stops_on_error() {
    let mut c = Counter::new();
    c.record(&Message::Hello("a".to_string(), 5));
    assert_eq!(c.on_item(Some(Err(FrameError::MalformedFrame))), Flow::Failed(FrameError::MalformedFrame));
    assert_eq!(c.total(), 5);
}

#[test]
fn counter_adds_largest_counts() {
    let mut c = Counter::new();
    for _ in 0..5 {
        c.record(&Message::Hello("a".to_string(), u32::MAX));
    }
    assert_eq!(c.total(), 5 * u32::MAX as u64);
}

#[test]
fn pager_walks_pages() {
    let mut p: Pager<u32> = Pager::new();
    assert!(matches!(p.next_action(), PageAction::Fetch(0)));
    p.page_arrived(vec![10, 11], true);
    assert!(matches!(p.next_action(), PageAction::Yield(10)));
    assert!(matches!(p.next_action(), PageAction::Yield(11)));
    assert!(matches!(p.next_action(), PageAction::Fetch(1)));
    p.page_arrived(vec![], true);
    assert!(matches!(p.next_action(), PageAction::Fetch(2)));
    p.page_arrived(vec![12], false);
    assert!(matches!(p.next_action(), PageAction::Yield(12)));
    assert!(matches!(p.next_action(), PageAction::Done));
    assert!(matches!(p.next_action(), PageAction::Done));
}

#[test]
fn string_stream_counts_down() {
    let mut s = StringStream::new(2);
    assert_eq!(s.next(), Some("Hello world".to_string()));
    assert_eq!(s.next(), Some("Hello world".to_string()));
    assert_eq!(s.next(), None);
    assert_eq!(s.next(), None);
}

#[test]
fn poll_stream_counts_down() {
    let mut s = PollStream::new(1);
    assert!(matches!(s.poll_next(), Poll::Ready(Some(ref x)) if x == "Hello world"));
    assert!(matches!(s.poll_next(), Poll::Ready(None)));
}

#[test]
fn counter_stops_on_transport_failure() {
    let mut c = Counter::new();
    assert_eq!(c.on_item(Some(Err(FrameError::Transport))), Flow::Failed(FrameError::Transport));
    assert_eq!(c.total(), 0);
}
