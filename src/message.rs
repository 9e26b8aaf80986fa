//! Decoded application messages and the consumer loop that aggregates them.
use vstd::prelude::*;

use crate::framer::FrameError;

verus! {

/// An application message: a ping, or a greeting carrying a text and a count.
#[derive(Clone, Debug, PartialEq, Eq)]
pub enum Message {
    Ping,
    Hello(String, u32),
}

/// The amount a message adds to the running total.
pub open spec fn count_of(m: Message) -> nat {
    match m {
        Message::Ping => 0,
        Message::Hello(_, c) => c as nat,
    }
}

/// `t + c`, held at `u64::MAX` if it would go beyond.
pub open spec fn capped_add(t: int, c: int) -> int {
    if t + c > u64::MAX {
        u64::MAX as int
    } else {
        t + c
    }
}

/// What the consumer loop does after an item.
#[derive(Clone, Copy, Debug, PartialEq, Eq, Structural)]
pub enum Flow {
    /// Pull the next item.
    Continue,
    /// The sequence ended cleanly; the total so far is the result.
    Done(u64),
    /// A fatal error ended the sequence; no further pulls are made.
    Failed(FrameError),
}

/// The consumer loop's state: the sum of the counts of the greetings seen,
/// held at `u64::MAX` if it would go beyond.
pub struct Counter {
    total: u64,
}

impl Counter {
    pub closed spec fn total_spec(&self) -> u64 {
        self.total
    }

    pub fn new() -> (r: Counter)
        ensures
            r.total_spec() == 0,
    {
        Counter { total: 0 }
    }

    pub fn total(&self) -> (r: u64)
        ensures
            r == self.total_spec(),
    {
        self.total
    }

    /// Adds a message's count to the total.
    pub fn record(&mut self, m: &Message)
        ensures
            final(self).total_spec() == capped_add(old(self).total_spec() as int, count_of(*m) as int),
    {
        match m {
            Message::Ping => {},
            Message::Hello(_, c) => {
                let c = *c as u64;
                if u64::MAX - self.total < c {
                    self.total = u64::MAX;
                } else {
                    self.total = self.total + c;
                }
            },
        }
    }

    /// Handles one outcome of a pull: a message is counted and the loop goes
    /// on; the end of the sequence gives the total; an error stops the loop.
    pub fn on_item(&mut self, item: Option<Result<Message, FrameError>>) -> (r: Flow)
        ensures
            match item {
                Some(Ok(m)) => r == Flow::Continue && final(self).total_spec() == capped_add(
                    old(self).total_spec() as int,
                    count_of(m) as int,
                ),
                Some(Err(e)) => r == Flow::Failed(e) && final(self).total_spec() == old(
                    self,
                ).total_spec(),
                None => r == Flow::Done(old(self).total_spec()) && final(self).total_spec() == old(
                    self,
                ).total_spec(),
            },
    {
        match item {
            Some(Ok(m)) => {
                self.record(&m);
                Flow::Continue
            },
            Some(Err(e)) => Flow::Failed(e),
            None => Flow::Done(self.total),
        }
    }
}

} // verus!
