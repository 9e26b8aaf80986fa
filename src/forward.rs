//! Fixed-length sources of greetings, in the pull and the poll shape.
use vstd::prelude::*;

use crate::adapters::{AfitAsyncIter, Poll, PollNextAsyncIter};

verus! {

/// Pull source that yields `"Hello world"` a given number of times.
pub struct StringStream {
    count: usize,
}

impl StringStream {
    /// Number of greetings still to come.
    pub closed spec fn left(&self) -> usize {
        self.count
    }

    pub fn new(count: usize) -> (r: StringStream)
        ensures
            r.left() == count,
    {
        StringStream { count }
    }
}

impl AfitAsyncIter for StringStream {
    type Item = String;

    open spec fn wf(&self) -> bool {
        true
    }

    fn next(&mut self) -> (r: Option<String>)
        ensures
            old(self).left() == 0 ==> r is None && final(self).left() == 0,
            old(self).left() > 0 ==> (r matches Some(s) && s@ == "Hello world"@ 
                && final(self).left() == old(self).left() - 1),
    {
        if self.count == 0 {
            None
        } else {
            self.count = self.count - 1;
            Some(String::from_str("Hello world"))
        }
    }
}

/// Poll source that is always ready and yields `"Hello world"` a given
/// number of times.
pub struct PollStream {
    count: usize,
}

impl PollStream {
    /// Number of greetings still to come.
    pub closed spec fn left(&self) -> usize {
        self.count
    }

    pub fn new(count: usize) -> (r: PollStream)
        ensures
            r.left() == count,
    {
        PollStream { count }
    }
}

impl PollNextAsyncIter for PollStream {
    type Item = String;

    open spec fn wf(&self) -> bool {
        true
    }

    fn poll_next(&mut self) -> (r: Poll<Option<String>>)
        ensures
            old(self).left() == 0 ==> (r matches Poll::Ready(None) && final(self).left() == 0),
            old(self).left() > 0 ==> (r matches Poll::Ready(Some(s)) && s@ == "Hello world"@
                && final(self).left() == old(self).left() - 1),
    {
        if self.count == 0 {
            Poll::Ready(None)
        } else {
            self.count = self.count - 1;
            Poll::Ready(Some(String::from_str("Hello world")))
        }
    }
}

} // verus!
