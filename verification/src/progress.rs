//! How far the input has been read.
use vstd::prelude::*;

verus! {

/// Counts the bytes read from the input.
#[derive(Debug)]
pub struct ByteCounter {
    count: u64,
}

impl ByteCounter {
    /// How many bytes were read.
    pub closed spec fn count(&self) -> u64 {
        self.count
    }

    /// No byte read yet.
    pub fn new() -> (r: ByteCounter)
        ensures
            r.count() == 0,
    {
        ByteCounter { count: 0 }
    }

    /// How many bytes were read.
    pub fn total(&self) -> (total: u64)
        ensures
            total == self.count(),
    {
        self.count
    }

    /// Notes that `n` more bytes were read, and gives the position reached; `None` where there
    /// were none, since there is nothing new to show.
    pub fn record(&mut self, n: usize) -> (position: Option<u64>)
        requires
            old(self).count() + n <= u64::MAX,
        ensures
            final(self).count() == old(self).count() + n,
            position == (if n > 0 {
                Some(final(self).count())
            } else {
                None
            }),
    {
        if n > 0 {
            self.count = self.count + n as u64;
            Some(self.count)
        } else {
            None
        }
    }
}

} // verus!
