//! Cancelling a search from outside: a flag that other threads set and
//! the search looks at.

use vstd::prelude::*;
use std::sync::atomic::AtomicBool;
use std::sync::atomic::Ordering;

verus! {

/// The flag, and whether the search has seen it set.
pub struct StopToken<'a> {
    pub flag: &'a AtomicBool,
    pub seen: bool,
}

impl<'a> StopToken<'a> {
    pub fn new(flag: &'a AtomicBool) -> (token: Self)
        ensures
            token.flag == flag,
            !token.seen,
    {
        Self { flag, seen: false }
    }

    /// Looks at the flag. Once it was seen set, the token remembers.
    pub fn poll(&mut self) -> (stop: bool)
        ensures
            final(self).seen == (old(self).seen || stop),
            final(self).flag == old(self).flag,
    {
        let stop = self.flag.load(Ordering::Relaxed);
        if stop {
            self.seen = true;
        }
        stop
    }

    /// Sets the flag: the search is to stop.
    pub fn stop(&self) {
        self.flag.store(true, Ordering::Relaxed);
    }
}

} // verus!
