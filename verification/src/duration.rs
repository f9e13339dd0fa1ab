//! Lengths of time in whole seconds.

use vstd::prelude::*;

verus! {

#[derive(Debug, Clone, Copy, PartialEq, Eq, Structural)]
pub struct Duration {
    seconds: u64,
}

impl View for Duration {
    type V = nat;

    closed spec fn view(&self) -> nat {
        self.seconds as nat
    }
}

impl Duration {
    pub fn from_secs(seconds: u64) -> (r: Duration)
        ensures
            r@ == seconds,
    {
        Duration { seconds }
    }

    pub fn as_secs(&self) -> (r: u64)
        ensures
            r == self@,
    {
        self.seconds
    }

    pub fn is_zero(&self) -> (r: bool)
        ensures
            r == (self@ == 0),
    {
        self.seconds == 0
    }
}

} // verus!
