//! Hysteresis zero-cross detector: binarizes a sample stream with a
//! deadband so that low-amplitude noise near the axis does not chatter.

use vstd::prelude::*;

verus! {

/// Fixed-point amplitude of one: samples are integers counted in
/// millionths of full scale.
pub const SAMPLE_UNIT: i64 = 1_000_000;

/// Largest sample magnitude the analysis accepts, twice full scale.
/// Keeping samples within this bound keeps the interpolation
/// arithmetic far from overflow.
pub const SAMPLE_LIMIT: i64 = 2_000_000;

/// The lower hysteresis threshold, one tenth of full scale below zero.
/// A sample under it drives the detector low; only a sample above zero
/// drives it high; in between the detector holds its state.
pub const LOW_THRESHOLD: i64 = -100_000;

/// Every sample of the window lies within `SAMPLE_LIMIT`.
pub open spec fn bounded(s: Seq<i64>) -> bool {
    forall|i: int| 0 <= i < s.len() ==> -SAMPLE_LIMIT <= #[trigger] s[i] <= SAMPLE_LIMIT
}

/// One step of the detector: the state after seeing sample `s` from
/// state `prev`.
pub open spec fn zc_step(prev: bool, s: i64) -> bool {
    if s > 0 {
        true
    } else if s < LOW_THRESHOLD {
        false
    } else {
        prev
    }
}

/// The detector state after the first `n` samples of `s`, starting low.
pub open spec fn zc_run(s: Seq<i64>, n: int) -> bool
    decreases n,
{
    if n <= 0 {
        false
    } else {
        zc_step(zc_run(s, n - 1), s[n - 1])
    }
}

/// A 1-bit latch with hysteresis, fed one sample at a time.
#[derive(Clone, Copy, Debug)]
pub struct ZeroCross {
    y: bool,
}

impl ZeroCross {
    /// The latched state.
    pub closed spec fn state(self) -> bool {
        self.y
    }

    /// A fresh detector starts low.
    pub fn new() -> (r: Self)
        ensures
            r.state() == false,
    {
        ZeroCross { y: false }
    }

    /// Feed one sample and return the (possibly updated) state.
    pub fn run(&mut self, s: i64) -> (b: bool)
        ensures
            final(self).state() == zc_step(old(self).state(), s),
            b == final(self).state(),
    {
        if s < LOW_THRESHOLD {
            self.y = false
        }
        if s > 0 {
            self.y = true
        }
        self.y
    }
}

} // verus!
