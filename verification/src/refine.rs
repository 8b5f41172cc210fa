//! Sub-sample refinement of the integer period estimate.
//!
//! The corrected lag is integer-sample resolution.  This stage goes
//! back to the raw waveform, finds the first upward zero crossing of
//! the window and the one nearest the corrected lag, interpolates each
//! crossing linearly between the sample before and the sample at the
//! crossing, and returns the distance between the two crossings as an
//! exact fraction of samples.

use vstd::prelude::*;
use crate::zero_cross::{bounded, SAMPLE_LIMIT};

verus! {

/// A period measured in samples, as the exact fraction `num / den`.
/// The frequency in hertz is `samples_per_second * den / num`.
#[derive(Clone, Copy, Debug, PartialEq, Eq, Structural)]
pub struct Period {
    pub num: i64,
    pub den: i64,
}

/// The first index at or after `i` whose sample is positive, or the
/// window length when no such index exists.
pub open spec fn find_pos(s: Seq<i64>, i: int) -> int
    decreases s.len() - i,
{
    if i < 0 || i >= s.len() {
        s.len() as int
    } else if s[i] > 0 {
        i
    } else {
        find_pos(s, i + 1)
    }
}

/// The refined period for a window and a corrected lag, or `None`
/// when the lag reaches the window bounds, a scan finds no upward
/// crossing, or the interpolated distance degenerates to zero or
/// below.
///
/// The second scan starts one sample before the lag; when it crosses
/// immediately, the sample preceding the first crossing serves as its
/// interpolation partner, the latest one the scans have seen.
pub open spec fn refine_spec(s: Seq<i64>, est: int) -> Option<(int, int)> {
    if est >= s.len() {
        None
    } else {
        let j1 = find_pos(s, 0);
        if j1 >= s.len() {
            None
        } else {
            let prev1: int = if j1 == 0 {
                0
            } else {
                s[j1 - 1] as int
            };
            let j2 = find_pos(s, est - 1);
            if j2 >= s.len() {
                None
            } else {
                let prev2: int = if j2 == est - 1 {
                    prev1
                } else {
                    s[j2 - 1] as int
                };
                let b1 = s[j1] - prev1;
                let b2 = s[j2] - prev2;
                let num = (j2 - j1) * b1 * b2 + (0 - prev2) * b1 - (0 - prev1) * b2;
                if num <= 0 {
                    None
                } else {
                    Some((num, b1 * b2))
                }
            }
        }
    }
}

/// A window with no positive sample past `i` has no crossing there.
pub proof fn lemma_find_pos_none(s: Seq<i64>, i: int)
    requires
        forall|j: int| i <= j < s.len() ==> #[trigger] s[j] <= 0,
    ensures
        find_pos(s, i) == s.len(),
    decreases s.len() - i,
{
    if 0 <= i < s.len() {
        lemma_find_pos_none(s, i + 1);
    }
}

/// A strictly non-positive window refines to "undetermined" whatever
/// the lag: no upward zero crossing exists to interpolate.
pub proof fn lemma_no_crossing_undetermined(s: Seq<i64>, est: int)
    requires
        forall|j: int| 0 <= j < s.len() ==> #[trigger] s[j] <= 0,
    ensures
        refine_spec(s, est) is None,
{
    lemma_find_pos_none(s, 0);
}

/// A corrected lag at or beyond the window yields "undetermined".
pub proof fn lemma_lag_at_window_edge(s: Seq<i64>, est: int)
    requires
        est >= s.len(),
    ensures
        refine_spec(s, est) is None,
{
}

/// Everything the scans establish about a found crossing: position,
/// positivity, and the non-positive run before it.
proof fn lemma_find_pos_props(s: Seq<i64>, i: int)
    requires
        0 <= i <= s.len(),
    ensures
        i <= find_pos(s, i) <= s.len(),
        find_pos(s, i) < s.len() ==> s[find_pos(s, i)] > 0,
        forall|j: int| i <= j < find_pos(s, i) ==> #[trigger] s[j] <= 0,
    decreases s.len() - i,
{
    if i < s.len() && !(s[i] > 0) {
        lemma_find_pos_props(s, i + 1);
    }
}

/// Walk forward from `from` to the first positive sample.  Returns
/// its index (or the window length when there is none) together with
/// the last non-positive sample passed over, `prev0` when the very
/// first sample was already positive.
fn scan_edge(signal: &[i64], from: usize, prev0: i64) -> (r: (usize, i64))
    requires
        from < signal@.len(),
    ensures
        r.0 as int == find_pos(signal@, from as int),
        r.0 < signal@.len() ==> signal@[r.0 as int] > 0,
        r.0 < signal@.len() ==> r.1 == (if r.0 == from {
            prev0
        } else {
            signal@[r.0 as int - 1]
        }),
        forall|j: int| from <= j < r.0 ==> #[trigger] signal@[j] <= 0,
{
    let n: usize = signal.len();
    let mut i: usize = from;
    let mut prev: i64 = prev0;
    let mut cur: i64 = signal[i];
    while cur <= 0
        invariant
            n == signal@.len(),
            from <= i < signal@.len(),
            cur == signal@[i as int],
            prev == (if i == from {
                prev0
            } else {
                signal@[i as int - 1]
            }),
            forall|j: int| from <= j < i ==> #[trigger] signal@[j] <= 0,
            find_pos(signal@, from as int) == find_pos(signal@, i as int),
        decreases signal@.len() - i,
    {
        prev = cur;
        i = i + 1;
        if i >= n {
            proof {
                lemma_find_pos_none(signal@, i as int);
            }
            return (n, prev);
        }
        cur = signal[i];
    }
    (i, prev)
}

/// Refine a corrected integer lag to a fractional period using the
/// raw waveform, by locating the upward zero crossing nearest the
/// start of the window and the one nearest the lag and interpolating
/// both linearly.  Returns `None` when the lag reaches the window
/// bounds, when either scan runs out of samples, or when the measured
/// distance degenerates to zero or below.
pub fn estimate_pitch_with_index(signal: &[i64], est_index: usize) -> (r: Option<Period>)
    requires
        bounded(signal@),
        signal@.len() <= 65536,
        1 <= est_index,
    ensures
        match r {
            Some(p) => {
                &&& refine_spec(signal@, est_index as int) == Some((p.num as int, p.den as int))
                &&& 1 <= p.num
                &&& 1 <= p.den
            },
            None => refine_spec(signal@, est_index as int) is None,
        },
{
    let ghost s = signal@;
    if est_index >= signal.len() {
        return None;
    }
    let (j1, prev1) = scan_edge(signal, 0, 0);
    if j1 >= signal.len() {
        return None;
    }
    let start_edge: i64 = signal[j1];
    let dy1: i64 = start_edge - prev1;

    let (j2, prev2) = scan_edge(signal, est_index - 1, prev1);
    if j2 >= signal.len() {
        return None;
    }
    let next_edge: i64 = signal[j2];

    proof {
        lemma_find_pos_props(s, 0);
        lemma_find_pos_props(s, est_index - 1);
        assert(j2 >= j1);
        assert(-SAMPLE_LIMIT <= prev1 <= 0);
        assert(-SAMPLE_LIMIT <= prev2 <= 0);
    }
    let dy2: i64 = next_edge - prev2;
    let d: i64 = (j2 - j1) as i64;
    proof {
        assert(1 <= dy1 <= 2 * SAMPLE_LIMIT);
        assert(1 <= dy2 <= 2 * SAMPLE_LIMIT);
        assert(0 <= d <= 65536);
        lemma_interpolation_in_range(d as int, dy1 as int, dy2 as int, prev1 as int, prev2 as int);
    }
    let t1: i64 = d * dy1;
    let t2: i64 = t1 * dy2;
    let t3: i64 = (0 - prev2) * dy1;
    let t4: i64 = (0 - prev1) * dy2;
    let num: i64 = t2 + t3 - t4;
    let den: i64 = dy1 * dy2;
    if num <= 0 {
        return None;
    }
    Some(Period { num, den })
}

/// The interpolation products of bounded samples stay far inside the
/// 64-bit range.
proof fn lemma_interpolation_in_range(d: int, b1: int, b2: int, p1: int, p2: int)
    requires
        0 <= d <= 65536,
        1 <= b1 <= 2 * SAMPLE_LIMIT,
        1 <= b2 <= 2 * SAMPLE_LIMIT,
        -SAMPLE_LIMIT <= p1 <= 0,
        -SAMPLE_LIMIT <= p2 <= 0,
    ensures
        0 <= d * b1 <= 262_144_000_000,
        0 <= d * b1 * b2 <= 1_048_576_000_000_000_000,
        0 <= (0 - p2) * b1 <= 8_000_000_000_000,
        0 <= (0 - p1) * b2 <= 8_000_000_000_000,
        1 <= b1 * b2 <= 16_000_000_000_000,
{
    assert(0 <= d * b1 <= 65536 * 4_000_000) by (nonlinear_arith)
        requires
            0 <= d <= 65536,
            1 <= b1 <= 4_000_000,
    ;
    assert(0 <= (d * b1) * b2 <= 262_144_000_000 * 4_000_000) by (nonlinear_arith)
        requires
            0 <= d * b1 <= 262_144_000_000,
            1 <= b2 <= 4_000_000,
    ;
    assert(0 <= (0 - p2) * b1 <= 2_000_000 * 4_000_000) by (nonlinear_arith)
        requires
            0 <= (0 - p2) <= 2_000_000,
            1 <= b1 <= 4_000_000,
    ;
    assert(0 <= (0 - p1) * b2 <= 2_000_000 * 4_000_000) by (nonlinear_arith)
        requires
            0 <= (0 - p1) <= 2_000_000,
            1 <= b2 <= 4_000_000,
    ;
    assert(1 <= b1 * b2 <= 4_000_000 * 4_000_000) by (nonlinear_arith)
        requires
            1 <= b1 <= 4_000_000,
            1 <= b2 <= 4_000_000,
    ;
}

} // verus!
