//! Octave-error correction of the raw period estimate.
//!
//! A lag that is an integer multiple of the true period can win the
//! autocorrelation when the signal has strong low harmonics.  The
//! corrector walks candidate divisors from large to small and accepts
//! the first divisor whose intermediate "echo" lags all show strong
//! self-similarity, evidence that the signal truly repeats at the
//! shorter period.

use vstd::prelude::*;
use vstd::arithmetic::div_mod::{
    lemma_div_is_ordered, lemma_div_is_ordered_by_denominator, lemma_div_multiples_vanish,
    lemma_div_nonincreasing, lemma_div_pos_is_pos, lemma_fundamental_div_mod,
};
use crate::bitstream::Bitstream;
use crate::config::Config;

verus! {

/// A lag is strongly periodic when its distance is at most 15% of the
/// worst distance seen: `t[l] <= 0.15 * maxc`, stated exactly over
/// integers as `20 * t[l] <= 3 * maxc`.
pub open spec fn strong(t: Seq<u32>, maxc: u32, l: int) -> bool {
    20 * t[l] <= 3 * (maxc as int)
}

/// The echo lag checked for divisor `div` at step `k`: the candidate
/// period `raw / div`, offset by `k`.
pub open spec fn sub_lag(raw: int, div: int, k: int) -> int {
    k + raw / div
}

/// Divisor `div` validates when every echo lag between the candidate
/// period and the raw lag is strongly periodic.
pub open spec fn passes(t: Seq<u32>, maxc: u32, raw: int, div: int) -> bool {
    forall|k: int| 1 <= k < div ==> strong(t, maxc, #[trigger] sub_lag(raw, div, k))
}

/// The corrected lag, searching divisors from `div` down to 1 and
/// taking the first that validates; divisor 1 validates vacuously, so
/// the raw lag itself is the last resort.
pub open spec fn corrected_from(t: Seq<u32>, maxc: u32, raw: int, div: int) -> int
    decreases div,
{
    if div < 1 {
        raw
    } else if passes(t, maxc, raw, div) {
        raw / div
    } else {
        corrected_from(t, maxc, raw, div - 1)
    }
}

/// The corrected lag for a raw estimate: divisors start below
/// `raw / min_period`, so no candidate period falls under the
/// supported minimum.
pub open spec fn corrected_lag(t: Seq<u32>, maxc: u32, raw: int, minp: int) -> int {
    corrected_from(t, maxc, raw, raw / minp - 1)
}

/// A validated divisor keeps the candidate period at or above the
/// supported minimum: `raw / div >= minp` when `div < raw / minp`.
proof fn lemma_candidate_at_least_min(raw: int, div: int, minp: int)
    requires
        1 <= div,
        2 <= minp,
        div < raw / minp,
        0 <= raw,
    ensures
        minp <= raw / div <= raw,
{
    lemma_fundamental_div_mod(raw, minp);
    assert((div + 1) * minp <= (raw / minp) * minp) by (nonlinear_arith)
        requires
            div + 1 <= raw / minp,
            0 <= minp,
    ;
    assert(div * minp + minp <= raw) by (nonlinear_arith)
        requires
            (div + 1) * minp <= (raw / minp) * minp,
            raw == minp * (raw / minp) + raw % minp,
            0 <= raw % minp,
    ;
    lemma_div_is_ordered(div * minp, raw, div);
    lemma_div_multiples_vanish(minp, div);
    lemma_div_nonincreasing(raw, div);
}

/// Every echo lag examined stays inside the correlation table.
proof fn lemma_sub_lag_in_table(raw: int, div: int, k: int, minp: int, len: int)
    requires
        2 <= div,
        1 <= k < div,
        2 <= minp,
        div < raw / minp,
        0 <= raw < len,
    ensures
        0 <= sub_lag(raw, div, k) < len,
{
    lemma_div_pos_is_pos(raw, div);
    lemma_div_is_ordered_by_denominator(raw, 2, div);
    lemma_div_is_ordered_by_denominator(raw, 2, minp);
    lemma_fundamental_div_mod(raw, 2);
}

impl Bitstream {
    /// Resolve octave errors: walk divisors of the raw lag from the
    /// largest possible down to 1 and return the candidate period of
    /// the first divisor whose echo lags are all strongly periodic.
    /// When no shorter period is supported, the raw lag is returned
    /// unchanged.
    pub fn handle_harmonics(
        cfg: &Config,
        max_count: u32,
        est_index: usize,
        corr: &Vec<u32>,
    ) -> (r: usize)
        requires
            cfg.wf(),
            corr@.len() == cfg.mid_pos,
            est_index < cfg.mid_pos,
        ensures
            r as int == corrected_lag(corr@, max_count, est_index as int, cfg.min_period as int),
            r <= est_index,
            r == est_index || cfg.min_period <= r,
    {
        let ghost t = corr@;
        let ghost raw = est_index as int;
        let ghost minp = cfg.min_period as int;
        let max_div: usize = est_index / cfg.min_period;
        if max_div < 1 {
            return est_index;
        }
        let mut div: usize = max_div - 1;
        while div >= 2
            invariant
                cfg.wf(),
                t == corr@,
                raw == est_index as int,
                minp == cfg.min_period as int,
                max_div == raw / minp,
                1 <= max_div,
                1 <= div <= max_div - 1 || (div == 0 && max_div == 1),
                corr@.len() == cfg.mid_pos,
                est_index < cfg.mid_pos,
                corrected_from(t, max_count, raw, raw / minp - 1) == corrected_from(
                    t,
                    max_count,
                    raw,
                    div as int,
                ),
            decreases div,
        {
            let candidate: usize = est_index / div;
            proof {
                lemma_candidate_at_least_min(raw, div as int, minp);
            }
            let mut k: usize = 1;
            let mut all_strong: bool = true;
            while k < div && all_strong
                invariant
                    2 <= div,
                    div < raw / minp,
                    corr@.len() == cfg.mid_pos,
                    0 <= raw < corr@.len(),
                    2 <= minp,
                    t == corr@,
                    raw == est_index as int,
                    candidate as int == raw / (div as int),
                    1 <= k <= div,
                    all_strong ==> forall|j: int|
                        1 <= j < k ==> strong(t, max_count, #[trigger] sub_lag(
                            raw,
                            div as int,
                            j,
                        )),
                    !all_strong ==> !passes(t, max_count, raw, div as int),
                decreases div - k + (if all_strong {
                    1int
                } else {
                    0int
                }),
            {
                proof {
                    lemma_sub_lag_in_table(
                        raw,
                        div as int,
                        k as int,
                        minp,
                        corr@.len() as int,
                    );
                    assert(sub_lag(raw, div as int, k as int) == k as int + candidate as int);
                }
                let sub_period: usize = k + candidate;
                if (corr[sub_period] as u64) * 20 > (max_count as u64) * 3 {
                    proof {
                        assert(!strong(t, max_count, sub_lag(raw, div as int, k as int)));
                    }
                    all_strong = false;
                } else {
                    k = k + 1;
                }
            }
            if all_strong {
                proof {
                    assert(passes(t, max_count, raw, div as int));
                }
                return candidate;
            }
            div = div - 1;
        }
        proof {
            assert(passes(t, max_count, raw, 1));
            if div == 1 {
                assert(corrected_from(t, max_count, raw, 1) == raw / 1);
            }
            assert(raw / 1 == raw);
        }
        est_index
    }
}

/// When the raw lag is already the true period, correction keeps it:
/// if no divisor of two or more validates, the corrected lag is the
/// raw lag unchanged.
pub proof fn lemma_correction_keeps_true_period(t: Seq<u32>, maxc: u32, raw: int, minp: int)
    requires
        0 <= raw,
        1 <= minp,
        forall|d: int| 2 <= d < raw / minp ==> !passes(t, maxc, raw, d),
    ensures
        corrected_lag(t, maxc, raw, minp) == raw,
{
    assert(raw / 1 == raw);
    lemma_corrected_from_identity(t, maxc, raw, raw / minp - 1);
}

/// Search below a failing range falls through to divisor 1, which
/// returns the raw lag.
proof fn lemma_corrected_from_identity(t: Seq<u32>, maxc: u32, raw: int, div: int)
    requires
        0 <= raw,
        forall|d: int| 2 <= d <= div ==> !passes(t, maxc, raw, d),
    ensures
        corrected_from(t, maxc, raw, div) == raw,
    decreases div,
{
    assert(raw / 1 == raw);
    if div >= 2 {
        lemma_corrected_from_identity(t, maxc, raw, div - 1);
    }
}

} // verus!
