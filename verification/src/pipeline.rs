//! The full pitch estimate: binarize the window, autocorrelate the
//! bitstream, correct the raw lag for octave errors, and refine the
//! corrected lag on the raw waveform.  "Undetermined" (`None`) is the
//! sole non-success outcome, the expected answer for silence or noise.

use vstd::prelude::*;
use crate::bitstream::Bitstream;
use crate::config::Config;
use crate::correlate::{best_lag, corr_table, worst_count};
use crate::harmonics::corrected_lag;
use crate::refine::{
    estimate_pitch_with_index, lemma_no_crossing_undetermined, refine_spec, Period,
};
use crate::zero_cross::{bounded, zc_run, ZeroCross};

verus! {

/// The binarized window: bit `i` is the detector state after the
/// samples up to and including `i`, starting low.
pub open spec fn binarized(s: Seq<i64>) -> Seq<bool> {
    Seq::new(s.len(), |i: int| zc_run(s, i + 1))
}

/// The whole pipeline as a function of the configuration and the
/// window alone: the refined period fraction, or `None`.
pub open spec fn pipeline_spec(cfg: Config, s: Seq<i64>) -> Option<(int, int)> {
    let bits = binarized(s);
    let minp = cfg.min_period as int;
    let t = corr_table(bits, cfg, minp);
    let raw = best_lag(bits, cfg, minp);
    let maxc = worst_count(bits, cfg, minp);
    refine_spec(s, corrected_lag(t, maxc, raw, minp))
}

/// `r` is the pipeline's answer for the window `s`: the same period
/// fraction, or `None` together.
pub open spec fn is_pipeline_result(cfg: Config, s: Seq<i64>, r: Option<Period>) -> bool {
    match r {
        Some(p) => pipeline_spec(cfg, s) == Some((p.num as int, p.den as int)) && p.num >= 1
            && p.den >= 1,
        None => pipeline_spec(cfg, s) is None,
    }
}

impl Bitstream {
    /// Estimate the fundamental period of one window of exactly
    /// `buff_size` samples.  Returns the refined period as an exact
    /// fraction of samples, or `None` when no pitch can be determined.
    pub fn estimate_pitch(cfg: &Config, signal: &[i64]) -> (r: Option<Period>)
        requires
            cfg.wf(),
            signal@.len() == cfg.buff_size,
            bounded(signal@),
        ensures
            is_pipeline_result(*cfg, signal@, r),
    {
        let mut zc = ZeroCross::new();
        let mut bs = Bitstream::new(*cfg);
        let mut i: usize = 0;
        while i < cfg.buff_size
            invariant
                cfg.wf(),
                bs.wf(),
                bs.config() == *cfg,
                signal@.len() == cfg.buff_size,
                i <= cfg.buff_size,
                zc.state() == zc_run(signal@, i as int),
                forall|k: int| 0 <= k < i ==> bs@[k] == binarized(signal@)[k],
            decreases cfg.buff_size - i,
        {
            let b = zc.run(signal[i]);
            bs.set(i, b);
            i = i + 1;
        }
        proof {
            assert(bs@ =~= binarized(signal@));
        }
        let (count, est_index, corr) = bs.autocorrelate(cfg.min_period);
        let est_index = Bitstream::handle_harmonics(cfg, count, est_index, &corr);
        estimate_pitch_with_index(signal, est_index)
    }
}

/// Determinism: the estimate depends on the window and the
/// configuration alone, so two answers for the same window agree,
/// lag, table and period fraction alike.
pub proof fn lemma_estimate_deterministic(
    cfg: Config,
    s: Seq<i64>,
    r1: Option<Period>,
    r2: Option<Period>,
)
    requires
        is_pipeline_result(cfg, s, r1),
        is_pipeline_result(cfg, s, r2),
    ensures
        r1 == r2,
{
}

/// A strictly non-positive window, one that never crosses above zero,
/// yields "undetermined": the refiner finds no upward crossing,
/// whatever lag the earlier stages settle on.
pub proof fn lemma_silent_window_undetermined(cfg: Config, s: Seq<i64>)
    requires
        forall|j: int| 0 <= j < s.len() ==> #[trigger] s[j] <= 0,
    ensures
        pipeline_spec(cfg, s) is None,
{
    let bits = binarized(s);
    let minp = cfg.min_period as int;
    let t = corr_table(bits, cfg, minp);
    lemma_no_crossing_undetermined(
        s,
        corrected_lag(t, worst_count(bits, cfg, minp), best_lag(bits, cfg, minp), minp),
    );
}

} // verus!
