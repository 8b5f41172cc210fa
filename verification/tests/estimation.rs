use std::f32::consts::PI;

use clituner::bitstream::Bitstream;
use clituner::config::get_smallest_pow2;
use clituner::config::Config;
use clituner::refine::estimate_pitch_with_index;
use clituner::refine::Period;
use clituner::zero_cross::ZeroCross;
use clituner::zero_cross::SAMPLE_UNIT;

const FREQ: f32 = 261.626;

/// Samples are fixed-point millionths of full scale.
fn to_fixed(x: f32) -> i64 {
    (x as f64 * SAMPLE_UNIT as f64).round() as i64
}

/// The 3-harmonic synthetic tone at 261.626 Hz used throughout:
/// components at 1x/2x/3x the fundamental, weights 0.3/0.4/0.3.
fn generate_input() -> Vec<i64> {
    let cfg = Config::default();
    let period = cfg.samples_per_second as f32 / FREQ;
    let mut v: Vec<i64> = Vec::with_capacity(cfg.buff_size);
    for x in 0..cfg.buff_size {
        let angle = x as f32 / period;
        let first_harmonic = 0.3 * (2.0 * PI * angle).sin();
        let second_harmonic = 0.4 * (4.0 * PI * angle).sin();
        let third_harmonic = 0.3 * (6.0 * PI * angle).sin();
        v.push(to_fixed(first_harmonic + second_harmonic + third_harmonic));
    }
    v
}

fn binarize(cfg: &Config, signal: &[i64]) -> Bitstream {
    let mut zc = ZeroCross::new();
    let mut bs = Bitstream::new(*cfg);
    for i in 0..cfg.buff_size {
        let b = zc.run(signal[i]);
        bs.set(i, b);
    }
    bs
}

fn frequency_hz(p: Period, samples_per_second: usize) -> f32 {
    let n_samples = p.num as f64 / p.den as f64;
    samples_per_second as f32 / n_samples as f32
}

#[test]
fn test_get_smallest_pow2() {
    assert_eq!(get_smallest_pow2(3), 4);
    assert_eq!(get_smallest_pow2(1200), 2048);
}

#[test]
fn test_bitstream() {
    let mut bs = Bitstream::new(Config::default());
    let i = 7;
    bs.set(i, true);
    assert_eq!(bs.get(i), true);
    assert_eq!(bs.get(6), false);
    assert_eq!(bs.get(8), false);
    bs.set(i, false);
    assert_eq!(bs.get(i), false);
    assert_eq!(bs.get(31), false);
}

#[test]
fn test_detect_peaks() {
    let cfg = Config::default();
    let inp = generate_input();
    let res = Bitstream::estimate_pitch(&cfg, &inp);
    assert_eq!(
        format!("{:.3}", frequency_hz(res.unwrap(), cfg.samples_per_second)),
        "261.626"
    );
}

#[test]
fn test_estimate_pitch() {
    let cfg = Config::default();
    let signal = generate_input();
    let bs = binarize(&cfg, &signal);
    let (count, est_index, corr) = bs.autocorrelate(cfg.min_period);
    assert_eq!(count, 617);
    assert_eq!(est_index, 337);
    let est_index = Bitstream::handle_harmonics(&cfg, count, est_index, &corr);
    assert_eq!(est_index, 168);
}

#[test]
fn test_test_get_smallest_pow2() {
    assert_eq!(get_smallest_pow2(3), 4);
    assert_eq!(get_smallest_pow2(1200), 2048);
}

#[test]
fn test_imperative_bitstream() {
    let mut bs = Bitstream::new(Config::default());
    let i = 7;
    bs.set(i, true);
    assert_eq!(bs.get(i), true);
    assert_eq!(bs.get(6), false);
    assert_eq!(bs.get(8), false);
    bs.set(i, false);
    assert_eq!(bs.get(i), false);
    assert_eq!(bs.get(31), false);
}

#[test]
fn test_declarative_bitstream() {
    let mut bs = Bitstream::new(Config::default());
    let i = 7;
    bs.set(i, true);
    assert_eq!(bs.get(i), true);
    assert_eq!(bs.get(6), false);
    assert_eq!(bs.get(8), false);
    bs.set(i, false);
    assert_eq!(bs.get(i), false);
    assert_eq!(bs.get(31), false);
}

#[test]
fn test_imperative_esimate_pitch() {
    let cfg = Config::default();
    let signal = generate_input();
    let res = Bitstream::estimate_pitch(&cfg, &signal);
    assert_eq!(
        format!("{:.3}", frequency_hz(res.unwrap(), cfg.samples_per_second)),
        "261.626"
    );
}

#[test]
fn test_declarative_esimate_pitch() {
    let cfg = Config::default();
    let signal = generate_input();
    let res = Bitstream::estimate_pitch(&cfg, &signal);
    assert_eq!(
        format!("{:.3}", frequency_hz(res.unwrap(), cfg.samples_per_second)),
        "261.626"
    );
}

#[test]
fn test_imperative_autocorrelate() {
    let cfg = Config::default();
    let signal = generate_input();
    let bs = binarize(&cfg, &signal);
    let (count, est_index, corr) = bs.autocorrelate(cfg.min_period);
    assert_eq!(count, 617);
    assert_eq!(est_index, 337);
    let est_index = Bitstream::handle_harmonics(&cfg, count, est_index, &corr);
    assert_eq!(est_index, 168);
}

#[test]
fn test_declarative_autocorrelate() {
    let cfg = Config::default();
    let signal = generate_input();
    let bs = binarize(&cfg, &signal);
    let (count, est_index, corr) = bs.autocorrelate(cfg.min_period);
    assert_eq!(count, 617);
    assert_eq!(est_index, 337);
    let est_index = Bitstream::handle_harmonics(&cfg, count, est_index, &corr);
    assert_eq!(est_index, 168);
}

#[test]
fn test_imperative_handle_harmonics() {
    let cfg = Config::default();
    let signal = generate_input();
    let bs = binarize(&cfg, &signal);
    let (count, est_index, corr) = bs.autocorrelate(cfg.min_period);
    let est_index = Bitstream::handle_harmonics(&cfg, count, est_index, &corr);
    assert_eq!(est_index, 168);
}

#[test]
fn test_declarative_handle_harmonics() {
    let cfg = Config::default();
    let signal = generate_input();
    let bs = binarize(&cfg, &signal);
    let (count, est_index, corr) = bs.autocorrelate(cfg.min_period);
    let est_index = Bitstream::handle_harmonics(&cfg, count, est_index, &corr);
    assert_eq!(est_index, 168);
}

#[test]
fn test_set_then_get_round_trip() {
    let cfg = Config::default();
    for &i in &[0usize, 1, 31, 32, 33, 1023, 2047] {
        for &v in &[true, false] {
            let mut bs = Bitstream::new(cfg);
            bs.set(i, v);
            assert_eq!(bs.get(i), v);
            // A neighbouring position is unaffected by the write.
            let other = if i == 0 { 1 } else { i - 1 };
            assert_eq!(bs.get(other), false);
        }
    }
}

#[test]
fn test_zero_cross_hysteresis() {
    let mut zc = ZeroCross::new();
    assert_eq!(zc.run(0), false);
    assert_eq!(zc.run(500_000), true);
    // Inside the deadband the previous state is retained.
    assert_eq!(zc.run(-50_000), true);
    assert_eq!(zc.run(-150_000), false);
    assert_eq!(zc.run(-50_000), false);
    assert_eq!(zc.run(1), true);
}

#[test]
fn test_silent_window_undetermined() {
    let cfg = Config::default();
    let signal: Vec<i64> = vec![-500_000; cfg.buff_size];
    let res = Bitstream::estimate_pitch(&cfg, &signal);
    assert!(res.is_none());
}

#[test]
fn test_lag_at_window_edge_undetermined() {
    let cfg = Config::default();
    let signal = generate_input();
    let res = estimate_pitch_with_index(&signal, cfg.buff_size);
    assert!(res.is_none());
}

#[test]
fn test_degenerate_period_undetermined() {
    let cfg = Config::default();
    let signal: Vec<i64> = vec![1_000_000; cfg.buff_size];
    // Both scans stop at the very first sample: zero distance.
    let res = estimate_pitch_with_index(&signal, 1);
    assert!(res.is_none());
}

#[test]
fn test_config_construction() {
    let cfg = Config::new(44100, 50, 500).unwrap();
    assert_eq!(cfg.min_period, 88);
    assert_eq!(cfg.buff_size, 2048);
    assert_eq!(cfg.array_size, 64);
    assert_eq!(cfg.mid_array, 31);
    assert_eq!(cfg.mid_pos, 1024);
    // A maximum frequency at the sampling rate leaves no usable
    // minimum period.
    assert!(Config::new(44100, 50, 44100).is_none());
}

#[test]
fn test_autocorrelate_counts_differing_bits() {
    // A small configuration: 128-sample window, 4 words, lags 32..64,
    // one word (32 bits) compared per lag.
    let cfg = Config::new(3200, 50, 100).unwrap();
    assert_eq!(cfg.buff_size, 128);
    assert_eq!(cfg.min_period, 32);
    assert_eq!(cfg.mid_pos, 64);
    assert_eq!(cfg.mid_array, 1);
    let mut bs = Bitstream::new(cfg);
    // High for the first 32 samples, low after: every compared bit
    // differs at every candidate lag.
    for i in 0..32 {
        bs.set(i, true);
    }
    let (max_count, best, corr) = bs.autocorrelate(cfg.min_period);
    assert_eq!(max_count, 32);
    assert_eq!(best, 32);
    for pos in 32..64 {
        assert_eq!(corr[pos], 32);
    }
}

#[test]
fn test_harmonic_correction_identity() {
    // Every echo lag is weak, so no divisor validates and the raw lag
    // comes back unchanged.
    let cfg = Config::default();
    let corr: Vec<u32> = vec![100; cfg.mid_pos];
    let est = Bitstream::handle_harmonics(&cfg, 100, 337, &corr);
    assert_eq!(est, 337);
}
