//! The autocorrelation kernel: for every candidate lag, the Hamming
//! distance between the binarized window and itself shifted by that
//! lag, compared word by word.  The lag with the smallest distance is
//! the raw period estimate; the largest distance seen serves later as
//! the normalization reference.

use vstd::prelude::*;
use vstd::arithmetic::div_mod::{lemma_fundamental_div_mod, lemma_fundamental_div_mod_converse};
use crate::bitstream::Bitstream;
use crate::config::{Config, WORD_BITS};
use crate::words::{
    lemma_count_ones_xor, lemma_shifted_window, lemma_word_diff_bound, word_bit, word_diff,
};

verus! {

/// The number of positions `i` below `n` where the window disagrees
/// with its copy shifted by `lag`: `s[i] != s[i + lag]`.
pub open spec fn diff_count(s: Seq<bool>, lag: int, n: int) -> int
    decreases n,
{
    if n <= 0 {
        0
    } else {
        diff_count(s, lag, n - 1) + (if s[n - 1] != s[n - 1 + lag] {
            1int
        } else {
            0int
        })
    }
}

/// How many bits are compared per lag: the whole words that fit half
/// the window, leaving room for the shifted read of the partner word.
pub open spec fn compare_bits(cfg: Config) -> int {
    WORD_BITS * cfg.mid_array
}

/// The full correlation table: one Hamming distance per candidate lag
/// in `[start, mid_pos)`, zero below `start`.
pub open spec fn corr_table(s: Seq<bool>, cfg: Config, start: int) -> Seq<u32> {
    Seq::new(
        cfg.mid_pos as nat,
        |p: int|
            if p < start {
                0u32
            } else {
                diff_count(s, p, compare_bits(cfg)) as u32
            },
    )
}

/// The index of the smallest entry of `t` in `[start, n)`, earliest
/// index winning ties.
pub open spec fn min_index_upto(t: Seq<u32>, start: int, n: int) -> int
    decreases n - start,
{
    if n <= start + 1 {
        start
    } else {
        let p = min_index_upto(t, start, n - 1);
        if t[n - 1] < t[p] {
            n - 1
        } else {
            p
        }
    }
}

/// The largest entry of `t` in `[start, n)`, zero when the range is
/// empty.
pub open spec fn max_upto(t: Seq<u32>, start: int, n: int) -> u32
    decreases n - start,
{
    if n <= start {
        0u32
    } else {
        let m = max_upto(t, start, n - 1);
        if t[n - 1] > m {
            t[n - 1]
        } else {
            m
        }
    }
}

/// The raw period estimate for a binarized window: the lag of smallest
/// distance over `[start, mid_pos)`.
pub open spec fn best_lag(s: Seq<bool>, cfg: Config, start: int) -> int {
    min_index_upto(corr_table(s, cfg, start), start, cfg.mid_pos as int)
}

/// The normalization reference: the largest distance over the same
/// range of lags.
pub open spec fn worst_count(s: Seq<bool>, cfg: Config, start: int) -> u32 {
    max_upto(corr_table(s, cfg, start), start, cfg.mid_pos as int)
}

/// A lag distance counts at most the bits compared.
proof fn lemma_diff_count_bound(s: Seq<bool>, lag: int, n: int)
    ensures
        0 <= diff_count(s, lag, n),
        n >= 0 ==> diff_count(s, lag, n) <= n,
    decreases n,
{
    if n > 0 {
        lemma_diff_count_bound(s, lag, n - 1);
    }
}

/// The minimum index lies in range, no entry beats it, and every
/// earlier entry is strictly worse.
proof fn lemma_min_index_props(t: Seq<u32>, start: int, n: int)
    requires
        0 <= start < n <= t.len(),
    ensures
        start <= min_index_upto(t, start, n) < n,
        forall|p: int| start <= p < n ==> t[min_index_upto(t, start, n)] <= #[trigger] t[p],
        forall|p: int| start <= p < min_index_upto(t, start, n) ==> t[min_index_upto(t, start, n)]
            < #[trigger] t[p],
    decreases n - start,
{
    if n > start + 1 {
        lemma_min_index_props(t, start, n - 1);
    }
}

/// Every entry of the range is bounded by the maximum, and the
/// maximum is one of the entries when the range is not empty.
proof fn lemma_max_upto_props(t: Seq<u32>, start: int, n: int)
    requires
        0 <= start <= n <= t.len(),
    ensures
        forall|p: int| start <= p < n ==> #[trigger] t[p] <= max_upto(t, start, n),
        n > start ==> exists|p: int|
            start <= p < n && #[trigger] t[p] == max_upto(t, start, n),
    decreases n - start,
{
    if n > start {
        lemma_max_upto_props(t, start, n - 1);
        if t[n - 1] > max_upto(t, start, n - 1) {
            assert(t[n - 1] == max_upto(t, start, n));
        } else if n - 1 > start {
            let p = choose|p: int|
                start <= p < n - 1 && #[trigger] t[p] == max_upto(t, start, n - 1);
            assert(t[p] == max_upto(t, start, n));
        } else {
            assert(t[start] == max_upto(t, start, n));
        }
    }
}

/// Bit index `32k + j` addresses word `k` at offset `j`.
proof fn lemma_word_index(k: int, j: int)
    requires
        0 <= k,
        0 <= j < 32,
    ensures
        (32 * k + j) / 32 == k,
        (32 * k + j) % 32 == j,
{
    lemma_fundamental_div_mod_converse(32 * k + j, 32, k, j);
}

/// For a lag inside the candidate range, the words read by the kernel
/// stay inside the buffer and the shifted copy stays inside the window.
proof fn lemma_lag_bounds(cfg: Config, pos: int)
    requires
        cfg.wf(),
        0 <= pos < cfg.mid_pos,
    ensures
        0 <= pos / 32,
        0 <= pos % 32 < 32,
        pos / 32 + cfg.mid_array < cfg.array_size,
        WORD_BITS * cfg.mid_array + pos < cfg.buff_size,
        pos == 32 * (pos / 32) + pos % 32,
{
    lemma_fundamental_div_mod(pos, 32);
    let a = cfg.array_size as int;
    assert(cfg.mid_pos == 16 * a) by (nonlinear_arith)
        requires
            cfg.buff_size == a * 32,
            cfg.mid_pos == cfg.buff_size / 2,
    ;
    assert(pos / 32 <= (16 * a - 1) / 32);
    assert((16 * a - 1) / 32 <= a / 2) by (nonlinear_arith)
        requires
            a >= 4,
    ;
    assert(32 * (a / 2) <= 16 * a) by (nonlinear_arith)
        requires
            a >= 0,
    ;
}

/// One compared word covers bits `[32k, 32k + j)` of the distance
/// count: the difference between the window word `k` and the shifted
/// word `v` reconstructed at offset `pos`, position by position.
proof fn lemma_word_segment_upto(bs: Bitstream, pos: int, k: int, v: u32, j: int)
    requires
        bs.wf(),
        0 <= pos < bs.config().mid_pos,
        0 <= k < bs.config().mid_array,
        0 <= j <= 32,
        ({
            let index = pos / 32;
            let shift = pos % 32;
            if shift == 0 {
                v == bs.words()[index + k]
            } else {
                v == (bs.words()[index + k] >> (shift as u32)) | (bs.words()[index + k + 1] << (
                (32 - shift) as u32))
            }
        }),
    ensures
        word_diff(bs.words()[k], v, j) == diff_count(bs@, pos, 32 * k + j) - diff_count(
            bs@,
            pos,
            32 * k,
        ),
    decreases j,
{
    let s = bs@;
    let index = pos / 32;
    let shift = pos % 32;
    let a = bs.words()[k];
    lemma_lag_bounds(bs.config(), pos);
    if j > 0 {
        lemma_word_segment_upto(bs, pos, k, v, j - 1);
        let i = 32 * k + j - 1;
        let jj = (j - 1) as u32;

        // The left side of the comparison: bit `i` of the window.
        lemma_word_index(k, j - 1);
        bs.lemma_view_bit(i);
        assert(s[i] == word_bit(a, jj));

        // The right side: bit `i + pos` of the window is bit `j - 1`
        // of the reconstructed word `v`.
        assert(i + pos == 32 * (index + k) + (shift + j - 1));
        if shift == 0 {
            lemma_word_index(index + k, shift + j - 1);
            bs.lemma_view_bit(i + pos);
            assert(s[i + pos] == word_bit(v, jj));
        } else if shift + j - 1 < 32 {
            lemma_word_index(index + k, shift + j - 1);
            bs.lemma_view_bit(i + pos);
            lemma_shifted_window(
                bs.words()[index + k],
                bs.words()[index + k + 1],
                shift as u32,
                jj,
            );
            assert(s[i + pos] == word_bit(v, jj));
        } else {
            assert(i + pos == 32 * (index + k + 1) + (shift + j - 1 - 32));
            lemma_word_index(index + k + 1, shift + j - 1 - 32);
            bs.lemma_view_bit(i + pos);
            lemma_shifted_window(
                bs.words()[index + k],
                bs.words()[index + k + 1],
                shift as u32,
                jj,
            );
            assert(s[i + pos] == word_bit(v, jj));
        }
    }
}

impl Bitstream {
    /// Scan every candidate lag in `[start_pos, mid_pos)` and return
    /// the largest distance seen, the lag of the smallest distance
    /// (earliest such lag on ties), and the whole distance table.
    ///
    /// In normal use `start_pos` is the configuration's `min_period`:
    /// shorter lags would stand for pitches above the supported range.
    pub fn autocorrelate(&self, start_pos: usize) -> (r: (u32, usize, Vec<u32>))
        requires
            self.wf(),
            start_pos < self.config().mid_pos,
        ensures
            r.2@ == corr_table(self@, self.config(), start_pos as int),
            r.1 as int == best_lag(self@, self.config(), start_pos as int),
            r.0 == worst_count(self@, self.config(), start_pos as int),
            start_pos <= r.1 < self.config().mid_pos,
            forall|p: int|
                start_pos <= p < self.config().mid_pos ==> r.2@[r.1 as int] <= #[trigger] r.2@[p]
                    <= r.0,
    {
        let ghost t = corr_table(self@, self.config(), start_pos as int);
        let cfg = self.cfg;
        let mut corr: Vec<u32> = Vec::new();
        let mut z: usize = 0;
        while z < cfg.mid_pos
            invariant
                corr@.len() == z,
                z <= cfg.mid_pos,
                forall|p: int| 0 <= p < z ==> corr@[p] == 0u32,
            decreases cfg.mid_pos - z,
        {
            corr.push(0u32);
            z = z + 1;
        }

        let mut max_count: u32 = 0;
        let mut min_count: u32 = u32::MAX;
        let mut est_index: usize = 0;
        let mut index: usize = start_pos / WORD_BITS;
        let mut shift: usize = start_pos % WORD_BITS;
        let mut pos: usize = start_pos;

        while pos < cfg.mid_pos
            invariant
                self.wf(),
                cfg == self.config(),
                t == corr_table(self@, cfg, start_pos as int),
                t.len() == cfg.mid_pos,
                start_pos <= pos <= cfg.mid_pos,
                index == pos as int / 32,
                shift == pos as int % 32,
                corr@.len() == cfg.mid_pos,
                forall|p: int| 0 <= p < pos ==> corr@[p] == t[p],
                forall|p: int| pos <= p < cfg.mid_pos ==> corr@[p] == 0u32,
                pos > start_pos ==> {
                    &&& est_index as int == min_index_upto(t, start_pos as int, pos as int)
                    &&& start_pos <= est_index < pos
                    &&& min_count == t[est_index as int]
                    &&& max_count == max_upto(t, start_pos as int, pos as int)
                },
                pos == start_pos ==> min_count == u32::MAX && max_count == 0 && est_index == 0,
            decreases cfg.mid_pos - pos,
        {
            proof {
                lemma_lag_bounds(cfg, pos as int);
            }
            let mut p1: usize = 0;
            let mut p2: usize = index;
            let mut count: u32 = 0;
            if shift == 0 {
                while p1 < cfg.mid_array
                    invariant
                        self.wf(),
                        cfg == self.config(),
                        0 <= pos < cfg.mid_pos,
                        index == pos as int / 32,
                        pos as int % 32 == 0,
                        p1 <= cfg.mid_array,
                        p2 == index + p1,
                        count == diff_count(self@, pos as int, 32 * p1),
                        count <= 32 * p1,
                    decreases cfg.mid_array - p1,
                {
                    proof {
                        lemma_lag_bounds(cfg, pos as int);
                        lemma_word_segment_upto(*self, pos as int, p1 as int, self.words()[p2 as int], 32);
                        lemma_count_ones_xor(
                            self.words()[p1 as int],
                            self.words()[p2 as int],
                            32,
                        );
                        lemma_word_diff_bound(self.words()[p1 as int], self.words()[p2 as int], 32);
                    }
                    count = count + (self.bits[p1] ^ self.bits[p2]).count_ones();
                    p1 = p1 + 1;
                    p2 = p2 + 1;
                }
            } else {
                let shift2: usize = WORD_BITS - shift;
                while p1 < cfg.mid_array
                    invariant
                        self.wf(),
                        cfg == self.config(),
                        0 <= pos < cfg.mid_pos,
                        index == pos as int / 32,
                        shift == pos as int % 32,
                        1 <= shift < 32,
                        shift2 == 32 - shift,
                        p1 <= cfg.mid_array,
                        p2 == index + p1,
                        count == diff_count(self@, pos as int, 32 * p1),
                        count <= 32 * p1,
                    decreases cfg.mid_array - p1,
                {
                    proof {
                        lemma_lag_bounds(cfg, pos as int);
                    }
                    let mut v: u32 = self.bits[p2] >> shift;
                    v = v | (self.bits[p2 + 1] << shift2);
                    proof {
                        lemma_word_segment_upto(*self, pos as int, p1 as int, v, 32);
                        lemma_count_ones_xor(self.words()[p1 as int], v, 32);
                        lemma_word_diff_bound(self.words()[p1 as int], v, 32);
                    }
                    count = count + (self.bits[p1] ^ v).count_ones();
                    p1 = p1 + 1;
                    p2 = p2 + 1;
                }
            }
            proof {
                lemma_diff_count_bound(self@, pos as int, compare_bits(cfg));
                assert(t[pos as int] == count);
            }

            shift = shift + 1;
            if shift == WORD_BITS {
                shift = 0;
                index = index + 1;
            }
            proof {
                lemma_fundamental_div_mod(pos as int, 32);
                if pos as int % 32 == 31 {
                    lemma_fundamental_div_mod_converse(
                        pos as int + 1,
                        32,
                        pos as int / 32 + 1,
                        0,
                    );
                } else {
                    lemma_fundamental_div_mod_converse(
                        pos as int + 1,
                        32,
                        pos as int / 32,
                        pos as int % 32 + 1,
                    );
                }
            }

            corr[pos] = count;
            let ghost old_min = min_count;
            if count > max_count {
                max_count = count;
            }
            if count < min_count {
                min_count = count;
                est_index = pos;
            }
            proof {
                let sp = start_pos as int;
                let q = pos as int;
                if q == sp {
                    assert(min_index_upto(t, sp, q + 1) == sp);
                    assert(max_upto(t, sp, q) == 0);
                    assert(count < old_min);
                } else {
                    assert(min_index_upto(t, sp, q + 1) == (if t[q] < t[min_index_upto(t, sp, q)] {
                        q
                    } else {
                        min_index_upto(t, sp, q)
                    }));
                }
                assert(max_upto(t, sp, q + 1) == (if t[q] > max_upto(t, sp, q) {
                    t[q]
                } else {
                    max_upto(t, sp, q)
                }));
            }
            pos = pos + 1;
        }

        proof {
            assert(corr@ =~= t);
            lemma_min_index_props(t, start_pos as int, cfg.mid_pos as int);
            lemma_max_upto_props(t, start_pos as int, cfg.mid_pos as int);
        }
        (max_count, est_index, corr)
    }
}

} // verus!
