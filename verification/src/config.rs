//! Analysis parameters derived from the sampling rate and the supported
//! pitch range.

use vstd::prelude::*;

verus! {

/// Bits per packed word of the bit buffer.
pub const WORD_BITS: usize = 32;

/// True for the powers of two (1, 2, 4, 8, ...).
pub open spec fn is_pow2(n: int) -> bool
    decreases n,
{
    if n < 1 {
        false
    } else if n == 1 {
        true
    } else {
        n % 2 == 0 && is_pow2(n / 2)
    }
}

/// The smallest power of two that is at least `n`, reached by doubling `m`.
pub open spec fn smallest_pow2_from(n: int, m: int) -> int
    decreases 2 * n - m,
{
    if m < 1 {
        1
    } else if m >= n {
        m
    } else {
        smallest_pow2_from(n, 2 * m)
    }
}

/// Calculate the smallest power of 2 greater than or equal to `n`.
/// Useful for getting the appropriate buffer size.
pub fn get_smallest_pow2(n: usize) -> (r: usize)
    requires
        n <= usize::MAX / 2 + 1,
    ensures
        r == smallest_pow2_from(n as int, 1),
        is_pow2(r as int),
        r >= n,
{
    let mut m: usize = 1;
    while m < n
        invariant
            1 <= m,
            n <= usize::MAX / 2 + 1,
            is_pow2(m as int),
            smallest_pow2_from(n as int, m as int) == smallest_pow2_from(n as int, 1),
        decreases 2 * n - m,
    {
        m = m * 2;
    }
    m
}

/// The numeric parameters of one analysis configuration.
///
/// `buff_size` samples make one analysis window, packed into
/// `array_size` words of `nbits` bits each.  `mid_pos` is half the
/// window, the number of candidate lags; `mid_array` is the number of
/// whole words compared per lag; `min_period` is the shortest lag that
/// the supported pitch range allows.
#[derive(Clone, Copy, PartialEq, Eq, Structural, Debug)]
pub struct Config {
    pub samples_per_second: usize,
    pub min_period: usize,
    pub buff_size: usize,
    pub nbits: usize,
    pub array_size: usize,
    pub mid_array: usize,
    pub mid_pos: usize,
}

impl Config {
    /// The shape every analysis routine relies on: a power-of-two window
    /// that fills `array_size` words exactly, halved consistently, with a
    /// usable minimum period.  The window is capped so that index and
    /// interpolation arithmetic stays far from overflow.
    pub open spec fn wf(self) -> bool {
        &&& self.nbits == WORD_BITS
        &&& is_pow2(self.buff_size as int)
        &&& self.buff_size == self.array_size * WORD_BITS
        &&& self.buff_size <= 65536
        &&& self.array_size >= 4
        &&& self.mid_array == self.array_size / 2 - 1
        &&& self.mid_pos == self.buff_size / 2
        &&& 2 <= self.min_period < self.mid_pos
        &&& 1 <= self.samples_per_second
    }

    /// Derive a configuration from a sampling rate and the lowest and
    /// highest supported fundamental frequencies.  The window holds at
    /// least two full periods of the lowest pitch.  Returns `None` when
    /// the parameters leave no usable window.
    pub fn new(samples_per_second: usize, min_freq: usize, max_freq: usize) -> (r: Option<
        Config,
    >)
        requires
            1 <= min_freq,
            1 <= max_freq,
            samples_per_second <= 100_000_000,
        ensures
            ({
                let minp = samples_per_second as int / max_freq as int;
                let half = smallest_pow2_from(samples_per_second as int / min_freq as int, 1);
                let buff = 2 * half;
                &&& (r is Some <==> half <= 32768 && buff / 32 >= 4 && (buff / 32) * 32 == buff
                    && minp >= 2 && minp < buff / 2)
                &&& match r {
                    Some(c) => {
                        &&& c.wf()
                        &&& c.samples_per_second == samples_per_second
                        &&& c.min_period == minp
                        &&& c.buff_size == buff
                        &&& c.nbits == WORD_BITS
                        &&& c.array_size == buff / 32
                        &&& c.mid_array == buff / 32 / 2 - 1
                        &&& c.mid_pos == buff / 2
                    },
                    None => true,
                }
            }),
    {
        let min_period: usize = samples_per_second / max_freq;
        let max_period: usize = samples_per_second / min_freq;
        let half: usize = get_smallest_pow2(max_period);
        if half > 32768 {
            return None;
        }
        let buff_size: usize = half * 2;
        let array_size: usize = buff_size / WORD_BITS;
        let mid_pos: usize = buff_size / 2;
        if array_size < 4 || array_size * WORD_BITS != buff_size || min_period < 2 || min_period
            >= mid_pos {
            return None;
        }
        let c = Config {
            samples_per_second,
            min_period,
            buff_size,
            nbits: WORD_BITS,
            array_size,
            mid_array: array_size / 2 - 1,
            mid_pos,
        };
        proof {
            assert(is_pow2(2 * half as int)) by {
                assert(is_pow2(half as int));
            }
        }
        Some(c)
    }
}

/// The stock instrument-tuner configuration: 44100 Hz,
/// fundamentals between 50 Hz and 500 Hz, a window of 2048 samples.
impl Default for Config {
    fn default() -> (r: Config)
        ensures
            r.wf(),
            r.samples_per_second == 44100,
            r.min_period == 88,
            r.buff_size == 2048,
            r.array_size == 64,
            r.mid_array == 31,
            r.mid_pos == 1024,
    {
        proof {
            reveal_with_fuel(is_pow2, 13);
        }
        Config {
            samples_per_second: 44100,
            min_period: 88,
            buff_size: 2048,
            nbits: WORD_BITS,
            array_size: 64,
            mid_array: 31,
            mid_pos: 1024,
        }
    }
}

} // verus!
