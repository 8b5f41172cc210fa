//! The packed boolean window: `buff_size` bits stored in 32-bit words,
//! bit `i` at word `i / 32`, offset `i % 32`.

use vstd::prelude::*;
use crate::config::{Config, WORD_BITS};
use crate::words::word_bit;

verus! {

/// A fixed-capacity bit buffer holding one binarized analysis window.
pub struct Bitstream {
    pub cfg: Config,
    pub bits: Vec<u32>,
}

impl View for Bitstream {
    type V = Seq<bool>;

    /// The buffer as the sequence of its `buff_size` boolean values.
    open spec fn view(&self) -> Seq<bool> {
        Seq::new(
            self.cfg.buff_size as nat,
            |i: int| word_bit(self.bits@[i / WORD_BITS as int], (i % WORD_BITS as int) as u32),
        )
    }
}

impl Bitstream {
    /// The configuration the buffer was built for.
    pub open spec fn config(self) -> Config {
        self.cfg
    }

    /// The words of the buffer, exposed for the correlation proofs.
    pub open spec fn words(self) -> Seq<u32> {
        self.bits@
    }

    /// A buffer is well formed when it holds exactly the words its
    /// configuration asks for.
    pub open spec fn wf(self) -> bool {
        &&& self.config().wf()
        &&& self.words().len() == self.config().array_size
    }

    /// Bit `i` of the window is bit `i % 32` of word `i / 32`.
    pub proof fn lemma_view_bit(self, i: int)
        requires
            self.wf(),
            0 <= i < self.config().buff_size,
        ensures
            self@[i] == word_bit(self.words()[i / WORD_BITS as int], (i % WORD_BITS as int) as u32),
    {
    }

    /// A fresh buffer for one window under `cfg`, all bits low.
    pub fn new(cfg: Config) -> (r: Self)
        requires
            cfg.wf(),
        ensures
            r.wf(),
            r.config() == cfg,
            r@ == Seq::new(cfg.buff_size as nat, |i: int| false),
    {
        let mut bits: Vec<u32> = Vec::new();
        let mut k: usize = 0;
        while k < cfg.array_size
            invariant
                bits@.len() == k,
                k <= cfg.array_size,
                forall|w: int| 0 <= w < k ==> bits@[w] == 0u32,
            decreases cfg.array_size - k,
        {
            bits.push(0u32);
            k = k + 1;
        }
        let r = Bitstream { cfg, bits };
        proof {
            assert forall|i: int| 0 <= i < cfg.buff_size implies r@[i] == false by {
                assert(0 <= i / (WORD_BITS as int) < cfg.array_size) by {
                    assert(cfg.buff_size == cfg.array_size * WORD_BITS);
                    assert(i / 32 < cfg.array_size) by (nonlinear_arith)
                        requires
                            0 <= i,
                            i < cfg.array_size * 32,
                    ;
                }
                let sh = (i % (WORD_BITS as int)) as u32;
                assert(!word_bit(0u32, sh)) by (bit_vector);
            }
            assert(r@ =~= Seq::new(cfg.buff_size as nat, |i: int| false));
        }
        r
    }

    /// Read bit `i`.
    pub fn get(&self, i: usize) -> (r: bool)
        requires
            self.wf(),
            i < self.config().buff_size,
        ensures
            r == self@[i as int],
    {
        proof {
            lemma_bit_index_in_words(self.config(), i as int);
        }
        let sh: usize = i % WORD_BITS;
        let w: u32 = self.bits[i / WORD_BITS];
        let mask: u32 = 1u32 << sh;
        let r = (w & mask) != 0;
        proof {
            let shu = (i as int % WORD_BITS as int) as u32;
            assert(((w & (1u32 << shu)) != 0) == word_bit(w, shu)) by (bit_vector)
                requires
                    shu < 32,
            ;
        }
        r
    }

    /// Write bit `i`, leaving every other bit unchanged: a
    /// read-modify-write of the enclosing word.
    pub fn set(&mut self, i: usize, val: bool)
        requires
            old(self).wf(),
            i < old(self).config().buff_size,
        ensures
            final(self).wf(),
            final(self).config() == old(self).config(),
            final(self)@ == old(self)@.update(i as int, val),
    {
        proof {
            lemma_bit_index_in_words(self.config(), i as int);
        }
        let wi: usize = i / WORD_BITS;
        let sh: usize = i % WORD_BITS;
        let w: u32 = self.bits[wi];

        // A mask with the 1 at the position of interest; `id` is all
        // ones or all zeros, so the XOR forces the masked bit to `val`.
        let mask: u32 = 1u32 << sh;
        let id: u32 = if val {
            u32::MAX
        } else {
            0
        };
        let nw: u32 = w ^ ((id ^ w) & mask);
        self.bits[wi] = nw;

        proof {
            let shu = (i as int % WORD_BITS as int) as u32;
            assert(word_bit(nw, shu) == val) by (bit_vector)
                requires
                    shu < 32,
                    nw == w ^ ((id ^ w) & (1u32 << shu)),
                    id == (if val {
                        u32::MAX
                    } else {
                        0u32
                    }),
            ;
            assert forall|j: u32| j < 32 && j != shu implies word_bit(nw, j) == word_bit(w, j) by {
                assert(word_bit(nw, j) == word_bit(w, j)) by (bit_vector)
                    requires
                        j < 32,
                        shu < 32,
                        j != shu,
                        nw == w ^ ((id ^ w) & (1u32 << shu)),
                ;
            }
            assert forall|k: int| 0 <= k < old(self).config().buff_size implies final(self)@[k]
                == old(self)@.update(i as int, val)[k] by {
                lemma_bit_index_in_words(old(self).config(), k);
                if k / WORD_BITS as int == i as int / WORD_BITS as int && k != i {
                    assert(k % WORD_BITS as int != i as int % WORD_BITS as int) by (nonlinear_arith)
                        requires
                            k != i,
                            0 <= k,
                            0 <= i,
                            k / 32 == i as int / 32,
                            WORD_BITS == 32,
                    ;
                }
            }
            assert(final(self)@ =~= old(self)@.update(i as int, val));
        }
    }
}

/// A bit index inside the window addresses a word inside the buffer.
proof fn lemma_bit_index_in_words(cfg: Config, i: int)
    requires
        cfg.wf(),
        0 <= i < cfg.buff_size,
    ensures
        0 <= i / (WORD_BITS as int) < cfg.array_size,
        0 <= i % (WORD_BITS as int) < WORD_BITS,
{
    assert(i / 32 < cfg.array_size) by (nonlinear_arith)
        requires
            0 <= i,
            i < cfg.array_size * 32,
    ;
}

/// Setting one bit and reading it back yields the value written, and
/// reading any other position is unaffected by the write: over the
/// window views that `set` and `get` speak of, updating index `i`
/// changes index `i` to `val` and no other index.
pub proof fn lemma_set_then_get(window: Seq<bool>, i: int, val: bool, j: int)
    requires
        0 <= i < window.len(),
        0 <= j < window.len(),
        j != i,
    ensures
        window.update(i, val)[i] == val,
        window.update(i, val)[j] == window[j],
{
}

} // verus!
