//! Bit-level views of the packed 32-bit words: single bits, population
//! counts, and the reconstruction of a word read at a bit offset that
//! straddles two adjacent words.

use vstd::prelude::*;

verus! {

/// Bit `j` of word `w`.
pub open spec fn word_bit(w: u32, j: u32) -> bool {
    (w >> j) & 1 == 1
}

/// The number of set bits of `w` among the `n` lowest positions.
pub open spec fn count_ones_spec(w: u32, n: int) -> int
    decreases n,
{
    if n <= 0 {
        0
    } else {
        count_ones_spec(w, n - 1) + (if word_bit(w, (n - 1) as u32) {
            1int
        } else {
            0int
        })
    }
}

/// Relies on `u32::count_ones` of std: it returns the number of ones
/// in the binary representation of its argument.
pub assume_specification[ u32::count_ones ](w: u32) -> (r: u32)
    ensures
        r == count_ones_spec(w, 32),
;

/// The number of positions among the `n` lowest where `a` and `b`
/// hold different bits.
pub open spec fn word_diff(a: u32, b: u32, n: int) -> int
    decreases n,
{
    if n <= 0 {
        0
    } else {
        word_diff(a, b, n - 1) + (if word_bit(a, (n - 1) as u32) != word_bit(b, (n - 1) as u32) {
            1int
        } else {
            0int
        })
    }
}

/// Exclusive or compares bitwise: bit `j` of `a ^ b` is set exactly
/// where `a` and `b` differ at `j`.
proof fn lemma_xor_bit(a: u32, b: u32, j: u32)
    requires
        j < 32,
    ensures
        word_bit(a ^ b, j) == (word_bit(a, j) != word_bit(b, j)),
{
    assert(word_bit(a ^ b, j) == (word_bit(a, j) != word_bit(b, j))) by (bit_vector)
        requires
            j < 32,
    ;
}

/// Counting the set bits of `a ^ b` counts the positions where `a`
/// and `b` differ.
pub proof fn lemma_count_ones_xor(a: u32, b: u32, n: int)
    requires
        n <= 32,
    ensures
        count_ones_spec(a ^ b, n) == word_diff(a, b, n),
    decreases n,
{
    if n > 0 {
        lemma_count_ones_xor(a, b, n - 1);
        lemma_xor_bit(a, b, (n - 1) as u32);
    }
}

/// Two adjacent words combined with complementary shifts reconstruct
/// the 32 bits that start `sh` positions into the lower word: bit `j`
/// of the combination is bit `j + sh` of `a` while that fits, and bit
/// `j + sh - 32` of `b` beyond.
pub proof fn lemma_shifted_window(a: u32, b: u32, sh: u32, j: u32)
    requires
        1 <= sh < 32,
        j < 32,
    ensures
        word_bit((a >> sh) | (b << ((32 - sh) as u32)), j) == if j + sh < 32 {
            word_bit(a, (j + sh) as u32)
        } else {
            word_bit(b, (j + sh - 32) as u32)
        },
{
    assert(word_bit((a >> sh) | (b << ((32 - sh) as u32)), j) == if j + sh < 32 {
        word_bit(a, (j + sh) as u32)
    } else {
        word_bit(b, (j + sh - 32) as u32)
    }) by (bit_vector)
        requires
            1 <= sh < 32,
            j < 32,
    ;
}

/// A word-against-word difference count never exceeds the positions
/// compared.
pub proof fn lemma_word_diff_bound(a: u32, b: u32, n: int)
    ensures
        0 <= word_diff(a, b, n) <= (if n >= 0 {
            n
        } else {
            0
        }),
    decreases n,
{
    if n > 0 {
        lemma_word_diff_bound(a, b, n - 1);
    }
}

} // verus!
