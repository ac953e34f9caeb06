//! From a number of bits to a number of bytes that is a whole number of words.

use vstd::prelude::*;
use vstd::arithmetic::div_mod::*;
use vstd::arithmetic::mul::*;

verus! {

/// `a / b`, rounded up.
pub open spec fn div_ceil(a: nat, b: nat) -> nat {
    ((a + (b - 1)) / (b as int)) as nat
}

/// The bytes that hold `bits` bits, rounded up to whole words of `word_size`
/// bytes.
pub open spec fn aligned_bytes(word_size: nat, bits: nat) -> nat {
    div_ceil(div_ceil(bits, 8), word_size) * word_size
}

/// `div_ceil(a, b)` is the least `q` with `q * b >= a`: it is such a `q`, and
/// no smaller one is.
pub proof fn lemma_div_ceil_least(a: nat, b: nat, q: nat)
    requires
        b >= 1,
    ensures
        div_ceil(a, b) * b >= a,
        q * b >= a ==> div_ceil(a, b) <= q,
{
    let n = a + (b - 1);
    let c = div_ceil(a, b);
    lemma_fundamental_div_mod(n, b as int);
    lemma_mod_bound(n, b as int);
    lemma_div_pos_is_pos(n, b as int);
    lemma_mul_is_commutative(c as int, b as int);
    if q < c {
        lemma_mul_inequality(q as int + 1, c as int, b as int);
        lemma_mul_is_distributive_add_other_way(b as int, q as int, 1);
    }
}

/// Rounding up keeps the order: more to divide never gives less.
pub proof fn lemma_div_ceil_monotone(a1: nat, a2: nat, b: nat)
    requires
        b >= 1,
        a1 <= a2,
    ensures
        div_ceil(a1, b) <= div_ceil(a2, b),
{
    lemma_div_is_ordered(a1 + (b - 1), a2 + (b - 1), b as int);
    lemma_div_pos_is_pos(a1 + (b - 1), b as int);
    lemma_div_pos_is_pos(a2 + (b - 1), b as int);
}

/// The aligned size of `bits` bits is the smallest multiple of `word_size`
/// that is at least the number of bytes that `bits` bits fill: it is such a
/// multiple, and it is at most any other one, `other`.
pub proof fn lemma_aligned_bytes_least(word_size: nat, bits: nat, other: nat)
    requires
        word_size >= 1,
    ensures
        aligned_bytes(word_size, bits) % word_size == 0,
        aligned_bytes(word_size, bits) >= div_ceil(bits, 8),
        aligned_bytes(word_size, bits) * 8 >= bits,
        other % word_size == 0 && other >= div_ceil(bits, 8) ==> aligned_bytes(word_size, bits)
            <= other,
{
    let bytes = div_ceil(bits, 8);
    let words = div_ceil(bytes, word_size);
    lemma_div_ceil_least(bits, 8, 0);
    lemma_div_ceil_least(bytes, word_size, other / word_size);
    lemma_mod_multiples_basic(words as int, word_size as int);
    if other % word_size == 0 && other >= bytes {
        lemma_fundamental_div_mod(other as int, word_size as int);
        lemma_mul_is_commutative(other as int / word_size as int, word_size as int);
        lemma_div_pos_is_pos(other as int, word_size as int);
        lemma_mul_inequality(words as int, other as int / word_size as int, word_size as int);
    }
}

/// The aligned size never shrinks when the number of bits grows.
pub proof fn lemma_aligned_bytes_monotone(word_size: nat, bits1: nat, bits2: nat)
    requires
        word_size >= 1,
        bits1 <= bits2,
    ensures
        aligned_bytes(word_size, bits1) <= aligned_bytes(word_size, bits2),
{
    lemma_div_ceil_monotone(bits1, bits2, 8);
    lemma_div_ceil_monotone(div_ceil(bits1, 8), div_ceil(bits2, 8), word_size);
    lemma_mul_inequality(
        div_ceil(div_ceil(bits1, 8), word_size) as int,
        div_ceil(div_ceil(bits2, 8), word_size) as int,
        word_size as int,
    );
}

/// The bytes that hold `bits` bits, rounded up to whole words of `word_size`
/// bytes; `None` when that many bytes cannot be counted in a `usize`.
pub fn to_bytes(word_size: usize, bits: u128) -> (bytes: Option<usize>)
    requires
        word_size >= 1,
    ensures
        bytes == if aligned_bytes(word_size as nat, bits as nat) <= usize::MAX {
            Some(aligned_bytes(word_size as nat, bits as nat) as usize)
        } else {
            None
        },
{
    let word: u128 = word_size as u128;
    let filled: u128 = if bits % 8 == 0 {
        bits / 8
    } else {
        bits / 8 + 1
    };
    assert(filled == div_ceil(bits as nat, 8));
    let whole: u128 = filled / word;
    let words: u128 = if filled % word == 0 {
        whole
    } else {
        whole + 1
    };
    proof {
        lemma_fundamental_div_mod(filled as int, word as int);
        lemma_mul_is_commutative(whole as int, word as int);
        if filled % word == 0 {
            lemma_fundamental_div_mod_converse_div(
                filled + (word - 1),
                word as int,
                whole as int,
                word - 1,
            );
        } else {
            lemma_mul_is_distributive_add_other_way(word as int, whole as int, 1);
            lemma_fundamental_div_mod_converse_div(
                filled + (word - 1),
                word as int,
                whole + 1,
                filled % word - 1,
            );
        }
        assert(words == div_ceil(filled as nat, word as nat));
        lemma_mul_is_distributive_add_other_way(word as int, whole as int, 1);
        assert(words * word <= filled + word);
    }
    let total: u128 = words * word;
    if total <= usize::MAX as u128 {
        Some(total as usize)
    } else {
        None
    }
}

} // verus!
