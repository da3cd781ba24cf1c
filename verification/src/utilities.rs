//! Splitting a field element into fixed-width windows.

use crate::field::{bit_of, fp_to_le_bits, lemma_view_in_field, FieldElement};
use crate::utilities::window_lemmas::{
    lemma_bit_of_window, lemma_horner_step, lemma_peel_bit, lemma_residue_high_bits,
    lemma_window_bound, lemma_div_pow2_small,
};
use vstd::arithmetic::div_mod::*;
use vstd::arithmetic::mul::*;
use vstd::arithmetic::power2::*;
use vstd::prelude::*;

pub mod decompose_running_sum;
pub mod partial_sums;
pub mod window_lemmas;

verus! {

/// The number of `k`-bit windows that cover `n` bits: the whole windows, and
/// one more for what is left over.
pub open spec fn window_count(n: nat, k: nat) -> nat {
    if k == 0 {
        0
    } else if n % k == 0 {
        n / k
    } else {
        n / k + 1
    }
}

/// Window `i` of the low `n` bits of `v`, in windows of `k` bits: bits
/// `i*k .. i*k + k` of `v mod 2^n`, as a number.
pub open spec fn window(v: nat, n: nat, k: nat, i: nat) -> nat {
    ((v % pow2(n)) / pow2(i * k)) % pow2(k)
}

/// The digits of the low `n` bits of `v` in windows of `k` bits, least
/// significant window first. A digit is kept in eight bits, so the windows
/// are at most eight bits wide.
pub open spec fn decomposition(v: nat, n: nat, k: nat) -> Seq<u8> {
    Seq::new(window_count(n, k), |i: int| window(v, n, k, i as nat) as u8)
}

/// The sum of the first `count` digits, digit `i` weighted by `2^(i*k)`.
pub open spec fn weighted_sum(digits: Seq<u8>, k: nat, count: nat) -> nat
    decreases count,
{
    if count == 0 {
        0
    } else {
        weighted_sum(digits, k, (count - 1) as nat) + digits[count - 1] as nat * pow2(
            ((count - 1) * k) as nat,
        )
    }
}

/// The number that a digit sequence stands for: `sum(digit_i * 2^(i*k))`.
pub open spec fn recompose(digits: Seq<u8>, k: nat) -> nat {
    weighted_sum(digits, k, digits.len())
}

/// Decomposes the low `word_num_bits` bits of `word` into windows of
/// `window_num_bits` bits, least significant window first. The bits are
/// padded with zeros up to a whole number of windows. A window must fit a
/// digit of eight bits.
pub fn decompose_word(word: &FieldElement, word_num_bits: usize, window_num_bits: usize) -> (digits:
    Vec<u8>)
    requires
        0 < window_num_bits <= 8,
    ensures
        digits@ == decomposition(word@, word_num_bits as nat, window_num_bits as nat),
{
    let bits = fp_to_le_bits(word);
    let n = word_num_bits;
    let k = window_num_bits;
    let ghost v = word@;
    let whole = n / k;
    let rest = n % k;
    proof {
        lemma_fundamental_div_mod(n as int, k as int);
        lemma_mod_bound(n as int, k as int);
        lemma_div_pos_is_pos(n as int, k as int);
        if rest != 0 {
            lemma_div_decreases(n as int, k as int);
        }
        lemma_view_in_field(*word);
    }
    let count = if rest == 0 {
        whole
    } else {
        whole + 1
    };
    assert(count == window_count(n as nat, k as nat));
    let mut digits: Vec<u8> = Vec::new();
    let mut i: usize = 0;
    while i < count
        invariant
            i <= count,
            0 < k <= 8,
            n == k * whole + rest,
            rest < k,
            count == (if rest == 0 { whole } else { (whole + 1) as usize }),
            count == window_count(n as nat, k as nat),
            bits@.len() == 256,
            forall|b: int| 0 <= b < 256 ==> bits@[b] == bit_of(v, b as nat),
            v < crate::field::modulus(),
            digits@.len() == i,
            forall|m: int|
                0 <= m < i ==> digits@[m] == window(v, n as nat, k as nat, m as nat) as u8,
        decreases count - i,
    {
        assert(i * k < n && i * k + k <= usize::MAX + n) by (nonlinear_arith)
            requires
                i < count,
                k > 0,
                n == k * whole + rest,
                rest < k,
                count == (if rest == 0 { whole } else { (whole + 1) as usize }),
        ;
        let base = i * k;
        let ghost w = window(v, n as nat, k as nat, i as nat);
        let mut acc: u8 = 0;
        let mut j: usize = k;
        proof {
            lemma_window_bound(v, n as nat, k as nat, i as nat);
            lemma_div_pow2_small(w, k as nat, k as nat);
        }
        while j > 0
            invariant
                j <= k,
                base == i * k,
                base < n,
                bits@.len() == 256,
                forall|b: int| 0 <= b < 256 ==> bits@[b] == bit_of(v, b as nat),
                v < crate::field::modulus(),
                w == window(v, n as nat, k as nat, i as nat),
                acc as nat == (w / pow2(j as nat)) % 256,
            decreases j,
        {
            j = j - 1;
            let bit = if j < n - base {
                let idx = base + j;
                if idx < 256 {
                    bits[idx]
                } else {
                    proof {
                        lemma_residue_high_bits(v, idx as nat);
                    }
                    false
                }
            } else {
                false
            };
            proof {
                lemma_bit_of_window(v, n as nat, k as nat, i as nat, j as nat);
                assert(bit == bit_of(w, j as nat));
                lemma_peel_bit(w, j as nat);
                lemma_horner_step(w / pow2((j + 1) as nat), if bit { 1nat } else { 0nat });
            }
            let doubled: u8 = acc << 1;
            assert(doubled as int == (acc * 2) % 256) by (bit_vector)
                requires
                    doubled == acc << 1,
            ;
            acc = doubled + (if bit { 1u8 } else { 0u8 });
        }
        proof {
            lemma2_to64();
            lemma_div_pos_is_pos(w as int, 1);
            if k < 8 {
                lemma_pow2_strictly_increases(k as nat, 8);
            }
            lemma_small_mod(w, 256);
        }
        digits.push(acc);
        i = i + 1;
    }
    assert(digits@ =~= decomposition(v, n as nat, k as nat));
    digits
}

/// The first `j` digits of a decomposition recompose to the low `j*k` bits
/// of the decomposed bits.
proof fn lemma_weighted_prefix(v: nat, n: nat, k: nat, j: nat)
    requires
        0 < k <= 8,
        j <= window_count(n, k),
    ensures
        weighted_sum(decomposition(v, n, k), k, j) == (v % pow2(n)) % pow2(j * k),
    decreases j,
{
    let x = v % pow2(n);
    let digits = decomposition(v, n, k);
    if j == 0 {
        lemma2_to64();
        assert(pow2(0 * k) == 1);
    } else {
        let h = (j - 1) as nat;
        lemma_weighted_prefix(v, n, k, h);
        lemma_window_bound(v, n, k, h);
        lemma2_to64();
        if k < 8 {
            lemma_pow2_strictly_increases(k, 8);
        }
        let w = window(v, n, k, h);
        assert(digits[h as int] == w as u8);
        assert(digits[h as int] as nat == w);
        lemma_pow2_pos(h * k);
        lemma_pow2_pos(k);
        lemma_pow2_pos(n);
        lemma_mod_bound(v as int, pow2(n) as int);
        lemma_mod_breakdown(x as int, pow2(h * k) as int, pow2(k) as int);
        lemma_pow2_adds(h * k, k);
        assert(h * k + k == j * k) by (nonlinear_arith)
            requires
                h + 1 == j,
        ;
        assert(w * pow2(h * k) == pow2(h * k) * w) by {
            lemma_mul_is_commutative(w as int, pow2(h * k) as int);
        }
    }
}

/// Round trip: the digits of a value below `2^n` recompose to that value.
pub proof fn lemma_decompose_round_trip(v: nat, n: nat, k: nat)
    requires
        0 < k <= 8,
        v < pow2(n),
    ensures
        recompose(decomposition(v, n, k), k) == v,
{
    let count = window_count(n, k);
    lemma_weighted_prefix(v, n, k, count);
    lemma_fundamental_div_mod(n as int, k as int);
    lemma_mod_bound(n as int, k as int);
    lemma_div_pos_is_pos(n as int, k as int);
    assert(n <= count * k) by (nonlinear_arith)
        requires
            n == k * (n / k) + n % k,
            0 <= n % k < k,
            0 <= n / k,
            count == (if n % k == 0 { n / k } else { n / k + 1 }),
    ;
    lemma_small_mod(v, pow2(n));
    if n < count * k {
        lemma_pow2_strictly_increases(n, count * k);
    }
    lemma_small_mod(v, pow2(count * k));
}

} // verus!
