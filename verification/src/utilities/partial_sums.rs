//! The partial sums of a running sum, as numbers: what they are, how the
//! windows are recovered from them, and when the last of them is zero.

use crate::field::{
    field_mul, field_sub, lemma_modulus_value, lemma_mul_cancel, lemma_two_pow_inverse, modulus,
    two_pow_inverse,
};
use crate::utilities::window_lemmas::{
    lemma_div_pow2_small, lemma_div_pow2_twice, lemma_whole_window, lemma_window_bound,
};
use crate::utilities::{decomposition, window, window_count};
use vstd::arithmetic::div_mod::*;
use vstd::arithmetic::mul::*;
use vstd::arithmetic::power2::*;
use vstd::prelude::*;

verus! {


/// The partial sum that follows `z` when `digit` is peeled off:
/// `(z - digit) / 2^k` in the field.
pub open spec fn next_sum(z: nat, digit: nat, k: nat) -> nat {
    field_mul(field_sub(z, digit), two_pow_inverse(k))
}

/// Partial sum `i` of the running sum that starts at `z0` and peels off
/// `digits` in turn.
pub open spec fn running_sum(z0: nat, digits: Seq<u8>, k: nat, i: nat) -> nat
    decreases i,
{
    if i == 0 {
        z0
    } else {
        next_sum(running_sum(z0, digits, k, (i - 1) as nat), digits[i - 1] as nat, k)
    }
}

/// The window between two consecutive partial sums: `z_cur - 2^k * z_next`
/// in the field.
pub open spec fn window_of(z_cur: nat, z_next: nat, k: nat) -> nat {
    field_sub(z_cur, field_mul(z_next, pow2(k)))
}

/// `field_sub` and `field_mul` give residues.
pub proof fn lemma_field_ops_bound(a: nat, b: nat)
    ensures
        field_sub(a, b) < modulus(),
        field_mul(a, b) < modulus(),
{
    lemma_modulus_value();
    lemma_mod_bound(a as int - b as int, modulus() as int);
    lemma_mod_bound((a * b) as int, modulus() as int);
}

/// Every partial sum after the first is a residue, and so is the first if it
/// was one.
pub proof fn lemma_running_sum_bound(z0: nat, digits: Seq<u8>, k: nat, i: nat)
    requires
        z0 < modulus(),
    ensures
        running_sum(z0, digits, k, i) < modulus(),
{
    if i > 0 {
        let z = running_sum(z0, digits, k, (i - 1) as nat);
        lemma_field_ops_bound(field_sub(z, digits[i - 1] as nat), two_pow_inverse(k));
    }
}

/// Consistency of one step: the window recomputed from a partial sum and its
/// successor is the digit that was peeled off.
pub proof fn lemma_window_recovers_digit(z: nat, digit: u8, k: nat)
    requires
        z < modulus(),
    ensures
        window_of(z, next_sum(z, digit as nat, k), k) == digit as nat,
{
    lemma_modulus_value();
    lemma_two_pow_inverse(k);
    let p = modulus() as int;
    let d = digit as int;
    let a = z as int - d;
    let inv = two_pow_inverse(k) as int;
    let t = pow2(k) as int;
    let s = field_sub(z, digit as nat) as int;
    let zn = next_sum(z, digit as nat, k) as int;
    assert(s == a % p);
    assert(zn == (s * inv) % p);
    // zn * 2^k == a * (inv * 2^k) == a  (mod p)
    assert((inv * t) % p == 1) by {
        lemma_mul_is_commutative(inv, t);
    }
    lemma_mul_cancel(s, inv, t, p);
    assert((zn * t) % p == s % p);
    lemma_mod_twice(a, p);
    assert((zn * t) % p == a % p);
    // z - (a mod p) == z - a == d  (mod p)
    lemma_sub_mod_noop_right(z as int, a, p);
    assert((z as int - (a % p)) % p == d % p);
    lemma_small_mod(digit as nat, p as nat);
}

/// Running-sum consistency: for every digit sequence, the windows recomputed
/// from the partial sums are the digits, one for one.
pub proof fn lemma_windows_are_digits(z0: nat, digits: Seq<u8>, k: nat, i: nat)
    requires
        z0 < modulus(),
        i < digits.len(),
    ensures
        window_of(running_sum(z0, digits, k, i), running_sum(z0, digits, k, i + 1), k)
            == digits[i as int] as nat,
{
    lemma_running_sum_bound(z0, digits, k, i);
    lemma_window_recovers_digit(running_sum(z0, digits, k, i), digits[i as int], k);
}

/// Over whole windows of at most eight bits, partial sum `i` of a value's own
/// decomposition is the value shifted down by `i` windows.
pub proof fn lemma_running_sum_is_shift(v: nat, n: nat, k: nat, i: nat)
    requires
        v < modulus(),
        0 < k <= 8,
        i * k <= n,
    ensures
        running_sum(v, decomposition(v, n, k), k, i) == v / pow2(i * k),
    decreases i,
{
    lemma_modulus_value();
    let p = modulus() as int;
    let digits = decomposition(v, n, k);
    if i == 0 {
        lemma2_to64();
        assert(pow2(0 * k) == 1);
        lemma_div_basics_3(v as int);
    } else {
        let h = (i - 1) as nat;
        assert(h * k + k == i * k && h * k <= n) by (nonlinear_arith)
            requires
                h + 1 == i,
                i * k <= n,
                k > 0,
        ;
        lemma_running_sum_is_shift(v, n, k, h);
        let y = v / pow2(h * k);
        lemma_pow2_pos(h * k);
        lemma_pow2_pos(k);
        lemma_div_pos_is_pos(v as int, pow2(h * k) as int);
        lemma_div_nonincreasing(v as int, pow2(h * k) as int);
        assert(y <= v);
        // the digit is the low window of y
        assert(h < window_count(n, k)) by {
            lemma_fundamental_div_mod(n as int, k as int);
            lemma_mod_bound(n as int, k as int);
            lemma_div_pos_is_pos(n as int, k as int);
            assert(h < n / k + 0) by (nonlinear_arith)
                requires
                    h * k + k <= n,
                    n == k * (n / k) + n % k,
                    0 <= n % k < k,
                    0 <= n / k,
                    k > 0,
            ;
        }
        lemma_whole_window(v, n, k, h);
        lemma_window_bound(v, n, k, h);
        lemma2_to64();
        if k < 8 {
            lemma_pow2_strictly_increases(k, 8);
        }
        let w = window(v, n, k, h);
        assert(digits[h as int] as nat == w);
        assert(w == y % pow2(k));
        // y - w is 2^k times the quotient
        let t = pow2(k) as int;
        let q = (y / pow2(k)) as int;
        lemma_fundamental_div_mod(y as int, t);
        lemma_div_pos_is_pos(y as int, t);
        lemma_div_nonincreasing(y as int, t);
        lemma_mod_bound(y as int, t);
        assert(y as int - w as int == t * q);
        assert(0 <= t * q <= y);
        lemma_small_mod((t * q) as nat, p as nat);
        assert(field_sub(y, w) == t * q);
        // (2^k q) / 2^k == q in the field
        let inv = two_pow_inverse(k) as int;
        lemma_two_pow_inverse(k);
        lemma_mul_cancel(q, t, inv, p);
        assert(q * t == t * q) by {
            lemma_mul_is_commutative(q, t);
        }
        lemma_small_mod(q as nat, p as nat);
        assert(next_sum(y, w, k) == q);
        lemma_div_pow2_twice(v, h * k, k);
    }
}

/// Strict-mode totality: when the windows cover the claimed bit length
/// exactly, and are at most eight bits wide, the final partial sum of a
/// value's own decomposition is zero exactly if the value fits in the
/// claimed bit length.
pub proof fn lemma_strict_final_sum(v: nat, n: nat, k: nat, num_windows: nat)
    requires
        v < modulus(),
        0 < k <= 8,
        num_windows * k == n,
    ensures
        running_sum(v, decomposition(v, n, k), k, num_windows) == 0 <==> v < pow2(n),
{
    lemma_running_sum_is_shift(v, n, k, num_windows);
    lemma_pow2_pos(n);
    if v < pow2(n) {
        lemma_div_pow2_small(v, n, n);
    } else {
        lemma_div_non_zero(v as int, pow2(n) as int);
    }
}

/// Whether `num_windows` windows of `k` bits suit a word of `word_num_bits`
/// bits: every window must hold at least one bit of the word.
pub open spec fn windows_fit(k: nat, num_windows: nat, word_num_bits: nat) -> bool {
    k * num_windows < word_num_bits + k
}

/// The window between two partial sums that may be unresolved.
pub open spec fn window_between(z_cur: Option<nat>, z_next: Option<nat>, k: nat) -> Option<nat> {
    match (z_cur, z_next) {
        (Some(a), Some(b)) => Some(window_of(a, b, k)),
        _ => None,
    }
}

/// Whether `sums` is a running sum over `n` bits in windows of `k` bits:
/// every partial sum after the first is unresolved, or is the partial sum
/// that the decomposition of the first prescribes.
pub open spec fn is_running_sum(sums: Seq<Option<nat>>, n: nat, k: nat) -> bool {
    forall|i: int|
        0 < i < sums.len() ==> #[trigger] sums[i] is None || (sums[0] matches Some(v) && sums[i]
            == Some(running_sum(v, decomposition(v, n, k), k, i as nat)))
}

/// Running-sum consistency, for the partial sums as they were assigned:
/// where two consecutive partial sums of a running sum are resolved, the
/// window between them is the digit that the word decomposer gave for the
/// first partial sum.
pub proof fn lemma_assigned_windows_are_digits(sums: Seq<Option<nat>>, n: nat, k: nat, i: int)
    requires
        is_running_sum(sums, n, k),
        0 <= i < sums.len() - 1,
        i < window_count(n, k),
        sums[0] matches Some(v) && v < modulus(),
        sums[i] is Some,
        sums[i + 1] is Some,
    ensures
        window_between(sums[i], sums[i + 1], k) == Some(
            decomposition(sums[0]->Some_0, n, k)[i] as nat,
        ),
{
    let v = sums[0]->Some_0;
    let digits = decomposition(v, n, k);
    assert(sums[i] == Some(running_sum(v, digits, k, i as nat)));
    assert(sums[i + 1] == Some(running_sum(v, digits, k, (i + 1) as nat)));
    lemma_windows_are_digits(v, digits, k, i as nat);
}

/// Strict-mode totality, for the partial sums as they were assigned: when
/// the windows cover the claimed bit length exactly, and are at most eight
/// bits wide, a resolved final partial sum is zero exactly if the first
/// partial sum fits in the claimed bit length.
pub proof fn lemma_assigned_final_sum(sums: Seq<Option<nat>>, n: nat, k: nat)
    requires
        is_running_sum(sums, n, k),
        0 < k <= 8,
        sums.len() >= 1,
        (sums.len() - 1) * k == n,
        sums[0] matches Some(v) && v < modulus(),
        sums[sums.len() - 1] is Some,
    ensures
        sums[sums.len() - 1] == Some(0nat) <==> sums[0]->Some_0 < pow2(n),
{
    let v = sums[0]->Some_0;
    let w = (sums.len() - 1) as nat;
    lemma_strict_final_sum(v, n, k, w);
    if w > 0 {
        assert(sums[w as int] == Some(running_sum(v, decomposition(v, n, k), k, w)));
    }
}

/// Windows that fit are no more than the digits of the decomposition.
pub proof fn lemma_windows_fit_count(k: nat, num_windows: nat, word_num_bits: nat)
    requires
        k > 0,
        windows_fit(k, num_windows, word_num_bits),
    ensures
        num_windows <= window_count(word_num_bits, k),
{
    let n = word_num_bits;
    lemma_fundamental_div_mod(n as int, k as int);
    lemma_mod_bound(n as int, k as int);
    lemma_div_pos_is_pos(n as int, k as int);
    let q = n / k;
    let r = n % k;
    assert(num_windows <= (if r == 0 { q } else { q + 1 })) by (nonlinear_arith)
        requires
            k * num_windows < n + k,
            n == k * q + r,
            0 <= r < k,
            0 <= q,
    ;
}

} // verus!
