//! Facts about bits and windows of natural numbers.

use crate::field::bit_of;
use crate::utilities::window;
use vstd::arithmetic::div_mod::*;
use vstd::arithmetic::mul::*;
use vstd::arithmetic::power2::*;
use vstd::prelude::*;

verus! {

/// Dividing by `2^a` and then by `2^b` divides by `2^(a+b)`.
pub proof fn lemma_div_pow2_twice(x: nat, a: nat, b: nat)
    ensures
        (x / pow2(a)) / pow2(b) == x / pow2(a + b),
{
    lemma_pow2_pos(a);
    lemma_pow2_pos(b);
    lemma_pow2_adds(a, b);
    lemma_div_denominator(x as int, pow2(a) as int, pow2(b) as int);
}

/// A number below `2^m` has no bits from position `m` on.
pub proof fn lemma_div_pow2_small(x: nat, m: nat, j: nat)
    requires
        x < pow2(m),
        m <= j,
    ensures
        x / pow2(j) == 0,
{
    lemma_pow2_pos(m);
    if m < j {
        lemma_pow2_strictly_increases(m, j);
    }
    lemma_basic_div(x as int, pow2(j) as int);
}

/// Reducing modulo `2^m` keeps the bits below `m` and clears the others.
pub proof fn lemma_bit_of_mod_pow2(x: nat, m: nat, j: nat)
    ensures
        bit_of(x % pow2(m), j) == (j < m && bit_of(x, j)),
{
    lemma_pow2_pos(m);
    lemma_pow2_pos(j);
    let r = x % pow2(m);
    lemma_mod_bound(x as int, pow2(m) as int);
    if j >= m {
        lemma_div_pow2_small(r, m, j);
    } else {
        let d = (m - j) as nat;
        let q = x / pow2(m);
        lemma_pow2_adds(j, d);
        lemma_pow2_pos(d);
        lemma_fundamental_div_mod(x as int, pow2(m) as int);
        // x == 2^j * (2^d * q) + r
        assert(pow2(m) * q == pow2(j) * (pow2(d) * q)) by {
            lemma_mul_is_associative(pow2(j) as int, pow2(d) as int, q as int);
        }
        let t = pow2(d) * q;
        assert(x == pow2(j) * t + r);
        // x / 2^j == t + r / 2^j
        lemma_hoist_over_denominator(r as int, t as int, pow2(j));
        assert(x as int == r + t * pow2(j)) by {
            lemma_mul_is_commutative(t as int, pow2(j) as int);
        }
        assert(x / pow2(j) == t + r / pow2(j));
        // t is even
        lemma_pow2_unfold(d);
        let h = pow2((d - 1) as nat);
        assert(t == 2 * (h * q)) by {
            lemma_mul_is_associative(2, h as int, q as int);
        }
        assert((t + r / pow2(j)) % 2 == (r / pow2(j)) % 2) by {
            lemma_mod_multiples_vanish((h * q) as int, (r / pow2(j)) as int, 2);
        }
    }
}

/// Bit `j` of `x / 2^a` is bit `a + j` of `x`.
pub proof fn lemma_bit_of_div_pow2(x: nat, a: nat, j: nat)
    ensures
        bit_of(x / pow2(a), j) == bit_of(x, a + j),
{
    lemma_div_pow2_twice(x, a, j);
}

/// The bits of a window are the bits of the number at the window's place,
/// as far as they lie within the first `n`.
pub proof fn lemma_bit_of_window(v: nat, n: nat, k: nat, i: nat, j: nat)
    ensures
        bit_of(window(v, n, k, i), j) == (j < k && i * k + j < n && bit_of(v, i * k + j)),
{
    let xn = v % pow2(n);
    lemma_bit_of_mod_pow2(xn / pow2(i * k), k, j);
    lemma_bit_of_div_pow2(xn, i * k, j);
    lemma_bit_of_mod_pow2(v, n, i * k + j);
}

/// A window is below `2^k`.
pub proof fn lemma_window_bound(v: nat, n: nat, k: nat, i: nat)
    ensures
        window(v, n, k, i) < pow2(k),
{
    lemma_pow2_pos(k);
    lemma_mod_bound(((v % pow2(n)) / pow2(i * k)) as int, pow2(k) as int);
}

/// Peeling the lowest bit: `x / 2^j == 2 * (x / 2^(j+1)) + bit j`.
pub proof fn lemma_peel_bit(x: nat, j: nat)
    ensures
        x / pow2(j) == 2 * (x / pow2(j + 1)) + (if bit_of(x, j) { 1nat } else { 0nat }),
{
    let y = x / pow2(j);
    let t = x / pow2(j + 1);
    lemma_pow2_pos(j);
    lemma_pow2_pos(j + 1);
    lemma_div_pos_is_pos(x as int, pow2(j) as int);
    lemma_div_pos_is_pos(x as int, pow2(j + 1) as int);
    assert(y / 2 == t) by {
        lemma2_to64();
        lemma_div_pow2_twice(x, j, 1);
    }
    lemma_fundamental_div_mod(y as int, 2);
}

/// One step of reading a window from its high bit down, in eight bits:
/// doubling the digits read so far and adding the next bit, modulo 256.
pub proof fn lemma_horner_step(y: nat, b: nat)
    requires
        b <= 1,
    ensures
        (2 * ((y % 256) as int)) % 256 + b < 256,
        ((2 * y + b) % 256) as int == (2 * ((y % 256) as int)) % 256 + b,
{
    let a: int = (y % 256) as int;
    let m: int = (y / 256) as int;
    lemma_fundamental_div_mod(y as int, 256);
    lemma_mod_bound(y as int, 256);
    let s: int = (2 * a) % 256;
    let c: int = (2 * a) / 256;
    lemma_fundamental_div_mod(2 * a, 256);
    lemma_mod_bound(2 * a, 256);
    // s is even, so s + b stays below 256
    assert(s % 2 == 0) by {
        assert(s == 2 * a - 256 * c);
        assert(s == 2 * (a - 128 * c));
        lemma_mod_multiples_basic(a - 128 * c, 2);
    }
    assert(s != 255);
    assert(2 * y + b == (2 * m + c) * 256 + (s + b));
    lemma_fundamental_div_mod_converse((2 * y + b) as int, 256, 2 * m + c, s + b);
}

/// The modulus is below `2^255`, so a residue has no bits from 255 on.
pub proof fn lemma_residue_high_bits(v: nat, j: nat)
    requires
        v < crate::field::modulus(),
        255 <= j,
    ensures
        !bit_of(v, j),
{
    crate::field::lemma_modulus_value();
    lemma_pow2_adds(254, 1);
    lemma2_to64();
    assert(v < pow2(255));
    lemma_div_pow2_small(v, 255, j);
}

/// The low `a + b` bits of `x`, shifted down by `a`, are the low `b` bits of
/// `x` shifted down by `a`.
pub proof fn lemma_mod_then_div_pow2(x: nat, a: nat, b: nat)
    ensures
        (x % pow2(a + b)) / pow2(a) == (x / pow2(a)) % pow2(b),
{
    lemma_pow2_pos(a);
    lemma_pow2_pos(b);
    lemma_pow2_adds(a, b);
    lemma_mod_breakdown(x as int, pow2(a) as int, pow2(b) as int);
    let hi = (x / pow2(a)) % pow2(b);
    let lo = x % pow2(a);
    lemma_mod_bound(x as int, pow2(a) as int);
    lemma_div_pos_is_pos(x as int, pow2(a) as int);
    lemma_mod_bound((x / pow2(a)) as int, pow2(b) as int);
    assert(x % pow2(a + b) == pow2(a) * hi + lo);
    lemma_fundamental_div_mod_converse(
        (x % pow2(a + b)) as int,
        pow2(a) as int,
        hi as int,
        lo as int,
    );
}

/// A window that lies wholly within the first `n` bits does not depend on
/// the bits from `n` on.
pub proof fn lemma_whole_window(v: nat, n: nat, k: nat, i: nat)
    requires
        i * k + k <= n,
    ensures
        window(v, n, k, i) == (v / pow2(i * k)) % pow2(k),
{
    let a = i * k;
    let b = (n - a) as nat;
    let e = (b - k) as nat;
    lemma_mod_then_div_pow2(v, a, b);
    assert(a + b == n);
    let y = v / pow2(a);
    lemma_pow2_pos(k);
    lemma_pow2_pos(e);
    lemma_pow2_adds(k, e);
    lemma_mod_mod(y as int, pow2(k) as int, pow2(e) as int);
}

} // verus!
