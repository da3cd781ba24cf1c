//! Elements of the Pallas base field, held by their canonical little-endian
//! byte representation, and the field operations the gadgets need.
//!
//! The arithmetic itself is done by `pasta_curves`; each operation is reached
//! through one trusted function whose contract states the result over the
//! integers modulo [`modulus`]. An element is converted to and from the type
//! of `pasta_curves` by its canonical bytes.

use ff::{Field, PrimeField, PrimeFieldBits};
use pasta_curves::arithmetic::FieldExt;
use pasta_curves::Fp;
use vstd::arithmetic::div_mod::*;
use vstd::arithmetic::mul::*;
use vstd::arithmetic::power2::*;
use vstd::prelude::*;

verus! {

/// The Pallas base field modulus is `2^254 + T_P`.
pub const T_P: u128 = 45560315531419706090280762371685220353;

/// The modulus `p` of the field.
pub open spec fn modulus() -> nat {
    pow2(254) + T_P as nat
}

/// The integer that the bytes from position `from` on stand for, the byte
/// at `from` being the least significant.
pub open spec fn le_value_from(bytes: Seq<u8>, from: nat) -> nat
    decreases bytes.len() - from,
{
    if from >= bytes.len() {
        0
    } else {
        bytes[from as int] as nat + 256 * le_value_from(bytes, from + 1)
    }
}

/// The integer that a little-endian byte string stands for.
pub open spec fn le_value(bytes: Seq<u8>) -> nat {
    le_value_from(bytes, 0)
}

/// `(a + b) mod p`.
pub open spec fn field_add(a: nat, b: nat) -> nat {
    (a + b) % modulus()
}

/// `(a - b) mod p`.
pub open spec fn field_sub(a: nat, b: nat) -> nat {
    ((a as int - b as int) % (modulus() as int)) as nat
}

/// `(a * b) mod p`.
pub open spec fn field_mul(a: nat, b: nat) -> nat {
    (a * b) % modulus()
}

/// Bit `i` of `v`, counted from the least significant bit.
pub open spec fn bit_of(v: nat, i: nat) -> bool {
    (v / pow2(i)) % 2 == 1
}

/// An element of the field. Its view is the residue in `[0, p)`.
#[derive(Clone, Copy, Debug, PartialEq, Eq)]
pub struct FieldElement {
    pub(crate) repr: [u8; 32],
}

impl View for FieldElement {
    type V = nat;

    closed spec fn view(&self) -> nat {
        le_value(self.repr@) % modulus()
    }
}

impl FieldElement {
    /// The stored bytes are the canonical representation: they spell a number
    /// below the modulus.
    #[verifier::type_invariant]
    spec fn canonical(self) -> bool {
        le_value(self.repr@) < modulus()
    }

    /// The field element `v`.
    pub fn from_u64(v: u64) -> (r: FieldElement)
        ensures
            r@ == v as nat,
    {
        fp_from_u64(v)
    }

    /// The field element with canonical representation `bytes`, if `bytes`
    /// spell a number below the modulus.
    pub fn from_repr(bytes: [u8; 32]) -> (r: Option<FieldElement>)
        ensures
            r is Some <==> le_value(bytes@) < modulus(),
            r matches Some(x) ==> x@ == le_value(bytes@),
    {
        if below_modulus(&bytes) {
            proof {
                lemma_small_mod(le_value(bytes@), modulus());
            }
            Some(FieldElement { repr: bytes })
        } else {
            None
        }
    }

    /// The canonical little-endian representation.
    pub fn to_repr(&self) -> (bytes: [u8; 32])
        ensures
            le_value(bytes@) == self@,
    {
        proof {
            use_type_invariant(self);
            lemma_small_mod(le_value(self.repr@), modulus());
        }
        self.repr
    }
}

/// The canonical representation of the modulus.
pub fn modulus_repr() -> (m: [u8; 32])
    ensures
        le_value(m@) == modulus(),
{
    let m: [u8; 32] = [
        0x01, 0x00, 0x00, 0x00, 0xed, 0x30, 0x2d, 0x99, 0x1b, 0xf9, 0x4c, 0x09, 0xfc, 0x98, 0x46,
        0x22, 0x00, 0x00, 0x00, 0x00, 0x00, 0x00, 0x00, 0x00, 0x00, 0x00, 0x00, 0x00, 0x00, 0x00,
        0x00, 0x40,
    ];
    proof {
        lemma_modulus_value();
        reveal_with_fuel(le_value_from, 33);
    }
    m
}

/// If two byte strings of one length differ in the values of their bytes
/// from `i` on, they differ in the same way in their values from any earlier
/// position on.
proof fn lemma_less_from(a: Seq<u8>, b: Seq<u8>, i: nat, j: nat)
    requires
        a.len() == b.len(),
        j <= i <= a.len(),
        le_value_from(a, i) < le_value_from(b, i),
    ensures
        le_value_from(a, j) < le_value_from(b, j),
    decreases i - j,
{
    if j < i {
        lemma_less_from(a, b, i, j + 1);
    }
}

/// Whether `bytes` spell a number below the modulus.
fn below_modulus(bytes: &[u8; 32]) -> (r: bool)
    ensures
        r == (le_value(bytes@) < modulus()),
{
    let m = modulus_repr();
    let mut i: usize = 32;
    while i > 0
        invariant
            i <= 32,
            le_value(m@) == modulus(),
            le_value_from(bytes@, i as nat) == le_value_from(m@, i as nat),
        decreases i,
    {
        i = i - 1;
        if bytes[i] < m[i] {
            proof {
                lemma_less_from(bytes@, m@, i as nat, 0);
            }
            return true;
        }
        if bytes[i] > m[i] {
            proof {
                lemma_less_from(m@, bytes@, i as nat, 0);
            }
            return false;
        }
    }
    false
}

/// Every view is a residue.
pub proof fn lemma_view_in_field(x: FieldElement)
    ensures
        x@ < modulus(),
{
    lemma_modulus_value();
    lemma_mod_bound(le_value(x.repr@) as int, modulus() as int);
}

/// The modulus written out: `0x40000000000000000000000000000000224698fc094cf91b992d30ed00000001`.
pub proof fn lemma_modulus_value()
    ensures
        modulus() == 0x40000000000000000000000000000000224698fc094cf91b992d30ed00000001,
        pow2(254) == 0x4000000000000000000000000000000000000000000000000000000000000000,
        pow2(126) == 0x40000000000000000000000000000000,
        pow2(128) == 0x100000000000000000000000000000000,
{
    lemma2_to64();
    lemma2_to64_rest();
    lemma_pow2_adds(63, 63);
    lemma_pow2_adds(64, 64);
    lemma_pow2_adds(126, 128);
    let a: int = 0x8000000000000000int;
    let b: int = 0x10000000000000000int;
    assert(pow2(126) == a * a);
    assert(pow2(128) == b * b);
    let c: int = 0x40000000000000000000000000000000int;
    let d: int = 0x100000000000000000000000000000000int;
    assert(a * a == c);
    assert(b * b == d);
    assert(pow2(254) == c * d);
    assert(c * d == 0x4000000000000000000000000000000000000000000000000000000000000000int)
        by (nonlinear_arith)
        requires
            c == 0x40000000000000000000000000000000int,
            d == 0x100000000000000000000000000000000int,
    ;
}

/// `Fp::from(u64)` of `pasta_curves`: the field element whose residue is `v`.
#[verifier::external_body]
pub(crate) fn fp_from_u64(v: u64) -> (r: FieldElement)
    ensures
        r@ == v as nat,
{
    FieldElement { repr: Fp::from(v).to_repr() }
}

/// `FieldExt::from_u128` of `pasta_curves` on `Fp`: the field element whose
/// residue is `v`.
#[verifier::external_body]
pub(crate) fn fp_from_u128(v: u128) -> (r: FieldElement)
    ensures
        r@ == v as nat,
{
    FieldElement { repr: Fp::from_u128(v).to_repr() }
}

/// Subtraction of `Fp` in `pasta_curves`: the difference modulo `p`.
#[verifier::external_body]
pub(crate) fn fp_sub(a: &FieldElement, b: &FieldElement) -> (r: FieldElement)
    ensures
        r@ == field_sub(a@, b@),
{
    let x = Fp::from_repr(a.repr).unwrap();
    let y = Fp::from_repr(b.repr).unwrap();
    FieldElement { repr: (x - y).to_repr() }
}

/// Multiplication of `Fp` in `pasta_curves`: the product modulo `p`.
#[verifier::external_body]
pub(crate) fn fp_mul(a: &FieldElement, b: &FieldElement) -> (r: FieldElement)
    ensures
        r@ == field_mul(a@, b@),
{
    let x = Fp::from_repr(a.repr).unwrap();
    let y = Fp::from_repr(b.repr).unwrap();
    FieldElement { repr: (x * y).to_repr() }
}

/// `Field::invert` of `ff` on `Fp`: fails on zero and only on zero; otherwise
/// gives an element whose product with `a` is one.
#[verifier::external_body]
pub(crate) fn fp_invert(a: &FieldElement) -> (r: Option<FieldElement>)
    ensures
        r is None <==> a@ == 0,
        r matches Some(x) ==> field_mul(a@, x@) == 1,
{
    let x = Fp::from_repr(a.repr).unwrap();
    Option::<Fp>::from(x.invert()).map(|y| FieldElement { repr: y.to_repr() })
}

/// `PrimeFieldBits::to_le_bits` of `ff` on `Fp`: the 256 bits of the residue,
/// least significant first.
#[verifier::external_body]
pub(crate) fn fp_to_le_bits(a: &FieldElement) -> (bits: Vec<bool>)
    ensures
        bits@.len() == 256,
        forall|i: int| 0 <= i < 256 ==> bits@[i] == bit_of(a@, i as nat),
{
    Fp::from_repr(a.repr).unwrap().to_le_bits().into_iter().collect()
}

/// `(p + 1) / 2`, the inverse of two.
pub open spec fn half() -> nat {
    (modulus() + 1) / 2
}

/// The inverse of `2^k` in the field: the `k`-th power of [`half`].
pub open spec fn two_pow_inverse(k: nat) -> nat
    decreases k,
{
    if k == 0 {
        1
    } else {
        field_mul(two_pow_inverse((k - 1) as nat), half())
    }
}

/// Products may be reduced at either factor, modulo `m`.
pub proof fn lemma_mul_mod_both(x: int, y: int, m: int)
    requires
        m > 0,
    ensures
        ((x % m) * (y % m)) % m == (x * y) % m,
        ((x % m) * y) % m == (x * y) % m,
        (x * (y % m)) % m == (x * y) % m,
{
    lemma_mul_mod_noop_general(x, y, m);
}

/// If `x * y` is one modulo `m`, multiplying by `x` and then by `y` changes
/// nothing modulo `m`.
pub proof fn lemma_mul_cancel(a: int, x: int, y: int, m: int)
    requires
        m > 1,
        (x * y) % m == 1,
    ensures
        (((a * x) % m) * y) % m == a % m,
{
    lemma_mul_mod_both(a * x, y, m);
    lemma_mul_is_associative(a, x, y);
    lemma_mul_mod_both(a, x * y, m);
    lemma_small_mod(1, m as nat);
    assert((a * ((x * y) % m)) == a) by (nonlinear_arith)
        requires
            (x * y) % m == 1,
    ;
}

/// `2 * half` is one in the field.
pub proof fn lemma_half_is_inverse_of_two()
    ensures
        half() < modulus(),
        field_mul(2, half()) == 1,
{
    lemma_modulus_value();
    let p = modulus() as int;
    assert(2 * half() == p + 1);
    lemma_mod_add_multiples_vanish(1, p);
    lemma_small_mod(1, p as nat);
}

/// [`two_pow_inverse`] is the inverse of `2^k`.
pub proof fn lemma_two_pow_inverse(k: nat)
    ensures
        two_pow_inverse(k) < modulus(),
        field_mul(pow2(k) % modulus(), two_pow_inverse(k)) == 1,
        field_mul(pow2(k), two_pow_inverse(k)) == 1,
    decreases k,
{
    lemma_modulus_value();
    let p = modulus() as int;
    lemma_pow2_pos(k);
    if k == 0 {
        lemma2_to64();
        lemma_small_mod(1, p as nat);
    } else {
        let j = (k - 1) as nat;
        lemma_two_pow_inverse(j);
        lemma_half_is_inverse_of_two();
        let a = pow2(j) as int;
        let b = two_pow_inverse(j) as int;
        let h = half() as int;
        lemma_pow2_unfold(k);
        lemma_mod_bound(b * h, p);
        // (2 a) * ((b h) mod p) == (a b) * (2 h)  (mod p)
        lemma_mul_mod_both(2 * a, b * h, p);
        assert((2 * a) * (b * h) == (a * b) * (2 * h)) by (nonlinear_arith);
        lemma_mul_mod_both(a * b, 2 * h, p);
        lemma_small_mod(1, p as nat);
        assert(((a * b) % p) * ((2 * h) % p) == 1);
        lemma_mul_mod_both(pow2(k) as int, two_pow_inverse(k) as int, p);
    }
}

/// An element has at most one inverse.
pub proof fn lemma_inverse_unique(x: nat, y1: nat, y2: nat)
    requires
        y1 < modulus(),
        y2 < modulus(),
        field_mul(x, y1) == 1,
        field_mul(x, y2) == 1,
    ensures
        y1 == y2,
{
    lemma_modulus_value();
    let p = modulus() as int;
    let a = y1 as int;
    let b = y2 as int;
    let c = x as int;
    // y1 == (y1 * x) * y2 == y2 * (x * y1) == y2  (mod p)
    lemma_mul_cancel(b, c, a, p);
    lemma_mul_cancel(a, c, b, p);
    assert((b * c) % p == 1 && (a * c) % p == 1) by {
        lemma_mul_is_commutative(b, c);
        lemma_mul_is_commutative(a, c);
    }
    let t = (b * c) % p;
    let u = (a * c) % p;
    assert(t * a == a && u * b == b) by (nonlinear_arith)
        requires
            t == 1,
            u == 1,
    ;
    lemma_small_mod(y1, p as nat);
    lemma_small_mod(y2, p as nat);
}

} // verus!
