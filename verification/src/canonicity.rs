//! A gate that accepts only canonical representations of a field element.
//!
//! ```text
//! |  x  |    a    |  b  |  c  | q_canon |
//! ---------------------------------------
//! |  x  |    a    |  b  |  c  |    1    |
//! |     | a_prime |     |     |    0    |
//! ```
//!
//! `x` is represented by three limbs: `a` of 126 bits, `b` of 128 bits and
//! `c` of one bit. That the limbs lie in these ranges is for the caller to
//! enforce. With `p = 2^254 + T_P` this gate requires:
//!
//! 1. `x = a + b * 2^126 + c * 2^254`
//! 2. `c * b = 0`
//! 3. `c * a_prime = 0`
//! 4. `a_prime = a + 2^126 - T_P`
//!
//! so that the top bit `c` can only be set together with `b = 0` and
//! `a = T_P - 2^126`. For limbs within their ranges that never happens, and
//! `x` is the integer `a + b * 2^126`, which is below `2^254`.

use crate::engine::{
    reads_within, AdviceColumn, ConfigRecord, ConfigRequest, ConstraintSystemRef,
};
use crate::expression::{
    all_queries, cell, gate_holds, lemma_enabled_gate_holds, lemma_eval_bound, lemma_eval_frame, residue, Cells,
    Constraint, Expr,
};
use crate::field::{
    field_add, field_mul, field_sub, lemma_modulus_value, lemma_mul_cancel, lemma_mul_mod_both,
    modulus, T_P,
};
use vstd::arithmetic::mul::lemma_mul_is_commutative;
use halo2_proofs::plonk::Selector;
use vstd::arithmetic::div_mod::*;
use vstd::arithmetic::power2::*;
use vstd::prelude::*;

verus! {

/// The cell of `column` at `rotation`, as a polynomial.
pub open spec fn query(column: AdviceColumn, rotation: i32) -> Expr {
    Expr::Advice { column, rotation }
}

/// `a - b` as a polynomial.
pub open spec fn difference(a: Expr, b: Expr) -> Expr {
    Expr::Sum(Box::new(a), Box::new(Expr::Negated(Box::new(b))))
}

/// `a + b * 2^126 + c * 2^254 - x`.
pub open spec fn check_x_poly(
    col_x: AdviceColumn,
    col_a: AdviceColumn,
    col_b: AdviceColumn,
    col_c: AdviceColumn,
    two_pow_254: Expr,
    two_pow_126: Expr,
) -> Expr {
    difference(
        Expr::Sum(
            Box::new(
                Expr::Sum(
                    Box::new(query(col_a, 0)),
                    Box::new(Expr::Product(Box::new(query(col_b, 0)), Box::new(two_pow_126))),
                ),
            ),
            Box::new(Expr::Product(Box::new(query(col_c, 0)), Box::new(two_pow_254))),
        ),
        query(col_x, 0),
    )
}

/// `a_prime - (a + 2^126 - T_P)`.
pub open spec fn a_prime_poly(col_a: AdviceColumn, two_pow_126: Expr, t_p: Expr) -> Expr {
    difference(
        query(col_a, 1),
        difference(Expr::Sum(Box::new(query(col_a, 0)), Box::new(two_pow_126)), t_p),
    )
}

/// `c * b`.
pub open spec fn c_times_b_poly(col_b: AdviceColumn, col_c: AdviceColumn) -> Expr {
    Expr::Product(Box::new(query(col_c, 0)), Box::new(query(col_b, 0)))
}

/// `c * a_prime`.
pub open spec fn c_times_a_prime_poly(col_a: AdviceColumn, col_c: AdviceColumn) -> Expr {
    Expr::Product(Box::new(query(col_c, 0)), Box::new(query(col_a, 1)))
}

/// The four polynomials of this gate, in the order in which they are
/// registered.
pub open spec fn canonicity_polys(
    col_x: AdviceColumn,
    col_a: AdviceColumn,
    col_b: AdviceColumn,
    col_c: AdviceColumn,
    two_pow_254: Expr,
    two_pow_126: Expr,
    t_p: Expr,
) -> Seq<Expr> {
    seq![
        check_x_poly(col_x, col_a, col_b, col_c, two_pow_254, two_pow_126),
        a_prime_poly(col_a, two_pow_126, t_p),
        c_times_b_poly(col_b, col_c),
        c_times_a_prime_poly(col_a, col_c),
    ]
}

/// The names of the four constraints, in the order of [`canonicity_polys`].
pub open spec fn constraint_names() -> Seq<Seq<char>> {
    seq!["check_x"@, "a_prime_check"@, "c * b = 0"@, "c * a_prime = 0"@]
}

/// The relation of this gate on the values `x`, `a`, `b`, `c`, `a_prime`,
/// for given values of the three constants.
pub open spec fn canonicity_relation(
    x: nat,
    a: nat,
    b: nat,
    c: nat,
    a_prime: nat,
    two_pow_254: nat,
    two_pow_126: nat,
    t_p: nat,
) -> bool {
    &&& residue(a + b * two_pow_126 + c * two_pow_254 - x) == 0
    &&& residue(a_prime - (a + two_pow_126 - t_p)) == 0
    &&& residue((c * b) as int) == 0
    &&& residue((c * a_prime) as int) == 0
}

/// Configuration of the canonicity gate.
#[derive(Debug, Clone, Copy)]
pub struct Config {
    q_canon: Selector,
    col_x: AdviceColumn,
    col_a: AdviceColumn,
    col_b: AdviceColumn,
    col_c: AdviceColumn,
}

impl Config {
    /// The selector that enables this gate.
    pub closed spec fn spec_q_canon(&self) -> Selector {
        self.q_canon
    }

    /// The column of `x`.
    pub closed spec fn spec_col_x(&self) -> AdviceColumn {
        self.col_x
    }

    /// The column of `a` and, one row on, of `a_prime`.
    pub closed spec fn spec_col_a(&self) -> AdviceColumn {
        self.col_a
    }

    /// The column of `b`.
    pub closed spec fn spec_col_b(&self) -> AdviceColumn {
        self.col_b
    }

    /// The column of `c`.
    pub closed spec fn spec_col_c(&self) -> AdviceColumn {
        self.col_c
    }

    /// The selector that enables this gate.
    pub fn q_canon(&self) -> (r: Selector)
        ensures
            r == self.spec_q_canon(),
    {
        self.q_canon
    }

    /// The column of `x`.
    pub fn col_x(&self) -> (r: AdviceColumn)
        ensures
            r == self.spec_col_x(),
    {
        self.col_x
    }

    /// The column of `a` and, one row on, of `a_prime`.
    pub fn col_a(&self) -> (r: AdviceColumn)
        ensures
            r == self.spec_col_a(),
    {
        self.col_a
    }

    /// The column of `b`.
    pub fn col_b(&self) -> (r: AdviceColumn)
        ensures
            r == self.spec_col_b(),
    {
        self.col_b
    }

    /// The column of `c`.
    pub fn col_c(&self) -> (r: AdviceColumn)
        ensures
            r == self.spec_col_c(),
    {
        self.col_c
    }

    /// The constraints of this gate over the given columns and constants.
    pub fn constraints(
        col_x: AdviceColumn,
        col_a: AdviceColumn,
        col_b: AdviceColumn,
        col_c: AdviceColumn,
        two_pow_254: Expr,
        two_pow_126: Expr,
        t_p: Expr,
    ) -> (r: Vec<Constraint>)
        ensures
            crate::expression::polys_of(r@) == canonicity_polys(
                col_x,
                col_a,
                col_b,
                col_c,
                two_pow_254,
                two_pow_126,
                t_p,
            ),
            crate::expression::names_of(r@) == constraint_names(),
    {
        let check_x = Expr::minus(
            Expr::plus(
                Expr::plus(
                    Expr::advice(col_a, 0),
                    Expr::times(Expr::advice(col_b, 0), two_pow_126.clone()),
                ),
                Expr::times(Expr::advice(col_c, 0), two_pow_254),
            ),
            Expr::advice(col_x, 0),
        );
        let a_prime_check = Expr::minus(
            Expr::advice(col_a, 1),
            Expr::minus(Expr::plus(Expr::advice(col_a, 0), two_pow_126), t_p),
        );
        let c_times_b = Expr::times(Expr::advice(col_c, 0), Expr::advice(col_b, 0));
        let c_times_a_prime = Expr::times(Expr::advice(col_c, 0), Expr::advice(col_a, 1));
        let mut constraints: Vec<Constraint> = Vec::new();
        constraints.push(Constraint { name: "check_x", poly: check_x });
        constraints.push(Constraint { name: "a_prime_check", poly: a_prime_check });
        constraints.push(Constraint { name: "c * b = 0", poly: c_times_b });
        constraints.push(Constraint { name: "c * a_prime = 0", poly: c_times_a_prime });
        assert(crate::expression::names_of(constraints@) =~= constraint_names());
        assert(crate::expression::polys_of(constraints@) =~= canonicity_polys(
            col_x,
            col_a,
            col_b,
            col_c,
            two_pow_254,
            two_pow_126,
            t_p,
        ));
        constraints
    }

    /// Allocates a selector and registers this gate
    /// [`canonicity_polys`] under it: the current row holds `x`, `a`, `b`
    /// and `c` in their columns, the next row holds `a_prime` in `col_a`.
    /// The three constants are given as polynomials.
    #[allow(clippy::too_many_arguments)]
    pub fn configure(
        meta: &mut ConstraintSystemRef<'_>,
        col_x: AdviceColumn,
        col_a: AdviceColumn,
        col_b: AdviceColumn,
        col_c: AdviceColumn,
        two_pow_254: Expr,
        two_pow_126: Expr,
        t_p: Expr,
    ) -> (config: Self)
        requires
            old(meta).owns_column(col_x),
            old(meta).owns_column(col_a),
            old(meta).owns_column(col_b),
            old(meta).owns_column(col_c),
            forall|column: AdviceColumn|
                two_pow_254.mentions(column) || two_pow_126.mentions(column) || t_p.mentions(column)
                    ==> old(meta).owns_column(column),
        ensures
            config.spec_col_x() == col_x,
            config.spec_col_a() == col_a,
            config.spec_col_b() == col_b,
            config.spec_col_c() == col_c,
            final(meta).record() == (ConfigRecord {
                requests: old(meta).requests().push(
                    ConfigRequest::NewSelector { selector: config.spec_q_canon() },
                ).push(
                    ConfigRequest::CreateGate {
                        name: "Canonicity check"@,
                        selector: config.spec_q_canon(),
                        names: constraint_names(),
                        polys: canonicity_polys(
                            col_x,
                            col_a,
                            col_b,
                            col_c,
                            two_pow_254,
                            two_pow_126,
                            t_p,
                        ),
                    },
                ),
                ..old(meta).record()
            }),
    {
        let q_canon = meta.selector();
        let constraints = Self::constraints(
            col_x,
            col_a,
            col_b,
            col_c,
            two_pow_254,
            two_pow_126,
            t_p,
        );
        assert(constraints@.len() == crate::expression::polys_of(constraints@).len());
        proof {
            let polys = crate::expression::polys_of(constraints@);
            assert forall|i: int, column: AdviceColumn|
                0 <= i < polys.len() && #[trigger] polys[i].mentions(
                    column,
                ) implies meta.record().columns.contains(column) by {
                lemma_canonicity_columns(
                    col_x,
                    col_a,
                    col_b,
                    col_c,
                    two_pow_254,
                    two_pow_126,
                    t_p,
                    column,
                    i,
                );
            }
        }
        meta.create_gate("Canonicity check", q_canon, &constraints);
        Config { q_canon, col_x, col_a, col_b, col_c }
    }
}

/// A residue is its own residue.
pub proof fn lemma_residue_of_residue(n: nat)
    requires
        n < modulus(),
    ensures
        residue(n as int) == n,
{
    lemma_small_mod(n, modulus());
}

/// Sums, products and negations of residues are the residues of the sums,
/// products and negations.
pub proof fn lemma_residue_ops(u: int, v: int)
    ensures
        field_add(residue(u), residue(v)) == residue(u + v),
        field_mul(residue(u), residue(v)) == residue(u * v),
        field_sub(residue(u), residue(v)) == residue(u - v),
        field_sub(0, residue(v)) == residue(-v),
{
    lemma_modulus_value();
    let p = modulus() as int;
    lemma_mod_bound(u, p);
    lemma_mod_bound(v, p);
    lemma_add_mod_noop(u, v, p);
    lemma_mul_mod_both(u, v, p);
    lemma_sub_mod_noop(u, v, p);
    lemma_sub_mod_noop_right(0, v, p);
    assert(((u % p) * (v % p)) % p == (residue(u) * residue(v)) as int % p);
}

/// A queried cell evaluates to the cell's residue.
proof fn lemma_query_value(column: AdviceColumn, rotation: i32, cells: Cells)
    ensures
        query(column, rotation).eval(cells) == cell(cells, column, rotation as int),
        query(column, rotation).eval(cells) == residue(cell(cells, column, rotation as int) as int),
{
    lemma_modulus_value();
    lemma_mod_bound(cells(column, rotation as int) as int, modulus() as int);
    lemma_residue_of_residue(cell(cells, column, rotation as int));
}

/// The value of a sum, a product and a difference of two polynomials whose
/// values are known as residues.
proof fn lemma_eval_ops(a: Expr, b: Expr, u: int, v: int, cells: Cells)
    requires
        a.eval(cells) == residue(u),
        b.eval(cells) == residue(v),
    ensures
        Expr::Sum(Box::new(a), Box::new(b)).eval(cells) == residue(u + v),
        Expr::Product(Box::new(a), Box::new(b)).eval(cells) == residue(u * v),
        difference(a, b).eval(cells) == residue(u - v),
{
    lemma_residue_ops(u, v);
    lemma_residue_ops(0, v);
    lemma_residue_ops(u, -v);
    assert(Expr::Negated(Box::new(b)).eval(cells) == residue(-v));
}

/// What the four polynomials of this gate evaluate to.
pub proof fn lemma_canonicity_values(
    col_x: AdviceColumn,
    col_a: AdviceColumn,
    col_b: AdviceColumn,
    col_c: AdviceColumn,
    two_pow_254: Expr,
    two_pow_126: Expr,
    t_p: Expr,
    cells: Cells,
)
    ensures
        ({
            let polys = canonicity_polys(col_x, col_a, col_b, col_c, two_pow_254, two_pow_126, t_p);
            let x = cell(cells, col_x, 0);
            let a = cell(cells, col_a, 0);
            let b = cell(cells, col_b, 0);
            let c = cell(cells, col_c, 0);
            let a_prime = cell(cells, col_a, 1);
            let k254 = two_pow_254.eval(cells);
            let k126 = two_pow_126.eval(cells);
            let tp = t_p.eval(cells);
            &&& polys.len() == 4
            &&& polys[0].eval(cells) == residue(a + b * k126 + c * k254 - x)
            &&& polys[1].eval(cells) == residue(a_prime - (a + k126 - tp))
            &&& polys[2].eval(cells) == residue((c * b) as int)
            &&& polys[3].eval(cells) == residue((c * a_prime) as int)
        }),
{
    let x = cell(cells, col_x, 0) as int;
    let a = cell(cells, col_a, 0) as int;
    let b = cell(cells, col_b, 0) as int;
    let c = cell(cells, col_c, 0) as int;
    let a_prime = cell(cells, col_a, 1) as int;
    let k254 = two_pow_254.eval(cells) as int;
    let k126 = two_pow_126.eval(cells) as int;
    let tp = t_p.eval(cells) as int;
    lemma_eval_bound(two_pow_254, cells);
    lemma_eval_bound(two_pow_126, cells);
    lemma_eval_bound(t_p, cells);
    lemma_residue_of_residue(k254 as nat);
    lemma_residue_of_residue(k126 as nat);
    lemma_residue_of_residue(tp as nat);
    let qx = query(col_x, 0);
    let qa = query(col_a, 0);
    let qb = query(col_b, 0);
    let qc = query(col_c, 0);
    let qap = query(col_a, 1);
    lemma_query_value(col_x, 0, cells);
    lemma_query_value(col_a, 0, cells);
    lemma_query_value(col_b, 0, cells);
    lemma_query_value(col_c, 0, cells);
    lemma_query_value(col_a, 1, cells);
    // check_x
    let b_term = Expr::Product(Box::new(qb), Box::new(two_pow_126));
    let c_term = Expr::Product(Box::new(qc), Box::new(two_pow_254));
    let low = Expr::Sum(Box::new(qa), Box::new(b_term));
    let all = Expr::Sum(Box::new(low), Box::new(c_term));
    lemma_eval_ops(qb, two_pow_126, b, k126, cells);
    lemma_eval_ops(qc, two_pow_254, c, k254, cells);
    lemma_eval_ops(qa, b_term, a, b * k126, cells);
    lemma_eval_ops(low, c_term, a + b * k126, c * k254, cells);
    lemma_eval_ops(all, qx, a + b * k126 + c * k254, x, cells);
    assert(check_x_poly(col_x, col_a, col_b, col_c, two_pow_254, two_pow_126) == difference(
        all,
        qx,
    ));
    // a_prime_check
    let shifted = Expr::Sum(Box::new(qa), Box::new(two_pow_126));
    let target = difference(shifted, t_p);
    lemma_eval_ops(qa, two_pow_126, a, k126, cells);
    lemma_eval_ops(shifted, t_p, a + k126, tp, cells);
    lemma_eval_ops(qap, target, a_prime, a + k126 - tp, cells);
    assert(a_prime_poly(col_a, two_pow_126, t_p) == difference(qap, target));
    // products
    lemma_eval_ops(qc, qb, c, b, cells);
    lemma_eval_ops(qc, qap, c, a_prime, cells);
}

/// The meaning of this gate: on an enabled row it holds exactly if the cells
/// are in [`canonicity_relation`].
pub proof fn lemma_canonicity_gate(
    col_x: AdviceColumn,
    col_a: AdviceColumn,
    col_b: AdviceColumn,
    col_c: AdviceColumn,
    two_pow_254: Expr,
    two_pow_126: Expr,
    t_p: Expr,
    cells: Cells,
)
    ensures
        gate_holds(
            true,
            canonicity_polys(col_x, col_a, col_b, col_c, two_pow_254, two_pow_126, t_p),
            cells,
        ) <==> canonicity_relation(
            cell(cells, col_x, 0),
            cell(cells, col_a, 0),
            cell(cells, col_b, 0),
            cell(cells, col_c, 0),
            cell(cells, col_a, 1),
            two_pow_254.eval(cells),
            two_pow_126.eval(cells),
            t_p.eval(cells),
        ),
{
    let polys = canonicity_polys(col_x, col_a, col_b, col_c, two_pow_254, two_pow_126, t_p);
    lemma_canonicity_values(col_x, col_a, col_b, col_c, two_pow_254, two_pow_126, t_p, cells);
    lemma_enabled_gate_holds(polys, cells);
    if gate_holds(true, polys, cells) {
        assert(polys[0].eval(cells) == 0);
        assert(polys[1].eval(cells) == 0);
        assert(polys[2].eval(cells) == 0);
        assert(polys[3].eval(cells) == 0);
    }
}

/// With the constants of the Pallas base field, a set top bit forces the
/// boundary case: `b` is zero, `a_prime` is zero, and `a` is `T_P - 2^126`
/// in the field.
pub proof fn lemma_top_bit_forces_boundary(x: nat, a: nat, b: nat, a_prime: nat)
    requires
        a < modulus(),
        b < modulus(),
        a_prime < modulus(),
        canonicity_relation(x, a, b, 1, a_prime, pow2(254), pow2(126), T_P as nat),
    ensures
        b == 0,
        a_prime == 0,
        a == residue(T_P - pow2(126)),
{
    lemma_modulus_value();
    let p = modulus() as int;
    lemma_small_mod(b, p as nat);
    lemma_small_mod(a_prime, p as nat);
    assert(1 * b == b && 1 * a_prime == a_prime);
    // a_prime is zero, so a + 2^126 - T_P is zero in the field
    let d = a + pow2(126) - T_P;
    assert((-d) % p == 0);
    // a == (a - d) + d == (T_P - 2^126) + d, and d vanishes modulo p
    lemma_sub_mod_noop_right(a as int, -d, p);
    assert((a as int - (-d)) % p == (a as int) % p);
    lemma_add_mod_noop_right(T_P - pow2(126), d, p);
    lemma_sub_mod_noop_right(0, -d, p);
    assert(d % p == 0);
    lemma_small_mod(a, p as nat);
}

/// A top limb that has an inverse forces the middle limb and `a_prime` to
/// zero, whatever the constants are. In the field every limb but zero has an
/// inverse.
pub proof fn lemma_invertible_top_limb(c: nat, inverse: nat, b: nat, a_prime: nat)
    requires
        b < modulus(),
        a_prime < modulus(),
        field_mul(c, inverse) == 1,
        residue((c * b) as int) == 0,
        residue((c * a_prime) as int) == 0,
    ensures
        b == 0,
        a_prime == 0,
{
    lemma_modulus_value();
    let p = modulus() as int;
    let (bi, ai, ci, vi) = (b as int, a_prime as int, c as int, inverse as int);
    lemma_mul_cancel(bi, ci, vi, p);
    lemma_mul_cancel(ai, ci, vi, p);
    assert((bi * ci) % p == 0 && (ai * ci) % p == 0) by {
        lemma_mul_is_commutative(bi, ci);
        lemma_mul_is_commutative(ai, ci);
    }
    let zero = (bi * ci) % p;
    let nought = (ai * ci) % p;
    assert(zero * vi == 0 && nought * vi == 0) by (nonlinear_arith)
        requires
            zero == 0,
            nought == 0,
    ;
    lemma_small_mod(0, p as nat);
    lemma_small_mod(b, p as nat);
    lemma_small_mod(a_prime, p as nat);
}

/// Soundness: with the constants of the Pallas base field and limbs within
/// their ranges, the relation leaves only canonical representations. The
/// top bit is clear and `x` is the integer `a + b * 2^126`, which is below
/// `2^254` and so below the modulus.
pub proof fn lemma_canonical_limbs(x: nat, a: nat, b: nat, c: nat, a_prime: nat)
    requires
        x < modulus(),
        a_prime < modulus(),
        a < pow2(126),
        b < pow2(128),
        c <= 1,
        canonicity_relation(x, a, b, c, a_prime, pow2(254), pow2(126), T_P as nat),
    ensures
        c == 0,
        x == a + b * pow2(126),
        x < pow2(254),
{
    lemma_modulus_value();
    let p = modulus() as int;
    let t = pow2(126) as int;
    // a_prime is the integer a + 2^126 - T_P, which is positive
    let d = a + t - T_P;
    assert(0 < d < p);
    lemma_small_mod(d as nat, p as nat);
    lemma_small_mod(a_prime, p as nat);
    assert(a_prime == d) by {
        lemma_sub_mod_noop(a_prime as int, d, p);
        let e = a_prime as int - d;
        assert(e % p == 0);
        assert(-p < e < p);
        if e != 0 {
            lemma_fundamental_div_mod(e, p);
            let q = e / p;
            assert(e == p * q);
            assert(q == 0) by (nonlinear_arith)
                requires
                    e == p * q,
                    -p < e < p,
                    p > 0,
            ;
        }
    }
    if c == 1 {
        assert(c * a_prime == a_prime) by (nonlinear_arith)
            requires
                c == 1,
        ;
        assert(false);
    }
    assert(c * pow2(254) == 0) by (nonlinear_arith)
        requires
            c == 0,
    ;
    let s = a + b * t;
    assert(0 <= s < pow2(254)) by (nonlinear_arith)
        requires
            0 <= a < t,
            0 <= b < pow2(128),
            t == 0x40000000000000000000000000000000,
            pow2(128) == 0x100000000000000000000000000000000,
            pow2(254) == 0x4000000000000000000000000000000000000000000000000000000000000000,
            s == a + b * t,
    ;
    let e = s - x;
    assert(e % p == 0);
    assert(-p < e < p);
    if e != 0 {
        lemma_fundamental_div_mod(e, p);
        let q = e / p;
        assert(e == p * q);
        assert(q == 0) by (nonlinear_arith)
            requires
                e == p * q,
                -p < e < p,
                p > 0,
        ;
    }
}

/// The cells that this gate reads, constraint by constraint: `x`, `a`, `b`
/// and `c` in the current row, and `a_prime` in the next row of the column of
/// `a`. The constants are taken to read no cells.
pub proof fn lemma_canonicity_queries(
    col_x: AdviceColumn,
    col_a: AdviceColumn,
    col_b: AdviceColumn,
    col_c: AdviceColumn,
    two_pow_254: Expr,
    two_pow_126: Expr,
    t_p: Expr,
)
    requires
        two_pow_254.queries().len() == 0,
        two_pow_126.queries().len() == 0,
        t_p.queries().len() == 0,
    ensures
        all_queries(
            canonicity_polys(col_x, col_a, col_b, col_c, two_pow_254, two_pow_126, t_p),
            4,
        ) == seq![
            (col_a, 0i32),
            (col_b, 0i32),
            (col_c, 0i32),
            (col_x, 0i32),
            (col_a, 1i32),
            (col_a, 0i32),
            (col_c, 0i32),
            (col_b, 0i32),
            (col_c, 0i32),
            (col_a, 1i32),
        ],
{
    let polys = canonicity_polys(col_x, col_a, col_b, col_c, two_pow_254, two_pow_126, t_p);
    reveal_with_fuel(Expr::queries, 6);
    reveal_with_fuel(all_queries, 5);
    assert(two_pow_254.queries() =~= Seq::empty());
    assert(two_pow_126.queries() =~= Seq::empty());
    assert(t_p.queries() =~= Seq::empty());
    assert(polys[0].queries() =~= seq![(col_a, 0i32), (col_b, 0i32), (col_c, 0i32), (col_x, 0i32)]);
    assert(polys[1].queries() =~= seq![(col_a, 1i32), (col_a, 0i32)]);
    assert(polys[2].queries() =~= seq![(col_c, 0i32), (col_b, 0i32)]);
    assert(polys[3].queries() =~= seq![(col_c, 0i32), (col_a, 1i32)]);
    assert(all_queries(polys, 4) =~= polys[0].queries() + polys[1].queries() + polys[2].queries()
        + polys[3].queries());
}

/// The polynomials of this gate read no column but those of this gate and
/// those that the three constants read.
pub proof fn lemma_canonicity_columns(
    col_x: AdviceColumn,
    col_a: AdviceColumn,
    col_b: AdviceColumn,
    col_c: AdviceColumn,
    two_pow_254: Expr,
    two_pow_126: Expr,
    t_p: Expr,
    column: AdviceColumn,
    i: int,
)
    requires
        0 <= i < 4,
        canonicity_polys(col_x, col_a, col_b, col_c, two_pow_254, two_pow_126, t_p)[i].mentions(
            column,
        ),
    ensures
        column == col_x || column == col_a || column == col_b || column == col_c
            || two_pow_254.mentions(column) || two_pow_126.mentions(column) || t_p.mentions(column),
{
    reveal_with_fuel(Expr::mentions, 6);
}

/// Two configurations on separate columns do not interfere: whatever cells
/// each of them is given, the two assignments merge into one on which each
/// gate holds exactly as it did on its own. The constants are taken to read
/// no cells.
pub proof fn lemma_configurations_do_not_interfere(
    first: (AdviceColumn, AdviceColumn, AdviceColumn, AdviceColumn),
    second: (AdviceColumn, AdviceColumn, AdviceColumn, AdviceColumn),
    two_pow_254: Expr,
    two_pow_126: Expr,
    t_p: Expr,
    first_enabled: bool,
    second_enabled: bool,
    first_cells: Cells,
    second_cells: Cells,
)
    requires
        first.0 != second.0 && first.0 != second.1 && first.0 != second.2 && first.0 != second.3,
        first.1 != second.0 && first.1 != second.1 && first.1 != second.2 && first.1 != second.3,
        first.2 != second.0 && first.2 != second.1 && first.2 != second.2 && first.2 != second.3,
        first.3 != second.0 && first.3 != second.1 && first.3 != second.2 && first.3 != second.3,
        forall|column: AdviceColumn|
            !two_pow_254.mentions(column) && !two_pow_126.mentions(column) && !t_p.mentions(
                column,
            ),
    ensures
        ({
            let merged = merge(first, first_cells, second_cells);
            let first_polys = canonicity_polys(
                first.0,
                first.1,
                first.2,
                first.3,
                two_pow_254,
                two_pow_126,
                t_p,
            );
            let second_polys = canonicity_polys(
                second.0,
                second.1,
                second.2,
                second.3,
                two_pow_254,
                two_pow_126,
                t_p,
            );
            &&& gate_holds(first_enabled, first_polys, merged) == gate_holds(
                first_enabled,
                first_polys,
                first_cells,
            )
            &&& gate_holds(second_enabled, second_polys, merged) == gate_holds(
                second_enabled,
                second_polys,
                second_cells,
            )
        }),
{
    let merged = merge(first, first_cells, second_cells);
    let first_polys = canonicity_polys(
        first.0,
        first.1,
        first.2,
        first.3,
        two_pow_254,
        two_pow_126,
        t_p,
    );
    let second_polys = canonicity_polys(
        second.0,
        second.1,
        second.2,
        second.3,
        two_pow_254,
        two_pow_126,
        t_p,
    );
    assert forall|i: int| 0 <= i < 4 implies #[trigger] first_polys[i].eval(merged)
        == first_polys[i].eval(first_cells) by {
        assert forall|column: AdviceColumn, rotation: int|
            first_polys[i].mentions(column) implies #[trigger] merged(column, rotation)
            == first_cells(column, rotation) by {
            lemma_canonicity_columns(
                first.0,
                first.1,
                first.2,
                first.3,
                two_pow_254,
                two_pow_126,
                t_p,
                column,
                i,
            );
        }
        lemma_eval_frame(first_polys[i], merged, first_cells);
    }
    assert forall|i: int| 0 <= i < 4 implies #[trigger] second_polys[i].eval(merged)
        == second_polys[i].eval(second_cells) by {
        assert forall|column: AdviceColumn, rotation: int|
            second_polys[i].mentions(column) implies #[trigger] merged(column, rotation)
            == second_cells(column, rotation) by {
            lemma_canonicity_columns(
                second.0,
                second.1,
                second.2,
                second.3,
                two_pow_254,
                two_pow_126,
                t_p,
                column,
                i,
            );
        }
        lemma_eval_frame(second_polys[i], merged, second_cells);
    }
    lemma_gate_holds_alike(first_enabled, first_polys, merged, first_cells);
    lemma_gate_holds_alike(second_enabled, second_polys, merged, second_cells);
}

/// A gate holds alike on two assignments that give each of its polynomials
/// the same value.
pub proof fn lemma_gate_holds_alike(enabled: bool, polys: Seq<Expr>, cells: Cells, other: Cells)
    requires
        forall|i: int| 0 <= i < polys.len() ==> polys[i].eval(cells) == polys[i].eval(other),
    ensures
        gate_holds(enabled, polys, cells) == gate_holds(enabled, polys, other),
{
    if gate_holds(enabled, polys, cells) {
        assert forall|i: int| 0 <= i < polys.len() implies field_mul(
            if enabled {
                1
            } else {
                0
            },
            #[trigger] polys[i].eval(other),
        ) == 0 by {
            assert(polys[i].eval(cells) == polys[i].eval(other));
        }
    }
    if gate_holds(enabled, polys, other) {
        assert forall|i: int| 0 <= i < polys.len() implies field_mul(
            if enabled {
                1
            } else {
                0
            },
            #[trigger] polys[i].eval(cells),
        ) == 0 by {
            assert(polys[i].eval(cells) == polys[i].eval(other));
        }
    }
}

/// The assignment that follows `first_cells` on the columns `first` and
/// `second_cells` elsewhere.
pub open spec fn merge(
    first: (AdviceColumn, AdviceColumn, AdviceColumn, AdviceColumn),
    first_cells: Cells,
    second_cells: Cells,
) -> Cells {
    |column: AdviceColumn, rotation: int|
        if column == first.0 || column == first.1 || column == first.2 || column == first.3 {
            first_cells(column, rotation)
        } else {
            second_cells(column, rotation)
        }
}

} // verus!
