//! The canonicity gate with the constants of the Pallas base field, on four
//! columns of its own.

use crate::canonicity;
use crate::canonicity::{canonicity_polys, canonicity_relation, lemma_canonicity_gate};
use crate::canonicity::constraint_names;
use crate::engine::{AdviceColumn, ConfigRecord, ConfigRequest, ConstraintSystemRef};
use crate::expression::{cell, gate_holds, Cells, Expr};
use crate::field::{fp_from_u128, fp_mul, lemma_modulus_value, FieldElement, T_P};
use halo2_proofs::plonk::Selector;
use vstd::arithmetic::div_mod::lemma_small_mod;
use vstd::arithmetic::power2::*;
use vstd::prelude::*;

verus! {

/// The three constants of this gate: `2^254`, `2^126` and `T_P`, in this
/// order.
pub fn constants() -> (r: (FieldElement, FieldElement, FieldElement))
    ensures
        r.0@ == pow2(254),
        r.1@ == pow2(126),
        r.2@ == T_P as nat,
{
    let two_pow_63 = fp_from_u128(1u128 << 63);
    let two_pow_127 = fp_from_u128(1u128 << 127);
    let two_pow_126 = fp_mul(&two_pow_63, &two_pow_63);
    let two_pow_254 = fp_mul(&two_pow_127, &two_pow_127);
    let t_p = fp_from_u128(T_P);
    proof {
        lemma_modulus_value();
        lemma2_to64_rest();
        assert(1u128 << 63 == 0x8000000000000000u128) by (bit_vector);
        assert(1u128 << 127 == 0x80000000000000000000000000000000u128) by (bit_vector);
        lemma_pow2_adds(63, 63);
        lemma_pow2_adds(63, 64);
        lemma_pow2_adds(127, 127);
        let a: int = 0x8000000000000000int;
        let b: int = 0x80000000000000000000000000000000int;
        assert(pow2(127) == b) by {
            lemma2_to64();
            assert(0x8000000000000000int * 0x10000000000000000int == b) by (nonlinear_arith)
                requires
                    b == 0x80000000000000000000000000000000int,
            ;
        }
        assert(a * a == pow2(126));
        assert(b * b == pow2(254));
        lemma_small_mod(pow2(126), crate::field::modulus());
        lemma_small_mod(pow2(254), crate::field::modulus());
    }
    (two_pow_254, two_pow_126, t_p)
}

/// Configuration of the bit check: a selector of its own, four advice
/// columns, and the canonicity gate over them.
#[derive(Debug, Clone, Copy)]
pub struct Config {
    q_check: Selector,
    canonicity_config: canonicity::Config,
    col_x: AdviceColumn,
    col_a: AdviceColumn,
    col_b: AdviceColumn,
    col_c: AdviceColumn,
}

impl Config {
    /// The selector of the bit check.
    pub closed spec fn spec_q_check(&self) -> Selector {
        self.q_check
    }

    /// The configuration of the canonicity gate.
    pub closed spec fn spec_canonicity_config(&self) -> canonicity::Config {
        self.canonicity_config
    }

    /// The columns of `x`, `a`, `b` and `c`.
    pub closed spec fn spec_columns(&self) -> (
        AdviceColumn,
        AdviceColumn,
        AdviceColumn,
        AdviceColumn,
    ) {
        (self.col_x, self.col_a, self.col_b, self.col_c)
    }

    /// The selector of the bit check.
    pub fn q_check(&self) -> (r: Selector)
        ensures
            r == self.spec_q_check(),
    {
        self.q_check
    }

    /// The configuration of the canonicity gate.
    pub fn canonicity_config(&self) -> (r: canonicity::Config)
        ensures
            r == self.spec_canonicity_config(),
    {
        self.canonicity_config
    }

    /// The columns of `x`, `a`, `b` and `c`.
    pub fn columns(&self) -> (r: (AdviceColumn, AdviceColumn, AdviceColumn, AdviceColumn))
        ensures
            r == self.spec_columns(),
    {
        (self.col_x, self.col_a, self.col_b, self.col_c)
    }

    /// Allocates the selector of the bit check and registers the canonicity
    /// gate over the four columns, with `2^254`, `2^126` and `T_P` as its
    /// constants.
    pub fn configure(
        meta: &mut ConstraintSystemRef<'_>,
        col_x: AdviceColumn,
        col_a: AdviceColumn,
        col_b: AdviceColumn,
        col_c: AdviceColumn,
    ) -> (config: Self)
        requires
            old(meta).owns_column(col_x),
            old(meta).owns_column(col_a),
            old(meta).owns_column(col_b),
            old(meta).owns_column(col_c),
        ensures
            config.spec_columns() == (col_x, col_a, col_b, col_c),
            config.spec_canonicity_config().spec_col_x() == col_x,
            config.spec_canonicity_config().spec_col_a() == col_a,
            config.spec_canonicity_config().spec_col_b() == col_b,
            config.spec_canonicity_config().spec_col_c() == col_c,
            exists|constants: (FieldElement, FieldElement, FieldElement)|
                {
                    &&& constants.0@ == pow2(254)
                    &&& constants.1@ == pow2(126)
                    &&& constants.2@ == T_P as nat
                    &&& final(meta).record() == (ConfigRecord {
                        requests: old(meta).requests().push(
                            ConfigRequest::NewSelector { selector: config.spec_q_check() },
                        ).push(
                            ConfigRequest::NewSelector {
                                selector: config.spec_canonicity_config().spec_q_canon(),
                            },
                        ).push(
                            ConfigRequest::CreateGate {
                                name: "Canonicity check"@,
                                selector: config.spec_canonicity_config().spec_q_canon(),
                                names: constraint_names(),
                                polys: bit_check_polys(col_x, col_a, col_b, col_c, constants),
                            },
                        ),
                        ..old(meta).record()
                    })
                },
    {
        let q_check = meta.selector();
        let (two_pow_254, two_pow_126, t_p) = constants();
        let canonicity_config = canonicity::Config::configure(
            meta,
            col_x,
            col_a,
            col_b,
            col_c,
            Expr::constant(two_pow_254),
            Expr::constant(two_pow_126),
            Expr::constant(t_p),
        );
        let config = Config { q_check, canonicity_config, col_x, col_a, col_b, col_c };
        proof {
            let constants = (two_pow_254, two_pow_126, t_p);
            assert(meta.record() == (ConfigRecord {
                requests: old(meta).requests().push(
                    ConfigRequest::NewSelector { selector: config.spec_q_check() },
                ).push(
                    ConfigRequest::NewSelector {
                        selector: config.spec_canonicity_config().spec_q_canon(),
                    },
                ).push(
                    ConfigRequest::CreateGate {
                        name: "Canonicity check"@,
                        selector: config.spec_canonicity_config().spec_q_canon(),
                        names: constraint_names(),
                        polys: bit_check_polys(col_x, col_a, col_b, col_c, constants),
                    },
                ),
                ..old(meta).record()
            }));
        }
        config
    }
}

/// This gate that [`Config::configure`] registers, given its constants.
pub open spec fn bit_check_polys(
    col_x: AdviceColumn,
    col_a: AdviceColumn,
    col_b: AdviceColumn,
    col_c: AdviceColumn,
    constants: (FieldElement, FieldElement, FieldElement),
) -> Seq<Expr> {
    canonicity_polys(
        col_x,
        col_a,
        col_b,
        col_c,
        Expr::Constant(constants.0),
        Expr::Constant(constants.1),
        Expr::Constant(constants.2),
    )
}

/// The meaning of the bit check: on an enabled row its gate holds exactly if
/// the cells are in the canonicity relation of the Pallas base field.
pub proof fn lemma_bit_check_gate(
    col_x: AdviceColumn,
    col_a: AdviceColumn,
    col_b: AdviceColumn,
    col_c: AdviceColumn,
    constants: (FieldElement, FieldElement, FieldElement),
    cells: Cells,
)
    requires
        constants.0@ == pow2(254),
        constants.1@ == pow2(126),
        constants.2@ == T_P as nat,
    ensures
        gate_holds(true, bit_check_polys(col_x, col_a, col_b, col_c, constants), cells)
            <==> canonicity_relation(
            cell(cells, col_x, 0),
            cell(cells, col_a, 0),
            cell(cells, col_b, 0),
            cell(cells, col_c, 0),
            cell(cells, col_a, 1),
            pow2(254),
            pow2(126),
            T_P as nat,
        ),
{
    lemma_canonicity_gate(
        col_x,
        col_a,
        col_b,
        col_c,
        Expr::Constant(constants.0),
        Expr::Constant(constants.1),
        Expr::Constant(constants.2),
        cells,
    );
}

} // verus!
