use std::marker::PhantomData;

use canonicity_gadgets::bit_check;
use canonicity_gadgets::canonicity;
use canonicity_gadgets::engine::{AdviceColumn, ConstraintSystemHandle, ConstraintSystemRef};
use canonicity_gadgets::expression::Expr;
use canonicity_gadgets::field::{FieldElement, T_P};
use ff::{Field, PrimeField};
use halo2_proofs::circuit::{Layouter, SimpleFloorPlanner, Value};
use halo2_proofs::dev::{MockProver, VerifyFailure};
use halo2_proofs::plonk::{Circuit, ConstraintSystem, Error};
use pasta_curves::arithmetic::FieldExt;
use pasta_curves::Fp;

/// Which column of which configuration a cell lies in.
#[derive(Clone, Copy, PartialEq)]
enum Col {
    X,
    A,
    B,
    C,
}

/// How the configurations of a circuit are made.
trait Setup {
    fn configure(meta: &mut ConstraintSystem<Fp>) -> Vec<canonicity::Config>;
}

fn four_columns(system: &mut ConstraintSystemRef<'_>) -> [AdviceColumn; 4] {
    [
        system.advice_column(),
        system.advice_column(),
        system.advice_column(),
        system.advice_column(),
    ]
}

fn toy_gate(meta: &mut ConstraintSystem<Fp>) -> canonicity::Config {
    let mut system = ConstraintSystemRef::new(ConstraintSystemHandle { inner: meta });
    let [x, a, b, c] = four_columns(&mut system);
    canonicity::Config::configure(
        &mut system,
        x,
        a,
        b,
        c,
        Expr::constant(FieldElement::from_u64(16)),
        Expr::constant(FieldElement::from_u64(4)),
        Expr::constant(FieldElement::from_u64(3)),
    )
}

/// One gate with the constants of the toy modulus `2^4 + 3`.
struct Toy;

impl Setup for Toy {
    fn configure(meta: &mut ConstraintSystem<Fp>) -> Vec<canonicity::Config> {
        vec![toy_gate(meta)]
    }
}

/// Two toy gates on separate columns.
struct TwoToys;

impl Setup for TwoToys {
    fn configure(meta: &mut ConstraintSystem<Fp>) -> Vec<canonicity::Config> {
        let first = toy_gate(meta);
        let second = toy_gate(meta);
        vec![first, second]
    }
}

/// The bit check, with the constants of the Pallas base field.
struct Pallas;

impl Setup for Pallas {
    fn configure(meta: &mut ConstraintSystem<Fp>) -> Vec<canonicity::Config> {
        let mut system = ConstraintSystemRef::new(ConstraintSystemHandle { inner: meta });
        let [x, a, b, c] = four_columns(&mut system);
        let config = bit_check::Config::configure(&mut system, x, a, b, c);
        assert_eq!(config.columns().0, x);
        assert_eq!(config.canonicity_config().col_a(), a);
        vec![config.canonicity_config()]
    }
}

struct GateCircuit<S: Setup> {
    /// (configuration, column, row, value)
    cells: Vec<(usize, Col, usize, Fp)>,
    /// (configuration, row)
    enabled: Vec<(usize, usize)>,
    setup: PhantomData<S>,
}

impl<S: Setup> GateCircuit<S> {
    fn new() -> Self {
        GateCircuit { cells: Vec::new(), enabled: Vec::new(), setup: PhantomData }
    }

    /// Puts `x`, `a`, `b`, `c` on `row` and `a_prime` on the row after it.
    fn witness(mut self, gate: usize, row: usize, x: Fp, a: Fp, b: Fp, c: Fp, a_prime: Fp) -> Self {
        self.cells.push((gate, Col::X, row, x));
        self.cells.push((gate, Col::A, row, a));
        self.cells.push((gate, Col::B, row, b));
        self.cells.push((gate, Col::C, row, c));
        self.cells.push((gate, Col::A, row + 1, a_prime));
        self
    }

    fn cell(mut self, gate: usize, column: Col, row: usize, value: Fp) -> Self {
        self.cells.push((gate, column, row, value));
        self
    }

    fn enable(mut self, gate: usize, row: usize) -> Self {
        self.enabled.push((gate, row));
        self
    }

    fn failures(&self) -> Vec<String> {
        let prover = MockProver::run(5, self, vec![]).unwrap();
        match prover.verify() {
            Ok(()) => Vec::new(),
            Err(failures) => failures
                .iter()
                .map(|failure| match failure {
                    VerifyFailure::ConstraintNotSatisfied { constraint, .. } => {
                        format!("{}", constraint)
                    }
                    other => format!("{:?}", other),
                })
                .collect(),
        }
    }
}

impl<S: Setup> Circuit<Fp> for GateCircuit<S> {
    type Config = Vec<canonicity::Config>;
    type FloorPlanner = SimpleFloorPlanner;

    fn without_witnesses(&self) -> Self {
        Self::new()
    }

    fn configure(meta: &mut ConstraintSystem<Fp>) -> Self::Config {
        S::configure(meta)
    }

    fn synthesize(
        &self,
        config: Self::Config,
        mut layouter: impl Layouter<Fp>,
    ) -> Result<(), Error> {
        layouter.assign_region(
            || "canonicity",
            |mut region| {
                for (gate, column, row, value) in &self.cells {
                    let column = match column {
                        Col::X => config[*gate].col_x(),
                        Col::A => config[*gate].col_a(),
                        Col::B => config[*gate].col_b(),
                        Col::C => config[*gate].col_c(),
                    };
                    region.assign_advice(|| "cell", column.inner, *row, || Value::known(*value))?;
                }
                for (gate, row) in &self.enabled {
                    config[*gate].q_canon().enable(&mut region, *row)?;
                }
                Ok(())
            },
        )
    }
}

fn fp(v: u64) -> Fp {
    Fp::from(v)
}

fn two_pow_126() -> Fp {
    Fp::from_u128(1 << 126)
}

fn two_pow_254() -> Fp {
    Fp::from_u128(1 << 127).square()
}

#[test]
fn toy_gate_rejects_a_set_top_bit_off_the_boundary() {
    // a = 1, b = 0, c = 1: a_prime = 1 + 4 - 3 = 2, so c * a_prime = 2.
    let circuit =
        GateCircuit::<Toy>::new().witness(0, 0, fp(17), fp(1), fp(0), fp(1), fp(2)).enable(0, 0);
    assert_eq!(
        circuit.failures(),
        vec![format!("Constraint 3 ('c * a_prime = 0') in gate 0 ('Canonicity check')")]
    );
}

#[test]
fn toy_gate_accepts_a_clear_top_bit() {
    // a = 1, b = 1, c = 0: x = 1 + 4, a_prime = 2.
    let circuit =
        GateCircuit::<Toy>::new().witness(0, 0, fp(5), fp(1), fp(1), fp(0), fp(2)).enable(0, 0);
    assert_eq!(circuit.failures(), Vec::<String>::new());
}

#[test]
fn toy_gate_accepts_the_boundary_witness() {
    // c = 1 goes with b = 0 and a = T_P - 2^126, which is 3 - 4 in the toy.
    let a = fp(3) - fp(4);
    let circuit = GateCircuit::<Toy>::new()
        .witness(0, 0, a + fp(16), a, fp(0), fp(1), fp(0))
        .enable(0, 0);
    assert_eq!(circuit.failures(), Vec::<String>::new());
}

#[test]
fn toy_gate_rejects_a_set_top_bit_with_a_middle_limb() {
    let a = fp(3) - fp(4);
    let circuit = GateCircuit::<Toy>::new()
        .witness(0, 0, a + fp(4) + fp(16), a, fp(1), fp(1), fp(0))
        .enable(0, 0);
    assert_eq!(
        circuit.failures(),
        vec![format!("Constraint 2 ('c * b = 0') in gate 0 ('Canonicity check')")]
    );
}

#[test]
fn toy_gate_rejects_a_wrong_reconstruction() {
    let circuit =
        GateCircuit::<Toy>::new().witness(0, 0, fp(6), fp(1), fp(1), fp(0), fp(2)).enable(0, 0);
    assert_eq!(
        circuit.failures(),
        vec![format!("Constraint 0 ('check_x') in gate 0 ('Canonicity check')")]
    );
}

#[test]
fn toy_gate_rejects_a_wrong_a_prime() {
    let circuit =
        GateCircuit::<Toy>::new().witness(0, 0, fp(5), fp(1), fp(1), fp(0), fp(3)).enable(0, 0);
    assert_eq!(
        circuit.failures(),
        vec![format!("Constraint 1 ('a_prime_check') in gate 0 ('Canonicity check')")]
    );
}

#[test]
fn rows_without_the_selector_are_free() {
    // Row 0 is checked; rows 2 to 4 hold values that are in no relation.
    let circuit = GateCircuit::<Toy>::new()
        .witness(0, 0, fp(5), fp(1), fp(1), fp(0), fp(2))
        .enable(0, 0)
        .witness(0, 2, fp(99), fp(1), fp(2), fp(1), fp(77))
        .cell(0, Col::X, 4, fp(1234))
        .cell(0, Col::C, 4, -fp(1));
    assert_eq!(circuit.failures(), Vec::<String>::new());

    // The same values fail once the selector is enabled on their row.
    let circuit =
        GateCircuit::<Toy>::new().witness(0, 2, fp(99), fp(1), fp(2), fp(1), fp(77)).enable(0, 2);
    assert_eq!(circuit.failures().len(), 4);
}

#[test]
fn two_configurations_do_not_interfere() {
    let both = GateCircuit::<TwoToys>::new()
        .witness(0, 0, fp(5), fp(1), fp(1), fp(0), fp(2))
        .enable(0, 0)
        .witness(1, 0, fp(14), fp(2), fp(3), fp(0), fp(3))
        .enable(1, 0);
    assert_eq!(both.failures(), Vec::<String>::new());

    // Breaking the second relation leaves the first one satisfied.
    let second_broken = GateCircuit::<TwoToys>::new()
        .witness(0, 0, fp(5), fp(1), fp(1), fp(0), fp(2))
        .enable(0, 0)
        .witness(1, 0, fp(15), fp(2), fp(3), fp(0), fp(3))
        .enable(1, 0);
    assert_eq!(
        second_broken.failures(),
        vec![format!("Constraint 0 ('check_x') in gate 1 ('Canonicity check')")]
    );

    // And the other way round.
    let first_broken = GateCircuit::<TwoToys>::new()
        .witness(0, 0, fp(5), fp(1), fp(1), fp(0), fp(9))
        .enable(0, 0)
        .witness(1, 0, fp(14), fp(2), fp(3), fp(0), fp(3))
        .enable(1, 0);
    assert_eq!(
        first_broken.failures(),
        vec![format!("Constraint 1 ('a_prime_check') in gate 0 ('Canonicity check')")]
    );
}

#[test]
fn two_configurations_take_separate_selectors() {
    let mut meta = ConstraintSystem::<Fp>::default();
    let configs = TwoToys::configure(&mut meta);
    assert_ne!(configs[0].q_canon(), configs[1].q_canon());
    assert_ne!(configs[0].col_x().inner, configs[1].col_x().inner);
    assert_ne!(configs[0].col_a().inner, configs[1].col_a().inner);
}

#[test]
fn bit_check_accepts_canonical_limbs() {
    let (a, b) = (fp(5), fp(7));
    let x = a + b * two_pow_126();
    let a_prime = a + two_pow_126() - Fp::from_u128(T_P);
    let circuit =
        GateCircuit::<Pallas>::new().witness(0, 0, x, a, b, Fp::zero(), a_prime).enable(0, 0);
    assert_eq!(circuit.failures(), Vec::<String>::new());
}

#[test]
fn bit_check_accepts_the_largest_limbs() {
    let a = two_pow_126() - Fp::one();
    let b = Fp::from_u128(u128::MAX);
    let x = a + b * two_pow_126();
    assert_eq!(x, two_pow_254() - Fp::one());
    let a_prime = a + two_pow_126() - Fp::from_u128(T_P);
    let circuit =
        GateCircuit::<Pallas>::new().witness(0, 0, x, a, b, Fp::zero(), a_prime).enable(0, 0);
    assert_eq!(circuit.failures(), Vec::<String>::new());
}

#[test]
fn bit_check_rejects_a_set_top_bit_over_small_limbs() {
    let a = fp(5);
    let x = a + two_pow_254();
    let a_prime = a + two_pow_126() - Fp::from_u128(T_P);
    let circuit =
        GateCircuit::<Pallas>::new().witness(0, 0, x, a, Fp::zero(), Fp::one(), a_prime).enable(0, 0);
    assert_eq!(
        circuit.failures(),
        vec![format!("Constraint 3 ('c * a_prime = 0') in gate 0 ('Canonicity check')")]
    );
}

#[test]
fn bit_check_accepts_only_the_boundary_under_a_set_top_bit() {
    // a = T_P - 2^126 in the field, which no 126-bit limb can hold.
    let a = Fp::from_u128(T_P) - two_pow_126();
    let x = a + two_pow_254();
    assert_eq!(x, -two_pow_126());
    let circuit = GateCircuit::<Pallas>::new()
        .witness(0, 0, x, a, Fp::zero(), Fp::one(), Fp::zero())
        .enable(0, 0);
    assert_eq!(circuit.failures(), Vec::<String>::new());
}

#[test]
fn bit_check_constants_are_those_of_the_field() {
    let (k254, k126, t_p) = bit_check::constants();
    assert_eq!(k254.to_repr(), two_pow_254().to_repr());
    assert_eq!(k126.to_repr(), two_pow_126().to_repr());
    assert_eq!(t_p.to_repr(), Fp::from_u128(T_P).to_repr());
    // p = 2^254 + T_P
    assert_eq!(two_pow_254() + Fp::from_u128(T_P), Fp::zero());
}
