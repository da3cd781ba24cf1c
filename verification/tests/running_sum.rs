use std::cell::RefCell;

use canonicity_gadgets::engine::{
    AssignedFp, ConstraintSystemHandle, ConstraintSystemRef, GadgetError, RegionHandle, RegionRef,
    VirtualCellsHandle, VirtualCellsRef,
};
use canonicity_gadgets::field::FieldElement;
use canonicity_gadgets::utilities::decompose_running_sum::{RunningSum, RunningSumConfig};
use canonicity_gadgets::utilities::decompose_word;
use ff::{Field, PrimeField};
use halo2_proofs::circuit::{Layouter, SimpleFloorPlanner, Value};
use halo2_proofs::dev::MockProver;
use halo2_proofs::plonk::{
    Advice, Circuit, Column, ConstraintSystem, Constraints, Error, Expression,
};
use pasta_curves::Fp;

const K: usize = 3;

fn to_element(value: Fp) -> FieldElement {
    FieldElement::from_repr(value.to_repr()).unwrap()
}

fn to_fp(value: FieldElement) -> Fp {
    Fp::from_repr(value.to_repr()).unwrap()
}

fn to_value(value: Option<Fp>) -> Value<Fp> {
    match value {
        Some(v) => Value::known(v),
        None => Value::unknown(),
    }
}

/// What one pass over the region saw.
#[derive(Clone, Debug, PartialEq)]
struct Observed {
    zs: Vec<Option<Fp>>,
    windows: Vec<Option<Fp>>,
    num_bits: usize,
    strict: bool,
}

fn observe(sum: &RunningSum<K>) -> Observed {
    Observed {
        zs: sum.zs().iter().map(|z| z.value().map(to_fp)).collect(),
        windows: sum.windows().into_iter().map(|w| w.map(to_fp)).collect(),
        num_bits: sum.num_bits(),
        strict: sum.strict(),
    }
}

#[derive(Clone)]
struct DecomposeConfig {
    running_sum: RunningSumConfig<K>,
    source: Column<Advice>,
}

struct DecomposeCircuit {
    alpha: Option<Fp>,
    strict: bool,
    word_num_bits: usize,
    num_windows: usize,
    offset: usize,
    copy: bool,
    passes: RefCell<Vec<Result<Observed, String>>>,
}

impl DecomposeCircuit {
    fn new(alpha: u64, strict: bool, word_num_bits: usize, num_windows: usize) -> Self {
        DecomposeCircuit {
            alpha: Some(Fp::from(alpha)),
            strict,
            word_num_bits,
            num_windows,
            offset: 0,
            copy: false,
            passes: RefCell::new(Vec::new()),
        }
    }

    /// The pass in which the witness was at hand.
    fn resolved_pass(&self) -> Observed {
        let passes = self.passes.borrow();
        let found = passes.iter().find_map(|pass| match pass {
            Ok(seen) if seen.zs[0].is_some() => Some(seen.clone()),
            _ => None,
        });
        found.unwrap()
    }
}

impl Circuit<Fp> for DecomposeCircuit {
    type Config = DecomposeConfig;
    type FloorPlanner = SimpleFloorPlanner;

    fn without_witnesses(&self) -> Self {
        DecomposeCircuit {
            alpha: None,
            strict: self.strict,
            word_num_bits: self.word_num_bits,
            num_windows: self.num_windows,
            offset: self.offset,
            copy: self.copy,
            passes: RefCell::new(Vec::new()),
        }
    }

    fn configure(meta: &mut ConstraintSystem<Fp>) -> Self::Config {
        let source = meta.advice_column();
        meta.enable_equality(source);
        let q_range_check = meta.selector();
        let constants = meta.fixed_column();
        meta.enable_constant(constants);

        let running_sum = {
            let mut system = ConstraintSystemRef::new(ConstraintSystemHandle { inner: meta });
            let z = system.advice_column();
            RunningSumConfig::<K>::configure(&mut system, q_range_check, z).unwrap()
        };

        meta.create_gate("range check", |meta| {
            let q = meta.query_selector(running_sum.q_range_check());
            let word = running_sum
                .window_expr(&mut VirtualCellsRef::new(
                    VirtualCellsHandle { inner: meta },
                    &vec![running_sum.z()],
                ))
                .into_expression();
            // word * (1 - word) * ... * (2^K - 1 - word)
            let check = (1..(1u64 << K)).fold(word.clone(), |acc, i| {
                acc * (Expression::Constant(Fp::from(i)) - word.clone())
            });
            Constraints::with_selector(q, Some(check))
        });

        DecomposeConfig { running_sum, source }
    }

    fn synthesize(
        &self,
        config: Self::Config,
        mut layouter: impl Layouter<Fp>,
    ) -> Result<(), Error> {
        layouter.assign_region(
            || "decompose",
            |mut region| {
                let selectors = vec![config.running_sum.q_range_check()];
                let result = if self.copy {
                    let cell =
                        region.assign_advice(|| "alpha", config.source, 0, || to_value(self.alpha))?;
                    let mut region = RegionRef::new(RegionHandle { inner: &mut region }, &selectors);
                    let alpha = region.adopt(AssignedFp { inner: cell });
                    config.running_sum.copy_decompose(
                        &mut region,
                        self.offset,
                        alpha,
                        self.strict,
                        self.word_num_bits,
                        self.num_windows,
                    )
                } else {
                    config.running_sum.witness_decompose(
                        &mut RegionRef::new(RegionHandle { inner: &mut region }, &selectors),
                        self.offset,
                        self.alpha.map(to_element),
                        self.strict,
                        self.word_num_bits,
                        self.num_windows,
                    )
                };
                match result {
                    Ok(sum) => {
                        self.passes.borrow_mut().push(Ok(observe(&sum)));
                        Ok(())
                    }
                    Err(GadgetError::InvalidWindowConfig) => {
                        self.passes.borrow_mut().push(Err(format!("invalid window config")));
                        Err(Error::Synthesis)
                    }
                    Err(GadgetError::Engine(e)) => {
                        self.passes.borrow_mut().push(Err(format!("engine: {:?}", e)));
                        Err(e)
                    }
                }
            },
        )
    }
}

fn known(values: &[u64]) -> Vec<Option<Fp>> {
    values.iter().map(|v| Some(Fp::from(*v))).collect()
}

#[test]
fn witness_decompose_assigns_the_running_sum() {
    let circuit = DecomposeCircuit::new(0b101101, true, 6, 2);
    let prover = MockProver::run(6, &circuit, vec![]).unwrap();
    assert_eq!(prover.verify(), Ok(()));

    let seen = circuit.resolved_pass();
    assert_eq!(seen.zs, known(&[45, 5, 0]));
    assert_eq!(seen.windows, known(&[5, 5]));
    assert_eq!(seen.num_bits, 6);
    assert!(seen.strict);
}

#[test]
fn windows_are_the_digits_of_the_word_decomposer() {
    let alpha: u64 = 0x1234_5678_9abc_def0;
    let circuit = DecomposeCircuit::new(alpha, true, 66, 22);
    let prover = MockProver::run(6, &circuit, vec![]).unwrap();
    assert_eq!(prover.verify(), Ok(()));

    let seen = circuit.resolved_pass();
    let digits = decompose_word(&FieldElement::from_u64(alpha), 66, K);
    assert_eq!(digits.len(), 22);
    assert_eq!(seen.zs.len(), 23);
    let expected: Vec<Option<Fp>> = digits.iter().map(|d| Some(Fp::from(*d as u64))).collect();
    assert_eq!(seen.windows, expected);
    for (i, z) in seen.zs.iter().enumerate() {
        let shifted = if 3 * i >= 64 { 0 } else { alpha >> (3 * i) };
        assert_eq!(*z, Some(Fp::from(shifted)));
    }
}

#[test]
fn strict_mode_rejects_a_value_beyond_the_bit_length() {
    // 109 = 0b1_101_101 does not fit in two windows of three bits.
    let circuit = DecomposeCircuit::new(0b1_101_101, true, 6, 2);
    let prover = MockProver::run(6, &circuit, vec![]).unwrap();
    assert!(prover.verify().is_err());

    let seen = circuit.resolved_pass();
    assert_eq!(seen.zs, known(&[109, 13, 1]));
    assert_eq!(seen.windows, known(&[5, 5]));
}

#[test]
fn lenient_mode_leaves_the_final_sum_free() {
    let circuit = DecomposeCircuit::new(0b1_101_101, false, 6, 2);
    let prover = MockProver::run(6, &circuit, vec![]).unwrap();
    assert_eq!(prover.verify(), Ok(()));

    let seen = circuit.resolved_pass();
    assert_eq!(seen.zs, known(&[109, 13, 1]));
    assert!(!seen.strict);
}

#[test]
fn the_last_window_may_be_partial() {
    // Seven bits in three windows: the last window holds one bit.
    let circuit = DecomposeCircuit::new(0b1_110_101, true, 7, 3);
    let prover = MockProver::run(6, &circuit, vec![]).unwrap();
    assert_eq!(prover.verify(), Ok(()));

    let seen = circuit.resolved_pass();
    assert_eq!(seen.zs, known(&[0b1_110_101, 0b1_110, 0b1, 0]));
    assert_eq!(seen.windows, known(&[0b101, 0b110, 0b001]));
    assert_eq!(seen.num_bits, 7);
}

#[test]
fn fewer_windows_than_digits_peel_the_low_windows() {
    let circuit = DecomposeCircuit::new(0b111_110_101, false, 9, 2);
    let prover = MockProver::run(6, &circuit, vec![]).unwrap();
    assert_eq!(prover.verify(), Ok(()));

    let seen = circuit.resolved_pass();
    assert_eq!(seen.zs, known(&[0b111_110_101, 0b111_110, 0b111]));
    assert_eq!(seen.windows, known(&[0b101, 0b110]));
}

#[test]
fn no_windows_leave_the_value_alone() {
    let circuit = DecomposeCircuit::new(5, false, 6, 0);
    let prover = MockProver::run(6, &circuit, vec![]).unwrap();
    assert_eq!(prover.verify(), Ok(()));

    let seen = circuit.resolved_pass();
    assert_eq!(seen.zs, known(&[5]));
    assert_eq!(seen.windows, Vec::<Option<Fp>>::new());
}

#[test]
fn decomposes_at_an_offset() {
    let mut circuit = DecomposeCircuit::new(0b101101, true, 6, 2);
    circuit.offset = 5;
    let prover = MockProver::run(6, &circuit, vec![]).unwrap();
    assert_eq!(prover.verify(), Ok(()));
    assert_eq!(circuit.resolved_pass().zs, known(&[45, 5, 0]));
}

#[test]
fn copy_decompose_copies_the_value_in() {
    let mut circuit = DecomposeCircuit::new(0b101101, true, 6, 2);
    circuit.copy = true;
    let prover = MockProver::run(6, &circuit, vec![]).unwrap();
    assert_eq!(prover.verify(), Ok(()));

    let seen = circuit.resolved_pass();
    assert_eq!(seen.zs, known(&[45, 5, 0]));
    assert_eq!(seen.windows, known(&[5, 5]));
}

#[test]
fn copy_decompose_in_strict_mode_rejects_a_large_value() {
    let mut circuit = DecomposeCircuit::new(1 << 20, true, 6, 2);
    circuit.copy = true;
    let prover = MockProver::run(6, &circuit, vec![]).unwrap();
    assert!(prover.verify().is_err());
}

#[test]
fn too_many_windows_are_refused() {
    // 3 * 3 < 6 + 3 does not hold.
    let circuit = DecomposeCircuit::new(0b101101, true, 6, 3);
    assert!(MockProver::run(6, &circuit, vec![]).is_err());
    let passes = circuit.passes.borrow();
    assert_eq!(passes.len(), 1);
    assert_eq!(passes[0], Err(format!("invalid window config")));
}

#[test]
fn as_many_windows_as_fit_are_accepted() {
    // 3 * 22 < 64 + 3, and 3 * 23 is not.
    let circuit = DecomposeCircuit::new(u64::MAX, true, 64, 22);
    let prover = MockProver::run(6, &circuit, vec![]).unwrap();
    assert_eq!(prover.verify(), Ok(()));
    assert_eq!(circuit.resolved_pass().zs[22], Some(Fp::zero()));

    let circuit = DecomposeCircuit::new(u64::MAX, true, 64, 23);
    assert!(MockProver::run(6, &circuit, vec![]).is_err());
    assert_eq!(circuit.passes.borrow()[0], Err(format!("invalid window config")));
}

#[test]
fn unresolved_values_stay_unresolved() {
    // The first pass over a region only measures its shape: no witness is
    // evaluated, and every partial sum and window is unresolved.
    let circuit = DecomposeCircuit::new(0b101101, true, 6, 2);
    MockProver::run(6, &circuit, vec![]).unwrap();
    let passes = circuit.passes.borrow();
    assert_eq!(passes.len(), 2);
    let shape = passes[0].clone().unwrap();
    assert_eq!(shape.zs, vec![None, None, None]);
    assert_eq!(shape.windows, vec![None, None]);
    assert_eq!(shape.num_bits, 6);
}

#[test]
fn engine_errors_are_handed_on() {
    // Without a witness the prover cannot assign the first cell.
    let circuit = DecomposeCircuit::new(0b101101, true, 6, 2).without_witnesses();
    assert!(MockProver::run(6, &circuit, vec![]).is_err());
    let passes = circuit.passes.borrow();
    assert_eq!(passes.len(), 2);
    assert!(passes[0].is_ok());
    assert_eq!(passes[1], Err(format!("engine: {:?}", Error::Synthesis)));
}

#[test]
fn configure_refuses_a_window_width_of_zero() {
    let mut meta = ConstraintSystem::<Fp>::default();
    let mut system = ConstraintSystemRef::new(ConstraintSystemHandle { inner: &mut meta });
    let z = system.advice_column();
    let q = system.selector();
    let result = RunningSumConfig::<0>::configure(&mut system, q, z);
    assert!(matches!(result, Err(GadgetError::InvalidWindowConfig)));
}

#[test]
fn configure_refuses_a_window_wider_than_a_digit() {
    let mut meta = ConstraintSystem::<Fp>::default();
    let mut system = ConstraintSystemRef::new(ConstraintSystemHandle { inner: &mut meta });
    let z = system.advice_column();
    let q = system.selector();
    let result = RunningSumConfig::<9>::configure(&mut system, q, z);
    assert!(matches!(result, Err(GadgetError::InvalidWindowConfig)));
    let result = RunningSumConfig::<64>::configure(&mut system, q, z);
    assert!(matches!(result, Err(GadgetError::InvalidWindowConfig)));
    let result = RunningSumConfig::<8>::configure(&mut system, q, z);
    assert!(result.is_ok());
}

#[test]
fn configure_keeps_the_selector_and_the_column() {
    let mut meta = ConstraintSystem::<Fp>::default();
    let mut system = ConstraintSystemRef::new(ConstraintSystemHandle { inner: &mut meta });
    let z = system.advice_column();
    let q = system.selector();
    let config = RunningSumConfig::<K>::configure(&mut system, q, z).unwrap();
    assert_eq!(config.q_range_check(), q);
    assert_eq!(config.z(), z);
}

#[test]
fn allocated_columns_are_those_of_the_constraint_system() {
    let mut meta = ConstraintSystem::<Fp>::default();
    let first = meta.advice_column();
    let (second, third) = {
        let mut system = ConstraintSystemRef::new(ConstraintSystemHandle { inner: &mut meta });
        (system.advice_column(), system.advice_column())
    };
    let fourth = meta.advice_column();
    assert_ne!(first, second.inner);
    assert_ne!(second, third);
    assert_ne!(third.inner, fourth);
}
