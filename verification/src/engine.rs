//! The boundary to the `halo2_proofs` constraint system.
//!
//! The constraint system allocates columns and selectors, records gates, and
//! manages the cells that witnesses are assigned to. Nothing of that is
//! verified here. Its values travel through the verified code inside the
//! handle types of this module, which Verus treats as opaque, and each of its
//! operations is reached through one trusted function. What such a function
//! claims is stated in its comment; most claim nothing beyond the types.
//!
//! What the verified code can answer for is what it asks of the constraint
//! system. [`RegionRef`] and [`ConstraintSystemRef`] therefore keep, as ghost
//! state, the requests that were made through them and answered with
//! success, in the order in which they were made, and the requests that were
//! refused, each with the error that came back. [`VirtualCellsRef`] keeps the
//! cells that were queried through it. The gadgets state their effects over
//! these records.
//!
//! The constraint system indexes its tables by the columns, selectors and
//! cells that it is handed, and panics on one that it did not give out
//! itself. The records therefore also keep what is known to belong to the
//! constraint system at hand. A column is known to a constraint system if it
//! was allocated through [`ConstraintSystemRef`]. A region and the cells of a
//! gate are made by the constraint system in the course of a circuit's
//! synthesis and configuration; what belongs to them is named by the circuit
//! that wraps them, which has it from its own configuration.

use crate::expression::{lower_all, names_of, polys_of, Constraint, Expr};
use crate::field::FieldElement;
use ff::{Field, PrimeField};
use halo2_proofs::circuit::{AssignedCell, Region, Value};
use halo2_proofs::plonk::{
    Advice, Column, ConstraintSystem, Constraints, Expression, Selector, VirtualCells,
};
use halo2_proofs::poly::Rotation;
use pasta_curves::Fp;
use vstd::prelude::*;

verus! {

/// `halo2_proofs::plonk::Selector`, carried through as an opaque value.
#[verifier::external_type_specification]
#[verifier::external_body]
pub struct ExSelector(Selector);

/// `halo2_proofs::plonk::Error`, carried through as an opaque value.
#[verifier::external_type_specification]
#[verifier::external_body]
pub struct ExPlonkError(halo2_proofs::plonk::Error);

/// `pasta_curves::Fp`, which occurs here only as the field of an expression.
#[verifier::external_type_specification]
#[verifier::external_body]
pub struct ExFp(Fp);

/// `halo2_proofs::plonk::Expression`, carried through as an opaque value.
#[verifier::external_type_specification]
#[verifier::external_body]
#[verifier::reject_recursive_types(F)]
pub struct ExExpression<F>(Expression<F>);

/// A region of the circuit that is being assigned:
/// `halo2_proofs::circuit::Region` over the Pallas base field. Verus cannot
/// take the declaration of that type, which is bounded by the trait
/// `ff::Field`, so it is kept behind this opaque handle.
#[verifier::external_body]
pub struct RegionHandle<'a, 'r> {
    pub inner: &'a mut Region<'r, Fp>,
}

/// The constraint system that is being configured:
/// `halo2_proofs::plonk::ConstraintSystem` over the Pallas base field, behind
/// an opaque handle for the same reason as [`RegionHandle`].
#[verifier::external_body]
pub struct ConstraintSystemHandle<'a> {
    pub inner: &'a mut ConstraintSystem<Fp>,
}

/// The cells that a gate may query while it is being defined:
/// `halo2_proofs::plonk::VirtualCells` over the Pallas base field, behind an
/// opaque handle for the same reason as [`RegionHandle`].
#[verifier::external_body]
pub struct VirtualCellsHandle<'a, 'c> {
    pub inner: &'a mut VirtualCells<'c, Fp>,
}

/// An advice column: `halo2_proofs::plonk::Column<Advice>`, behind an opaque
/// handle because Verus cannot take the declaration of `Column`, which is
/// bounded by the trait `ColumnType`.
#[verifier::external_body]
#[derive(Debug, PartialEq, Eq)]
pub struct AdviceColumn {
    pub inner: Column<Advice>,
}

impl Clone for AdviceColumn {
    /// A column is a plain index; copying it gives the same column.
    #[verifier::external_body]
    fn clone(&self) -> (r: Self)
        ensures
            r == *self,
    {
        AdviceColumn { inner: self.inner }
    }
}

impl Copy for AdviceColumn {}

/// A cell that a field element was assigned to:
/// `halo2_proofs::circuit::AssignedCell<Fp, Fp>`, behind an opaque handle for
/// the same reason as [`RegionHandle`].
#[verifier::external_body]
#[derive(Debug)]
pub struct AssignedFp {
    pub inner: AssignedCell<Fp, Fp>,
}

impl Clone for AssignedFp {
    /// `AssignedCell::clone`, which copies the cell's place and value.
    #[verifier::external_body]
    fn clone(&self) -> (r: Self)
        ensures
            r == *self,
    {
        AssignedFp { inner: self.inner.clone() }
    }
}

/// What can go wrong while a gadget is configured or assigned.
#[derive(Debug)]
pub enum GadgetError {
    /// The window width, the number of windows and the bit length do not fit
    /// together.
    InvalidWindowConfig,
    /// The constraint system reported an error; it is handed on unchanged.
    Engine(halo2_proofs::plonk::Error),
}

/// An assigned cell together with the value that the constraint system
/// recorded for it. The value is `None` while the circuit's shape is being
/// worked out and no witness is at hand.
#[derive(Debug)]
pub struct AssignedValue {
    value: Option<FieldElement>,
    cell: AssignedFp,
}

impl View for AssignedValue {
    type V = Option<nat>;

    /// The recorded value as a residue, if there is one.
    closed spec fn view(&self) -> Option<nat> {
        match self.value {
            Some(x) => Some(x@),
            None => None,
        }
    }
}

impl Clone for AssignedValue {
    fn clone(&self) -> (r: Self)
        ensures
            r == *self,
    {
        AssignedValue { value: self.value, cell: self.cell.clone() }
    }
}

impl AssignedValue {
    /// The cell itself.
    pub closed spec fn spec_cell(&self) -> AssignedFp {
        self.cell
    }

    /// Takes a cell that was assigned elsewhere, with the value recorded for it.
    pub fn from_cell(cell: AssignedFp) -> (r: AssignedValue)
        ensures
            r.spec_cell() == cell,
    {
        let value = read_value(&cell);
        AssignedValue { value, cell }
    }

    /// The recorded value.
    pub fn value(&self) -> (r: Option<FieldElement>)
        ensures
            value_view(r) == self@,
    {
        self.value
    }

    /// The cell of the constraint system.
    pub fn cell(&self) -> (r: &AssignedFp)
        ensures
            *r == self.spec_cell(),
    {
        &self.cell
    }
}

/// A request to a region that was answered with success.
pub enum RegionRequest {
    /// `selector` was enabled on `row`.
    EnableSelector { selector: Selector, row: usize },
    /// `value` was to be assigned to (`column`, `row`), and `cell` came back.
    AssignAdvice { column: AdviceColumn, row: usize, value: Option<nat>, cell: AssignedValue },
    /// The value of `source` was to be assigned to (`column`, `row`) and
    /// constrained to equal `source`, and `cell` came back.
    CopyAdvice { source: AssignedValue, column: AdviceColumn, row: usize, cell: AssignedValue },
    /// `cell` was constrained to hold zero.
    ConstrainZero { cell: AssignedValue },
}

/// What is asked of a region, whatever the answer.
pub enum RegionAsk {
    /// To enable `selector` on `row`.
    EnableSelector { selector: Selector, row: usize },
    /// To assign `value` to (`column`, `row`).
    AssignAdvice { column: AdviceColumn, row: usize, value: Option<nat> },
    /// To assign the value of `source` to (`column`, `row`) and to constrain
    /// the two cells to be equal.
    CopyAdvice { source: AssignedValue, column: AdviceColumn, row: usize },
    /// To constrain `cell` to hold zero.
    ConstrainZero { cell: AssignedValue },
}

/// What was asked where `request` was answered.
pub open spec fn ask_of(request: RegionRequest) -> RegionAsk {
    match request {
        RegionRequest::EnableSelector { selector, row } => RegionAsk::EnableSelector {
            selector,
            row,
        },
        RegionRequest::AssignAdvice { column, row, value, cell } => RegionAsk::AssignAdvice {
            column,
            row,
            value,
        },
        RegionRequest::CopyAdvice { source, column, row, cell } => RegionAsk::CopyAdvice {
            source,
            column,
            row,
        },
        RegionRequest::ConstrainZero { cell } => RegionAsk::ConstrainZero { cell },
    }
}

/// A request that a region refused: what was asked, the error that came
/// back, and how many requests had been answered with success before.
pub struct Refusal {
    pub ask: RegionAsk,
    pub error: halo2_proofs::plonk::Error,
    pub after: nat,
}

/// What is recorded of a region.
pub struct RegionRecord {
    /// The requests that were answered with success, oldest first.
    pub requests: Seq<RegionRequest>,
    /// The requests that were refused, oldest first.
    pub refusals: Seq<Refusal>,
    /// The selectors that are known to belong to the region's circuit.
    pub selectors: Seq<Selector>,
    /// The cells that are known to belong to the region's circuit.
    pub cells: Set<AssignedFp>,
}

/// A region together with the record of what was asked of it.
pub struct RegionRef<'a, 'r> {
    handle: RegionHandle<'a, 'r>,
    record: Ghost<RegionRecord>,
}

impl<'a, 'r> RegionRef<'a, 'r> {
    /// The record.
    pub closed spec fn record(&self) -> RegionRecord {
        self.record@
    }

    /// The requests that were answered with success, oldest first.
    pub open spec fn requests(&self) -> Seq<RegionRequest> {
        self.record().requests
    }

    /// The requests that were refused, oldest first.
    pub open spec fn refusals(&self) -> Seq<Refusal> {
        self.record().refusals
    }

    /// Whether `selector` is known to belong to the region's circuit.
    pub open spec fn knows_selector(&self, selector: Selector) -> bool {
        self.record().selectors.contains(selector)
    }

    /// Whether `cell` is known to belong to the region's circuit.
    pub open spec fn knows_cell(&self, cell: AssignedValue) -> bool {
        self.record().cells.contains(cell.spec_cell())
    }

    /// Starts an empty record for `handle`. The circuit names the selectors
    /// of its configuration that the region will be asked to enable.
    pub fn new(handle: RegionHandle<'a, 'r>, selectors: &Vec<Selector>) -> (r: Self)
        ensures
            r.record() == (RegionRecord {
                requests: Seq::empty(),
                refusals: Seq::empty(),
                selectors: selectors@,
                cells: Set::empty(),
            }),
    {
        RegionRef {
            handle,
            record: Ghost(
                RegionRecord {
                    requests: Seq::empty(),
                    refusals: Seq::empty(),
                    selectors: selectors@,
                    cells: Set::empty(),
                },
            ),
        }
    }

    /// Takes a cell that was assigned elsewhere in the region's circuit, with
    /// the value recorded for it.
    pub fn adopt(&mut self, cell: AssignedFp) -> (r: AssignedValue)
        ensures
            r.spec_cell() == cell,
            final(self).record() == (RegionRecord {
                cells: old(self).record().cells.insert(cell),
                ..old(self).record()
            }),
    {
        let r = AssignedValue::from_cell(cell);
        proof {
            self.record@ = RegionRecord {
                cells: self.record@.cells.insert(r.spec_cell()),
                ..self.record@
            };
        }
        r
    }

    /// Asks the region to enable `selector` on `row`.
    pub fn enable_selector(&mut self, selector: &Selector, row: usize) -> (r: Result<
        (),
        halo2_proofs::plonk::Error,
    >)
        requires
            row < usize::MAX,
            old(self).knows_selector(*selector),
        ensures
            r is Ok ==> final(self).record() == (RegionRecord {
                requests: old(self).requests().push(
                    RegionRequest::EnableSelector { selector: *selector, row },
                ),
                ..old(self).record()
            }),
            r matches Err(e) ==> final(self).record() == (RegionRecord {
                refusals: old(self).refusals().push(
                    Refusal {
                        ask: RegionAsk::EnableSelector { selector: *selector, row },
                        error: e,
                        after: old(self).requests().len(),
                    },
                ),
                ..old(self).record()
            }),
    {
        let r = enable_selector(self, selector, row);
        proof {
            let ask = RegionAsk::EnableSelector { selector: *selector, row };
            if r is Ok {
                self.record@ = RegionRecord {
                    requests: self.record@.requests.push(
                        RegionRequest::EnableSelector { selector: *selector, row },
                    ),
                    ..self.record@
                };
            } else {
                self.record@ = refused(self.record@, ask, r->Err_0);
            }
        }
        r
    }

    /// Asks the region to assign `value` to the cell at (`column`, `row`).
    /// The cell that comes back records `value`, or nothing if the region
    /// did not evaluate the witness.
    pub fn assign_advice(
        &mut self,
        label: &str,
        column: AdviceColumn,
        row: usize,
        value: Option<FieldElement>,
    ) -> (r: Result<AssignedValue, halo2_proofs::plonk::Error>)
        requires
            row < usize::MAX,
        ensures
            r matches Ok(cell) ==> (cell@ is None || cell@ == value_view(value))
                && final(self).record() == (RegionRecord {
                requests: old(self).requests().push(
                    RegionRequest::AssignAdvice { column, row, value: value_view(value), cell },
                ),
                cells: old(self).record().cells.insert(cell.spec_cell()),
                ..old(self).record()
            }),
            r matches Err(e) ==> final(self).record() == (RegionRecord {
                refusals: old(self).refusals().push(
                    Refusal {
                        ask: RegionAsk::AssignAdvice { column, row, value: value_view(value) },
                        error: e,
                        after: old(self).requests().len(),
                    },
                ),
                ..old(self).record()
            }),
    {
        let r = assign_advice(&mut self.handle, label, column, row, value);
        proof {
            let ask = RegionAsk::AssignAdvice { column, row, value: value_view(value) };
            if r is Ok {
                let cell = r->Ok_0;
                self.record@ = RegionRecord {
                    requests: self.record@.requests.push(
                        RegionRequest::AssignAdvice { column, row, value: value_view(value), cell },
                    ),
                    cells: self.record@.cells.insert(cell.spec_cell()),
                    ..self.record@
                };
            } else {
                self.record@ = refused(self.record@, ask, r->Err_0);
            }
        }
        r
    }

    /// Asks the region to assign the value of `source` to the cell at
    /// (`column`, `row`) and to constrain the two cells to be equal. The cell
    /// that comes back records the value of `source`, or nothing if the
    /// region did not evaluate the witness.
    pub fn copy_advice(
        &mut self,
        label: &str,
        source: &AssignedValue,
        column: AdviceColumn,
        row: usize,
    ) -> (r: Result<AssignedValue, halo2_proofs::plonk::Error>)
        requires
            row < usize::MAX,
            old(self).knows_cell(*source),
        ensures
            r matches Ok(cell) ==> (cell@ is None || cell@ == source@)
                && final(self).record() == (RegionRecord {
                requests: old(self).requests().push(
                    RegionRequest::CopyAdvice { source: *source, column, row, cell },
                ),
                cells: old(self).record().cells.insert(cell.spec_cell()),
                ..old(self).record()
            }),
            r matches Err(e) ==> final(self).record() == (RegionRecord {
                refusals: old(self).refusals().push(
                    Refusal {
                        ask: RegionAsk::CopyAdvice { source: *source, column, row },
                        error: e,
                        after: old(self).requests().len(),
                    },
                ),
                ..old(self).record()
            }),
    {
        let r = copy_advice(self, label, source, column, row);
        proof {
            let ask = RegionAsk::CopyAdvice { source: *source, column, row };
            if r is Ok {
                let cell = r->Ok_0;
                self.record@ = RegionRecord {
                    requests: self.record@.requests.push(
                        RegionRequest::CopyAdvice { source: *source, column, row, cell },
                    ),
                    cells: self.record@.cells.insert(cell.spec_cell()),
                    ..self.record@
                };
            } else {
                self.record@ = refused(self.record@, ask, r->Err_0);
            }
        }
        r
    }

    /// Asks the region to constrain `cell` to hold zero.
    pub fn constrain_zero(&mut self, cell: &AssignedValue) -> (r: Result<
        (),
        halo2_proofs::plonk::Error,
    >)
        ensures
            r is Ok ==> final(self).record() == (RegionRecord {
                requests: old(self).requests().push(RegionRequest::ConstrainZero { cell: *cell }),
                ..old(self).record()
            }),
            r matches Err(e) ==> final(self).record() == (RegionRecord {
                refusals: old(self).refusals().push(
                    Refusal {
                        ask: RegionAsk::ConstrainZero { cell: *cell },
                        error: e,
                        after: old(self).requests().len(),
                    },
                ),
                ..old(self).record()
            }),
    {
        let r = constrain_zero(&mut self.handle, cell);
        proof {
            let ask = RegionAsk::ConstrainZero { cell: *cell };
            if r is Ok {
                self.record@ = RegionRecord {
                    requests: self.record@.requests.push(
                        RegionRequest::ConstrainZero { cell: *cell },
                    ),
                    ..self.record@
                };
            } else {
                self.record@ = refused(self.record@, ask, r->Err_0);
            }
        }
        r
    }
}

/// The record after `ask` was refused with `error`.
pub open spec fn refused(
    record: RegionRecord,
    ask: RegionAsk,
    error: halo2_proofs::plonk::Error,
) -> RegionRecord {
    RegionRecord {
        refusals: record.refusals.push(Refusal { ask, error, after: record.requests.len() }),
        ..record
    }
}

/// A request to the constraint system that was made while it was configured.
pub enum ConfigRequest {
    /// An advice column was allocated, and `column` came back.
    NewAdviceColumn { column: AdviceColumn },
    /// `column` was made eligible for copy constraints.
    EnableEquality { column: AdviceColumn },
    /// A selector was allocated, and `selector` came back.
    NewSelector { selector: Selector },
    /// A gate was registered under `name` that requires each of `polys`,
    /// multiplied by `selector`, to vanish; `names` names the constraints.
    CreateGate { name: Seq<char>, selector: Selector, names: Seq<Seq<char>>, polys: Seq<Expr> },
}

/// What is recorded of a constraint system.
pub struct ConfigRecord {
    /// The requests that were made, oldest first.
    pub requests: Seq<ConfigRequest>,
    /// The advice columns that were allocated through the record's owner.
    pub columns: Set<AdviceColumn>,
}

/// Whether every column that one of `polys` reads is among `columns`.
pub open spec fn reads_within(polys: Seq<Expr>, columns: Set<AdviceColumn>) -> bool {
    forall|i: int, column: AdviceColumn|
        0 <= i < polys.len() && #[trigger] polys[i].mentions(column) ==> columns.contains(column)
}

/// The constraint system together with the record of what was asked of it.
pub struct ConstraintSystemRef<'a> {
    handle: ConstraintSystemHandle<'a>,
    record: Ghost<ConfigRecord>,
}

impl<'a> ConstraintSystemRef<'a> {
    /// The record.
    pub closed spec fn record(&self) -> ConfigRecord {
        self.record@
    }

    /// The requests that were made, oldest first.
    pub open spec fn requests(&self) -> Seq<ConfigRequest> {
        self.record().requests
    }

    /// Whether `column` was allocated from this constraint system.
    pub open spec fn owns_column(&self, column: AdviceColumn) -> bool {
        self.record().columns.contains(column)
    }

    /// Starts an empty record for `handle`.
    pub fn new(handle: ConstraintSystemHandle<'a>) -> (r: Self)
        ensures
            r.record() == (ConfigRecord { requests: Seq::empty(), columns: Set::empty() }),
    {
        ConstraintSystemRef {
            handle,
            record: Ghost(ConfigRecord { requests: Seq::empty(), columns: Set::empty() }),
        }
    }

    /// Allocates a new advice column.
    pub fn advice_column(&mut self) -> (column: AdviceColumn)
        ensures
            final(self).record() == (ConfigRecord {
                requests: old(self).requests().push(ConfigRequest::NewAdviceColumn { column }),
                columns: old(self).record().columns.insert(column),
            }),
    {
        let column = new_advice_column(&mut self.handle);
        proof {
            self.record@ = ConfigRecord {
                requests: self.record@.requests.push(ConfigRequest::NewAdviceColumn { column }),
                columns: self.record@.columns.insert(column),
            };
        }
        column
    }

    /// Makes `column` eligible for copy constraints.
    pub fn enable_equality(&mut self, column: AdviceColumn)
        requires
            old(self).owns_column(column),
        ensures
            final(self).record() == (ConfigRecord {
                requests: old(self).requests().push(ConfigRequest::EnableEquality { column }),
                ..old(self).record()
            }),
    {
        enable_equality(self, column);
        proof {
            self.record@ = ConfigRecord {
                requests: self.record@.requests.push(ConfigRequest::EnableEquality { column }),
                ..self.record@
            };
        }
    }

    /// Allocates a new selector.
    pub fn selector(&mut self) -> (selector: Selector)
        ensures
            final(self).record() == (ConfigRecord {
                requests: old(self).requests().push(ConfigRequest::NewSelector { selector }),
                ..old(self).record()
            }),
    {
        let selector = new_selector(&mut self.handle);
        proof {
            self.record@ = ConfigRecord {
                requests: self.record@.requests.push(ConfigRequest::NewSelector { selector }),
                ..self.record@
            };
        }
        selector
    }

    /// Registers a gate named `name` that requires each of the constraints,
    /// multiplied by `selector`, to vanish. The constraints read columns of
    /// this constraint system only.
    pub fn create_gate(
        &mut self,
        name: &'static str,
        selector: Selector,
        constraints: &Vec<Constraint>,
    )
        requires
            constraints@.len() > 0,
            reads_within(polys_of(constraints@), old(self).record().columns),
        ensures
            final(self).record() == (ConfigRecord {
                requests: old(self).requests().push(
                    ConfigRequest::CreateGate {
                        name: name@,
                        selector,
                        names: names_of(constraints@),
                        polys: polys_of(constraints@),
                    },
                ),
                ..old(self).record()
            }),
    {
        create_gate(self, name, selector, constraints);
        proof {
            self.record@ = ConfigRecord {
                requests: self.record@.requests.push(
                    ConfigRequest::CreateGate {
                        name: name@,
                        selector,
                        names: names_of(constraints@),
                        polys: polys_of(constraints@),
                    },
                ),
                ..self.record@
            };
        }
    }
}

/// What is recorded of the cells of a gate.
pub struct QueryRecord {
    /// The cells that were queried, each by its column and its rotation from
    /// the current row, oldest first.
    pub queries: Seq<(AdviceColumn, i32)>,
    /// The advice columns that are known to belong to the constraint system
    /// whose gate is being defined.
    pub columns: Set<AdviceColumn>,
}

/// The cells that a gate may query, together with the record of the cells
/// that were queried.
pub struct VirtualCellsRef<'a, 'c> {
    handle: VirtualCellsHandle<'a, 'c>,
    record: Ghost<QueryRecord>,
}

impl<'a, 'c> VirtualCellsRef<'a, 'c> {
    /// The record.
    pub closed spec fn record(&self) -> QueryRecord {
        self.record@
    }

    /// The cells that were queried, oldest first.
    pub open spec fn queries(&self) -> Seq<(AdviceColumn, i32)> {
        self.record().queries
    }

    /// Whether `column` is known to belong to the constraint system whose
    /// gate is being defined.
    pub open spec fn knows_column(&self, column: AdviceColumn) -> bool {
        self.record().columns.contains(column)
    }

    /// Starts an empty record for `handle`. The circuit names the advice
    /// columns of its configuration that will be queried.
    pub fn new(handle: VirtualCellsHandle<'a, 'c>, columns: &Vec<AdviceColumn>) -> (r: Self)
        ensures
            r.record() == (QueryRecord { queries: Seq::empty(), columns: columns@.to_set() }),
    {
        VirtualCellsRef {
            handle,
            record: Ghost(QueryRecord { queries: Seq::empty(), columns: columns@.to_set() }),
        }
    }

    /// Starts an empty record for the cells of a gate over `constraints`,
    /// while that gate is registered with a constraint system that owns the
    /// columns they read.
    pub(crate) fn for_gate(handle: VirtualCellsHandle<'a, 'c>, constraints: &Vec<Constraint>) -> (r:
        Self)
        ensures
            r.queries() == Seq::<(AdviceColumn, i32)>::empty(),
            forall|i: int, column: AdviceColumn|
                0 <= i < constraints@.len() && #[trigger] constraints@[i].poly.mentions(column)
                    ==> r.knows_column(column),
    {
        VirtualCellsRef {
            handle,
            record: Ghost(
                QueryRecord {
                    queries: Seq::empty(),
                    columns: Set::new(
                        |column: AdviceColumn|
                            exists|i: int|
                                0 <= i < constraints@.len() && #[trigger] constraints@[i].poly.mentions(
                                    column,
                                ),
                    ),
                },
            ),
        }
    }

    /// Queries the cell of `column` at `rotation` from the current row, and
    /// gives the expression that stands for it.
    pub fn query_advice(&mut self, column: AdviceColumn, rotation: i32) -> (r: Expression<Fp>)
        requires
            old(self).knows_column(column),
        ensures
            final(self).record() == (QueryRecord {
                queries: old(self).queries().push((column, rotation)),
                ..old(self).record()
            }),
    {
        let r = advice_query(self, column, rotation);
        proof {
            self.record@ = QueryRecord {
                queries: self.record@.queries.push((column, rotation)),
                ..self.record@
            };
        }
        r
    }
}

/// A recorded value is a residue.
pub proof fn lemma_assigned_in_field(cell: AssignedValue)
    ensures
        cell@ matches Some(v) ==> v < crate::field::modulus(),
{
    if let Some(x) = cell.value {
        crate::field::lemma_view_in_field(x);
    }
}

/// The residue of a value that may be unresolved.
pub open spec fn value_view(v: Option<FieldElement>) -> Option<nat> {
    match v {
        Some(x) => Some(x@),
        None => None,
    }
}

/// Reads the value of an assigned cell through `AssignedCell::value`. The
/// cell is opaque, so nothing is stated of the result.
#[verifier::external_body]
fn read_value(cell: &AssignedFp) -> Option<FieldElement> {
    let mut seen = None;
    cell.inner.value().map(|f| seen = Some(FieldElement { repr: f.to_repr() }));
    seen
}

/// `Region::assign_advice`: asks the region to assign `value` to the cell at
/// (`column`, `offset`). On success the cell's recorded value is `value`, or
/// nothing at all if the region did not evaluate the witness. A region that
/// only measures its shape computes `offset + 1`, which must fit.
#[verifier::external_body]
fn assign_advice(
    region: &mut RegionHandle<'_, '_>,
    label: &str,
    column: AdviceColumn,
    offset: usize,
    value: Option<FieldElement>,
) -> (r: Result<AssignedValue, halo2_proofs::plonk::Error>)
    requires
        offset < usize::MAX,
    ensures
        r matches Ok(c) ==> c@ is None || c@ == value_view(value),
{
    let v = match value {
        Some(x) => Value::known(Fp::from_repr(x.repr).unwrap()),
        None => Value::unknown(),
    };
    let cell = region.inner.assign_advice(|| label, column.inner, offset, || v)?;
    let mut seen = None;
    cell.value().map(|f| seen = Some(FieldElement { repr: f.to_repr() }));
    Ok(AssignedValue { value: seen, cell: AssignedFp { inner: cell } })
}

/// `AssignedCell::copy_advice`: asks the region to assign the value of
/// `source` to the cell at (`column`, `offset`) and to constrain the two
/// cells to be equal. On success the new cell's recorded value is that of
/// `source`, or nothing at all if the region did not evaluate the witness.
/// A region that only measures its shape computes `offset + 1`, which must
/// fit. The layouter looks up the region of `source`, which must be one of
/// its own: `source` is known to belong to the region's circuit. The record
/// is left as it is.
#[verifier::external_body]
fn copy_advice(
    region: &mut RegionRef<'_, '_>,
    label: &str,
    source: &AssignedValue,
    column: AdviceColumn,
    offset: usize,
) -> (r: Result<AssignedValue, halo2_proofs::plonk::Error>)
    requires
        offset < usize::MAX,
        old(region).knows_cell(*source),
    ensures
        r matches Ok(c) ==> c@ is None || c@ == source@,
        final(region).record() == old(region).record(),
{
    let to = &mut *region.handle.inner;
    let cell = source.cell.inner.copy_advice(|| label, to, column.inner, offset)?;
    let mut seen = None;
    cell.value().map(|f| seen = Some(FieldElement { repr: f.to_repr() }));
    Ok(AssignedValue { value: seen, cell: AssignedFp { inner: cell } })
}

/// `Selector::enable`: asks the region to enable `selector` on row `offset`.
/// A region that only measures its shape computes `offset + 1`, which must
/// fit. The constraint system under the region indexes its selectors by
/// `selector`, which must be one of its own: `selector` is known to belong to
/// the region's circuit. The record is left as it is.
#[verifier::external_body]
fn enable_selector(region: &mut RegionRef<'_, '_>, selector: &Selector, offset: usize) -> (r:
    Result<(), halo2_proofs::plonk::Error>)
    requires
        offset < usize::MAX,
        old(region).knows_selector(*selector),
    ensures
        final(region).record() == old(region).record(),
{
    selector.enable(region.handle.inner, offset)
}

/// `Region::constrain_constant` with the constant zero: asks the region to
/// constrain the cell to hold zero.
#[verifier::external_body]
fn constrain_zero(region: &mut RegionHandle<'_, '_>, cell: &AssignedValue) -> Result<
    (),
    halo2_proofs::plonk::Error,
> {
    region.inner.constrain_constant(cell.cell.inner.cell(), Fp::zero())
}

/// `ConstraintSystem::advice_column`: allocates a new advice column.
#[verifier::external_body]
fn new_advice_column(meta: &mut ConstraintSystemHandle<'_>) -> AdviceColumn {
    AdviceColumn { inner: meta.inner.advice_column() }
}

/// `ConstraintSystem::enable_equality`: makes the column eligible for copy
/// constraints. The constraint system counts the queries of each of its
/// advice columns, so `column` must be one that it allocated. The record is
/// left as it is.
#[verifier::external_body]
fn enable_equality(meta: &mut ConstraintSystemRef<'_>, column: AdviceColumn)
    requires
        old(meta).owns_column(column),
    ensures
        final(meta).record() == old(meta).record(),
{
    meta.handle.inner.enable_equality(column.inner)
}

/// `ConstraintSystem::selector`: allocates a new selector.
#[verifier::external_body]
fn new_selector(meta: &mut ConstraintSystemHandle<'_>) -> Selector {
    meta.inner.selector()
}

/// The annotation of partial sum `index`.
#[verifier::external_body]
pub(crate) fn partial_sum_label(index: usize) -> String {
    format!("z_{:?}", index)
}

/// `ConstraintSystem::create_gate`: registers a gate named `name` whose
/// constraints are the given polynomials, each multiplied by the query of
/// `selector`. A gate must have at least one constraint, and the columns
/// that it queries must be of this constraint system. The record is left as
/// it is.
#[verifier::external_body]
fn create_gate(
    meta: &mut ConstraintSystemRef<'_>,
    name: &'static str,
    selector: Selector,
    constraints: &Vec<Constraint>,
)
    requires
        constraints@.len() > 0,
        reads_within(polys_of(constraints@), old(meta).record().columns),
    ensures
        final(meta).record() == old(meta).record(),
{
    meta.handle.inner.create_gate(name, |cells| {
        let q = cells.query_selector(selector);
        let mut cells = VirtualCellsRef::for_gate(VirtualCellsHandle { inner: cells }, constraints);
        let polys = lower_all(constraints, &mut cells).into_iter().map(|c| (c.0, c.1.expression));
        Constraints::with_selector(q, polys)
    });
}

/// `VirtualCells::query_advice` at `Rotation(rotation)`: the expression that
/// stands for the queried cell. The constraint system counts the queries of
/// each of its advice columns, so `column` must be one of its own. The
/// record is left as it is.
#[verifier::external_body]
fn advice_query(cells: &mut VirtualCellsRef<'_, '_>, column: AdviceColumn, rotation: i32) -> (r:
    Expression<Fp>)
    requires
        old(cells).knows_column(column),
    ensures
        final(cells).record() == old(cells).record(),
{
    cells.handle.inner.query_advice(column.inner, Rotation(rotation))
}

/// `Expression::Constant`.
#[verifier::external_body]
pub(crate) fn constant_expression(c: &FieldElement) -> Expression<Fp> {
    Expression::Constant(Fp::from_repr(c.repr).unwrap())
}

/// `Expression::Negated`.
#[verifier::external_body]
pub(crate) fn negated_expression(e: Expression<Fp>) -> Expression<Fp> {
    Expression::Negated(Box::new(e))
}

/// `Expression::Sum`.
#[verifier::external_body]
pub(crate) fn sum_expression(a: Expression<Fp>, b: Expression<Fp>) -> Expression<Fp> {
    Expression::Sum(Box::new(a), Box::new(b))
}

/// `Expression::Product`.
#[verifier::external_body]
pub(crate) fn product_expression(a: Expression<Fp>, b: Expression<Fp>) -> Expression<Fp> {
    Expression::Product(Box::new(a), Box::new(b))
}

/// `Expression::Scaled`.
#[verifier::external_body]
pub(crate) fn scaled_expression(e: Expression<Fp>, c: &FieldElement) -> Expression<Fp> {
    Expression::Scaled(Box::new(e), Fp::from_repr(c.repr).unwrap())
}

} // verus!
