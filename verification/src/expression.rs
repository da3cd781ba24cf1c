//! Constraint polynomials over advice cells, with their meaning.
//!
//! A gadget states its relations as values of [`Expr`], whose value on a
//! given assignment of the cells is defined here. Only when a gate is
//! registered are they turned into expressions of the constraint system.

use crate::engine::{
    constant_expression, negated_expression, product_expression, scaled_expression,
    sum_expression, AdviceColumn, QueryRecord, VirtualCellsRef,
};
use crate::field::{field_add, field_mul, field_sub, modulus, FieldElement};
use halo2_proofs::plonk::Expression;
use pasta_curves::Fp;
use vstd::prelude::*;

verus! {

/// An assignment of the advice cells, seen from one row: the value of each
/// column at each rotation from that row.
pub type Cells = spec_fn(AdviceColumn, int) -> nat;

/// The residue of an integer.
pub open spec fn residue(v: int) -> nat {
    (v % (modulus() as int)) as nat
}

/// The cell of `column` at `rotation`, as a residue.
pub open spec fn cell(cells: Cells, column: AdviceColumn, rotation: int) -> nat {
    cells(column, rotation) % modulus()
}

/// A polynomial over advice cells at rotations from the current row.
pub enum Expr {
    /// A constant.
    Constant(FieldElement),
    /// The cell of `column` at `rotation` from the current row.
    Advice { column: AdviceColumn, rotation: i32 },
    /// `-e`.
    Negated(Box<Expr>),
    /// `a + b`.
    Sum(Box<Expr>, Box<Expr>),
    /// `a * b`.
    Product(Box<Expr>, Box<Expr>),
    /// `e * c` for a constant `c`.
    Scaled(Box<Expr>, FieldElement),
}

impl Expr {
    /// The value of the polynomial on `cells`, as a residue.
    pub open spec fn eval(self, cells: Cells) -> nat
        decreases self,
    {
        match self {
            Expr::Constant(c) => c@,
            Expr::Advice { column, rotation } => cell(cells, column, rotation as int),
            Expr::Negated(e) => field_sub(0, e.eval(cells)),
            Expr::Sum(a, b) => field_add(a.eval(cells), b.eval(cells)),
            Expr::Product(a, b) => field_mul(a.eval(cells), b.eval(cells)),
            Expr::Scaled(e, c) => field_mul(e.eval(cells), c@),
        }
    }

    /// Whether the polynomial reads a cell of `column`.
    pub open spec fn mentions(self, column: AdviceColumn) -> bool
        decreases self,
    {
        match self {
            Expr::Constant(_) => false,
            Expr::Advice { column: c, rotation: _ } => c == column,
            Expr::Negated(e) => e.mentions(column),
            Expr::Sum(a, b) => a.mentions(column) || b.mentions(column),
            Expr::Product(a, b) => a.mentions(column) || b.mentions(column),
            Expr::Scaled(e, _) => e.mentions(column),
        }
    }

    /// The cells that the polynomial reads, each by its column and its
    /// rotation, in the order in which they stand in the polynomial; a cell
    /// that is read twice occurs twice.
    pub open spec fn queries(self) -> Seq<(AdviceColumn, i32)>
        decreases self,
    {
        match self {
            Expr::Constant(_) => Seq::empty(),
            Expr::Advice { column, rotation } => seq![(column, rotation)],
            Expr::Negated(e) => e.queries(),
            Expr::Sum(a, b) => a.queries() + b.queries(),
            Expr::Product(a, b) => a.queries() + b.queries(),
            Expr::Scaled(e, _) => e.queries(),
        }
    }

    /// The constant `c`.
    pub fn constant(c: FieldElement) -> (r: Expr)
        ensures
            r == Expr::Constant(c),
    {
        Expr::Constant(c)
    }

    /// The cell of `column` at `rotation`.
    pub fn advice(column: AdviceColumn, rotation: i32) -> (r: Expr)
        ensures
            r == (Expr::Advice { column, rotation }),
    {
        Expr::Advice { column, rotation }
    }

    /// `a + b`.
    pub fn plus(a: Expr, b: Expr) -> (r: Expr)
        ensures
            r == Expr::Sum(Box::new(a), Box::new(b)),
    {
        Expr::Sum(Box::new(a), Box::new(b))
    }

    /// `a - b`, which is `a + (-b)`.
    pub fn minus(a: Expr, b: Expr) -> (r: Expr)
        ensures
            r == Expr::Sum(Box::new(a), Box::new(Expr::Negated(Box::new(b)))),
    {
        Expr::Sum(Box::new(a), Box::new(Expr::Negated(Box::new(b))))
    }

    /// `a * b`.
    pub fn times(a: Expr, b: Expr) -> (r: Expr)
        ensures
            r == Expr::Product(Box::new(a), Box::new(b)),
    {
        Expr::Product(Box::new(a), Box::new(b))
    }

    /// `e * c` for a constant `c`.
    pub fn scaled(e: Expr, c: FieldElement) -> (r: Expr)
        ensures
            r == Expr::Scaled(Box::new(e), c),
    {
        Expr::Scaled(Box::new(e), c)
    }

    /// Turns the polynomial into an expression of the constraint system,
    /// querying each cell it reads: the cells of [`Expr::queries`], in that
    /// order. What comes back is the expression, with the polynomial that it
    /// was built from node by node.
    pub fn lower(&self, cells: &mut VirtualCellsRef<'_, '_>) -> (r: Lowered)
        requires
            forall|column: AdviceColumn| #[trigger]
                self.mentions(column) ==> old(cells).knows_column(column),
        ensures
            r.poly() == *self,
            final(cells).record() == (QueryRecord {
                queries: old(cells).queries() + self.queries(),
                ..old(cells).record()
            }),
        decreases self,
    {
        let ghost before = cells.queries();
        match self {
            Expr::Constant(c) => {
                assert(before + self.queries() =~= before);
                Lowered { expression: constant_expression(c), poly: Ghost(*self) }
            },
            Expr::Advice { column, rotation } => {
                assert(self.mentions(*column));
                assert(before + self.queries() =~= before.push((*column, *rotation)));
                Lowered { expression: cells.query_advice(*column, *rotation), poly: Ghost(*self) }
            },
            Expr::Negated(e) => {
                proof {
                    lemma_mentions_within(*self, **e, cells.record().columns);
                }
                let inner = e.lower(cells);
                Lowered { expression: negated_expression(inner.expression), poly: Ghost(*self) }
            },
            Expr::Sum(a, b) => {
                proof {
                    lemma_mentions_within(*self, **a, cells.record().columns);
                    lemma_mentions_within(*self, **b, cells.record().columns);
                }
                let left = a.lower(cells);
                let right = b.lower(cells);
                assert(before + self.queries() =~= before + a.queries() + b.queries());
                Lowered {
                    expression: sum_expression(left.expression, right.expression),
                    poly: Ghost(*self),
                }
            },
            Expr::Product(a, b) => {
                proof {
                    lemma_mentions_within(*self, **a, cells.record().columns);
                    lemma_mentions_within(*self, **b, cells.record().columns);
                }
                let left = a.lower(cells);
                let right = b.lower(cells);
                assert(before + self.queries() =~= before + a.queries() + b.queries());
                Lowered {
                    expression: product_expression(left.expression, right.expression),
                    poly: Ghost(*self),
                }
            },
            Expr::Scaled(e, c) => {
                proof {
                    lemma_mentions_within(*self, **e, cells.record().columns);
                }
                let inner = e.lower(cells);
                Lowered { expression: scaled_expression(inner.expression, c), poly: Ghost(*self) }
            },
        }
    }
}

/// Whether `part` is one of the polynomials that `whole` is made of.
pub open spec fn is_operand(whole: Expr, part: Expr) -> bool {
    match whole {
        Expr::Constant(_) => false,
        Expr::Advice { .. } => false,
        Expr::Negated(e) => *e == part,
        Expr::Sum(a, b) => *a == part || *b == part,
        Expr::Product(a, b) => *a == part || *b == part,
        Expr::Scaled(e, _) => *e == part,
    }
}

/// A polynomial reads the columns that its operands read.
pub proof fn lemma_mentions_within(whole: Expr, part: Expr, columns: Set<AdviceColumn>)
    requires
        is_operand(whole, part),
        forall|column: AdviceColumn| #[trigger] whole.mentions(column) ==> columns.contains(column),
    ensures
        forall|column: AdviceColumn| #[trigger] part.mentions(column) ==> columns.contains(column),
{
    assert forall|column: AdviceColumn| #[trigger] part.mentions(column) implies columns.contains(
        column,
    ) by {
        assert(whole.mentions(column));
    }
}

/// An expression of the constraint system, together with the polynomial
/// that it was lowered from.
pub struct Lowered {
    pub(crate) expression: Expression<Fp>,
    poly: Ghost<Expr>,
}

impl Lowered {
    /// The polynomial that the expression was lowered from.
    pub closed spec fn poly(&self) -> Expr {
        self.poly@
    }

    /// The expression of the constraint system.
    pub closed spec fn expression(&self) -> Expression<Fp> {
        self.expression
    }

    /// The expression itself, for the constraint system.
    pub fn into_expression(self) -> (r: Expression<Fp>)
        ensures
            r == self.expression(),
    {
        self.expression
    }
}

impl Clone for Expr {
    fn clone(&self) -> (r: Self)
        ensures
            r == *self,
        decreases self,
    {
        match self {
            Expr::Constant(c) => Expr::Constant(*c),
            Expr::Advice { column, rotation } => Expr::Advice {
                column: *column,
                rotation: *rotation,
            },
            Expr::Negated(e) => Expr::Negated(Box::new((**e).clone())),
            Expr::Sum(a, b) => Expr::Sum(Box::new((**a).clone()), Box::new((**b).clone())),
            Expr::Product(a, b) => Expr::Product(
                Box::new((**a).clone()),
                Box::new((**b).clone()),
            ),
            Expr::Scaled(e, c) => Expr::Scaled(Box::new((**e).clone()), *c),
        }
    }
}

/// A polynomial that a gate requires to vanish, with its name.
pub struct Constraint {
    pub name: &'static str,
    pub poly: Expr,
}

/// The cells that the first `count` of `polys` read, polynomial by
/// polynomial.
pub open spec fn all_queries(polys: Seq<Expr>, count: nat) -> Seq<(AdviceColumn, i32)>
    decreases count,
{
    if count == 0 {
        Seq::empty()
    } else {
        all_queries(polys, (count - 1) as nat) + polys[count - 1].queries()
    }
}

/// Turns each constraint into a named expression of the constraint system,
/// querying the cells that the constraints read, constraint by constraint.
pub fn lower_all(constraints: &Vec<Constraint>, cells: &mut VirtualCellsRef<'_, '_>) -> (r: Vec<
    (&'static str, Lowered),
>)
    requires
        forall|i: int, column: AdviceColumn|
            0 <= i < constraints@.len() && #[trigger] constraints@[i].poly.mentions(column)
                ==> old(cells).knows_column(column),
    ensures
        r@.len() == constraints@.len(),
        forall|i: int|
            0 <= i < r@.len() ==> (#[trigger] r@[i]).0 == constraints@[i].name && r@[i].1.poly()
                == constraints@[i].poly,
        final(cells).record() == (QueryRecord {
            queries: old(cells).queries() + all_queries(
                polys_of(constraints@),
                constraints@.len(),
            ),
            ..old(cells).record()
        }),
{
    let ghost before = cells.queries();
    let ghost polys = polys_of(constraints@);
    let mut lowered: Vec<(&'static str, Lowered)> = Vec::new();
    let mut i: usize = 0;
    assert(before + all_queries(polys, 0) =~= before);
    while i < constraints.len()
        invariant
            i <= constraints@.len(),
            lowered@.len() == i,
            forall|j: int|
                0 <= j < i ==> (#[trigger] lowered@[j]).0 == constraints@[j].name
                    && lowered@[j].1.poly() == constraints@[j].poly,
            polys == polys_of(constraints@),
            cells.queries() == before + all_queries(polys, i as nat),
            cells.record().columns == old(cells).record().columns,
            forall|j: int, column: AdviceColumn|
                0 <= j < constraints@.len() && #[trigger] constraints@[j].poly.mentions(column)
                    ==> cells.knows_column(column),
        decreases constraints@.len() - i,
    {
        let poly = constraints[i].poly.lower(cells);
        assert(before + all_queries(polys, (i + 1) as nat) =~= before + all_queries(
            polys,
            i as nat,
        ) + polys[i as int].queries());
        lowered.push((constraints[i].name, poly));
        i = i + 1;
    }
    lowered
}

/// The names of a sequence of constraints.
pub open spec fn names_of(constraints: Seq<Constraint>) -> Seq<Seq<char>> {
    Seq::new(constraints.len(), |i: int| constraints[i].name@)
}

/// The polynomials of a sequence of constraints.
pub open spec fn polys_of(constraints: Seq<Constraint>) -> Seq<Expr> {
    Seq::new(constraints.len(), |i: int| constraints[i].poly)
}

/// Whether a gate holds on a row: each of its polynomials, multiplied by the
/// value of the selector on that row, vanishes.
pub open spec fn gate_holds(enabled: bool, polys: Seq<Expr>, cells: Cells) -> bool {
    forall|i: int|
        0 <= i < polys.len() ==> field_mul(
            if enabled {
                1
            } else {
                0
            },
            #[trigger] polys[i].eval(cells),
        ) == 0
}

/// Every value of a polynomial is a residue.
pub proof fn lemma_eval_bound(e: Expr, cells: Cells)
    ensures
        e.eval(cells) < modulus(),
    decreases e,
{
    crate::field::lemma_modulus_value();
    let p = modulus() as int;
    match e {
        Expr::Constant(c) => {
            crate::field::lemma_view_in_field(c);
        },
        Expr::Advice { column, rotation } => {
            vstd::arithmetic::div_mod::lemma_mod_bound(cells(column, rotation as int) as int, p);
        },
        Expr::Negated(inner) => {
            vstd::arithmetic::div_mod::lemma_mod_bound(0 - inner.eval(cells) as int, p);
        },
        Expr::Sum(a, b) => {
            vstd::arithmetic::div_mod::lemma_mod_bound((a.eval(cells) + b.eval(cells)) as int, p);
        },
        Expr::Product(a, b) => {
            vstd::arithmetic::div_mod::lemma_mod_bound((a.eval(cells) * b.eval(cells)) as int, p);
        },
        Expr::Scaled(inner, c) => {
            vstd::arithmetic::div_mod::lemma_mod_bound((inner.eval(cells) * c@) as int, p);
        },
    }
}

/// Selector scoping: on a row where the selector is not enabled a gate
/// holds whatever the cells are.
pub proof fn lemma_disabled_gate_holds(polys: Seq<Expr>, cells: Cells)
    ensures
        gate_holds(false, polys, cells),
{
    crate::field::lemma_modulus_value();
    assert forall|i: int| 0 <= i < polys.len() implies field_mul(
        0,
        #[trigger] polys[i].eval(cells),
    ) == 0 by {
        assert(0 * polys[i].eval(cells) == 0);
        vstd::arithmetic::div_mod::lemma_small_mod(0, modulus());
    }
}

/// On a row where the selector is enabled a gate holds exactly if each of
/// its polynomials vanishes.
pub proof fn lemma_enabled_gate_holds(polys: Seq<Expr>, cells: Cells)
    ensures
        gate_holds(true, polys, cells) <==> (forall|i: int|
            0 <= i < polys.len() ==> #[trigger] polys[i].eval(cells) == 0),
{
    crate::field::lemma_modulus_value();
    assert forall|i: int| 0 <= i < polys.len() implies field_mul(
        1,
        #[trigger] polys[i].eval(cells),
    ) == polys[i].eval(cells) by {
        lemma_eval_bound(polys[i], cells);
        assert(1 * polys[i].eval(cells) == polys[i].eval(cells));
        vstd::arithmetic::div_mod::lemma_small_mod(polys[i].eval(cells), modulus());
    }
}

/// The value of a polynomial depends only on the columns it reads: two
/// assignments that agree on those columns give the same value.
pub proof fn lemma_eval_frame(e: Expr, cells: Cells, other: Cells)
    requires
        forall|column: AdviceColumn, rotation: int|
            e.mentions(column) ==> #[trigger] cells(column, rotation) == other(column, rotation),
    ensures
        e.eval(cells) == e.eval(other),
    decreases e,
{
    match e {
        Expr::Constant(_) => {},
        Expr::Advice { column, rotation } => {
            assert(e.mentions(column));
        },
        Expr::Negated(inner) => {
            lemma_eval_frame(*inner, cells, other);
        },
        Expr::Sum(a, b) => {
            lemma_eval_frame(*a, cells, other);
            lemma_eval_frame(*b, cells, other);
        },
        Expr::Product(a, b) => {
            lemma_eval_frame(*a, cells, other);
            lemma_eval_frame(*b, cells, other);
        },
        Expr::Scaled(inner, _) => {
            lemma_eval_frame(*inner, cells, other);
        },
    }
}

} // verus!
