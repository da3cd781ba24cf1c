//! Decomposes an `n`-bit field element `alpha` into `W` windows of `K` bits
//! each, using a running sum `z`:
//!
//! ```text
//!   alpha = k_0 + 2^K * k_1 + 2^(2K) * k_2 + ... + 2^((W-1)K) * k_(W-1)
//! ```
//!
//! `z_0` is `alpha`, and each following `z_(i+1)` is `(z_i - k_i) / 2^K`.
//! In strict mode `z_W` is constrained to be zero. That every window lies in
//! `[0, 2^K)` is for the caller to enforce, on the rows where the selector of
//! the configuration is enabled.

use crate::engine::{
    ask_of, lemma_assigned_in_field, partial_sum_label, value_view, AdviceColumn, AssignedValue,
    ConfigRecord, ConfigRequest, ConstraintSystemRef, GadgetError, QueryRecord, Refusal,
    RegionAsk, RegionRecord, RegionRef, RegionRequest, VirtualCellsRef,
};
use crate::expression::{cell, Cells, Expr, Lowered};
use crate::field::{
    field_mul, field_sub, fp_from_u64, fp_invert, fp_mul, fp_sub, lemma_inverse_unique,
    lemma_modulus_value, lemma_two_pow_inverse, lemma_view_in_field, modulus, two_pow_inverse,
    FieldElement,
};
use crate::utilities::partial_sums::{
    is_running_sum, lemma_windows_fit_count, next_sum, running_sum, window_between, window_of,
    windows_fit,
};
use crate::utilities::{decompose_word, decomposition, window_count};
use halo2_proofs::plonk::Selector;
use vstd::arithmetic::div_mod::*;
use vstd::arithmetic::power2::*;
use vstd::bits::{lemma_u64_pow2_no_overflow, lemma_u64_shl_is_mul};
use vstd::prelude::*;

verus! {

/// The value that a decomposition asks to be assigned after the partial sum
/// `z_cur`, as step `i` of the running sum that began with `z_0`: nothing
/// while either of them is unresolved.
pub open spec fn requested_sum(z_cur: Option<nat>, z_0: Option<nat>, n: nat, k: nat, i: nat)
    -> Option<nat> {
    match (z_cur, z_0) {
        (Some(z), Some(v)) => Some(next_sum(z, decomposition(v, n, k)[i as int] as nat, k)),
        _ => None,
    }
}

/// The requests that enable `selector` on `count` rows from `offset` on.
pub open spec fn selector_requests(selector: Selector, offset: usize, count: nat) -> Seq<
    RegionRequest,
> {
    Seq::new(
        count,
        |i: int| RegionRequest::EnableSelector { selector, row: (offset + i) as usize },
    )
}

/// The requests that assign the partial sums `zs[1]` to `zs[count]` to the
/// rows after `offset`.
pub open spec fn sum_requests(
    column: AdviceColumn,
    offset: usize,
    zs: Seq<AssignedValue>,
    n: nat,
    k: nat,
    count: nat,
) -> Seq<RegionRequest> {
    Seq::new(
        count,
        |i: int|
            RegionRequest::AssignAdvice {
                column,
                row: (offset + i + 1) as usize,
                value: requested_sum(zs[i]@, zs[0]@, n, k, i as nat),
                cell: zs[i + 1],
            },
    )
}

/// The request that constrains the last partial sum to zero, in strict mode.
pub open spec fn strict_requests(strict: bool, last: AssignedValue) -> Seq<RegionRequest> {
    if strict {
        seq![RegionRequest::ConstrainZero { cell: last }]
    } else {
        Seq::empty()
    }
}

/// All that a decomposition asks of the region, in order: the selector on
/// the rows of the windows, the partial sums after the first on the rows
/// that follow, and in strict mode the zero constraint.
pub open spec fn decompose_requests(
    selector: Selector,
    column: AdviceColumn,
    offset: usize,
    zs: Seq<AssignedValue>,
    n: nat,
    k: nat,
    strict: bool,
) -> Seq<RegionRequest> {
    selector_requests(selector, offset, (zs.len() - 1) as nat) + sum_requests(
        column,
        offset,
        zs,
        n,
        k,
        (zs.len() - 1) as nat,
    ) + strict_requests(strict, zs.last())
}

/// Selector scoping: a decomposition enables its selector on the rows of its
/// windows, and asks for it on no other row.
pub proof fn lemma_selector_rows(
    selector: Selector,
    column: AdviceColumn,
    offset: usize,
    zs: Seq<AssignedValue>,
    n: nat,
    k: nat,
    strict: bool,
    row: usize,
)
    requires
        zs.len() >= 1,
        offset + zs.len() - 1 < usize::MAX,
    ensures
        decompose_requests(selector, column, offset, zs, n, k, strict).contains(
            RegionRequest::EnableSelector { selector, row },
        ) <==> offset <= row < offset + zs.len() - 1,
{
    let count = (zs.len() - 1) as nat;
    let enables = selector_requests(selector, offset, count);
    let sums = sum_requests(column, offset, zs, n, k, count);
    let last = strict_requests(strict, zs.last());
    let all = decompose_requests(selector, column, offset, zs, n, k, strict);
    let wanted = RegionRequest::EnableSelector { selector, row };
    if offset <= row < offset + count {
        let i = row - offset;
        assert(enables[i] == wanted);
        assert(all[i] == wanted);
    }
    if all.contains(wanted) {
        let j = choose|j: int| 0 <= j < all.len() && all[j] == wanted;
        if j < count {
            assert(all[j] == enables[j]);
        } else if j < 2 * count {
            assert(all[j] == sums[j - count]);
        } else {
            assert(all[j] == last[j - 2 * count]);
        }
    }
}

/// Whether a region that was to be asked for `intended`, request by
/// request, answered the first `m` of them and refused the next with
/// `error`, after which nothing more was asked of it.
pub open spec fn stopped_at(
    before: RegionRecord,
    after: RegionRecord,
    intended: Seq<RegionRequest>,
    m: int,
    error: halo2_proofs::plonk::Error,
) -> bool {
    &&& 0 <= m < intended.len()
    &&& after.requests == before.requests + intended.take(m)
    &&& after.refusals == before.refusals.push(
        Refusal { ask: ask_of(intended[m]), error, after: after.requests.len() },
    )
}

/// What is asked of the region before the decomposition proper: nothing,
/// the assignment of the value, or the copy of a cell.
pub enum Lead {
    /// `z_0` is at hand.
    Given { z_0: AssignedValue },
    /// `z_0` comes back from the assignment of `value` to row `offset`.
    Witnessed { value: Option<nat> },
    /// `z_0` comes back from the copy of `source` to row `offset`.
    Copied { source: AssignedValue },
}

/// The requests of a whole decomposition with partial sums `zs`, its lead
/// included.
pub open spec fn all_requests(
    lead: Lead,
    selector: Selector,
    column: AdviceColumn,
    offset: usize,
    zs: Seq<AssignedValue>,
    n: nat,
    k: nat,
    strict: bool,
) -> Seq<RegionRequest> {
    let rest = decompose_requests(selector, column, offset, zs, n, k, strict);
    match lead {
        Lead::Given { z_0 } => rest,
        Lead::Witnessed { value } => seq![
            RegionRequest::AssignAdvice { column, row: offset, value, cell: zs[0] },
        ] + rest,
        Lead::Copied { source } => seq![
            RegionRequest::CopyAdvice { source, column, row: offset, cell: zs[0] },
        ] + rest,
    }
}

/// Whether a decomposition into `w` windows stopped at a request that the
/// region refused with `error`: the requests before it were answered, in
/// their order, and nothing was asked after it.
pub open spec fn decompose_stopped(
    before: RegionRecord,
    after: RegionRecord,
    lead: Lead,
    selector: Selector,
    column: AdviceColumn,
    offset: usize,
    w: nat,
    n: nat,
    k: nat,
    strict: bool,
    error: halo2_proofs::plonk::Error,
) -> bool {
    exists|zs: Seq<AssignedValue>, m: int|
        {
            &&& zs.len() == w + 1
            &&& lead matches Lead::Given { z_0 } ==> zs[0] == z_0
            &&& #[trigger] stopped_at(
                before,
                after,
                all_requests(lead, selector, column, offset, zs, n, k, strict),
                m,
                error,
            )
        }
}

/// A decomposition that is refused a selector has stopped there.
proof fn lemma_stopped_enabling(
    start: RegionRecord,
    now: RegionRecord,
    selector: Selector,
    column: AdviceColumn,
    offset: usize,
    z_0: AssignedValue,
    w: nat,
    n: nat,
    k: nat,
    strict: bool,
    idx: nat,
    error: halo2_proofs::plonk::Error,
)
    requires
        idx < w,
        offset + w < usize::MAX,
        now.requests == start.requests + selector_requests(selector, offset, idx),
        now.refusals == start.refusals.push(
            Refusal {
                ask: RegionAsk::EnableSelector { selector, row: (offset + idx) as usize },
                error,
                after: now.requests.len(),
            },
        ),
    ensures
        decompose_stopped(
            start,
            now,
            Lead::Given { z_0 },
            selector,
            column,
            offset,
            w,
            n,
            k,
            strict,
            error,
        ),
{
    let zs = Seq::new(w + 1, |j: int| z_0);
    let intended = all_requests(Lead::Given { z_0 }, selector, column, offset, zs, n, k, strict);
    assert(intended.take(idx as int) =~= selector_requests(selector, offset, idx));
    assert(intended[idx as int] == RegionRequest::EnableSelector {
        selector,
        row: (offset + idx) as usize,
    });
    assert(stopped_at(start, now, intended, idx as int, error));
}

/// A decomposition that is refused a partial sum has stopped there.
proof fn lemma_stopped_assigning(
    start: RegionRecord,
    now: RegionRecord,
    selector: Selector,
    column: AdviceColumn,
    offset: usize,
    zs: Seq<AssignedValue>,
    w: nat,
    n: nat,
    k: nat,
    strict: bool,
    i: nat,
    error: halo2_proofs::plonk::Error,
)
    requires
        i < w,
        zs.len() == i + 1,
        offset + w < usize::MAX,
        now.requests == start.requests + selector_requests(selector, offset, w) + sum_requests(
            column,
            offset,
            zs,
            n,
            k,
            i,
        ),
        now.refusals == start.refusals.push(
            Refusal {
                ask: RegionAsk::AssignAdvice {
                    column,
                    row: (offset + i + 1) as usize,
                    value: requested_sum(zs[i as int]@, zs[0]@, n, k, i),
                },
                error,
                after: now.requests.len(),
            },
        ),
    ensures
        decompose_stopped(
            start,
            now,
            Lead::Given { z_0: zs[0] },
            selector,
            column,
            offset,
            w,
            n,
            k,
            strict,
            error,
        ),
{
    let z_0 = zs[0];
    let all = Seq::new(w + 1, |j: int| if j <= i { zs[j] } else { z_0 });
    let intended = all_requests(Lead::Given { z_0 }, selector, column, offset, all, n, k, strict);
    let m = (w + i) as int;
    assert(intended.take(m) =~= selector_requests(selector, offset, w) + sum_requests(
        column,
        offset,
        zs,
        n,
        k,
        i,
    ));
    assert(intended[m] == sum_requests(column, offset, all, n, k, w)[i as int]);
    assert(start.requests + selector_requests(selector, offset, w) + sum_requests(
        column,
        offset,
        zs,
        n,
        k,
        i,
    ) =~= start.requests + intended.take(m));
    assert(stopped_at(start, now, intended, m, error));
}

/// A decomposition that is refused the zero constraint has stopped there.
proof fn lemma_stopped_constraining(
    start: RegionRecord,
    now: RegionRecord,
    selector: Selector,
    column: AdviceColumn,
    offset: usize,
    zs: Seq<AssignedValue>,
    w: nat,
    n: nat,
    k: nat,
    error: halo2_proofs::plonk::Error,
)
    requires
        zs.len() == w + 1,
        offset + w < usize::MAX,
        now.requests == start.requests + selector_requests(selector, offset, w) + sum_requests(
            column,
            offset,
            zs,
            n,
            k,
            w,
        ),
        now.refusals == start.refusals.push(
            Refusal {
                ask: RegionAsk::ConstrainZero { cell: zs[w as int] },
                error,
                after: now.requests.len(),
            },
        ),
    ensures
        decompose_stopped(
            start,
            now,
            Lead::Given { z_0: zs[0] },
            selector,
            column,
            offset,
            w,
            n,
            k,
            true,
            error,
        ),
{
    let intended = all_requests(
        Lead::Given { z_0: zs[0] },
        selector,
        column,
        offset,
        zs,
        n,
        k,
        true,
    );
    let m = (2 * w) as int;
    assert(intended.take(m) =~= selector_requests(selector, offset, w) + sum_requests(
        column,
        offset,
        zs,
        n,
        k,
        w,
    ));
    assert(intended[m] == RegionRequest::ConstrainZero { cell: zs[w as int] });
    assert(start.requests + selector_requests(selector, offset, w) + sum_requests(
        column,
        offset,
        zs,
        n,
        k,
        w,
    ) =~= start.requests + intended.take(m));
    assert(stopped_at(start, now, intended, m, error));
}

/// A decomposition whose lead was answered and which then stopped, has
/// stopped as a whole.
proof fn lemma_stopped_after_lead(
    start: RegionRecord,
    mid: RegionRecord,
    now: RegionRecord,
    lead: Lead,
    first: RegionRequest,
    z_0: AssignedValue,
    selector: Selector,
    column: AdviceColumn,
    offset: usize,
    w: nat,
    n: nat,
    k: nat,
    strict: bool,
    error: halo2_proofs::plonk::Error,
)
    requires
        mid.requests == start.requests.push(first),
        mid.refusals == start.refusals,
        match lead {
            Lead::Given { z_0 } => false,
            Lead::Witnessed { value } => first == (RegionRequest::AssignAdvice {
                column,
                row: offset,
                value,
                cell: z_0,
            }),
            Lead::Copied { source } => first == (RegionRequest::CopyAdvice {
                source,
                column,
                row: offset,
                cell: z_0,
            }),
        },
        decompose_stopped(
            mid,
            now,
            Lead::Given { z_0 },
            selector,
            column,
            offset,
            w,
            n,
            k,
            strict,
            error,
        ),
    ensures
        decompose_stopped(start, now, lead, selector, column, offset, w, n, k, strict, error),
{
    let (zs, m) = choose|zs: Seq<AssignedValue>, m: int|
        {
            &&& zs.len() == w + 1
            &&& zs[0] == z_0
            &&& #[trigger] stopped_at(
                mid,
                now,
                all_requests(Lead::Given { z_0 }, selector, column, offset, zs, n, k, strict),
                m,
                error,
            )
        };
    let rest = all_requests(Lead::Given { z_0 }, selector, column, offset, zs, n, k, strict);
    let intended = all_requests(lead, selector, column, offset, zs, n, k, strict);
    assert(intended =~= seq![first] + rest);
    assert(intended.take(m + 1) =~= seq![first] + rest.take(m));
    assert(start.requests + intended.take(m + 1) =~= mid.requests + rest.take(m));
    assert(intended[m + 1] == rest[m]);
    assert(stopped_at(start, now, intended, m + 1, error));
}

/// A decomposition whose lead is refused has stopped there.
proof fn lemma_stopped_at_lead(
    start: RegionRecord,
    now: RegionRecord,
    lead: Lead,
    ask: RegionAsk,
    filler: AssignedValue,
    selector: Selector,
    column: AdviceColumn,
    offset: usize,
    w: nat,
    n: nat,
    k: nat,
    strict: bool,
    error: halo2_proofs::plonk::Error,
)
    requires
        now.requests == start.requests,
        now.refusals == start.refusals.push(Refusal { ask, error, after: now.requests.len() }),
        match lead {
            Lead::Given { z_0 } => false,
            Lead::Witnessed { value } => ask == (RegionAsk::AssignAdvice {
                column,
                row: offset,
                value,
            }),
            Lead::Copied { source } => ask == (RegionAsk::CopyAdvice {
                source,
                column,
                row: offset,
            }),
        },
    ensures
        decompose_stopped(start, now, lead, selector, column, offset, w, n, k, strict, error),
{
    let zs = Seq::new(w + 1, |j: int| filler);
    let intended = all_requests(lead, selector, column, offset, zs, n, k, strict);
    assert(start.requests + intended.take(0) =~= start.requests);
    assert(stopped_at(start, now, intended, 0, error));
}

/// The field element `2^k`, for a window width below 64.
pub fn two_pow(k: usize) -> (r: FieldElement)
    requires
        k < 64,
    ensures
        r@ == pow2(k as nat),
{
    proof {
        lemma_u64_pow2_no_overflow(k as nat);
        lemma_u64_shl_is_mul(1, k as u64);
    }
    fp_from_u64(1u64 << (k as u64))
}

/// The partial sum that follows `z` when `digit` is peeled off, given the
/// inverse of `2^k`.
pub fn next_partial_sum(z: &FieldElement, digit: u8, two_pow_k_inv: &FieldElement) -> (r:
    FieldElement)
    ensures
        r@ == field_mul(field_sub(z@, digit as nat), two_pow_k_inv@),
{
    let word = fp_from_u64(digit as u64);
    let diff = fp_sub(z, &word);
    fp_mul(&diff, two_pow_k_inv)
}

/// The running sum `[z_0, ..., z_W]`. If created in strict mode, `z_W` is
/// constrained to be zero.
#[derive(Debug)]
pub struct RunningSum<const WINDOW_NUM_BITS: usize> {
    zs: Vec<AssignedValue>,
    num_bits: usize,
    strict: bool,
}

impl<const WINDOW_NUM_BITS: usize> RunningSum<WINDOW_NUM_BITS> {
    /// There is at least `z_0`, and a window fits a digit of eight bits.
    #[verifier::type_invariant]
    spec fn well_formed(self) -> bool {
        self.zs@.len() >= 1 && 0 < WINDOW_NUM_BITS <= 8
    }

    /// The partial sums as residues, unresolved ones as `None`.
    pub closed spec fn sums(&self) -> Seq<Option<nat>> {
        Seq::new(self.zs@.len(), |i: int| self.zs@[i]@)
    }

    /// The assigned cells of the partial sums.
    pub closed spec fn spec_zs(&self) -> Seq<AssignedValue> {
        self.zs@
    }

    /// The bit length that the decomposition was asked to cover.
    pub closed spec fn spec_num_bits(&self) -> usize {
        self.num_bits
    }

    /// Whether the final partial sum was constrained to be zero.
    pub closed spec fn spec_strict(&self) -> bool {
        self.strict
    }

    /// The partial sums are the values of the cells.
    pub proof fn lemma_sums(&self)
        ensures
            self.sums().len() == self.spec_zs().len(),
            forall|i: int| 0 <= i < self.sums().len() ==> self.sums()[i] == self.spec_zs()[i]@,
    {
    }

    /// Every resolved partial sum is a residue.
    pub proof fn lemma_sums_in_field(&self)
        ensures
            forall|i: int|
                0 <= i < self.sums().len() ==> (#[trigger] self.sums()[i] matches Some(v) ==> v
                    < modulus()),
    {
        assert forall|i: int| 0 <= i < self.sums().len() implies (#[trigger] self.sums()[i] matches Some(
            v,
        ) ==> v < modulus()) by {
            lemma_assigned_in_field(self.zs@[i]);
        }
    }

    /// Returns windows derived from the intermediate values of the running
    /// sum: `k_i = z_i - 2^K * z_(i+1)`, unresolved where either partial sum is.
    pub fn windows(&self) -> (r: Vec<Option<FieldElement>>)
        ensures
            r@.len() + 1 == self.sums().len(),
            forall|i: int|
                0 <= i < r@.len() ==> value_view(#[trigger] r@[i]) == window_between(
                    self.sums()[i],
                    self.sums()[i + 1],
                    WINDOW_NUM_BITS as nat,
                ),
    {
        proof {
            use_type_invariant(self);
        }
        let two_pow_k = two_pow(WINDOW_NUM_BITS);
        let mut windows: Vec<Option<FieldElement>> = Vec::new();
        let mut i: usize = 0;
        while i < self.zs.len() - 1
            invariant
                self.zs@.len() >= 1,
                i <= self.zs@.len() - 1,
                two_pow_k@ == pow2(WINDOW_NUM_BITS as nat),
                windows@.len() == i,
                forall|j: int|
                    0 <= j < i ==> value_view(#[trigger] windows@[j]) == window_between(
                        self.sums()[j],
                        self.sums()[j + 1],
                        WINDOW_NUM_BITS as nat,
                    ),
            decreases self.zs@.len() - i,
        {
            let window = match (self.zs[i].value(), self.zs[i + 1].value()) {
                (Some(z_cur), Some(z_next)) => {
                    let scaled = fp_mul(&z_next, &two_pow_k);
                    Some(fp_sub(&z_cur, &scaled))
                },
                _ => None,
            };
            windows.push(window);
            i = i + 1;
        }
        windows
    }

    /// The number of bits represented by the running sum.
    pub fn num_bits(&self) -> (r: usize)
        ensures
            r == self.spec_num_bits(),
    {
        self.num_bits
    }

    /// Whether the running sum was created in strict mode.
    pub fn strict(&self) -> (r: bool)
        ensures
            r == self.spec_strict(),
    {
        self.strict
    }

    /// The intermediate values of the running sum.
    pub fn zs(&self) -> (r: &Vec<AssignedValue>)
        ensures
            r@ == self.spec_zs(),
    {
        &self.zs
    }
}

/// Configuration that provides methods for running sum decomposition.
#[derive(Debug, Clone, Copy, Eq, PartialEq)]
pub struct RunningSumConfig<const WINDOW_NUM_BITS: usize> {
    q_range_check: Selector,
    z: AdviceColumn,
}

impl<const WINDOW_NUM_BITS: usize> RunningSumConfig<WINDOW_NUM_BITS> {
    /// A window is not empty and fits a digit of eight bits.
    #[verifier::type_invariant]
    spec fn well_formed(self) -> bool {
        0 < WINDOW_NUM_BITS <= 8
    }

    /// The selector that is enabled on every row of a decomposition.
    pub closed spec fn spec_q_range_check(&self) -> Selector {
        self.q_range_check
    }

    /// The column that holds the partial sums.
    pub closed spec fn spec_z(&self) -> AdviceColumn {
        self.z
    }

    /// Returns the `q_range_check` selector of this configuration.
    pub fn q_range_check(&self) -> (r: Selector)
        ensures
            r == self.spec_q_range_check(),
    {
        self.q_range_check
    }

    /// Returns the column of the partial sums.
    pub fn z(&self) -> (r: AdviceColumn)
        ensures
            r == self.spec_z(),
    {
        self.z
    }

    /// The polynomial of a window: `z_i = 2^K * z_(i+1) + k_i`, so
    /// `k_i = z_i - 2^K * z_(i+1)`, with `z_i` in the current row of the
    /// column of partial sums and `z_(i+1)` in the next.
    pub fn window_poly(&self) -> (r: Expr)
        ensures
            forall|cells: Cells| #[trigger]
                r.eval(cells) == window_of(
                    cell(cells, self.spec_z(), 0),
                    cell(cells, self.spec_z(), 1),
                    WINDOW_NUM_BITS as nat,
                ),
            forall|column: AdviceColumn| r.mentions(column) <==> column == self.spec_z(),
            r.queries() == seq![(self.spec_z(), 0i32), (self.spec_z(), 1i32)],
    {
        proof {
            use_type_invariant(self);
        }
        let z_cur = Expr::advice(self.z, 0);
        let z_next = Expr::advice(self.z, 1);
        let two_pow_k = two_pow(WINDOW_NUM_BITS);
        let r = Expr::minus(z_cur, Expr::scaled(z_next, two_pow_k));
        proof {
            reveal_with_fuel(Expr::mentions, 4);
            reveal_with_fuel(Expr::queries, 4);
            assert(r.queries() =~= seq![(self.z, 0i32), (self.z, 1i32)]);
            assert forall|cells: Cells| #[trigger]
                r.eval(cells) == window_of(
                    cell(cells, self.z, 0),
                    cell(cells, self.z, 1),
                    WINDOW_NUM_BITS as nat,
                ) by {
                reveal_with_fuel(Expr::eval, 4);
                let a = cell(cells, self.z, 0);
                let m = field_mul(cell(cells, self.z, 1), pow2(WINDOW_NUM_BITS as nat));
                lemma_modulus_value();
                lemma_add_mod_noop_right(a as int, 0 - m as int, modulus() as int);
            }
        }
        r
    }

    /// Expression for a window, in the constraint system's own form, for use
    /// while a gate is defined: the lowering of [`Self::window_poly`], which
    /// queries the column of partial sums in the current row and in the next.
    pub fn window_expr(&self, meta: &mut VirtualCellsRef<'_, '_>) -> (r: Lowered)
        requires
            old(meta).knows_column(self.spec_z()),
        ensures
            forall|cells: Cells| #[trigger]
                r.poly().eval(cells) == window_of(
                    cell(cells, self.spec_z(), 0),
                    cell(cells, self.spec_z(), 1),
                    WINDOW_NUM_BITS as nat,
                ),
            r.poly().queries() == seq![(self.spec_z(), 0i32), (self.spec_z(), 1i32)],
            final(meta).record() == (QueryRecord {
                queries: old(meta).queries() + r.poly().queries(),
                ..old(meta).record()
            }),
    {
        let poly = self.window_poly();
        poly.lower(meta)
    }

    /// Makes a configuration for windows of `WINDOW_NUM_BITS` bits, which
    /// must be between 1 and 8. The column `z` is made eligible for copy
    /// constraints.
    ///
    /// No gate is registered here: it is the caller's part to tie
    /// `q_range_check` to a range check of the window expression, by a
    /// polynomial or by a lookup.
    pub fn configure(
        meta: &mut ConstraintSystemRef<'_>,
        q_range_check: Selector,
        z: AdviceColumn,
    ) -> (r: Result<Self, GadgetError>)
        requires
            old(meta).owns_column(z),
        ensures
            0 < WINDOW_NUM_BITS <= 8 ==> (r matches Ok(config) && config.spec_q_range_check()
                == q_range_check && config.spec_z() == z),
            0 < WINDOW_NUM_BITS <= 8 ==> final(meta).record() == (ConfigRecord {
                requests: old(meta).requests().push(ConfigRequest::EnableEquality { column: z }),
                ..old(meta).record()
            }),
            !(0 < WINDOW_NUM_BITS <= 8) ==> (r matches Err(GadgetError::InvalidWindowConfig)),
            !(0 < WINDOW_NUM_BITS <= 8) ==> *final(meta) == *old(meta),
    {
        if WINDOW_NUM_BITS == 0 || WINDOW_NUM_BITS > 8 {
            return Err(GadgetError::InvalidWindowConfig);
        }
        meta.enable_equality(z);
        Ok(RunningSumConfig { q_range_check, z })
    }

    /// Decompose a field element `alpha` that is witnessed in this helper.
    ///
    /// `strict` constrains the final running sum to be zero, i.e. constrains
    /// `alpha` to be within `WINDOW_NUM_BITS * num_windows` bits.
    ///
    /// The region must know the selector of this configuration. An error of
    /// the region ends the decomposition and is handed on as it came.
    pub fn witness_decompose(
        &self,
        region: &mut RegionRef<'_, '_>,
        offset: usize,
        alpha: Option<FieldElement>,
        strict: bool,
        word_num_bits: usize,
        num_windows: usize,
    ) -> (r: Result<RunningSum<WINDOW_NUM_BITS>, GadgetError>)
        requires
            offset + num_windows < usize::MAX,
            old(region).knows_selector(self.spec_q_range_check()),
        ensures
            !windows_fit(WINDOW_NUM_BITS as nat, num_windows as nat, word_num_bits as nat) ==> (r
                matches Err(GadgetError::InvalidWindowConfig)),
            !windows_fit(WINDOW_NUM_BITS as nat, num_windows as nat, word_num_bits as nat)
                ==> *final(region) == *old(region),
            final(region).record().selectors == old(region).record().selectors,
            old(region).record().cells.subset_of(final(region).record().cells),
            windows_fit(WINDOW_NUM_BITS as nat, num_windows as nat, word_num_bits as nat)
                ==> match r {
                Ok(sum) => {
                    &&& sum.spec_num_bits() == word_num_bits
                    &&& sum.spec_strict() == strict
                    &&& sum.sums().len() == num_windows + 1
                    &&& (sum.sums()[0] is None || sum.sums()[0] == value_view(alpha))
                    &&& is_running_sum(sum.sums(), word_num_bits as nat, WINDOW_NUM_BITS as nat)
                    &&& final(region).refusals() == old(region).refusals()
                    &&& final(region).requests() == old(region).requests() + all_requests(
                        Lead::Witnessed { value: value_view(alpha) },
                        self.spec_q_range_check(),
                        self.spec_z(),
                        offset,
                        sum.spec_zs(),
                        word_num_bits as nat,
                        WINDOW_NUM_BITS as nat,
                        strict,
                    )
                },
                Err(e) => e matches GadgetError::Engine(error) && decompose_stopped(
                    old(region).record(),
                    final(region).record(),
                    Lead::Witnessed { value: value_view(alpha) },
                    self.spec_q_range_check(),
                    self.spec_z(),
                    offset,
                    num_windows as nat,
                    word_num_bits as nat,
                    WINDOW_NUM_BITS as nat,
                    strict,
                    error,
                ),
            },
    {
        proof {
            use_type_invariant(self);
        }
        if !fits(WINDOW_NUM_BITS, num_windows, word_num_bits) {
            return Err(GadgetError::InvalidWindowConfig);
        }
        let ghost start = region.record();
        let ghost lead = Lead::Witnessed { value: value_view(alpha) };
        let z_0 = match region.assign_advice("z_0 = alpha", self.z, offset, alpha) {
            Ok(cell) => cell,
            Err(e) => {
                proof {
                    lemma_stopped_at_lead(
                        start,
                        region.record(),
                        lead,
                        RegionAsk::AssignAdvice {
                            column: self.z,
                            row: offset,
                            value: value_view(alpha),
                        },
                        arbitrary(),
                        self.q_range_check,
                        self.z,
                        offset,
                        num_windows as nat,
                        word_num_bits as nat,
                        WINDOW_NUM_BITS as nat,
                        strict,
                        e,
                    );
                }
                return Err(GadgetError::Engine(e));
            },
        };
        let ghost mid = region.record();
        let ghost first = RegionRequest::AssignAdvice {
            column: self.z,
            row: offset,
            value: value_view(alpha),
            cell: z_0,
        };
        let r = self.decompose(region, offset, z_0, strict, word_num_bits, num_windows);
        proof {
            self.lemma_led(start, mid, region.record(), lead, first, z_0, offset, strict, word_num_bits, num_windows, r);
        }
        r
    }

    /// Decompose an existing variable `alpha` that is copied into this helper.
    ///
    /// `strict` constrains the final running sum to be zero, i.e. constrains
    /// `alpha` to be within `WINDOW_NUM_BITS * num_windows` bits.
    ///
    /// The region must know the selector of this configuration and the cell
    /// `alpha`. An error of the region ends the decomposition and is handed
    /// on as it came.
    pub fn copy_decompose(
        &self,
        region: &mut RegionRef<'_, '_>,
        offset: usize,
        alpha: AssignedValue,
        strict: bool,
        word_num_bits: usize,
        num_windows: usize,
    ) -> (r: Result<RunningSum<WINDOW_NUM_BITS>, GadgetError>)
        requires
            offset + num_windows < usize::MAX,
            old(region).knows_selector(self.spec_q_range_check()),
            old(region).knows_cell(alpha),
        ensures
            !windows_fit(WINDOW_NUM_BITS as nat, num_windows as nat, word_num_bits as nat) ==> (r
                matches Err(GadgetError::InvalidWindowConfig)),
            !windows_fit(WINDOW_NUM_BITS as nat, num_windows as nat, word_num_bits as nat)
                ==> *final(region) == *old(region),
            final(region).record().selectors == old(region).record().selectors,
            old(region).record().cells.subset_of(final(region).record().cells),
            windows_fit(WINDOW_NUM_BITS as nat, num_windows as nat, word_num_bits as nat)
                ==> match r {
                Ok(sum) => {
                    &&& sum.spec_num_bits() == word_num_bits
                    &&& sum.spec_strict() == strict
                    &&& sum.sums().len() == num_windows + 1
                    &&& (sum.sums()[0] is None || sum.sums()[0] == alpha@)
                    &&& is_running_sum(sum.sums(), word_num_bits as nat, WINDOW_NUM_BITS as nat)
                    &&& final(region).refusals() == old(region).refusals()
                    &&& final(region).requests() == old(region).requests() + all_requests(
                        Lead::Copied { source: alpha },
                        self.spec_q_range_check(),
                        self.spec_z(),
                        offset,
                        sum.spec_zs(),
                        word_num_bits as nat,
                        WINDOW_NUM_BITS as nat,
                        strict,
                    )
                },
                Err(e) => e matches GadgetError::Engine(error) && decompose_stopped(
                    old(region).record(),
                    final(region).record(),
                    Lead::Copied { source: alpha },
                    self.spec_q_range_check(),
                    self.spec_z(),
                    offset,
                    num_windows as nat,
                    word_num_bits as nat,
                    WINDOW_NUM_BITS as nat,
                    strict,
                    error,
                ),
            },
    {
        proof {
            use_type_invariant(self);
        }
        if !fits(WINDOW_NUM_BITS, num_windows, word_num_bits) {
            return Err(GadgetError::InvalidWindowConfig);
        }
        let ghost start = region.record();
        let ghost lead = Lead::Copied { source: alpha };
        let z_0 = match region.copy_advice("copy z_0 = alpha", &alpha, self.z, offset) {
            Ok(cell) => cell,
            Err(e) => {
                proof {
                    lemma_stopped_at_lead(
                        start,
                        region.record(),
                        lead,
                        RegionAsk::CopyAdvice { source: alpha, column: self.z, row: offset },
                        alpha,
                        self.q_range_check,
                        self.z,
                        offset,
                        num_windows as nat,
                        word_num_bits as nat,
                        WINDOW_NUM_BITS as nat,
                        strict,
                        e,
                    );
                }
                return Err(GadgetError::Engine(e));
            },
        };
        let ghost mid = region.record();
        let ghost first = RegionRequest::CopyAdvice {
            source: alpha,
            column: self.z,
            row: offset,
            cell: z_0,
        };
        let r = self.decompose(region, offset, z_0, strict, word_num_bits, num_windows);
        proof {
            self.lemma_led(start, mid, region.record(), lead, first, z_0, offset, strict, word_num_bits, num_windows, r);
        }
        r
    }

    /// What holds of a decomposition after its lead was answered with
    /// `first`, given what holds of the decomposition proper.
    proof fn lemma_led(
        &self,
        start: RegionRecord,
        mid: RegionRecord,
        now: RegionRecord,
        lead: Lead,
        first: RegionRequest,
        z_0: AssignedValue,
        offset: usize,
        strict: bool,
        word_num_bits: usize,
        num_windows: usize,
        r: Result<RunningSum<WINDOW_NUM_BITS>, GadgetError>,
    )
        requires
            mid.requests == start.requests.push(first),
            mid.refusals == start.refusals,
            match lead {
                Lead::Given { z_0 } => false,
                Lead::Witnessed { value } => first == (RegionRequest::AssignAdvice {
                    column: self.spec_z(),
                    row: offset,
                    value,
                    cell: z_0,
                }),
                Lead::Copied { source } => first == (RegionRequest::CopyAdvice {
                    source,
                    column: self.spec_z(),
                    row: offset,
                    cell: z_0,
                }),
            },
            match r {
                Ok(sum) => {
                    &&& sum.spec_zs().len() == num_windows + 1
                    &&& sum.spec_zs()[0] == z_0
                    &&& now.refusals == mid.refusals
                    &&& now.requests == mid.requests + all_requests(
                        Lead::Given { z_0 },
                        self.spec_q_range_check(),
                        self.spec_z(),
                        offset,
                        sum.spec_zs(),
                        word_num_bits as nat,
                        WINDOW_NUM_BITS as nat,
                        strict,
                    )
                },
                Err(e) => e matches GadgetError::Engine(error) && decompose_stopped(
                    mid,
                    now,
                    Lead::Given { z_0 },
                    self.spec_q_range_check(),
                    self.spec_z(),
                    offset,
                    num_windows as nat,
                    word_num_bits as nat,
                    WINDOW_NUM_BITS as nat,
                    strict,
                    error,
                ),
            },
        ensures
            match r {
                Ok(sum) => {
                    &&& sum.sums()[0] == z_0@
                    &&& now.refusals == start.refusals
                    &&& now.requests == start.requests + all_requests(
                        lead,
                        self.spec_q_range_check(),
                        self.spec_z(),
                        offset,
                        sum.spec_zs(),
                        word_num_bits as nat,
                        WINDOW_NUM_BITS as nat,
                        strict,
                    )
                },
                Err(e) => e matches GadgetError::Engine(error) && decompose_stopped(
                    start,
                    now,
                    lead,
                    self.spec_q_range_check(),
                    self.spec_z(),
                    offset,
                    num_windows as nat,
                    word_num_bits as nat,
                    WINDOW_NUM_BITS as nat,
                    strict,
                    error,
                ),
            },
    {
        match r {
            Ok(sum) => {
                sum.lemma_sums();
                let rest = all_requests(
                    Lead::Given { z_0 },
                    self.spec_q_range_check(),
                    self.spec_z(),
                    offset,
                    sum.spec_zs(),
                    word_num_bits as nat,
                    WINDOW_NUM_BITS as nat,
                    strict,
                );
                assert(start.requests.push(first) + rest =~= start.requests + (seq![first] + rest));
            },
            Err(e) => {
                let error = e->Engine_0;
                lemma_stopped_after_lead(
                    start,
                    mid,
                    now,
                    lead,
                    first,
                    z_0,
                    self.spec_q_range_check(),
                    self.spec_z(),
                    offset,
                    num_windows as nat,
                    word_num_bits as nat,
                    WINDOW_NUM_BITS as nat,
                    strict,
                    error,
                );
            },
        }
    }

    /// The shared procedure. `z_0` must be the cell at (`z`, `offset`) in
    /// `region`.
    ///
    /// Enables the selector on the `num_windows` rows from `offset` on,
    /// assigns `z_(i+1) = (z_i - k_i) / 2^K` to row `offset + i + 1` for each
    /// window `k_i` of `z_0`, and in strict mode constrains the last partial
    /// sum to zero. An error of the region ends the procedure and is handed
    /// on as it came.
    pub fn decompose(
        &self,
        region: &mut RegionRef<'_, '_>,
        offset: usize,
        z_0: AssignedValue,
        strict: bool,
        word_num_bits: usize,
        num_windows: usize,
    ) -> (r: Result<RunningSum<WINDOW_NUM_BITS>, GadgetError>)
        requires
            offset + num_windows < usize::MAX,
            old(region).knows_selector(self.spec_q_range_check()),
        ensures
            !windows_fit(WINDOW_NUM_BITS as nat, num_windows as nat, word_num_bits as nat) ==> (r
                matches Err(GadgetError::InvalidWindowConfig)),
            !windows_fit(WINDOW_NUM_BITS as nat, num_windows as nat, word_num_bits as nat)
                ==> *final(region) == *old(region),
            windows_fit(WINDOW_NUM_BITS as nat, num_windows as nat, word_num_bits as nat)
                && num_windows == 0 && !strict ==> r is Ok,
            final(region).record().selectors == old(region).record().selectors,
            old(region).record().cells.subset_of(final(region).record().cells),
            windows_fit(WINDOW_NUM_BITS as nat, num_windows as nat, word_num_bits as nat)
                ==> match r {
                Ok(sum) => {
                    &&& sum.spec_num_bits() == word_num_bits
                    &&& sum.spec_strict() == strict
                    &&& sum.sums().len() == num_windows + 1
                    &&& sum.spec_zs().len() == num_windows + 1
                    &&& sum.spec_zs()[0] == z_0
                    &&& is_running_sum(sum.sums(), word_num_bits as nat, WINDOW_NUM_BITS as nat)
                    &&& final(region).refusals() == old(region).refusals()
                    &&& final(region).requests() == old(region).requests() + all_requests(
                        Lead::Given { z_0 },
                        self.spec_q_range_check(),
                        self.spec_z(),
                        offset,
                        sum.spec_zs(),
                        word_num_bits as nat,
                        WINDOW_NUM_BITS as nat,
                        strict,
                    )
                },
                Err(e) => e matches GadgetError::Engine(error) && decompose_stopped(
                    old(region).record(),
                    final(region).record(),
                    Lead::Given { z_0 },
                    self.spec_q_range_check(),
                    self.spec_z(),
                    offset,
                    num_windows as nat,
                    word_num_bits as nat,
                    WINDOW_NUM_BITS as nat,
                    strict,
                    error,
                ),
            },
    {
        proof {
            use_type_invariant(self);
        }
        // Make sure that we do not have more windows than required for the
        // number of bits in the word: every window must contain at least one
        // bit of the word.
        if !fits(WINDOW_NUM_BITS, num_windows, word_num_bits) {
            return Err(GadgetError::InvalidWindowConfig);
        }
        let ghost k = WINDOW_NUM_BITS as nat;
        let ghost n = word_num_bits as nat;
        let ghost w = num_windows as nat;
        let ghost start = region.record();
        let ghost q = self.q_range_check;

        // Enable selectors.
        let mut idx: usize = 0;
        while idx < num_windows
            invariant
                idx <= num_windows,
                offset + num_windows < usize::MAX,
                windows_fit(WINDOW_NUM_BITS as nat, num_windows as nat, word_num_bits as nat),
                q == self.q_range_check,
                w == num_windows,
                k == WINDOW_NUM_BITS as nat,
                n == word_num_bits as nat,
                start == old(region).record(),
                start.selectors.contains(q),
                region.record() == (RegionRecord {
                    requests: start.requests + selector_requests(q, offset, idx as nat),
                    ..start
                }),
            decreases num_windows - idx,
        {
            let ghost asked = region.record();
            match region.enable_selector(&self.q_range_check, offset + idx) {
                Ok(()) => {},
                Err(e) => {
                    proof {
                        lemma_stopped_enabling(
                            start,
                            region.record(),
                            q,
                            self.z,
                            offset,
                            z_0,
                            w,
                            n,
                            k,
                            strict,
                            idx as nat,
                            e,
                        );
                    }
                    return Err(GadgetError::Engine(e));
                },
            }
            assert(selector_requests(q, offset, idx as nat).push(
                RegionRequest::EnableSelector { selector: q, row: (offset + idx) as usize },
            ) =~= selector_requests(q, offset, (idx + 1) as nat));
            assert(region.record().requests =~= start.requests + selector_requests(
                q,
                offset,
                (idx + 1) as nat,
            ));
            idx = idx + 1;
        }
        let ghost enabled = region.record();

        // Decompose the base field element into K-bit words.
        let words: Option<Vec<u8>> = match z_0.value() {
            Some(word) => Some(decompose_word(&word, word_num_bits, WINDOW_NUM_BITS)),
            None => None,
        };
        proof {
            lemma_windows_fit_count(k, num_windows as nat, n);
        }

        // The inverse of 2^K, by which every step divides.
        let two_pow_k = two_pow(WINDOW_NUM_BITS);
        proof {
            lemma_modulus_value();
            lemma_two_pow_inverse(k);
            lemma2_to64();
            lemma_pow2_pos(k);
            lemma_pow2_strictly_increases(k, 64);
        }
        let two_pow_k_inv = fp_invert(&two_pow_k).unwrap();
        proof {
            lemma_view_in_field(two_pow_k_inv);
            lemma_inverse_unique(pow2(k), two_pow_k_inv@, two_pow_inverse(k));
        }

        // Assign the running sum `z_{i+1} = (z_i - k_i) / 2^K` for
        // `i = 0..num_windows`.
        let mut zs: Vec<AssignedValue> = Vec::new();
        zs.push(z_0);
        let mut i: usize = 0;
        assert(enabled.requests + sum_requests(self.z, offset, zs@, n, k, 0) =~= enabled.requests);
        while i < num_windows
            invariant
                i <= num_windows,
                offset + num_windows < usize::MAX,
                0 < WINDOW_NUM_BITS <= 8,
                k == WINDOW_NUM_BITS as nat,
                n == word_num_bits as nat,
                w == num_windows,
                q == self.q_range_check,
                num_windows <= window_count(n, k),
                windows_fit(WINDOW_NUM_BITS as nat, num_windows as nat, word_num_bits as nat),
                two_pow_k_inv@ == two_pow_inverse(k),
                zs@.len() == i + 1,
                zs@[0] == z_0,
                match words {
                    Some(digits) => z_0@ matches Some(v) && digits@ == decomposition(v, n, k),
                    None => z_0@ is None,
                },
                forall|j: int|
                    0 < j <= i ==> (#[trigger] zs@[j])@ is None || (z_0@ matches Some(v) && zs@[j]@
                        == Some(running_sum(v, decomposition(v, n, k), k, j as nat))),
                start == old(region).record(),
                enabled.requests == start.requests + selector_requests(q, offset, w),
                region.record().requests == enabled.requests + sum_requests(
                    self.z,
                    offset,
                    zs@,
                    n,
                    k,
                    i as nat,
                ),
                region.record().refusals == start.refusals,
                region.record().selectors == start.selectors,
                start.cells.subset_of(region.record().cells),
            decreases num_windows - i,
        {
            // z_next = (z_cur - word) / 2^K
            let z_next_val = match (zs[i].value(), &words) {
                (Some(z_cur), Some(digits)) => Some(
                    next_partial_sum(&z_cur, digits[i], &two_pow_k_inv),
                ),
                _ => None,
            };
            assert(value_view(z_next_val) == requested_sum(zs@[i as int]@, z_0@, n, k, i as nat));
            let label = partial_sum_label(i + 1);
            let z_next = match region.assign_advice(
                label.as_str(),
                self.z,
                offset + i + 1,
                z_next_val,
            ) {
                Ok(cell) => cell,
                Err(e) => {
                    proof {
                        lemma_stopped_assigning(
                            start,
                            region.record(),
                            q,
                            self.z,
                            offset,
                            zs@,
                            w,
                            n,
                            k,
                            strict,
                            i as nat,
                            e,
                        );
                    }
                    return Err(GadgetError::Engine(e));
                },
            };
            proof {
                if z_next@ is Some {
                    let v = z_0@->Some_0;
                    let digits = decomposition(v, n, k);
                    assert(zs@[i as int]@ == Some(running_sum(v, digits, k, i as nat)));
                    assert(running_sum(v, digits, k, (i + 1) as nat) == next_sum(
                        running_sum(v, digits, k, i as nat),
                        digits[i as int] as nat,
                        k,
                    ));
                }
            }
            let ghost earlier = zs@;
            zs.push(z_next);
            assert(forall|j: int| 0 <= j <= i ==> zs@[j] == earlier[j]);
            assert(sum_requests(self.z, offset, earlier, n, k, i as nat).push(
                RegionRequest::AssignAdvice {
                    column: self.z,
                    row: (offset + i + 1) as usize,
                    value: value_view(z_next_val),
                    cell: z_next,
                },
            ) =~= sum_requests(self.z, offset, zs@, n, k, (i + 1) as nat));
            assert(region.record().requests =~= enabled.requests + sum_requests(
                self.z,
                offset,
                zs@,
                n,
                k,
                (i + 1) as nat,
            ));
            i = i + 1;
        }

        if strict {
            // Constrain the final running sum output to be zero.
            match region.constrain_zero(&zs[num_windows]) {
                Ok(()) => {},
                Err(e) => {
                    proof {
                        lemma_stopped_constraining(
                            start,
                            region.record(),
                            q,
                            self.z,
                            offset,
                            zs@,
                            w,
                            n,
                            k,
                            e,
                        );
                    }
                    return Err(GadgetError::Engine(e));
                },
            }
        }
        let sum = RunningSum { zs, num_bits: word_num_bits, strict };
        proof {
            sum.lemma_sums();
            assert(is_running_sum(sum.sums(), n, k));
            assert(region.record().requests =~= start.requests + all_requests(
                Lead::Given { z_0 },
                q,
                self.z,
                offset,
                sum.spec_zs(),
                n,
                k,
                strict,
            ));
        }
        Ok(sum)
    }
}

/// Computes [`windows_fit`] without overflow.
fn fits(k: usize, num_windows: usize, word_num_bits: usize) -> (r: bool)
    requires
        k < 64,
    ensures
        r == windows_fit(k as nat, num_windows as nat, word_num_bits as nat),
{
    assert(k * num_windows <= 64 * usize::MAX) by (nonlinear_arith)
        requires
            k < 64,
            num_windows <= usize::MAX,
    ;
    (k as u128) * (num_windows as u128) < (word_num_bits as u128) + (k as u128)
}

} // verus!
