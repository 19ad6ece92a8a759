//! Deduction steps and chains, their views, and the steps the engine builds.

use vstd::prelude::*;
use crate::types::{AnchoredKey, HashableStatement, HashableValue, KeyView, NativeOperation, StatementView};

verus! {

/// One licensed inference: the operation, its premises, its conclusion.
pub type DeductionStep = (NativeOperation, Vec<HashableStatement>, HashableStatement);

/// Steps in the order they were built, earliest dependency first. An empty
/// chain means the conclusion was known outright.
pub type DeductionChain = Vec<DeductionStep>;

/// The model of a deduction step.
pub type StepView = (NativeOperation, Seq<StatementView>, StatementView);

pub open spec fn statements_view(s: Seq<HashableStatement>) -> Seq<StatementView> {
    s.map_values(|x: HashableStatement| x@)
}

pub open spec fn step_view(s: DeductionStep) -> StepView {
    (s.0, statements_view(s.1@), s.2@)
}

pub open spec fn chain_view(c: Seq<DeductionStep>) -> Seq<StepView> {
    c.map_values(|s: DeductionStep| step_view(s))
}

/// The step that joins `x = y` and `y = z` into `x = z`.
pub open spec fn transitive_step(x: KeyView, y: KeyView, z: KeyView) -> StepView {
    (
        NativeOperation::TransitiveEqualFromStatements,
        seq![StatementView::Equal(x, y), StatementView::Equal(y, z)],
        StatementView::Equal(x, z),
    )
}

/// The step that compares two known values, concluding `conclusion`.
pub open spec fn from_values_step(
    op: NativeOperation,
    x: KeyView,
    vx: crate::types::ValueView,
    y: KeyView,
    vy: crate::types::ValueView,
    conclusion: StatementView,
) -> StepView {
    (op, seq![StatementView::ValueOf(x, vx), StatementView::ValueOf(y, vy)], conclusion)
}

/// The step that turns one known statement into `conclusion`.
pub open spec fn conversion_step(
    op: NativeOperation,
    premise: StatementView,
    conclusion: StatementView,
) -> StepView {
    (op, seq![premise], conclusion)
}

/// Clones a list of statements, keeping their views.
pub fn clone_statements(v: &Vec<HashableStatement>) -> (r: Vec<HashableStatement>)
    ensures
        statements_view(r@) == statements_view(v@),
{
    let mut r: Vec<HashableStatement> = Vec::new();
    let mut i: usize = 0;
    while i < v.len()
        invariant
            i <= v.len(),
            r.len() == i,
            forall|j: int| 0 <= j < i ==> r@[j]@ == v@[j]@,
        decreases v.len() - i,
    {
        r.push(v[i].clone());
        i += 1;
    }
    assert(statements_view(r@) =~= statements_view(v@));
    r
}

/// Clones a chain, keeping its view.
pub fn clone_chain(c: &DeductionChain) -> (r: DeductionChain)
    ensures
        chain_view(r@) == chain_view(c@),
{
    let mut r: DeductionChain = Vec::new();
    let mut i: usize = 0;
    while i < c.len()
        invariant
            i <= c.len(),
            r.len() == i,
            forall|j: int| 0 <= j < i ==> step_view(r@[j]) == step_view(c@[j]),
        decreases c.len() - i,
    {
        let (op, premises, conclusion) = &c[i];
        r.push((*op, clone_statements(premises), conclusion.clone()));
        i += 1;
    }
    assert(chain_view(r@) =~= chain_view(c@));
    r
}

/// Whether two lists of statements have the same views.
pub fn same_statements(a: &Vec<HashableStatement>, b: &Vec<HashableStatement>) -> (r: bool)
    ensures
        r == (statements_view(a@) == statements_view(b@)),
{
    if a.len() != b.len() {
        assert(statements_view(a@).len() != statements_view(b@).len());
        return false;
    }
    let mut i: usize = 0;
    while i < a.len()
        invariant
            i <= a.len(),
            a.len() == b.len(),
            forall|j: int| 0 <= j < i ==> a@[j]@ == b@[j]@,
        decreases a.len() - i,
    {
        if a[i] != b[i] {
            assert(statements_view(a@)[i as int] != statements_view(b@)[i as int]);
            return false;
        }
        i += 1;
    }
    assert(statements_view(a@) =~= statements_view(b@));
    true
}

/// Whether two chains have the same views.
pub fn same_chain(a: &DeductionChain, b: &DeductionChain) -> (r: bool)
    ensures
        r == (chain_view(a@) == chain_view(b@)),
{
    if a.len() != b.len() {
        assert(chain_view(a@).len() != chain_view(b@).len());
        return false;
    }
    let mut i: usize = 0;
    while i < a.len()
        invariant
            i <= a.len(),
            a.len() == b.len(),
            forall|j: int| 0 <= j < i ==> step_view(a@[j]) == step_view(b@[j]),
        decreases a.len() - i,
    {
        let (op_a, premises_a, conclusion_a) = &a[i];
        let (op_b, premises_b, conclusion_b) = &b[i];
        if *op_a != *op_b || !same_statements(premises_a, premises_b) || *conclusion_a
            != *conclusion_b {
            assert(chain_view(a@)[i as int] != chain_view(b@)[i as int]);
            return false;
        }
        i += 1;
    }
    assert(chain_view(a@) =~= chain_view(b@));
    true
}

/// Builds the statement list `[first, second]`.
fn pair_of(first: HashableStatement, second: HashableStatement) -> (r: Vec<HashableStatement>)
    ensures
        statements_view(r@) == seq![first@, second@],
{
    let mut r: Vec<HashableStatement> = Vec::new();
    r.push(first);
    r.push(second);
    assert(statements_view(r@) =~= seq![first@, second@]);
    r
}

/// Builds the step joining `x = y` and `y = z` into `x = z`.
pub fn make_transitive_step(x: &AnchoredKey, y: &AnchoredKey, z: &AnchoredKey) -> (r:
    DeductionStep)
    ensures
        step_view(r) == transitive_step(x@, y@, z@),
{
    let premises = pair_of(
        HashableStatement::Equal(x.clone(), y.clone()),
        HashableStatement::Equal(y.clone(), z.clone()),
    );
    (
        NativeOperation::TransitiveEqualFromStatements,
        premises,
        HashableStatement::Equal(x.clone(), z.clone()),
    )
}

/// Builds the step from the values of `x` and `y` to `conclusion`.
pub fn make_from_values_step(
    op: NativeOperation,
    x: &AnchoredKey,
    vx: &HashableValue,
    y: &AnchoredKey,
    vy: &HashableValue,
    conclusion: HashableStatement,
) -> (r: DeductionStep)
    ensures
        step_view(r) == from_values_step(op, x@, vx@, y@, vy@, conclusion@),
{
    let premises = pair_of(
        HashableStatement::ValueOf(x.clone(), vx.clone()),
        HashableStatement::ValueOf(y.clone(), vy.clone()),
    );
    (op, premises, conclusion)
}

/// Builds the step from one premise to `conclusion`.
pub fn make_conversion_step(
    op: NativeOperation,
    premise: HashableStatement,
    conclusion: HashableStatement,
) -> (r: DeductionStep)
    ensures
        step_view(r) == conversion_step(op, premise@, conclusion@),
{
    let mut premises: Vec<HashableStatement> = Vec::new();
    premises.push(premise);
    assert(statements_view(premises@) =~= seq![premise@]);
    (op, premises, conclusion)
}

/// A chain of exactly one step.
pub fn single_step_chain(step: DeductionStep) -> (r: DeductionChain)
    ensures
        chain_view(r@) == seq![step_view(step)],
{
    let mut r: DeductionChain = Vec::new();
    r.push(step);
    assert(chain_view(r@) =~= seq![step_view(step)]);
    r
}

} // verus!
