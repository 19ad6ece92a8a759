//! Properties of the engine as a whole, stated over the model that the
//! contracts of `DeductionEngine::prove` and `solve` use.

use vstd::prelude::*;
use crate::closure::{known_equal, linked, reachable, step_middle};
use crate::deduction::{conversion_step, from_values_step, transitive_step, StepView};
use crate::engine::{known, left_key, order_statement, provable, provable_goal, ProofView};
use crate::types::{
    raw_views, AnchoredKey, Array, HashableStatement, HashableValue, KeyView, NativeOperation,
    RawView, StatementView, ValueView,
};
use crate::wildcard::{matches_spec, WildcardAnchoredKey, WildcardStatement};

verus! {

/// The chain of transitive steps from `keys[0]` along `keys` up to `keys[m]`.
pub open spec fn path_chain(keys: Seq<KeyView>, m: int) -> Seq<StepView>
    decreases m,
{
    if m <= 1 {
        Seq::empty()
    } else {
        path_chain(keys, m - 1).push(transitive_step(keys[0], keys[m - 1], keys[m]))
    }
}

/// Whether consecutive keys of `w` are linked by known equalities.
pub open spec fn is_walk(facts: Seq<HashableStatement>, w: Seq<KeyView>) -> bool {
    forall|i: int| 0 <= i < w.len() - 1 ==> #[trigger] linked(facts, w[i], w[i + 1])
}

proof fn lemma_path_chain(facts: Seq<HashableStatement>, keys: Seq<KeyView>, m: int)
    requires
        1 <= m < keys.len(),
        keys.no_duplicates(),
        is_walk(facts, keys),
    ensures
        reachable(facts, keys[0], keys[m], path_chain(keys, m)),
        path_chain(keys, m).len() == m - 1,
        forall|j: int|
            0 <= j < m - 1 ==> #[trigger] path_chain(keys, m)[j] == transitive_step(
                keys[0],
                keys[j + 1],
                keys[j + 2],
            ),
    decreases m,
{
    if m == 1 {
        let i: int = 0;
        assert(linked(facts, keys[i], keys[i + 1]));
    } else {
        lemma_path_chain(facts, keys, m - 1);
        let prev = path_chain(keys, m - 1);
        let c = path_chain(keys, m);
        assert(c.drop_last() =~= prev);
        let i = m - 1;
        assert(linked(facts, keys[i], keys[i + 1]));
        assert(keys[i + 1] == keys[m]);
        assert(step_middle(c.last()) == keys[m - 1]);
        assert forall|j: int| 0 <= j < prev.len() implies !crate::closure::concludes_equal_to(
            #[trigger] prev[j].2,
            keys[m],
        ) by {
            assert(prev[j] == transitive_step(keys[0], keys[j + 1], keys[j + 2]));
            assert(j + 2 != m);
        }
        assert forall|j: int| 0 <= j < m - 1 implies #[trigger] c[j] == transitive_step(
            keys[0],
            keys[j + 1],
            keys[j + 2],
        ) by {
            if j < m - 2 {
                assert(c[j] == prev[j]);
            }
        }
    }
}

/// Transitivity: along known equalities `k0 = k1, k1 = k2, ..., k(n-1) = kn`
/// between distinct keys, `Equal(k0, kn)` is proved for a target whose
/// pattern matches `k0` by a chain of exactly `n - 1` transitive steps.
pub proof fn lemma_transitive_equality(
    facts: Seq<HashableStatement>,
    keys: Seq<KeyView>,
    w: WildcardAnchoredKey,
    t: AnchoredKey,
)
    requires
        keys.len() >= 2,
        keys.no_duplicates(),
        forall|i: int|
            0 <= i < keys.len() - 1 ==> #[trigger] known(facts, StatementView::Equal(keys[i], keys[i + 1])),
        matches_spec(w@, keys[0]),
        t@ == keys.last(),
    ensures
        ({
            let c = path_chain(keys, keys.len() - 1);
            &&& provable(
                facts,
                WildcardStatement::Equal(w, t),
                (StatementView::Equal(keys[0], keys.last()), c),
            )
            &&& c.len() == keys.len() - 2
            &&& forall|j: int|
                0 <= j < c.len() ==> (#[trigger] c[j]).0
                    == NativeOperation::TransitiveEqualFromStatements
        }),
{
    let m = keys.len() - 1;
    assert forall|i: int| 0 <= i < keys.len() - 1 implies #[trigger] linked(facts, keys[i], keys[i + 1]) by {
        assert(known(facts, StatementView::Equal(keys[i], keys[i + 1])));
    }
    lemma_path_chain(facts, keys, m);
    let c = path_chain(keys, m);
    assert forall|j: int| 0 <= j < c.len() implies (#[trigger] c[j]).0
        == NativeOperation::TransitiveEqualFromStatements by {
        assert(c[j] == transitive_step(keys[0], keys[j + 1], keys[j + 2]));
    }
    assert(left_key(StatementView::Equal(keys[0], keys.last())) == keys[0]);
}

/// Symmetry of equality known outright: when `Equal(a, e)` is proved with no
/// step, `Equal(e, a)` is proved with no step for a target whose pattern
/// matches `e`.
pub proof fn lemma_direct_equality_symmetric(
    facts: Seq<HashableStatement>,
    a: KeyView,
    w1: WildcardAnchoredKey,
    t1: AnchoredKey,
    w2: WildcardAnchoredKey,
    t2: AnchoredKey,
)
    requires
        provable(
            facts,
            WildcardStatement::Equal(w1, t1),
            (StatementView::Equal(a, t1@), Seq::empty()),
        ),
        matches_spec(w2@, t1@),
        t2@ == a,
    ensures
        provable(
            facts,
            WildcardStatement::Equal(w2, t2),
            (StatementView::Equal(t1@, a), Seq::empty()),
        ),
{
    let e = t1@;
    assert(left_key(StatementView::Equal(a, e)) == a);
    assert(left_key(StatementView::Equal(e, a)) == e);
    if known(facts, StatementView::Equal(a, e)) {
        assert(known_equal(facts, a, e));
    }
    assert(reachable(facts, a, e, Seq::empty()));
    assert(reachable(facts, e, a, Seq::empty()));
}

/// A chain proving `x = z` gives a walk of linked keys from `z` back to `x`.
proof fn lemma_walk_back(facts: Seq<HashableStatement>, x: KeyView, z: KeyView, c: Seq<StepView>) -> (w:
    Seq<KeyView>)
    requires
        reachable(facts, x, z, c),
    ensures
        w.len() >= 2,
        w[0] == z,
        w.last() == x,
        is_walk(facts, w),
    decreases c.len(),
{
    if c.len() == 0 {
        let w = seq![z, x];
        let i: int = 0;
        assert(linked(facts, w[i], w[i + 1]));
        w
    } else {
        let y = step_middle(c.last());
        let rest = lemma_walk_back(facts, x, y, c.drop_last());
        let w = seq![z] + rest;
        assert forall|i: int| 0 <= i < w.len() - 1 implies #[trigger] linked(facts, w[i], w[i + 1]) by {
            if i > 0 {
                assert(w[i] == rest[i - 1] && w[i + 1] == rest[(i - 1) + 1]);
                assert(linked(facts, rest[i - 1], rest[(i - 1) + 1]));
            } else {
                assert(w[1] == y);
            }
        }
        w
    }
}

/// A walk can be shortened to one that visits no key twice.
proof fn lemma_shortcut(facts: Seq<HashableStatement>, w: Seq<KeyView>) -> (r: Seq<KeyView>)
    requires
        w.len() >= 1,
        is_walk(facts, w),
    ensures
        r.len() >= 1,
        r[0] == w[0],
        r.last() == w.last(),
        is_walk(facts, r),
        r.no_duplicates(),
    decreases w.len(),
{
    if w.no_duplicates() {
        w
    } else {
        let (i0, j0) = choose|i: int, j: int| 0 <= i < w.len() && 0 <= j < w.len() && i != j && w[i] == w[j];
        let i = if i0 < j0 { i0 } else { j0 };
        let j = if i0 < j0 { j0 } else { i0 };
        let shorter = w.subrange(0, i) + w.subrange(j, w.len() as int);
        assert(shorter.len() == w.len() - (j - i));
        assert forall|k: int| 0 <= k < shorter.len() - 1 implies #[trigger] linked(facts, shorter[k], shorter[k + 1]) by {
            if k + 1 < i {
                assert(shorter[k] == w[k] && shorter[k + 1] == w[k + 1]);
            } else if k + 1 == i {
                assert(shorter[k] == w[k] && shorter[k + 1] == w[j]);
                assert(linked(facts, w[k], w[k + 1]));
            } else {
                let m = k + j - i;
                assert(shorter[k] == w[m] && shorter[k + 1] == w[m + 1]);
            }
        }
        if i == 0 {
            assert(shorter[0] == w[j]);
        }
        lemma_shortcut(facts, shorter)
    }
}

/// Symmetry: when `Equal(a, e)` is proved for a target whose pattern matches
/// `a`, then `Equal(e, a)` is proved, by some chain, for a target whose
/// pattern matches `e`.
pub proof fn lemma_equality_symmetric(
    facts: Seq<HashableStatement>,
    a: KeyView,
    c: Seq<StepView>,
    w1: WildcardAnchoredKey,
    t1: AnchoredKey,
    w2: WildcardAnchoredKey,
    t2: AnchoredKey,
)
    requires
        provable(facts, WildcardStatement::Equal(w1, t1), (StatementView::Equal(a, t1@), c)),
        matches_spec(w2@, t1@),
        t2@ == a,
    ensures
        exists|c2: Seq<StepView>|
            provable(facts, WildcardStatement::Equal(w2, t2), (StatementView::Equal(t1@, a), c2)),
{
    let e = t1@;
    assert(left_key(StatementView::Equal(a, e)) == a);
    assert(left_key(StatementView::Equal(e, a)) == e);
    if a == e {
        assert(provable(facts, WildcardStatement::Equal(w2, t2), (StatementView::Equal(e, a), c)));
    } else {
        if c.len() == 0 && known(facts, StatementView::Equal(a, e)) {
            assert(known_equal(facts, a, e));
            assert(reachable(facts, a, e, c));
        }
        let walk = lemma_walk_back(facts, a, e, c);
        let keys = lemma_shortcut(facts, walk);
        assert(keys.len() >= 2) by {
            if keys.len() == 1 {
                assert(keys[0] == keys.last());
            }
        }
        let m = keys.len() - 1;
        lemma_path_chain(facts, keys, m);
        assert(provable(
            facts,
            WildcardStatement::Equal(w2, t2),
            (StatementView::Equal(e, a), path_chain(keys, m)),
        ));
    }
}

/// No proof without evidence: from the single fact `Equal(x, y)`, nothing
/// is proved for a target `Equal(_, z)` with `z` other than `x` and `y`.
pub proof fn lemma_no_evidence(
    x: AnchoredKey,
    y: AnchoredKey,
    w: WildcardAnchoredKey,
    z: AnchoredKey,
    p: ProofView,
)
    requires
        z@ != x@,
        z@ != y@,
    ensures
        !provable(seq![HashableStatement::Equal(x, y)], WildcardStatement::Equal(w, z), p),
{
    let facts = seq![HashableStatement::Equal(x, y)];
    let k = left_key(p.0);
    assert forall|a: KeyView| !known_equal(facts, a, z@) && !known_equal(facts, z@, a) by {
        assert forall|i: int| 0 <= i < facts.len() implies facts[i]@ != StatementView::Equal(a, z@)
            && facts[i]@ != StatementView::Equal(z@, a) by {
            assert(facts[i] == HashableStatement::Equal(x, y));
        }
    }
    if provable(facts, WildcardStatement::Equal(w, z), p) {
        if p.1.len() == 0 && known(facts, p.0) {
            let i = choose|i: int| 0 <= i < facts.len() && #[trigger] facts[i]@ == p.0;
            assert(facts[i] == HashableStatement::Equal(x, y));
        } else if p.1.len() > 0 {
            assert(!known_equal(facts, step_middle(p.1.last()), z@));
        }
    }
}

/// The operation that turns `Gt` (when `greater`) or `Lt` into `NotEqual`.
pub open spec fn not_equal_operation(greater: bool) -> NativeOperation {
    if greater {
        NativeOperation::GtToNotEqual
    } else {
        NativeOperation::LtToNotEqual
    }
}

/// From the single fact `Gt(x, y)` (or `Lt(x, y)`), for a target
/// `NotEqual(_, y)` whose pattern matches `x`, the one proof is
/// `NotEqual(x, y)` by one `GtToNotEqual` (or `LtToNotEqual`) step whose one
/// premise is that fact.
pub proof fn lemma_order_gives_not_equal(
    greater: bool,
    x: AnchoredKey,
    y: AnchoredKey,
    w: WildcardAnchoredKey,
    p: ProofView,
)
    requires
        matches_spec(w@, x@),
    ensures
        ({
            let fact = if greater {
                HashableStatement::Gt(x, y)
            } else {
                HashableStatement::Lt(x, y)
            };
            let expected = (
                StatementView::NotEqual(x@, y@),
                seq![
                    conversion_step(
                        not_equal_operation(greater),
                        fact@,
                        StatementView::NotEqual(x@, y@),
                    ),
                ],
            );
            &&& provable(seq![fact], WildcardStatement::NotEqual(w, y), expected)
            &&& provable(seq![fact], WildcardStatement::NotEqual(w, y), p) ==> p == expected
        }),
{
    let fact = if greater {
        HashableStatement::Gt(x, y)
    } else {
        HashableStatement::Lt(x, y)
    };
    let facts = seq![fact];
    assert(facts[0]@ == order_statement(greater, x@, y@));
    assert(left_key(StatementView::NotEqual(x@, y@)) == x@);
    if provable(facts, WildcardStatement::NotEqual(w, y), p) {
        let k = left_key(p.0);
        if known(facts, StatementView::Gt(k, y@)) {
            assert(facts[0]@ == StatementView::Gt(k, y@));
        }
        if known(facts, StatementView::Lt(k, y@)) {
            assert(facts[0]@ == StatementView::Lt(k, y@));
        }
        if known(facts, p.0) {
            assert(facts[0]@ == p.0);
        }
    }
}

/// No chaining of strict order: from `Lt(x, y)` and `Lt(y, z)` alone, with
/// `x`, `y` and `y`, `z` different keys, `NotEqual(x, z)` is not proved.
pub proof fn lemma_no_transitive_order(
    x: AnchoredKey,
    y: AnchoredKey,
    z: AnchoredKey,
    w: WildcardAnchoredKey,
    c: Seq<StepView>,
)
    requires
        x@ != y@,
        y@ != z@,
    ensures
        !provable(
            seq![HashableStatement::Lt(x, y), HashableStatement::Lt(y, z)],
            WildcardStatement::NotEqual(w, z),
            (StatementView::NotEqual(x@, z@), c),
        ),
{
    let facts = seq![HashableStatement::Lt(x, y), HashableStatement::Lt(y, z)];
    let s = StatementView::NotEqual(x@, z@);
    assert(left_key(s) == x@);
    assert forall|i: int| 0 <= i < facts.len() implies facts[i]@ != StatementView::Gt(x@, z@)
        && facts[i]@ != StatementView::Lt(x@, z@) && facts[i]@ != s by {
        if i == 0 {
            assert(facts[i]@ == StatementView::Lt(x@, y@));
        } else {
            assert(facts[i]@ == StatementView::Lt(y@, z@));
        }
    }
}

/// Value-driven comparison: with known integer values `a` of `x` and `b` of
/// `y`, `a > b`, and a pattern matching `x`, `Gt(x, y)` is proved by one
/// `GtFromEntries` step from the two values; and every key proved greater
/// than `y` has the pattern's field name.
pub proof fn lemma_value_comparison(
    facts: Seq<HashableStatement>,
    x: AnchoredKey,
    y: AnchoredKey,
    a: i64,
    b: i64,
    w: WildcardAnchoredKey,
)
    requires
        a > b,
        known(facts, StatementView::ValueOf(x@, ValueView::Int(a))),
        known(facts, StatementView::ValueOf(y@, ValueView::Int(b))),
        matches_spec(w@, x@),
    ensures
        provable(
            facts,
            WildcardStatement::Gt(w, y),
            (
                StatementView::Gt(x@, y@),
                seq![
                    from_values_step(
                        NativeOperation::GtFromEntries,
                        x@,
                        ValueView::Int(a),
                        y@,
                        ValueView::Int(b),
                        StatementView::Gt(x@, y@),
                    ),
                ],
            ),
        ),
        forall|p: ProofView|
            provable(facts, WildcardStatement::Gt(w, y), p) ==> (#[trigger] left_key(p.0)).1
                == w@.1,
{
    assert(left_key(StatementView::Gt(x@, y@)) == x@);
}

/// Containment: with the value of `x` an array and the value of `y` the
/// integer `v`, a target `Contains(_, y)` whose pattern matches `x` is proved
/// by one `ContainsFromEntries` step when the array holds `v`; when it does
/// not, and `x`, `y` are different keys, nothing is proved.
pub proof fn lemma_containment(
    x: AnchoredKey,
    y: AnchoredKey,
    arr: Array,
    v: i64,
    w: WildcardAnchoredKey,
    p: ProofView,
)
    requires
        matches_spec(w@, x@),
    ensures
        ({
            let facts = seq![
                HashableStatement::ValueOf(x, HashableValue::Array(arr)),
                HashableStatement::ValueOf(y, HashableValue::Int(v)),
            ];
            let target = WildcardStatement::Contains(w, y);
            &&& raw_views(arr.elements@).contains(RawView::Int(v)) ==> provable(
                facts,
                target,
                (
                    StatementView::Contains(x@, y@),
                    seq![
                        from_values_step(
                            NativeOperation::ContainsFromEntries,
                            x@,
                            ValueView::Array(arr.commitment),
                            y@,
                            ValueView::Int(v),
                            StatementView::Contains(x@, y@),
                        ),
                    ],
                ),
            )
            &&& !raw_views(arr.elements@).contains(RawView::Int(v)) && x@ != y@ ==> !provable(
                facts,
                target,
                p,
            )
        }),
{
    let facts = seq![
        HashableStatement::ValueOf(x, HashableValue::Array(arr)),
        HashableStatement::ValueOf(y, HashableValue::Int(v)),
    ];
    assert(left_key(StatementView::Contains(x@, y@)) == x@);
    assert(facts[0] is ValueOf && facts[1] is ValueOf);
    if !raw_views(arr.elements@).contains(RawView::Int(v)) && x@ != y@ {
        let k = left_key(p.0);
        assert forall|i: int, j: int|
            0 <= i < facts.len() && 0 <= j < facts.len() && facts[j] is ValueOf
                && facts[j]->ValueOf_0@ == y@ implies !crate::types::value_contains(
            facts[i]->ValueOf_1,
            facts[j]->ValueOf_1,
        ) by {
            assert(j == 1);
        }
        assert forall|i: int| 0 <= i < facts.len() implies !(#[trigger] facts[i]@ is Contains) by {}
    }
}

/// Idempotence of the result set: two result lists that each hold exactly
/// the proofs of the goal, once each, as the results of `prove` on engines
/// with the same facts and target do, hold the same proofs and have the same
/// length. On one engine whose facts and target did not change, `prove`
/// returns even the same order, as its contract states.
pub proof fn lemma_prove_idempotent(
    facts: Seq<HashableStatement>,
    goal: Option<WildcardStatement>,
    first: Seq<ProofView>,
    second: Seq<ProofView>,
)
    requires
        forall|q: ProofView| #[trigger] first.contains(q) <==> provable_goal(facts, goal, q),
        forall|q: ProofView| #[trigger] second.contains(q) <==> provable_goal(facts, goal, q),
        first.no_duplicates(),
        second.no_duplicates(),
    ensures
        first.to_set() == second.to_set(),
        first.len() == second.len(),
{
    assert(first.to_set() =~= second.to_set());
    first.unique_seq_to_set();
    second.unique_seq_to_set();
}

} // verus!
