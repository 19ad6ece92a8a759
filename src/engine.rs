//! The deduction engine: per-predicate connectors from a wildcard target to
//! the known statements, and the proof synthesizer that collects them.

use vstd::prelude::*;
use crate::closure::{link_view, links_view, reachable, reachable_equal, LinkView};
use crate::deduction::{
    chain_view, clone_chain, conversion_step, from_values_step, make_conversion_step,
    make_from_values_step, same_chain, single_step_chain, DeductionChain, StepView,
};
use crate::types::{
    check_contains, value_contains, AnchoredKey, HashableStatement, HashableValue, KeyView,
    NativeOperation, StatementView, ValueView,
};
use crate::wildcard::{matches_spec, WildcardAnchoredKey, WildcardKeyView, WildcardStatement};

verus! {

/// A proved statement with the chain that proves it.
pub type Proof = (HashableStatement, DeductionChain);

/// The model of a proof.
pub type ProofView = (StatementView, Seq<StepView>);

pub open spec fn proof_view(p: Proof) -> ProofView {
    (p.0@, chain_view(p.1@))
}

pub open spec fn proofs_view(s: Seq<Proof>) -> Seq<ProofView> {
    s.map_values(|p: Proof| proof_view(p))
}

/// Whether `s` is one of the facts.
pub open spec fn known(facts: Seq<HashableStatement>, s: StatementView) -> bool {
    exists|i: int| 0 <= i < facts.len() && #[trigger] facts[i]@ == s
}

/// The left key of a two-key statement.
pub open spec fn left_key(s: StatementView) -> KeyView {
    match s {
        StatementView::Equal(a, _) => a,
        StatementView::NotEqual(a, _) => a,
        StatementView::Gt(a, _) => a,
        StatementView::Lt(a, _) => a,
        StatementView::Contains(a, _) => a,
        _ => arbitrary(),
    }
}

/// `Equal(x, t)` is proved for a key `x` matching `w`: with no step when it is
/// known, or by any chain of the equality closure from `x` to `t`.
pub open spec fn provable_equal(facts: Seq<HashableStatement>, w: WildcardKeyView, t: KeyView, p: ProofView) -> bool {
    let x = left_key(p.0);
    &&& p.0 == StatementView::Equal(x, t)
    &&& matches_spec(w, x)
    &&& ((p.1.len() == 0 && known(facts, p.0)) || reachable(facts, x, t, p.1))
}

/// Inserts `p` unless an identical proof is already there.
fn insert_proof(results: &mut Vec<Proof>, p: Proof)
    requires
        proofs_view(old(results)@).no_duplicates(),
    ensures
        proofs_view(final(results)@).no_duplicates(),
        forall|q: ProofView|
            #[trigger] proofs_view(final(results)@).contains(q) <==> (proofs_view(
                old(results)@,
            ).contains(q) || q == proof_view(p)),
{
    let ghost before = proofs_view(results@);
    let mut i: usize = 0;
    while i < results.len()
        invariant
            i <= results.len(),
            before == proofs_view(results@),
            before.no_duplicates(),
            forall|j: int| 0 <= j < i ==> before[j] != proof_view(p),
        decreases results.len() - i,
    {
        if results[i].0 == p.0 && same_chain(&results[i].1, &p.1) {
            assert(before[i as int] == proof_view(p));
            return;
        }
        i += 1;
    }
    results.push(p);
    assert(proofs_view(results@) =~= before.push(proof_view(p)));
    proof {
        assert forall|q: ProofView|
            #[trigger] before.push(proof_view(p)).contains(q) <==> (before.contains(q) || q
                == proof_view(p)) by {
            if before.contains(q) {
                let j = choose|j: int| 0 <= j < before.len() && before[j] == q;
                assert(before.push(proof_view(p))[j] == q);
            }
            if q == proof_view(p) {
                assert(before.push(proof_view(p))[before.len() as int] == q);
            }
            if before.push(proof_view(p)).contains(q) {
                let j = choose|j: int|
                    0 <= j < before.len() + 1 && before.push(proof_view(p))[j] == q;
                if j < before.len() {
                    assert(before[j] == q);
                }
            }
        }
    }
}

/// Adds every proof of `Equal(x, t)` for a key `x` matching `w`.
fn connect_equal(
    facts: &Vec<HashableStatement>,
    w: &WildcardAnchoredKey,
    t: &AnchoredKey,
    results: &mut Vec<Proof>,
)
    requires
        proofs_view(old(results)@).no_duplicates(),
    ensures
        proofs_view(final(results)@).no_duplicates(),
        forall|q: ProofView|
            #[trigger] proofs_view(final(results)@).contains(q) <==> (proofs_view(
                old(results)@,
            ).contains(q) || provable_equal(facts@, w@, t@, q)),
{
    let ghost initial = proofs_view(results@);
    let mut j: usize = 0;
    while j < facts.len()
        invariant
            j <= facts.len(),
            proofs_view(results@).no_duplicates(),
            forall|q: ProofView|
                #[trigger] proofs_view(results@).contains(q) ==> initial.contains(q) || provable_equal(facts@, w@, t@, q),
            forall|q: ProofView| #[trigger] initial.contains(q) ==> proofs_view(results@).contains(q),
            forall|j2: int|
                0 <= j2 < j && (#[trigger] facts@[j2])@ is Equal && facts@[j2]@->Equal_1 == t@
                    && matches_spec(w@, facts@[j2]@->Equal_0) ==> proofs_view(results@).contains(
                    (facts@[j2]@, Seq::<StepView>::empty()),
                ),
        decreases facts.len() - j,
    {
        if let HashableStatement::Equal(k, c) = &facts[j] {
            if w.matches(k) && *c == *t {
                let p: Proof = (facts[j].clone(), Vec::new());
                assert(chain_view(p.1@) =~= Seq::<StepView>::empty());
                assert(provable_equal(facts@, w@, t@, proof_view(p))) by {
                    assert(facts@[j as int]@ == proof_view(p).0);
                }
                insert_proof(results, p);
            }
        }
        j += 1;
    }
    let links = reachable_equal(facts);
    let mut i: usize = 0;
    while i < links.len()
        invariant
            i <= links.len(),
            forall|l: LinkView| #[trigger] links_view(links@).contains(l) <==> crate::closure::link_reachable(facts@, l),
            proofs_view(results@).no_duplicates(),
            forall|q: ProofView|
                #[trigger] proofs_view(results@).contains(q) ==> initial.contains(q) || provable_equal(facts@, w@, t@, q),
            forall|q: ProofView| #[trigger] initial.contains(q) ==> proofs_view(results@).contains(q),
            forall|j2: int|
                0 <= j2 < facts.len() && (#[trigger] facts@[j2])@ is Equal && facts@[j2]@->Equal_1 == t@
                    && matches_spec(w@, facts@[j2]@->Equal_0) ==> proofs_view(results@).contains(
                    (facts@[j2]@, Seq::<StepView>::empty()),
                ),
            forall|i2: int|
                0 <= i2 < i && (#[trigger] link_view(links@[i2])).1 == t@ && matches_spec(w@, link_view(links@[i2]).0)
                    ==> proofs_view(results@).contains(
                    (StatementView::Equal(link_view(links@[i2]).0, t@), link_view(links@[i2]).2),
                ),
        decreases links.len() - i,
    {
        let (x, z, chain) = &links[i];
        if *z == *t && w.matches(x) {
            let p: Proof = (HashableStatement::Equal(x.clone(), t.clone()), clone_chain(chain));
            assert(links_view(links@)[i as int] == link_view(links@[i as int]));
            assert(links_view(links@).contains(link_view(links@[i as int])));
            assert(provable_equal(facts@, w@, t@, proof_view(p)));
            insert_proof(results, p);
        }
        i += 1;
    }
    assert forall|q: ProofView| provable_equal(facts@, w@, t@, q) implies #[trigger] proofs_view(results@).contains(q) by {
        let x = left_key(q.0);
        if q.1.len() == 0 && known(facts@, q.0) {
            let j2 = choose|j2: int| 0 <= j2 < facts.len() && #[trigger] facts@[j2]@ == q.0;
            assert(q.1 =~= Seq::<StepView>::empty());
            assert(facts@[j2]@ is Equal);
        } else {
            assert(links_view(links@).contains((x, t@, q.1)));
            let i2 = choose|i2: int| 0 <= i2 < links_view(links@).len() && links_view(links@)[i2] == (x, t@, q.1);
            assert(link_view(links@[i2]) == (x, t@, q.1));
        }
    }
}

/// The right key of a two-key statement.
pub open spec fn right_key(s: StatementView) -> KeyView {
    match s {
        StatementView::Equal(_, b) => b,
        StatementView::NotEqual(_, b) => b,
        StatementView::Gt(_, b) => b,
        StatementView::Lt(_, b) => b,
        StatementView::Contains(_, b) => b,
        _ => arbitrary(),
    }
}

/// `Gt` when `greater`, else `Lt`.
pub open spec fn order_statement(greater: bool, x: KeyView, y: KeyView) -> StatementView {
    if greater {
        StatementView::Gt(x, y)
    } else {
        StatementView::Lt(x, y)
    }
}

/// The operation comparing two known values: `GtFromEntries` when `greater`,
/// else `LtFromEntries`.
pub open spec fn order_operation(greater: bool) -> NativeOperation {
    if greater {
        NativeOperation::GtFromEntries
    } else {
        NativeOperation::LtFromEntries
    }
}

pub open spec fn order_holds(greater: bool, a: i64, b: i64) -> bool {
    if greater {
        a > b
    } else {
        a < b
    }
}

/// `c` is the single step comparing known integer values `a` of `x` and `b`
/// of `y`, where `a > b` (or `a < b`).
pub open spec fn compared_values(
    facts: Seq<HashableStatement>,
    greater: bool,
    x: KeyView,
    y: KeyView,
    c: Seq<StepView>,
) -> bool {
    exists|a: i64, b: i64|
        #![trigger known(facts, StatementView::ValueOf(x, ValueView::Int(a))), known(facts, StatementView::ValueOf(y, ValueView::Int(b)))]
        order_holds(greater, a, b) && known(facts, StatementView::ValueOf(x, ValueView::Int(a)))
            && known(facts, StatementView::ValueOf(y, ValueView::Int(b))) && c == seq![
            from_values_step(
                order_operation(greater),
                x,
                ValueView::Int(a),
                y,
                ValueView::Int(b),
                order_statement(greater, x, y),
            ),
        ]
}

/// `Gt(x, t)` (or `Lt(x, t)`) is proved for a key `x` matching `w`: by
/// comparing known integer values, or with no step when it is known.
pub open spec fn provable_order(
    facts: Seq<HashableStatement>,
    greater: bool,
    w: WildcardKeyView,
    t: KeyView,
    p: ProofView,
) -> bool {
    let x = left_key(p.0);
    &&& p.0 == order_statement(greater, x, t)
    &&& matches_spec(w, x)
    &&& (compared_values(facts, greater, x, t, p.1) || (p.1.len() == 0 && known(facts, p.0)))
}

spec fn value_pair_applies(
    greater: bool,
    w: WildcardKeyView,
    t: KeyView,
    f1: StatementView,
    f2: StatementView,
) -> bool {
    &&& f1 is ValueOf
    &&& f2 is ValueOf
    &&& f1->ValueOf_1 is Int
    &&& f2->ValueOf_1 is Int
    &&& matches_spec(w, f1->ValueOf_0)
    &&& f2->ValueOf_0 == t
    &&& order_holds(greater, f1->ValueOf_1->Int_0, f2->ValueOf_1->Int_0)
}

spec fn value_pair_result(greater: bool, f1: StatementView, f2: StatementView) -> ProofView {
    let x = f1->ValueOf_0;
    let y = f2->ValueOf_0;
    (
        order_statement(greater, x, y),
        seq![
            from_values_step(
                order_operation(greater),
                x,
                f1->ValueOf_1,
                y,
                f2->ValueOf_1,
                order_statement(greater, x, y),
            ),
        ],
    )
}

fn make_order_statement(greater: bool, x: &AnchoredKey, y: &AnchoredKey) -> (r: HashableStatement)
    ensures
        r@ == order_statement(greater, x@, y@),
{
    if greater {
        HashableStatement::Gt(x.clone(), y.clone())
    } else {
        HashableStatement::Lt(x.clone(), y.clone())
    }
}

/// Adds every proof of `Gt(x, t)` (or `Lt(x, t)`) for a key `x` matching `w`.
fn connect_order(
    facts: &Vec<HashableStatement>,
    greater: bool,
    w: &WildcardAnchoredKey,
    t: &AnchoredKey,
    results: &mut Vec<Proof>,
)
    requires
        proofs_view(old(results)@).no_duplicates(),
    ensures
        proofs_view(final(results)@).no_duplicates(),
        forall|q: ProofView|
            #[trigger] proofs_view(final(results)@).contains(q) <==> (proofs_view(
                old(results)@,
            ).contains(q) || provable_order(facts@, greater, w@, t@, q)),
{
    let ghost initial = proofs_view(results@);
    let n = facts.len();
    let mut i: usize = 0;
    while i < n
        invariant
            i <= n,
            n == facts.len(),
            proofs_view(results@).no_duplicates(),
            forall|q: ProofView|
                #[trigger] proofs_view(results@).contains(q) ==> initial.contains(q) || provable_order(facts@, greater, w@, t@, q),
            forall|q: ProofView| #[trigger] initial.contains(q) ==> proofs_view(results@).contains(q),
            forall|i2: int, j2: int|
                0 <= i2 < i && 0 <= j2 < n && value_pair_applies(greater, w@, t@, (#[trigger] facts@[i2])@, (#[trigger] facts@[j2])@)
                    ==> proofs_view(results@).contains(value_pair_result(greater, facts@[i2]@, facts@[j2]@)),
        decreases n - i,
    {
        if let HashableStatement::ValueOf(k1, v1) = &facts[i] {
            if let HashableValue::Int(a) = v1 {
                if w.matches(k1) {
                    let mut j: usize = 0;
                    while j < n
                        invariant
                            i < n,
                            j <= n,
                            n == facts.len(),
                            facts@[i as int]@ == StatementView::ValueOf(k1@, ValueView::Int(*a)),
                            v1@ == ValueView::Int(*a),
                            matches_spec(w@, k1@),
                            proofs_view(results@).no_duplicates(),
                            forall|q: ProofView|
                                #[trigger] proofs_view(results@).contains(q) ==> initial.contains(q) || provable_order(facts@, greater, w@, t@, q),
                            forall|q: ProofView| #[trigger] initial.contains(q) ==> proofs_view(results@).contains(q),
                            forall|i2: int, j2: int|
                                0 <= i2 < i && 0 <= j2 < n && value_pair_applies(greater, w@, t@, (#[trigger] facts@[i2])@, (#[trigger] facts@[j2])@)
                                    ==> proofs_view(results@).contains(value_pair_result(greater, facts@[i2]@, facts@[j2]@)),
                            forall|j2: int|
                                0 <= j2 < j && value_pair_applies(greater, w@, t@, facts@[i as int]@, (#[trigger] facts@[j2])@)
                                    ==> proofs_view(results@).contains(value_pair_result(greater, facts@[i as int]@, facts@[j2]@)),
                        decreases n - j,
                    {
                        if let HashableStatement::ValueOf(k2, v2) = &facts[j] {
                            if let HashableValue::Int(b) = v2 {
                                if *k2 == *t && (if greater { *a > *b } else { *a < *b }) {
                                    let step = make_from_values_step(
                                        if greater {
                                            NativeOperation::GtFromEntries
                                        } else {
                                            NativeOperation::LtFromEntries
                                        },
                                        k1,
                                        v1,
                                        k2,
                                        v2,
                                        make_order_statement(greater, k1, k2),
                                    );
                                    let p: Proof = (make_order_statement(greater, k1, t), single_step_chain(step));
                                    assert(facts@[j as int]@ == StatementView::ValueOf(k2@, ValueView::Int(*b)));
                                    assert(proof_view(p).1 =~= value_pair_result(greater, facts@[i as int]@, facts@[j as int]@).1);
                                    assert(proof_view(p) == value_pair_result(greater, facts@[i as int]@, facts@[j as int]@));
                                    assert(provable_order(facts@, greater, w@, t@, proof_view(p))) by {
                                        assert(known(facts@, StatementView::ValueOf(k1@, ValueView::Int(*a))));
                                        assert(facts@[j as int]@ == StatementView::ValueOf(k2@, ValueView::Int(*b)));
                                        assert(known(facts@, StatementView::ValueOf(t@, ValueView::Int(*b))));
                                    }
                                    insert_proof(results, p);
                                }
                            }
                        }
                        j += 1;
                    }
                }
            }
        }
        i += 1;
    }
    let mut j: usize = 0;
    while j < n
        invariant
            j <= n,
            n == facts.len(),
            proofs_view(results@).no_duplicates(),
            forall|q: ProofView|
                #[trigger] proofs_view(results@).contains(q) ==> initial.contains(q) || provable_order(facts@, greater, w@, t@, q),
            forall|q: ProofView| #[trigger] initial.contains(q) ==> proofs_view(results@).contains(q),
            forall|i2: int, j2: int|
                0 <= i2 < n && 0 <= j2 < n && value_pair_applies(greater, w@, t@, (#[trigger] facts@[i2])@, (#[trigger] facts@[j2])@)
                    ==> proofs_view(results@).contains(value_pair_result(greater, facts@[i2]@, facts@[j2]@)),
            forall|j2: int|
                0 <= j2 < j && (#[trigger] facts@[j2])@ == order_statement(greater, left_key(facts@[j2]@), t@)
                    && matches_spec(w@, left_key(facts@[j2]@)) ==> proofs_view(results@).contains(
                    (facts@[j2]@, Seq::<StepView>::empty()),
                ),
        decreases n - j,
    {
        let applies = match &facts[j] {
            HashableStatement::Gt(k1, k2) => greater && w.matches(k1) && *k2 == *t,
            HashableStatement::Lt(k1, k2) => !greater && w.matches(k1) && *k2 == *t,
            _ => false,
        };
        if applies {
            let p: Proof = (facts[j].clone(), Vec::new());
            assert(chain_view(p.1@) =~= Seq::<StepView>::empty());
            assert(provable_order(facts@, greater, w@, t@, proof_view(p))) by {
                assert(facts@[j as int]@ == proof_view(p).0);
            }
            insert_proof(results, p);
        }
        assert(facts@[j as int]@ == order_statement(greater, left_key(facts@[j as int]@), t@) && matches_spec(w@, left_key(facts@[j as int]@)) ==> applies);
        j += 1;
    }
    assert forall|q: ProofView| provable_order(facts@, greater, w@, t@, q) implies #[trigger] proofs_view(results@).contains(q) by {
        let x = left_key(q.0);
        if compared_values(facts@, greater, x, t@, q.1) {
            let (a, b) = choose|a: i64, b: i64|
                order_holds(greater, a, b) && known(facts@, StatementView::ValueOf(x, ValueView::Int(a)))
                && known(facts@, StatementView::ValueOf(t@, ValueView::Int(b))) && q.1 == seq![
                from_values_step(order_operation(greater), x, ValueView::Int(a), t@, ValueView::Int(b), order_statement(greater, x, t@)),
            ];
            let i2 = choose|i2: int| 0 <= i2 < facts.len() && #[trigger] facts@[i2]@ == StatementView::ValueOf(x, ValueView::Int(a));
            let j2 = choose|j2: int| 0 <= j2 < facts.len() && #[trigger] facts@[j2]@ == StatementView::ValueOf(t@, ValueView::Int(b));
            assert(value_pair_applies(greater, w@, t@, facts@[i2]@, facts@[j2]@));
            assert(value_pair_result(greater, facts@[i2]@, facts@[j2]@) == q);
        } else {
            let j2 = choose|j2: int| 0 <= j2 < facts.len() && #[trigger] facts@[j2]@ == q.0;
            assert(q.1 =~= Seq::<StepView>::empty());
        }
    }
}

/// `NotEqual(x, t)` is proved for a key `x` matching `w`: in one step from a
/// known `Gt(x, t)` or `Lt(x, t)`, or with no step when it is known.
pub open spec fn provable_not_equal(facts: Seq<HashableStatement>, w: WildcardKeyView, t: KeyView, p: ProofView) -> bool {
    let x = left_key(p.0);
    &&& p.0 == StatementView::NotEqual(x, t)
    &&& matches_spec(w, x)
    &&& {
        ||| known(facts, StatementView::Gt(x, t)) && p.1 == seq![
            conversion_step(NativeOperation::GtToNotEqual, StatementView::Gt(x, t), p.0),
        ]
        ||| known(facts, StatementView::Lt(x, t)) && p.1 == seq![
            conversion_step(NativeOperation::LtToNotEqual, StatementView::Lt(x, t), p.0),
        ]
        ||| p.1.len() == 0 && known(facts, p.0)
    }
}

spec fn not_equal_source(w: WildcardKeyView, t: KeyView, f: StatementView) -> bool {
    &&& (f is Gt || f is Lt || f is NotEqual)
    &&& matches_spec(w, left_key(f))
    &&& right_key(f) == t
}

spec fn not_equal_result(f: StatementView) -> ProofView {
    let conclusion = StatementView::NotEqual(left_key(f), right_key(f));
    if f is Gt {
        (conclusion, seq![conversion_step(NativeOperation::GtToNotEqual, f, conclusion)])
    } else if f is Lt {
        (conclusion, seq![conversion_step(NativeOperation::LtToNotEqual, f, conclusion)])
    } else {
        (f, Seq::empty())
    }
}

/// Adds every proof of `NotEqual(x, t)` for a key `x` matching `w`.
fn connect_not_equal(
    facts: &Vec<HashableStatement>,
    w: &WildcardAnchoredKey,
    t: &AnchoredKey,
    results: &mut Vec<Proof>,
)
    requires
        proofs_view(old(results)@).no_duplicates(),
    ensures
        proofs_view(final(results)@).no_duplicates(),
        forall|q: ProofView|
            #[trigger] proofs_view(final(results)@).contains(q) <==> (proofs_view(
                old(results)@,
            ).contains(q) || provable_not_equal(facts@, w@, t@, q)),
{
    let ghost initial = proofs_view(results@);
    let mut j: usize = 0;
    while j < facts.len()
        invariant
            j <= facts.len(),
            proofs_view(results@).no_duplicates(),
            forall|q: ProofView|
                #[trigger] proofs_view(results@).contains(q) ==> initial.contains(q) || provable_not_equal(facts@, w@, t@, q),
            forall|q: ProofView| #[trigger] initial.contains(q) ==> proofs_view(results@).contains(q),
            forall|j2: int|
                0 <= j2 < j && not_equal_source(w@, t@, (#[trigger] facts@[j2])@) ==> proofs_view(results@).contains(
                    not_equal_result(facts@[j2]@),
                ),
        decreases facts.len() - j,
    {
        let ghost f = facts@[j as int]@;
        match &facts[j] {
            HashableStatement::Gt(k1, k2) => {
                if w.matches(k1) && *k2 == *t {
                    let conclusion = HashableStatement::NotEqual(k1.clone(), k2.clone());
                    let step = make_conversion_step(NativeOperation::GtToNotEqual, facts[j].clone(), conclusion);
                    let p: Proof = (HashableStatement::NotEqual(k1.clone(), t.clone()), single_step_chain(step));
                    assert(proof_view(p) == not_equal_result(f));
                    assert(provable_not_equal(facts@, w@, t@, proof_view(p))) by {
                        assert(facts@[j as int]@ == StatementView::Gt(k1@, t@));
                    }
                    insert_proof(results, p);
                }
            },
            HashableStatement::Lt(k1, k2) => {
                if w.matches(k1) && *k2 == *t {
                    let conclusion = HashableStatement::NotEqual(k1.clone(), k2.clone());
                    let step = make_conversion_step(NativeOperation::LtToNotEqual, facts[j].clone(), conclusion);
                    let p: Proof = (HashableStatement::NotEqual(k1.clone(), t.clone()), single_step_chain(step));
                    assert(proof_view(p) == not_equal_result(f));
                    assert(provable_not_equal(facts@, w@, t@, proof_view(p))) by {
                        assert(facts@[j as int]@ == StatementView::Lt(k1@, t@));
                    }
                    insert_proof(results, p);
                }
            },
            HashableStatement::NotEqual(k1, k2) => {
                if w.matches(k1) && *k2 == *t {
                    let p: Proof = (facts[j].clone(), Vec::new());
                    assert(chain_view(p.1@) =~= Seq::<StepView>::empty());
                    assert(proof_view(p) == not_equal_result(f));
                    assert(provable_not_equal(facts@, w@, t@, proof_view(p))) by {
                        assert(facts@[j as int]@ == proof_view(p).0);
                    }
                    insert_proof(results, p);
                }
            },
            _ => {},
        }
        j += 1;
    }
    assert forall|q: ProofView| provable_not_equal(facts@, w@, t@, q) implies #[trigger] proofs_view(results@).contains(q) by {
        let x = left_key(q.0);
        if known(facts@, StatementView::Gt(x, t@)) && q.1 == seq![
            conversion_step(NativeOperation::GtToNotEqual, StatementView::Gt(x, t@), q.0),
        ] {
            let j2 = choose|j2: int| 0 <= j2 < facts.len() && #[trigger] facts@[j2]@ == StatementView::Gt(x, t@);
            assert(not_equal_result(facts@[j2]@) == q);
        } else if known(facts@, StatementView::Lt(x, t@)) && q.1 == seq![
            conversion_step(NativeOperation::LtToNotEqual, StatementView::Lt(x, t@), q.0),
        ] {
            let j2 = choose|j2: int| 0 <= j2 < facts.len() && #[trigger] facts@[j2]@ == StatementView::Lt(x, t@);
            assert(not_equal_result(facts@[j2]@) == q);
        } else {
            let j2 = choose|j2: int| 0 <= j2 < facts.len() && #[trigger] facts@[j2]@ == q.0;
            assert(q.1 =~= Seq::<StepView>::empty());
            assert(not_equal_result(facts@[j2]@) == q);
        }
    }
}

/// `c` is the single step showing that the known value of `x` holds the
/// known value of `y`.
pub open spec fn contained_values(facts: Seq<HashableStatement>, x: KeyView, y: KeyView, c: Seq<StepView>) -> bool {
    exists|i: int, j: int|
        0 <= i < facts.len() && 0 <= j < facts.len() && (#[trigger] facts[i]) is ValueOf && (
        #[trigger] facts[j]) is ValueOf && facts[i]->ValueOf_0@ == x && facts[j]->ValueOf_0@ == y
            && value_contains(facts[i]->ValueOf_1, facts[j]->ValueOf_1) && c == seq![
            from_values_step(
                NativeOperation::ContainsFromEntries,
                x,
                facts[i]->ValueOf_1@,
                y,
                facts[j]->ValueOf_1@,
                StatementView::Contains(x, y),
            ),
        ]
}

/// `Contains(x, t)` is proved for a key `x` matching `w`: by the containment
/// of known values, or with no step when it is known.
pub open spec fn provable_contains(facts: Seq<HashableStatement>, w: WildcardKeyView, t: KeyView, p: ProofView) -> bool {
    let x = left_key(p.0);
    &&& p.0 == StatementView::Contains(x, t)
    &&& matches_spec(w, x)
    &&& (contained_values(facts, x, t, p.1) || (p.1.len() == 0 && known(facts, p.0)))
}

spec fn containment_applies(w: WildcardKeyView, t: KeyView, f1: HashableStatement, f2: HashableStatement) -> bool {
    &&& f1 is ValueOf
    &&& f2 is ValueOf
    &&& matches_spec(w, f1->ValueOf_0@)
    &&& f2->ValueOf_0@ == t
    &&& value_contains(f1->ValueOf_1, f2->ValueOf_1)
}

spec fn containment_result(f1: HashableStatement, f2: HashableStatement) -> ProofView {
    let x = f1->ValueOf_0@;
    let y = f2->ValueOf_0@;
    (
        StatementView::Contains(x, y),
        seq![
            from_values_step(
                NativeOperation::ContainsFromEntries,
                x,
                f1->ValueOf_1@,
                y,
                f2->ValueOf_1@,
                StatementView::Contains(x, y),
            ),
        ],
    )
}

/// Adds every proof of `Contains(x, t)` for a key `x` matching `w`.
fn connect_contains(
    facts: &Vec<HashableStatement>,
    w: &WildcardAnchoredKey,
    t: &AnchoredKey,
    results: &mut Vec<Proof>,
)
    requires
        proofs_view(old(results)@).no_duplicates(),
    ensures
        proofs_view(final(results)@).no_duplicates(),
        forall|q: ProofView|
            #[trigger] proofs_view(final(results)@).contains(q) <==> (proofs_view(
                old(results)@,
            ).contains(q) || provable_contains(facts@, w@, t@, q)),
{
    let ghost initial = proofs_view(results@);
    let n = facts.len();
    let mut i: usize = 0;
    while i < n
        invariant
            i <= n,
            n == facts.len(),
            proofs_view(results@).no_duplicates(),
            forall|q: ProofView|
                #[trigger] proofs_view(results@).contains(q) ==> initial.contains(q) || provable_contains(facts@, w@, t@, q),
            forall|q: ProofView| #[trigger] initial.contains(q) ==> proofs_view(results@).contains(q),
            forall|i2: int, j2: int|
                0 <= i2 < i && 0 <= j2 < n && containment_applies(w@, t@, #[trigger] facts@[i2], #[trigger] facts@[j2])
                    ==> proofs_view(results@).contains(containment_result(facts@[i2], facts@[j2])),
        decreases n - i,
    {
        if let HashableStatement::ValueOf(k1, v1) = &facts[i] {
            if w.matches(k1) {
                let mut j: usize = 0;
                while j < n
                    invariant
                        i < n,
                        j <= n,
                        n == facts.len(),
                        facts@[i as int] == HashableStatement::ValueOf(*k1, *v1),
                        matches_spec(w@, k1@),
                        proofs_view(results@).no_duplicates(),
                        forall|q: ProofView|
                            #[trigger] proofs_view(results@).contains(q) ==> initial.contains(q) || provable_contains(facts@, w@, t@, q),
                        forall|q: ProofView| #[trigger] initial.contains(q) ==> proofs_view(results@).contains(q),
                        forall|i2: int, j2: int|
                            0 <= i2 < i && 0 <= j2 < n && containment_applies(w@, t@, #[trigger] facts@[i2], #[trigger] facts@[j2])
                                ==> proofs_view(results@).contains(containment_result(facts@[i2], facts@[j2])),
                        forall|j2: int|
                            0 <= j2 < j && containment_applies(w@, t@, facts@[i as int], #[trigger] facts@[j2])
                                ==> proofs_view(results@).contains(containment_result(facts@[i as int], facts@[j2])),
                    decreases n - j,
                {
                    if let HashableStatement::ValueOf(k2, v2) = &facts[j] {
                        if *k2 == *t && check_contains(v1, v2) {
                            let step = make_from_values_step(
                                NativeOperation::ContainsFromEntries,
                                k1,
                                v1,
                                k2,
                                v2,
                                HashableStatement::Contains(k1.clone(), k2.clone()),
                            );
                            let p: Proof = (HashableStatement::Contains(k1.clone(), t.clone()), single_step_chain(step));
                            assert(proof_view(p).1 =~= containment_result(facts@[i as int], facts@[j as int]).1);
                            assert(provable_contains(facts@, w@, t@, proof_view(p))) by {
                                assert(facts@[i as int] is ValueOf && facts@[j as int] is ValueOf);
                            }
                            insert_proof(results, p);
                        }
                    }
                    j += 1;
                }
            }
        }
        i += 1;
    }
    let mut j: usize = 0;
    while j < n
        invariant
            j <= n,
            n == facts.len(),
            proofs_view(results@).no_duplicates(),
            forall|q: ProofView|
                #[trigger] proofs_view(results@).contains(q) ==> initial.contains(q) || provable_contains(facts@, w@, t@, q),
            forall|q: ProofView| #[trigger] initial.contains(q) ==> proofs_view(results@).contains(q),
            forall|i2: int, j2: int|
                0 <= i2 < n && 0 <= j2 < n && containment_applies(w@, t@, #[trigger] facts@[i2], #[trigger] facts@[j2])
                    ==> proofs_view(results@).contains(containment_result(facts@[i2], facts@[j2])),
            forall|j2: int|
                0 <= j2 < j && (#[trigger] facts@[j2])@ == StatementView::Contains(left_key(facts@[j2]@), t@)
                    && matches_spec(w@, left_key(facts@[j2]@)) ==> proofs_view(results@).contains(
                    (facts@[j2]@, Seq::<StepView>::empty()),
                ),
        decreases n - j,
    {
        if let HashableStatement::Contains(k1, k2) = &facts[j] {
            if w.matches(k1) && *k2 == *t {
                let p: Proof = (facts[j].clone(), Vec::new());
                assert(chain_view(p.1@) =~= Seq::<StepView>::empty());
                assert(provable_contains(facts@, w@, t@, proof_view(p))) by {
                    assert(facts@[j as int]@ == proof_view(p).0);
                }
                insert_proof(results, p);
            }
        }
        j += 1;
    }
    assert forall|q: ProofView| provable_contains(facts@, w@, t@, q) implies #[trigger] proofs_view(results@).contains(q) by {
        let x = left_key(q.0);
        if contained_values(facts@, x, t@, q.1) {
            let (i2, j2) = choose|i2: int, j2: int|
                0 <= i2 < facts.len() && 0 <= j2 < facts.len() && (#[trigger] facts@[i2]) is ValueOf && (
                #[trigger] facts@[j2]) is ValueOf && facts@[i2]->ValueOf_0@ == x && facts@[j2]->ValueOf_0@ == t@
                    && value_contains(facts@[i2]->ValueOf_1, facts@[j2]->ValueOf_1) && q.1 == seq![
                    from_values_step(
                        NativeOperation::ContainsFromEntries,
                        x,
                        facts@[i2]->ValueOf_1@,
                        t@,
                        facts@[j2]->ValueOf_1@,
                        StatementView::Contains(x, t@),
                    ),
                ];
            assert(containment_applies(w@, t@, facts@[i2], facts@[j2]));
            assert(containment_result(facts@[i2], facts@[j2]) == q);
        } else {
            let j2 = choose|j2: int| 0 <= j2 < facts.len() && #[trigger] facts@[j2]@ == q.0;
            assert(q.1 =~= Seq::<StepView>::empty());
        }
    }
}

/// Whether `p` proves a statement matching `target` from the facts.
pub open spec fn provable(facts: Seq<HashableStatement>, target: WildcardStatement, p: ProofView) -> bool {
    match target {
        WildcardStatement::ValueOf(_, _) => false,
        WildcardStatement::Equal(w, t) => provable_equal(facts, w@, t@, p),
        WildcardStatement::NotEqual(w, t) => provable_not_equal(facts, w@, t@, p),
        WildcardStatement::Gt(w, t) => provable_order(facts, true, w@, t@, p),
        WildcardStatement::Lt(w, t) => provable_order(facts, false, w@, t@, p),
        WildcardStatement::Contains(w, t) => provable_contains(facts, w@, t@, p),
    }
}

/// Whether `p` proves a statement matching the goal, when there is one.
pub open spec fn provable_goal(facts: Seq<HashableStatement>, goal: Option<WildcardStatement>, p: ProofView) -> bool {
    match goal {
        Some(target) => provable(facts, target, p),
        None => false,
    }
}

/// Every distinct proof of a statement matching `target`, each once.
pub fn solve(facts: &Vec<HashableStatement>, target: &WildcardStatement) -> (r: Vec<Proof>)
    ensures
        forall|q: ProofView| #[trigger] proofs_view(r@).contains(q) <==> provable(facts@, *target, q),
        proofs_view(r@).no_duplicates(),
{
    let mut results: Vec<Proof> = Vec::new();
    assert(proofs_view(results@) =~= Seq::<ProofView>::empty());
    match target {
        WildcardStatement::ValueOf(_, _) => {},
        WildcardStatement::Equal(w, t) => connect_equal(facts, w, t, &mut results),
        WildcardStatement::NotEqual(w, t) => connect_not_equal(facts, w, t, &mut results),
        WildcardStatement::Gt(w, t) => connect_order(facts, true, w, t, &mut results),
        WildcardStatement::Lt(w, t) => connect_order(facts, false, w, t, &mut results),
        WildcardStatement::Contains(w, t) => connect_contains(facts, w, t, &mut results),
    }
    results
}

/// Clones a list of proofs, keeping their views and their order.
fn clone_proofs(v: &Vec<Proof>) -> (r: Vec<Proof>)
    ensures
        proofs_view(r@) == proofs_view(v@),
{
    let mut r: Vec<Proof> = Vec::new();
    let mut i: usize = 0;
    while i < v.len()
        invariant
            i <= v.len(),
            r.len() == i,
            forall|j: int| 0 <= j < i ==> proof_view(r@[j]) == proof_view(v@[j]),
        decreases v.len() - i,
    {
        let (statement, chain) = &v[i];
        r.push((statement.clone(), clone_chain(chain)));
        i += 1;
    }
    assert(proofs_view(r@) =~= proofs_view(v@));
    r
}

/// A proving session: known statements, added one by one, and one target.
/// The proofs found by `prove` are kept until the facts or the target
/// change, so that proving again returns the very same list.
pub struct DeductionEngine {
    facts: Vec<HashableStatement>,
    target: Option<WildcardStatement>,
    proved: Option<Vec<Proof>>,
}

impl DeductionEngine {
    /// Kept proofs are exactly the proofs of the goal, each once.
    #[verifier::type_invariant]
    spec fn kept_proofs_are_current(self) -> bool {
        match self.proved {
            Some(v) => {
                &&& forall|q: ProofView|
                    #[trigger] proofs_view(v@).contains(q) <==> provable_goal(
                        self.facts@,
                        self.target,
                        q,
                    )
                &&& proofs_view(v@).no_duplicates()
            },
            None => true,
        }
    }

    /// The statements known so far, in the order they were added.
    pub closed spec fn known_facts(&self) -> Seq<HashableStatement> {
        self.facts@
    }

    /// The active target, if one was set.
    pub closed spec fn goal(&self) -> Option<WildcardStatement> {
        self.target
    }

    /// The proofs returned by the last call of `prove`, if neither the facts
    /// nor the target changed since.
    pub closed spec fn last_proofs(&self) -> Option<Seq<ProofView>> {
        match self.proved {
            Some(v) => Some(proofs_view(v@)),
            None => None,
        }
    }

    /// An engine with no facts and no target.
    pub fn new() -> (r: Self)
        ensures
            r.known_facts() == Seq::<HashableStatement>::empty(),
            r.goal() is None,
            r.last_proofs() is None,
    {
        DeductionEngine { facts: Vec::new(), target: None, proved: None }
    }

    /// Adds a known statement; nothing is checked or merged.
    pub fn add_fact(&mut self, fact: HashableStatement)
        ensures
            final(self).known_facts() == old(self).known_facts().push(fact),
            final(self).goal() == old(self).goal(),
            final(self).last_proofs() is None,
    {
        self.proved = None;
        let mut facts: Vec<HashableStatement> = Vec::new();
        std::mem::swap(&mut facts, &mut self.facts);
        facts.push(fact);
        self.facts = facts;
    }

    /// Makes `target` the one active target, replacing any earlier one.
    pub fn set_target(&mut self, target: WildcardStatement)
        ensures
            final(self).known_facts() == old(self).known_facts(),
            final(self).goal() == Some(target),
            final(self).last_proofs() is None,
    {
        self.proved = None;
        self.target = Some(target);
    }

    /// Every distinct proof of a statement matching the target, each with its
    /// chain; empty when there is no target or nothing matching follows.
    /// Proving again with the facts and the target unchanged returns the same
    /// proofs in the same order.
    pub fn prove(&mut self) -> (r: Vec<Proof>)
        ensures
            final(self).known_facts() == old(self).known_facts(),
            final(self).goal() == old(self).goal(),
            forall|q: ProofView|
                #[trigger] proofs_view(r@).contains(q) <==> provable_goal(
                    old(self).known_facts(),
                    old(self).goal(),
                    q,
                ),
            proofs_view(r@).no_duplicates(),
            final(self).last_proofs() == Some(proofs_view(r@)),
            old(self).last_proofs() matches Some(kept) ==> proofs_view(r@) == kept,
    {
        proof {
            use_type_invariant(&*self);
        }
        if let Some(kept) = &self.proved {
            return clone_proofs(kept);
        }
        let r = match &self.target {
            Some(target) => solve(&self.facts, target),
            None => {
                let r: Vec<Proof> = Vec::new();
                assert(proofs_view(r@) =~= Seq::<ProofView>::empty());
                r
            },
        };
        self.proved = Some(clone_proofs(&r));
        r
    }
}

} // verus!
