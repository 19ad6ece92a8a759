use ascent_pod2::{
    check_contains, operation_name, reachable_equal, solve, to_value, AnchoredKey, Array,
    DeductionEngine, Dictionary, Digest, HashableStatement, HashableValue, NativeOperation,
    Origin, PodClass, PodId, RawValue, ValueSet, WildcardAnchoredKey, WildcardId,
    WildcardStatement,
};

fn origin(n: u64) -> Origin {
    Origin(PodClass::Signed, PodId(Digest(n, n + 1, n + 2, n + 3)))
}

fn key(n: u64, name: &str) -> AnchoredKey {
    AnchoredKey(origin(n), name.to_string())
}

fn any(name: &str) -> WildcardAnchoredKey {
    WildcardAnchoredKey(WildcardId::Named("n".to_string()), name.to_string())
}

fn run(facts: Vec<HashableStatement>, target: WildcardStatement) -> Vec<(HashableStatement, Vec<(NativeOperation, Vec<HashableStatement>, HashableStatement)>)> {
    let mut engine = DeductionEngine::new();
    for f in facts {
        engine.add_fact(f);
    }
    engine.set_target(target);
    engine.prove()
}

#[test]
fn transitive_chain_of_two_links_has_one_step() {
    let proofs = run(
        vec![
            HashableStatement::Equal(key(1, "a"), key(2, "b")),
            HashableStatement::Equal(key(2, "b"), key(3, "c")),
        ],
        WildcardStatement::Equal(any("a"), key(3, "c")),
    );
    assert_eq!(proofs.len(), 1);
    let (stmt, chain) = &proofs[0];
    assert_eq!(*stmt, HashableStatement::Equal(key(1, "a"), key(3, "c")));
    assert_eq!(chain.len(), 1);
    assert_eq!(chain[0].0, NativeOperation::TransitiveEqualFromStatements);
    assert_eq!(
        chain[0].1,
        vec![
            HashableStatement::Equal(key(1, "a"), key(2, "b")),
            HashableStatement::Equal(key(2, "b"), key(3, "c")),
        ]
    );
    assert_eq!(chain[0].2, HashableStatement::Equal(key(1, "a"), key(3, "c")));
}

#[test]
fn transitive_chain_steps_are_in_order() {
    let proofs = run(
        vec![
            HashableStatement::Equal(key(1, "k"), key(2, "k")),
            HashableStatement::Equal(key(2, "k"), key(3, "k")),
            HashableStatement::Equal(key(3, "k"), key(4, "k")),
        ],
        WildcardStatement::Equal(
            WildcardAnchoredKey::concrete(origin(1), "k".to_string()),
            key(4, "k"),
        ),
    );
    assert_eq!(proofs.len(), 1);
    let chain = &proofs[0].1;
    assert_eq!(chain.len(), 2);
    assert_eq!(chain[0].2, HashableStatement::Equal(key(1, "k"), key(3, "k")));
    assert_eq!(chain[1].1[0], HashableStatement::Equal(key(1, "k"), key(3, "k")));
    assert_eq!(chain[1].2, HashableStatement::Equal(key(1, "k"), key(4, "k")));
}

#[test]
fn known_equality_is_proved_with_no_step() {
    let proofs = run(
        vec![HashableStatement::Equal(key(1, "x"), key(2, "y"))],
        WildcardStatement::Equal(any("x"), key(2, "y")),
    );
    assert_eq!(proofs.len(), 1);
    assert_eq!(proofs[0].0, HashableStatement::Equal(key(1, "x"), key(2, "y")));
    assert!(proofs[0].1.is_empty());
}

#[test]
fn known_equality_is_proved_in_reverse_with_no_step() {
    let proofs = run(
        vec![HashableStatement::Equal(key(1, "a"), key(5, "e"))],
        WildcardStatement::Equal(any("e"), key(1, "a")),
    );
    assert_eq!(proofs.len(), 1);
    assert_eq!(proofs[0].0, HashableStatement::Equal(key(5, "e"), key(1, "a")));
    assert!(proofs[0].1.is_empty());
}

#[test]
fn reverse_of_a_derived_equality_is_derived() {
    let facts = vec![
        HashableStatement::Equal(key(1, "a"), key(2, "b")),
        HashableStatement::Equal(key(2, "b"), key(5, "e")),
    ];
    let forward = run(facts.clone(), WildcardStatement::Equal(any("a"), key(5, "e")));
    assert!(forward.iter().any(|p| p.0 == HashableStatement::Equal(key(1, "a"), key(5, "e"))));
    let backward = run(facts, WildcardStatement::Equal(any("e"), key(1, "a")));
    assert_eq!(backward.len(), 1);
    let (stmt, chain) = &backward[0];
    assert_eq!(*stmt, HashableStatement::Equal(key(5, "e"), key(1, "a")));
    assert_eq!(chain.len(), 1);
    assert_eq!(
        chain[0].1,
        vec![
            HashableStatement::Equal(key(5, "e"), key(2, "b")),
            HashableStatement::Equal(key(2, "b"), key(1, "a")),
        ]
    );
}

#[test]
fn no_proof_without_evidence() {
    let proofs = run(
        vec![HashableStatement::Equal(key(1, "X"), key(2, "Y"))],
        WildcardStatement::Equal(any("X"), key(3, "Z")),
    );
    assert!(proofs.is_empty());
}

#[test]
fn gt_gives_not_equal_with_one_premise() {
    let proofs = run(
        vec![HashableStatement::Gt(key(1, "v"), key(2, "v"))],
        WildcardStatement::NotEqual(any("v"), key(2, "v")),
    );
    assert_eq!(proofs.len(), 1);
    let (stmt, chain) = &proofs[0];
    assert_eq!(*stmt, HashableStatement::NotEqual(key(1, "v"), key(2, "v")));
    assert_eq!(chain.len(), 1);
    assert_eq!(chain[0].0, NativeOperation::GtToNotEqual);
    assert_eq!(chain[0].1, vec![HashableStatement::Gt(key(1, "v"), key(2, "v"))]);
    assert_eq!(chain[0].2, HashableStatement::NotEqual(key(1, "v"), key(2, "v")));
}

#[test]
fn lt_gives_not_equal_with_one_premise() {
    let proofs = run(
        vec![HashableStatement::Lt(key(1, "v"), key(2, "v"))],
        WildcardStatement::NotEqual(any("v"), key(2, "v")),
    );
    assert_eq!(proofs.len(), 1);
    assert_eq!(proofs[0].1[0].0, NativeOperation::LtToNotEqual);
    assert_eq!(proofs[0].1[0].1, vec![HashableStatement::Lt(key(1, "v"), key(2, "v"))]);
}

#[test]
fn known_not_equal_is_proved_with_no_step() {
    let proofs = run(
        vec![HashableStatement::NotEqual(key(1, "v"), key(2, "v"))],
        WildcardStatement::NotEqual(any("v"), key(2, "v")),
    );
    assert_eq!(proofs.len(), 1);
    assert!(proofs[0].1.is_empty());
}

#[test]
fn strict_order_is_not_chained() {
    let proofs = run(
        vec![
            HashableStatement::Lt(key(1, "X"), key(2, "Y")),
            HashableStatement::Lt(key(2, "Y"), key(3, "Z")),
        ],
        WildcardStatement::NotEqual(any("X"), key(3, "Z")),
    );
    assert!(proofs.is_empty());
}

#[test]
fn value_comparison_uses_the_two_values() {
    let proofs = run(
        vec![
            HashableStatement::ValueOf(key(1, "value"), HashableValue::Int(10)),
            HashableStatement::ValueOf(key(2, "value"), HashableValue::Int(5)),
        ],
        WildcardStatement::Gt(any("value"), key(2, "value")),
    );
    assert_eq!(proofs.len(), 1);
    let (stmt, chain) = &proofs[0];
    assert_eq!(*stmt, HashableStatement::Gt(key(1, "value"), key(2, "value")));
    assert_eq!(chain.len(), 1);
    assert_eq!(chain[0].0, NativeOperation::GtFromEntries);
    assert_eq!(
        chain[0].1,
        vec![
            HashableStatement::ValueOf(key(1, "value"), HashableValue::Int(10)),
            HashableStatement::ValueOf(key(2, "value"), HashableValue::Int(5)),
        ]
    );
}

#[test]
fn value_comparison_needs_the_field_name() {
    let proofs = run(
        vec![
            HashableStatement::ValueOf(key(1, "other"), HashableValue::Int(10)),
            HashableStatement::ValueOf(key(2, "value"), HashableValue::Int(5)),
        ],
        WildcardStatement::Gt(any("value"), key(2, "value")),
    );
    assert!(proofs.is_empty());
}

#[test]
fn value_comparison_ignores_non_integers() {
    let proofs = run(
        vec![
            HashableStatement::ValueOf(key(1, "v"), HashableValue::String("b".to_string())),
            HashableStatement::ValueOf(key(2, "v"), HashableValue::String("a".to_string())),
            HashableStatement::ValueOf(key(3, "v"), HashableValue::Bool(true)),
        ],
        WildcardStatement::Gt(any("v"), key(2, "v")),
    );
    assert!(proofs.is_empty());
}

#[test]
fn equal_values_are_not_ordered() {
    let proofs = run(
        vec![
            HashableStatement::ValueOf(key(1, "v"), HashableValue::Int(5)),
            HashableStatement::ValueOf(key(2, "v"), HashableValue::Int(5)),
        ],
        WildcardStatement::Lt(any("v"), key(2, "v")),
    );
    assert!(proofs.is_empty());
}

#[test]
fn known_gt_is_proved_with_no_step() {
    let proofs = run(
        vec![HashableStatement::Gt(key(1, "v"), key(2, "v"))],
        WildcardStatement::Gt(any("v"), key(2, "v")),
    );
    assert_eq!(proofs.len(), 1);
    assert!(proofs[0].1.is_empty());
}

#[test]
fn extreme_values_compare() {
    let proofs = run(
        vec![
            HashableStatement::ValueOf(key(1, "v"), HashableValue::Int(i64::MIN)),
            HashableStatement::ValueOf(key(2, "v"), HashableValue::Int(i64::MAX)),
        ],
        WildcardStatement::Lt(any("v"), key(2, "v")),
    );
    assert_eq!(proofs.len(), 1);
    assert_eq!(proofs[0].0, HashableStatement::Lt(key(1, "v"), key(2, "v")));
}

#[test]
fn set_containment_is_membership() {
    let set = ValueSet::new(
        vec![RawValue::Str("red".to_string()), RawValue::Int(7)],
        Digest(9, 9, 9, 9),
    );
    let facts = vec![
        HashableStatement::ValueOf(key(1, "v"), HashableValue::ValueSet(set)),
        HashableStatement::ValueOf(key(2, "v"), HashableValue::String("red".to_string())),
    ];
    let proofs = run(facts, WildcardStatement::Contains(any("v"), key(2, "v")));
    assert_eq!(proofs.len(), 1);
    assert_eq!(proofs[0].1[0].0, NativeOperation::ContainsFromEntries);
}

#[test]
fn dictionaries_contain_nothing() {
    let dict = Dictionary::new(vec![("a".to_string(), RawValue::Int(1))], Digest(1, 1, 1, 1));
    let facts = vec![
        HashableStatement::ValueOf(key(1, "v"), HashableValue::Dictionary(dict)),
        HashableStatement::ValueOf(key(2, "v"), HashableValue::Int(1)),
    ];
    let proofs = run(facts, WildcardStatement::Contains(any("v"), key(2, "v")));
    assert!(proofs.is_empty());
}

#[test]
fn known_contains_is_proved_with_no_step() {
    let proofs = run(
        vec![HashableStatement::Contains(key(1, "v"), key(2, "v"))],
        WildcardStatement::Contains(any("v"), key(2, "v")),
    );
    assert_eq!(proofs.len(), 1);
    assert!(proofs[0].1.is_empty());
}

#[test]
fn canonical_forms() {
    assert_eq!(to_value(&HashableValue::Int(-3)), RawValue::Int(-3));
    assert_eq!(to_value(&HashableValue::Bool(true)), RawValue::Int(1));
    assert_eq!(to_value(&HashableValue::Bool(false)), RawValue::Int(0));
    assert_eq!(
        to_value(&HashableValue::String("s".to_string())),
        RawValue::Str("s".to_string())
    );
    let arr = Array::new(vec![RawValue::Int(1)], Digest(4, 3, 2, 1));
    assert_eq!(
        to_value(&HashableValue::Array(arr)),
        RawValue::Commitment(Digest(4, 3, 2, 1))
    );
}

#[test]
fn containment_checks() {
    let arr = HashableValue::Array(Array::new(
        vec![RawValue::Int(1), RawValue::Int(0), RawValue::Commitment(Digest(5, 5, 5, 5))],
        Digest(0, 0, 0, 1),
    ));
    assert!(check_contains(&arr, &HashableValue::Int(1)));
    assert!(check_contains(&arr, &HashableValue::Bool(true)));
    assert!(check_contains(&arr, &HashableValue::Bool(false)));
    assert!(!check_contains(&arr, &HashableValue::Int(2)));
    let inner = HashableValue::Array(Array::new(vec![], Digest(5, 5, 5, 5)));
    assert!(check_contains(&arr, &inner));
    assert!(!check_contains(&HashableValue::Int(1), &HashableValue::Int(1)));
    let empty = HashableValue::ValueSet(ValueSet::new(vec![], Digest(0, 0, 0, 0)));
    assert!(!check_contains(&empty, &HashableValue::Int(0)));
}

#[test]
fn containers_compare_by_commitment() {
    let a = HashableValue::Array(Array::new(vec![RawValue::Int(1)], Digest(1, 2, 3, 4)));
    let b = HashableValue::Array(Array::new(vec![RawValue::Int(2)], Digest(1, 2, 3, 4)));
    let c = HashableValue::Array(Array::new(vec![RawValue::Int(1)], Digest(1, 2, 3, 5)));
    assert_eq!(a, b);
    assert_ne!(a, c);
}

#[test]
fn proving_twice_gives_the_same_proofs() {
    let mut engine = DeductionEngine::new();
    engine.add_fact(HashableStatement::Equal(key(1, "k"), key(2, "k")));
    engine.add_fact(HashableStatement::Equal(key(2, "k"), key(3, "k")));
    engine.add_fact(HashableStatement::Equal(key(3, "k"), key(1, "k")));
    engine.set_target(WildcardStatement::Equal(any("k"), key(3, "k")));
    let first = engine.prove();
    let second = engine.prove();
    assert!(!first.is_empty());
    assert_eq!(first, second);
}

#[test]
fn no_target_proves_nothing() {
    let mut engine = DeductionEngine::new();
    engine.add_fact(HashableStatement::Equal(key(1, "k"), key(2, "k")));
    assert!(engine.prove().is_empty());
}

#[test]
fn value_of_targets_prove_nothing() {
    let proofs = run(
        vec![HashableStatement::ValueOf(key(1, "v"), HashableValue::Int(1))],
        WildcardStatement::ValueOf(any("v"), HashableValue::Int(1)),
    );
    assert!(proofs.is_empty());
}

#[test]
fn duplicate_facts_give_one_proof() {
    let proofs = run(
        vec![
            HashableStatement::Gt(key(1, "v"), key(2, "v")),
            HashableStatement::Gt(key(1, "v"), key(2, "v")),
        ],
        WildcardStatement::Gt(any("v"), key(2, "v")),
    );
    assert_eq!(proofs.len(), 1);
}

#[test]
fn set_target_replaces_the_previous_one() {
    let mut engine = DeductionEngine::new();
    engine.add_fact(HashableStatement::Gt(key(1, "v"), key(2, "v")));
    engine.set_target(WildcardStatement::Lt(any("v"), key(2, "v")));
    assert!(engine.prove().is_empty());
    engine.set_target(WildcardStatement::Gt(any("v"), key(2, "v")));
    assert_eq!(engine.prove().len(), 1);
}

#[test]
fn inert_statements_are_ignored() {
    let proofs = run(
        vec![
            HashableStatement::Empty,
            HashableStatement::SumOf(key(1, "v"), key(2, "v"), key(3, "v")),
            HashableStatement::NotContains(key(1, "v"), key(2, "v")),
        ],
        WildcardStatement::Contains(any("v"), key(2, "v")),
    );
    assert!(proofs.is_empty());
}

#[test]
fn concrete_pattern_needs_the_origin() {
    let facts = vec![
        HashableStatement::Gt(key(1, "v"), key(3, "v")),
        HashableStatement::Gt(key(2, "v"), key(3, "v")),
    ];
    let target = WildcardStatement::Gt(
        WildcardAnchoredKey::concrete(origin(2), "v".to_string()),
        key(3, "v"),
    );
    assert_eq!(solve(&facts, &target).len(), 1);
    assert_eq!(
        solve(&facts, &target)[0].0,
        HashableStatement::Gt(key(2, "v"), key(3, "v"))
    );
    assert_eq!(solve(&facts, &WildcardStatement::Gt(any("v"), key(3, "v"))).len(), 2);
}

#[test]
fn wildcard_matching() {
    let named = WildcardAnchoredKey::wildcard("v".to_string(), "n");
    assert!(named.matches(&key(7, "v")));
    assert!(!named.matches(&key(7, "w")));
    let exact = WildcardAnchoredKey::concrete(origin(7), "v".to_string());
    assert!(exact.matches(&key(7, "v")));
    assert!(!exact.matches(&key(8, "v")));
    assert!(!exact.matches(&key(7, "w")));
}

#[test]
fn closure_of_a_cycle_is_finite() {
    let facts = vec![
        HashableStatement::Equal(key(1, "k"), key(2, "k")),
        HashableStatement::Equal(key(2, "k"), key(1, "k")),
    ];
    let links = reachable_equal(&facts);
    // Both directions of each fact, and no step leads back to a chain's start.
    assert!(links.iter().any(|l| l.0 == key(1, "k") && l.1 == key(2, "k") && l.2.is_empty()));
    assert!(links.iter().any(|l| l.0 == key(2, "k") && l.1 == key(1, "k") && l.2.is_empty()));
    assert!(links.iter().all(|l| l.2.is_empty()));
    assert_eq!(links.len(), 4);
}

#[test]
fn operation_names() {
    assert_eq!(operation_name(NativeOperation::NoOperation), "None");
    assert_eq!(operation_name(NativeOperation::GtFromEntries), "GtFromEntries");
    assert_eq!(
        operation_name(NativeOperation::TransitiveEqualFromStatements),
        "TransitiveEqualFromStatements"
    );
    assert_eq!(operation_name(NativeOperation::ContainsFromEntries), "ContainsFromEntries");
    assert_eq!(operation_name(NativeOperation::MaxOf), "MaxOf");
}

#[test]
fn derived_equality_is_symmetric_over_symmetric_facts() {
    let facts = vec![
        HashableStatement::Equal(key(1, "a"), key(2, "b")),
        HashableStatement::Equal(key(2, "b"), key(1, "a")),
        HashableStatement::Equal(key(2, "b"), key(5, "e")),
        HashableStatement::Equal(key(5, "e"), key(2, "b")),
    ];
    let forward = run(facts.clone(), WildcardStatement::Equal(any("a"), key(5, "e")));
    assert!(forward.iter().any(|p| p.0 == HashableStatement::Equal(key(1, "a"), key(5, "e"))));
    let backward = run(facts, WildcardStatement::Equal(any("e"), key(1, "a")));
    assert!(backward.iter().any(|p| p.0 == HashableStatement::Equal(key(5, "e"), key(1, "a"))));
    assert!(backward.iter().all(|p| p.0 == HashableStatement::Equal(key(5, "e"), key(1, "a"))));
}
