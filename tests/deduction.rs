use ascent_pod2::{
    AnchoredKey, Array, Digest, HashableStatement, HashableValue, NativeOperation, Origin,
    PodClass, PodId, RawValue, WildcardAnchoredKey, WildcardId, WildcardStatement,
};
use ascent_pod2::DeductionEngine;

fn digest_of(id: &str) -> Digest {
    let mut limbs = [0u64; 4];
    for (i, b) in id.bytes().enumerate() {
        limbs[i % 4] = limbs[i % 4].wrapping_mul(131).wrapping_add(b as u64 + 1);
    }
    Digest(limbs[0], limbs[1], limbs[2], limbs[3])
}

fn make_signed_origin(id: &str) -> Origin {
    Origin(PodClass::Signed, PodId(digest_of(id)))
}

fn make_anchored_key(id: &str, key: &str) -> AnchoredKey {
    AnchoredKey(make_signed_origin(id), key.to_string())
}

fn array_of(values: &[i64], commitment: Digest) -> Array {
    Array::new(values.iter().map(|v| RawValue::Int(*v)).collect(), commitment)
}

fn transitive_equality_case() {
    let mut engine = DeductionEngine::new();

    // X = Y, Y = Z, Z = Q, Q = W
    engine.add_fact(HashableStatement::Equal(
        make_anchored_key("X", "X"),
        make_anchored_key("Y", "Y"),
    ));
    engine.add_fact(HashableStatement::Equal(
        make_anchored_key("Y", "Y"),
        make_anchored_key("Z", "Z"),
    ));
    engine.add_fact(HashableStatement::Equal(
        make_anchored_key("Z", "Z"),
        make_anchored_key("Q", "Q"),
    ));
    engine.add_fact(HashableStatement::Equal(
        make_anchored_key("Q", "Q"),
        make_anchored_key("W", "W"),
    ));

    engine.set_target(WildcardStatement::Equal(
        WildcardAnchoredKey(WildcardId::Named("X".to_string()), "X".to_string()),
        make_anchored_key("W", "W"),
    ));

    let proofs = engine.prove();
    assert!(!proofs.is_empty(), "Should be able to prove X = W");

    let (_, chain) = &proofs[0];
    assert_eq!(chain.len(), 3, "Should have exactly three deduction steps");
    let (op_code, inputs, _output) = &chain[0];
    assert_eq!(
        *op_code,
        NativeOperation::TransitiveEqualFromStatements,
        "Should use TransitiveEqualFromStatements operation"
    );
    assert_eq!(inputs.len(), 2, "Should use exactly three input statements");
}

fn wildcard_gt_case() {
    let mut engine = DeductionEngine::new();
    engine.add_fact(HashableStatement::ValueOf(
        make_anchored_key("X", "value"),
        HashableValue::Int(10),
    ));
    engine.add_fact(HashableStatement::ValueOf(
        make_anchored_key("Y", "value"),
        HashableValue::Int(5),
    ));
    engine.add_fact(HashableStatement::Gt(
        make_anchored_key("A", "value"),
        make_anchored_key("B", "value"),
    ));

    let target = WildcardStatement::Gt(
        WildcardAnchoredKey(WildcardId::Named("n".to_string()), "value".to_string()),
        make_anchored_key("Y", "value"),
    );
    engine.set_target(target.clone());

    let proofs = engine.prove();
    assert!(!proofs.is_empty(), "Should find X > Y through value comparison");
    let (stmt, chain) = &proofs[0];
    assert_eq!(chain.len(), 1, "Should use GtFromEntries");
    assert_eq!(
        chain[0].0,
        NativeOperation::GtFromEntries,
        "Should use GtFromEntries operation"
    );
    match stmt {
        HashableStatement::Gt(found_key, target_key) => {
            assert_eq!(found_key.1, "value", "Found key should have suffix 'value'");
            assert_eq!(target_key.1, "value", "Target key should have suffix 'value'");
        }
        _ => panic!("Expected Gt statement"),
    }
}

fn wildcard_lt_case() {
    let mut engine = DeductionEngine::new();
    engine.add_fact(HashableStatement::ValueOf(
        make_anchored_key("X", "value"),
        HashableValue::Int(5),
    ));
    engine.add_fact(HashableStatement::ValueOf(
        make_anchored_key("Y", "value"),
        HashableValue::Int(10),
    ));
    engine.add_fact(HashableStatement::Lt(
        make_anchored_key("A", "value"),
        make_anchored_key("B", "value"),
    ));

    let target = WildcardStatement::Lt(
        WildcardAnchoredKey(WildcardId::Named("n".to_string()), "value".to_string()),
        make_anchored_key("Y", "value"),
    );
    engine.set_target(target.clone());

    let proofs = engine.prove();
    assert!(!proofs.is_empty(), "Should find X < Y through value comparison");
    let (stmt, chain) = &proofs[0];
    assert_eq!(chain.len(), 1, "Should use LtFromEntries");
    assert_eq!(
        chain[0].0,
        NativeOperation::LtFromEntries,
        "Should use LtFromEntries operation"
    );
    match stmt {
        HashableStatement::Lt(found_key, target_key) => {
            assert_eq!(found_key.1, "value", "Found key should have suffix 'value'");
            assert_eq!(target_key.1, "value", "Target key should have suffix 'value'");
        }
        _ => panic!("Expected Lt statement"),
    }
}

fn wildcard_neq_case() {
    let mut engine = DeductionEngine::new();
    engine.add_fact(HashableStatement::Gt(
        make_anchored_key("X", "value"),
        make_anchored_key("Y", "value"),
    ));
    engine.add_fact(HashableStatement::NotEqual(
        make_anchored_key("A", "value"),
        make_anchored_key("B", "value"),
    ));

    let target = WildcardStatement::NotEqual(
        WildcardAnchoredKey(WildcardId::Named("n".to_string()), "value".to_string()),
        make_anchored_key("Y", "value"),
    );
    engine.set_target(target.clone());

    let proofs = engine.prove();
    assert!(!proofs.is_empty(), "Should find X != Y through GT conversion");
    let (stmt, chain) = &proofs[0];
    assert_eq!(chain.len(), 1, "Should use GtToNotEqual");
    assert_eq!(
        chain[0].0,
        NativeOperation::GtToNotEqual,
        "Should use GtToNotEqual operation"
    );
    match stmt {
        HashableStatement::NotEqual(found_key, target_key) => {
            assert_eq!(found_key.1, "value", "Found key should have suffix 'value'");
            assert_eq!(target_key.1, "value", "Target key should have suffix 'value'");
        }
        _ => panic!("Expected NotEqual statement"),
    }
}

fn wildcard_neq_from_lt_case() {
    let mut engine = DeductionEngine::new();
    engine.add_fact(HashableStatement::Lt(
        make_anchored_key("X", "value"),
        make_anchored_key("Y", "value"),
    ));
    engine.add_fact(HashableStatement::NotEqual(
        make_anchored_key("A", "value"),
        make_anchored_key("B", "value"),
    ));

    let target = WildcardStatement::NotEqual(
        WildcardAnchoredKey(WildcardId::Named("n".to_string()), "value".to_string()),
        make_anchored_key("Y", "value"),
    );
    engine.set_target(target.clone());

    let proofs = engine.prove();
    assert!(!proofs.is_empty(), "Should find X != Y through LT conversion");
    let (stmt, chain) = &proofs[0];
    assert_eq!(chain.len(), 1, "Should use LtToNotEqual");
    assert_eq!(
        chain[0].0,
        NativeOperation::LtToNotEqual,
        "Should use LtToNotEqual operation"
    );
    match stmt {
        HashableStatement::NotEqual(found_key, target_key) => {
            assert_eq!(found_key.1, "value", "Found key should have suffix 'value'");
            assert_eq!(target_key.1, "value", "Target key should have suffix 'value'");
        }
        _ => panic!("Expected NotEqual statement"),
    }
}

fn wildcard_contains_case() {
    let mut engine = DeductionEngine::new();
    let arr = array_of(&[1, 2, 3], digest_of("array 1 2 3"));
    engine.add_fact(HashableStatement::ValueOf(
        make_anchored_key("X", "value"),
        HashableValue::Array(arr),
    ));
    engine.add_fact(HashableStatement::ValueOf(
        make_anchored_key("Y", "value"),
        HashableValue::Int(2),
    ));
    engine.add_fact(HashableStatement::Contains(
        make_anchored_key("A", "value"),
        make_anchored_key("B", "value"),
    ));

    let target = WildcardStatement::Contains(
        WildcardAnchoredKey(WildcardId::Named("n".to_string()), "value".to_string()),
        make_anchored_key("Y", "value"),
    );
    engine.set_target(target.clone());

    let proofs = engine.prove();
    assert!(!proofs.is_empty(), "Should find X contains Y through value comparison");
    let (stmt, chain) = &proofs[0];
    assert_eq!(chain.len(), 1, "Should use ContainsFromEntries");
    assert_eq!(
        chain[0].0,
        NativeOperation::ContainsFromEntries,
        "Should use ContainsFromEntries operation"
    );
    match stmt {
        HashableStatement::Contains(found_key, target_key) => {
            assert_eq!(found_key.1, "value", "Found key should have suffix 'value'");
            assert_eq!(target_key.1, "value", "Target key should have suffix 'value'");
        }
        _ => panic!("Expected Contains statement"),
    }
}

#[test]
fn tests_test_transitive_equality() {
    transitive_equality_case();
}

#[test]
fn tests_test_wildcard_gt() {
    wildcard_gt_case();
}

#[test]
fn tests_test_wildcard_lt() {
    wildcard_lt_case();
}

#[test]
fn tests_test_wildcard_neq() {
    wildcard_neq_case();
}

#[test]
fn tests_test_wildcard_neq_from_lt() {
    wildcard_neq_from_lt_case();
}

#[test]
fn tests_test_wildcard_contains() {
    wildcard_contains_case();
}

#[test]
fn test_wildcard_contains_unprovable() {
    let mut engine = DeductionEngine::new();
    let arr = array_of(&[1, 2, 3], digest_of("array 1 2 3"));
    engine.add_fact(HashableStatement::ValueOf(
        make_anchored_key("X", "value"),
        HashableValue::Array(arr),
    ));
    engine.add_fact(HashableStatement::ValueOf(
        make_anchored_key("Y", "value"),
        HashableValue::Int(4),
    ));

    let target = WildcardStatement::Contains(
        WildcardAnchoredKey(WildcardId::Named("n".to_string()), "value".to_string()),
        make_anchored_key("Y", "value"),
    );
    engine.set_target(target.clone());

    let proofs = engine.prove();
    assert!(
        proofs.is_empty(),
        "Should NOT be able to prove X contains Y since 4 is not in the array"
    );
}

#[test]
fn engine_test_transitive_equality() {
    transitive_equality_case();
}

#[test]
fn engine_test_wildcard_gt() {
    wildcard_gt_case();
}

#[test]
fn engine_test_wildcard_lt() {
    wildcard_lt_case();
}

#[test]
fn engine_test_wildcard_neq() {
    wildcard_neq_case();
}

#[test]
fn engine_test_wildcard_neq_from_lt() {
    wildcard_neq_from_lt_case();
}

#[test]
fn engine_test_wildcard_contains() {
    wildcard_contains_case();
}
