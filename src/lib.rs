//! A goal-directed deduction engine over statements about anchored keys.
//!
//! Known statements are collected in a [`DeductionEngine`], a wildcard target
//! is set, and `prove` returns every statement matching the target that
//! follows from the known ones, each with the chain of operations that
//! justifies it.

pub mod types;
pub mod deduction;
pub mod wildcard;
pub mod closure;
pub mod engine;
pub mod laws;

pub use closure::{reachable_equal, EqualityLink};
pub use deduction::{DeductionChain, DeductionStep};
pub use engine::{solve, DeductionEngine, Proof};
pub use types::{
    check_contains, operation_name, to_value, AnchoredKey, Array, Dictionary, Digest,
    HashableStatement, HashableValue, NativeOperation, Origin, PodClass, PodId, RawValue,
    ValueSet,
};
pub use wildcard::{WildcardAnchoredKey, WildcardId, WildcardStatement};
