//! Wildcard keys and the target statements built from them.

use vstd::prelude::*;
use crate::types::{AnchoredKey, HashableValue, KeyView, Origin};

verus! {

/// Which origins a wildcard key admits: one given origin, or any.
#[derive(Clone, Debug, PartialEq, Eq, Hash)]
pub enum WildcardId {
    Concrete(Origin),
    Named(String),
}

/// A pattern over anchored keys: an origin constraint and a field name.
#[derive(Clone, Debug, PartialEq, Eq, Hash)]
pub struct WildcardAnchoredKey(pub WildcardId, pub String);

/// A target: a relation between some key matching the pattern on the left
/// and one fixed key on the right.
#[derive(Clone, Debug, PartialEq, Eq)]
pub enum WildcardStatement {
    ValueOf(WildcardAnchoredKey, HashableValue),
    Equal(WildcardAnchoredKey, AnchoredKey),
    NotEqual(WildcardAnchoredKey, AnchoredKey),
    Gt(WildcardAnchoredKey, AnchoredKey),
    Lt(WildcardAnchoredKey, AnchoredKey),
    Contains(WildcardAnchoredKey, AnchoredKey),
}

/// The model of a wildcard origin.
pub enum WildcardIdView {
    Concrete(Origin),
    Named(Seq<char>),
}

/// The model of a wildcard key.
pub type WildcardKeyView = (WildcardIdView, Seq<char>);

impl View for WildcardAnchoredKey {
    type V = WildcardKeyView;

    open spec fn view(&self) -> WildcardKeyView {
        (
            match &self.0 {
                WildcardId::Concrete(o) => WildcardIdView::Concrete(*o),
                WildcardId::Named(n) => WildcardIdView::Named(n@),
            },
            self.1@,
        )
    }
}

/// Whether wildcard key `w` matches concrete key `k`: the field names agree
/// and, for a concrete origin, so do the origins.
pub open spec fn matches_spec(w: WildcardKeyView, k: KeyView) -> bool {
    match w.0 {
        WildcardIdView::Concrete(o) => o == k.0 && w.1 == k.1,
        WildcardIdView::Named(_) => w.1 == k.1,
    }
}

impl WildcardAnchoredKey {
    /// The pattern admitting only `key` under `origin`.
    pub fn concrete(origin: Origin, key: String) -> (r: Self)
        ensures
            r@ == (WildcardIdView::Concrete(origin), key@),
    {
        WildcardAnchoredKey(WildcardId::Concrete(origin), key)
    }

    /// The pattern admitting `key` under any origin; `name` labels it.
    pub fn wildcard(key: String, name: impl Into<String>) -> (r: Self)
        ensures
            r@.0 is Named,
            r@.1 == key@,
    {
        WildcardAnchoredKey(WildcardId::Named(name.into()), key)
    }

    /// Whether this pattern matches `concrete`.
    pub fn matches(&self, concrete: &AnchoredKey) -> (r: bool)
        ensures
            r == matches_spec(self@, concrete@),
    {
        match &self.0 {
            WildcardId::Concrete(origin) => *origin == concrete.0 && self.1 == concrete.1,
            WildcardId::Named(_) => self.1 == concrete.1,
        }
    }
}

} // verus!
