//! Keys, values and statements, with their mathematical views.

use vstd::prelude::*;

verus! {

/// A collision-resistant digest: four field elements.
#[derive(Clone, Copy, Debug, PartialEq, Eq, Hash, Structural)]
pub struct Digest(pub u64, pub u64, pub u64, pub u64);

/// The kind of container a statement comes from.
#[derive(Clone, Copy, Debug, PartialEq, Eq, Hash, Structural)]
pub enum PodClass {
    Signed,
    Main,
}

/// The identifier of a container.
#[derive(Clone, Copy, Debug, PartialEq, Eq, Hash, Structural)]
pub struct PodId(pub Digest);

/// Where a key lives: the class and identifier of its container.
#[derive(Clone, Copy, Debug, PartialEq, Eq, Hash, Structural)]
pub struct Origin(pub PodClass, pub PodId);

/// A field name scoped to one container.
#[derive(Debug)]
pub struct AnchoredKey(pub Origin, pub String);

/// The model of an anchored key: its origin and the characters of its name.
pub type KeyView = (Origin, Seq<char>);

impl View for AnchoredKey {
    type V = KeyView;

    open spec fn view(&self) -> KeyView {
        (self.0, self.1@)
    }
}

impl Clone for AnchoredKey {
    fn clone(&self) -> (r: Self)
        ensures
            r == *self,
    {
        AnchoredKey(self.0, self.1.clone())
    }
}

impl PartialEq for AnchoredKey {
    fn eq(&self, other: &AnchoredKey) -> (r: bool)
        ensures
            r == (self@ == other@),
    {
        self.0 == other.0 && self.1 == other.1
    }
}

impl vstd::std_specs::cmp::PartialEqSpecImpl for AnchoredKey {
    open spec fn obeys_eq_spec() -> bool {
        true
    }

    open spec fn eq_spec(&self, other: &AnchoredKey) -> bool {
        self@ == other@
    }
}

impl Eq for AnchoredKey {}

/// The canonical form in which container elements are compared.
///
/// Integers stand for themselves. A string is compared by its text, which is
/// what comparing its collision-resistant hash amounts to. A container stands
/// as its commitment.
#[derive(Debug)]
pub enum RawValue {
    Int(i64),
    Str(String),
    Commitment(Digest),
}

/// The model of a canonical element.
pub enum RawView {
    Int(i64),
    Str(Seq<char>),
    Commitment(Digest),
}

impl View for RawValue {
    type V = RawView;

    open spec fn view(&self) -> RawView {
        match self {
            RawValue::Int(i) => RawView::Int(*i),
            RawValue::Str(s) => RawView::Str(s@),
            RawValue::Commitment(d) => RawView::Commitment(*d),
        }
    }
}

impl Clone for RawValue {
    fn clone(&self) -> (r: Self)
        ensures
            r == *self,
    {
        match self {
            RawValue::Int(i) => RawValue::Int(*i),
            RawValue::Str(s) => RawValue::Str(s.clone()),
            RawValue::Commitment(d) => RawValue::Commitment(*d),
        }
    }
}

impl PartialEq for RawValue {
    fn eq(&self, other: &RawValue) -> (r: bool)
        ensures
            r == (self@ == other@),
    {
        match (self, other) {
            (RawValue::Int(a), RawValue::Int(b)) => *a == *b,
            (RawValue::Str(a), RawValue::Str(b)) => *a == *b,
            (RawValue::Commitment(a), RawValue::Commitment(b)) => *a == *b,
            _ => false,
        }
    }
}

impl vstd::std_specs::cmp::PartialEqSpecImpl for RawValue {
    open spec fn obeys_eq_spec() -> bool {
        true
    }

    open spec fn eq_spec(&self, other: &RawValue) -> bool {
        self@ == other@
    }
}

impl Eq for RawValue {}

/// The views of a sequence of canonical elements.
pub open spec fn raw_views(s: Seq<RawValue>) -> Seq<RawView> {
    s.map_values(|r: RawValue| r@)
}

/// Clones a vector of canonical elements, keeping every element.
fn clone_raw_values(v: &Vec<RawValue>) -> (r: Vec<RawValue>)
    ensures
        r@ == v@,
{
    let mut r: Vec<RawValue> = Vec::new();
    let mut i: usize = 0;
    while i < v.len()
        invariant
            i <= v.len(),
            r@ == v@.subrange(0, i as int),
        decreases v.len() - i,
    {
        r.push(v[i].clone());
        i += 1;
        assert(r@ =~= v@.subrange(0, i as int));
    }
    assert(r@ =~= v@);
    r
}

/// An array with its externally computed commitment.
#[derive(Debug)]
pub struct Array {
    pub elements: Vec<RawValue>,
    pub commitment: Digest,
}

/// A set with its externally computed commitment.
#[derive(Debug)]
pub struct ValueSet {
    pub elements: Vec<RawValue>,
    pub commitment: Digest,
}

/// A dictionary with its externally computed commitment.
#[derive(Debug)]
pub struct Dictionary {
    pub entries: Vec<(String, RawValue)>,
    pub commitment: Digest,
}

impl Array {
    pub fn new(elements: Vec<RawValue>, commitment: Digest) -> (r: Array)
        ensures
            r.elements == elements,
            r.commitment == commitment,
    {
        Array { elements, commitment }
    }

    /// Whether some element equals `value`.
    pub fn contains(&self, value: &RawValue) -> (r: bool)
        ensures
            r == raw_views(self.elements@).contains(value@),
    {
        let mut i: usize = 0;
        while i < self.elements.len()
            invariant
                i <= self.elements.len(),
                forall|j: int| 0 <= j < i ==> self.elements@[j]@ != value@,
            decreases self.elements.len() - i,
        {
            if self.elements[i] == *value {
                assert(raw_views(self.elements@)[i as int] == value@);
                return true;
            }
            i += 1;
        }
        false
    }
}

impl Clone for Array {
    fn clone(&self) -> (r: Self)
        ensures
            r.elements@ == self.elements@,
            r.commitment == self.commitment,
    {
        Array { elements: clone_raw_values(&self.elements), commitment: self.commitment }
    }
}

impl ValueSet {
    pub fn new(elements: Vec<RawValue>, commitment: Digest) -> (r: ValueSet)
        ensures
            r.elements == elements,
            r.commitment == commitment,
    {
        ValueSet { elements, commitment }
    }

    /// Whether `value` is a member.
    pub fn contains(&self, value: &RawValue) -> (r: bool)
        ensures
            r == raw_views(self.elements@).contains(value@),
    {
        let mut i: usize = 0;
        while i < self.elements.len()
            invariant
                i <= self.elements.len(),
                forall|j: int| 0 <= j < i ==> self.elements@[j]@ != value@,
            decreases self.elements.len() - i,
        {
            if self.elements[i] == *value {
                assert(raw_views(self.elements@)[i as int] == value@);
                return true;
            }
            i += 1;
        }
        false
    }
}

impl Clone for ValueSet {
    fn clone(&self) -> (r: Self)
        ensures
            r.elements@ == self.elements@,
            r.commitment == self.commitment,
    {
        ValueSet { elements: clone_raw_values(&self.elements), commitment: self.commitment }
    }
}

impl Dictionary {
    pub fn new(entries: Vec<(String, RawValue)>, commitment: Digest) -> (r: Dictionary)
        ensures
            r.entries == entries,
            r.commitment == commitment,
    {
        Dictionary { entries, commitment }
    }
}

impl Clone for Dictionary {
    fn clone(&self) -> (r: Self)
        ensures
            r.entries@ == self.entries@,
            r.commitment == self.commitment,
    {
        let mut entries: Vec<(String, RawValue)> = Vec::new();
        let mut i: usize = 0;
        while i < self.entries.len()
            invariant
                i <= self.entries.len(),
                entries@ == self.entries@.subrange(0, i as int),
            decreases self.entries.len() - i,
        {
            let (k, v) = &self.entries[i];
            entries.push((k.clone(), v.clone()));
            i += 1;
            assert(entries@ =~= self.entries@.subrange(0, i as int));
        }
        assert(entries@ =~= self.entries@);
        Dictionary { entries, commitment: self.commitment }
    }
}

/// A value held under a key.
#[derive(Debug)]
pub enum HashableValue {
    String(String),
    Int(i64),
    Bool(bool),
    Dictionary(Dictionary),
    ValueSet(ValueSet),
    Array(Array),
}

/// The model of a value. Containers are identified by their commitment
/// alone, so two containers with the same commitment are the same value.
pub enum ValueView {
    String(Seq<char>),
    Int(i64),
    Bool(bool),
    Dictionary(Digest),
    ValueSet(Digest),
    Array(Digest),
}

impl View for HashableValue {
    type V = ValueView;

    open spec fn view(&self) -> ValueView {
        match self {
            HashableValue::String(s) => ValueView::String(s@),
            HashableValue::Int(i) => ValueView::Int(*i),
            HashableValue::Bool(b) => ValueView::Bool(*b),
            HashableValue::Dictionary(d) => ValueView::Dictionary(d.commitment),
            HashableValue::ValueSet(s) => ValueView::ValueSet(s.commitment),
            HashableValue::Array(a) => ValueView::Array(a.commitment),
        }
    }
}

impl Clone for HashableValue {
    fn clone(&self) -> (r: Self)
        ensures
            r@ == self@,
    {
        match self {
            HashableValue::String(s) => HashableValue::String(s.clone()),
            HashableValue::Int(i) => HashableValue::Int(*i),
            HashableValue::Bool(b) => HashableValue::Bool(*b),
            HashableValue::Dictionary(d) => HashableValue::Dictionary(d.clone()),
            HashableValue::ValueSet(s) => HashableValue::ValueSet(s.clone()),
            HashableValue::Array(a) => HashableValue::Array(a.clone()),
        }
    }
}

impl PartialEq for HashableValue {
    /// Scalars are compared by value, containers by commitment.
    fn eq(&self, other: &HashableValue) -> (r: bool)
        ensures
            r == (self@ == other@),
    {
        match (self, other) {
            (HashableValue::String(a), HashableValue::String(b)) => *a == *b,
            (HashableValue::Int(a), HashableValue::Int(b)) => *a == *b,
            (HashableValue::Bool(a), HashableValue::Bool(b)) => *a == *b,
            (HashableValue::Dictionary(a), HashableValue::Dictionary(b)) => a.commitment
                == b.commitment,
            (HashableValue::ValueSet(a), HashableValue::ValueSet(b)) => a.commitment
                == b.commitment,
            (HashableValue::Array(a), HashableValue::Array(b)) => a.commitment == b.commitment,
            _ => false,
        }
    }
}

impl vstd::std_specs::cmp::PartialEqSpecImpl for HashableValue {
    open spec fn obeys_eq_spec() -> bool {
        true
    }

    open spec fn eq_spec(&self, other: &HashableValue) -> bool {
        self@ == other@
    }
}

impl Eq for HashableValue {}

/// The canonical element form of a value: integers as themselves, booleans
/// as 0 or 1, strings by their text, containers by their commitment.
pub open spec fn canonical(v: ValueView) -> RawView {
    match v {
        ValueView::String(s) => RawView::Str(s),
        ValueView::Int(i) => RawView::Int(i),
        ValueView::Bool(b) => RawView::Int(
            if b {
                1
            } else {
                0
            },
        ),
        ValueView::Dictionary(d) => RawView::Commitment(d),
        ValueView::ValueSet(d) => RawView::Commitment(d),
        ValueView::Array(d) => RawView::Commitment(d),
    }
}

/// Whether `container` holds `element`: an array or a set holds the values
/// among its elements in canonical form; nothing else holds anything.
pub open spec fn value_contains(container: HashableValue, element: HashableValue) -> bool {
    match container {
        HashableValue::Array(a) => raw_views(a.elements@).contains(canonical(element@)),
        HashableValue::ValueSet(s) => raw_views(s.elements@).contains(canonical(element@)),
        _ => false,
    }
}

/// The canonical element form of `hv`.
pub fn to_value(hv: &HashableValue) -> (r: RawValue)
    ensures
        r@ == canonical(hv@),
{
    match hv {
        HashableValue::Int(i) => RawValue::Int(*i),
        HashableValue::String(s) => RawValue::Str(s.clone()),
        HashableValue::Bool(b) => RawValue::Int(
            if *b {
                1
            } else {
                0
            },
        ),
        HashableValue::Array(a) => RawValue::Commitment(a.commitment),
        HashableValue::ValueSet(s) => RawValue::Commitment(s.commitment),
        HashableValue::Dictionary(d) => RawValue::Commitment(d.commitment),
    }
}

/// Whether `container` holds `contained`; see [`value_contains`].
pub fn check_contains(container: &HashableValue, contained: &HashableValue) -> (r: bool)
    ensures
        r == value_contains(*container, *contained),
{
    match container {
        HashableValue::Array(a) => a.contains(&to_value(contained)),
        HashableValue::ValueSet(s) => s.contains(&to_value(contained)),
        _ => false,
    }
}

/// A statement about anchored keys.
#[derive(Debug)]
pub enum HashableStatement {
    Empty,
    ValueOf(AnchoredKey, HashableValue),
    Equal(AnchoredKey, AnchoredKey),
    NotEqual(AnchoredKey, AnchoredKey),
    Gt(AnchoredKey, AnchoredKey),
    Lt(AnchoredKey, AnchoredKey),
    Contains(AnchoredKey, AnchoredKey),
    NotContains(AnchoredKey, AnchoredKey),
    SumOf(AnchoredKey, AnchoredKey, AnchoredKey),
    ProductOf(AnchoredKey, AnchoredKey, AnchoredKey),
    MaxOf(AnchoredKey, AnchoredKey, AnchoredKey),
}

/// The model of a statement.
pub enum StatementView {
    Empty,
    ValueOf(KeyView, ValueView),
    Equal(KeyView, KeyView),
    NotEqual(KeyView, KeyView),
    Gt(KeyView, KeyView),
    Lt(KeyView, KeyView),
    Contains(KeyView, KeyView),
    NotContains(KeyView, KeyView),
    SumOf(KeyView, KeyView, KeyView),
    ProductOf(KeyView, KeyView, KeyView),
    MaxOf(KeyView, KeyView, KeyView),
}

impl View for HashableStatement {
    type V = StatementView;

    open spec fn view(&self) -> StatementView {
        match self {
            HashableStatement::Empty => StatementView::Empty,
            HashableStatement::ValueOf(k, v) => StatementView::ValueOf(k@, v@),
            HashableStatement::Equal(a, b) => StatementView::Equal(a@, b@),
            HashableStatement::NotEqual(a, b) => StatementView::NotEqual(a@, b@),
            HashableStatement::Gt(a, b) => StatementView::Gt(a@, b@),
            HashableStatement::Lt(a, b) => StatementView::Lt(a@, b@),
            HashableStatement::Contains(a, b) => StatementView::Contains(a@, b@),
            HashableStatement::NotContains(a, b) => StatementView::NotContains(a@, b@),
            HashableStatement::SumOf(a, b, c) => StatementView::SumOf(a@, b@, c@),
            HashableStatement::ProductOf(a, b, c) => StatementView::ProductOf(a@, b@, c@),
            HashableStatement::MaxOf(a, b, c) => StatementView::MaxOf(a@, b@, c@),
        }
    }
}

impl Clone for HashableStatement {
    fn clone(&self) -> (r: Self)
        ensures
            r@ == self@,
    {
        match self {
            HashableStatement::Empty => HashableStatement::Empty,
            HashableStatement::ValueOf(k, v) => HashableStatement::ValueOf(k.clone(), v.clone()),
            HashableStatement::Equal(a, b) => HashableStatement::Equal(a.clone(), b.clone()),
            HashableStatement::NotEqual(a, b) => HashableStatement::NotEqual(a.clone(), b.clone()),
            HashableStatement::Gt(a, b) => HashableStatement::Gt(a.clone(), b.clone()),
            HashableStatement::Lt(a, b) => HashableStatement::Lt(a.clone(), b.clone()),
            HashableStatement::Contains(a, b) => HashableStatement::Contains(a.clone(), b.clone()),
            HashableStatement::NotContains(a, b) => HashableStatement::NotContains(
                a.clone(),
                b.clone(),
            ),
            HashableStatement::SumOf(a, b, c) => HashableStatement::SumOf(
                a.clone(),
                b.clone(),
                c.clone(),
            ),
            HashableStatement::ProductOf(a, b, c) => HashableStatement::ProductOf(
                a.clone(),
                b.clone(),
                c.clone(),
            ),
            HashableStatement::MaxOf(a, b, c) => HashableStatement::MaxOf(
                a.clone(),
                b.clone(),
                c.clone(),
            ),
        }
    }
}

impl PartialEq for HashableStatement {
    fn eq(&self, other: &HashableStatement) -> (r: bool)
        ensures
            r == (self@ == other@),
    {
        match (self, other) {
            (HashableStatement::Empty, HashableStatement::Empty) => true,
            (HashableStatement::ValueOf(a, b), HashableStatement::ValueOf(c, d)) => *a == *c && *b
                == *d,
            (HashableStatement::Equal(a, b), HashableStatement::Equal(c, d)) => *a == *c && *b
                == *d,
            (HashableStatement::NotEqual(a, b), HashableStatement::NotEqual(c, d)) => *a == *c
                && *b == *d,
            (HashableStatement::Gt(a, b), HashableStatement::Gt(c, d)) => *a == *c && *b == *d,
            (HashableStatement::Lt(a, b), HashableStatement::Lt(c, d)) => *a == *c && *b == *d,
            (HashableStatement::Contains(a, b), HashableStatement::Contains(c, d)) => *a == *c
                && *b == *d,
            (HashableStatement::NotContains(a, b), HashableStatement::NotContains(c, d)) => *a
                == *c && *b == *d,
            (HashableStatement::SumOf(a, b, c), HashableStatement::SumOf(d, e, f)) => *a == *d
                && *b == *e && *c == *f,
            (HashableStatement::ProductOf(a, b, c), HashableStatement::ProductOf(d, e, f)) => *a
                == *d && *b == *e && *c == *f,
            (HashableStatement::MaxOf(a, b, c), HashableStatement::MaxOf(d, e, f)) => *a == *d
                && *b == *e && *c == *f,
            _ => false,
        }
    }
}

impl vstd::std_specs::cmp::PartialEqSpecImpl for HashableStatement {
    open spec fn obeys_eq_spec() -> bool {
        true
    }

    open spec fn eq_spec(&self, other: &HashableStatement) -> bool {
        self@ == other@
    }
}

impl Eq for HashableStatement {}

/// The primitive operation that licenses a deduction step.
#[derive(Clone, Copy, Debug, PartialEq, Eq, Hash, Structural)]
pub enum NativeOperation {
    NoOperation,
    NewEntry,
    CopyStatement,
    EqualFromEntries,
    NotEqualFromEntries,
    GtFromEntries,
    LtFromEntries,
    TransitiveEqualFromStatements,
    GtToNotEqual,
    LtToNotEqual,
    ContainsFromEntries,
    NotContainsFromEntries,
    SumOf,
    ProductOf,
    MaxOf,
}

/// The display name of an operation.
pub open spec fn operation_name_spec(op: NativeOperation) -> Seq<char> {
    match op {
        NativeOperation::NoOperation => "None"@,
        NativeOperation::NewEntry => "NewEntry"@,
        NativeOperation::CopyStatement => "CopyStatement"@,
        NativeOperation::EqualFromEntries => "EqualFromEntries"@,
        NativeOperation::NotEqualFromEntries => "NotEqualFromEntries"@,
        NativeOperation::GtFromEntries => "GtFromEntries"@,
        NativeOperation::LtFromEntries => "LtFromEntries"@,
        NativeOperation::TransitiveEqualFromStatements => "TransitiveEqualFromStatements"@,
        NativeOperation::GtToNotEqual => "GtToNotEqual"@,
        NativeOperation::LtToNotEqual => "LtToNotEqual"@,
        NativeOperation::ContainsFromEntries => "ContainsFromEntries"@,
        NativeOperation::NotContainsFromEntries => "NotContainsFromEntries"@,
        NativeOperation::SumOf => "SumOf"@,
        NativeOperation::ProductOf => "ProductOf"@,
        NativeOperation::MaxOf => "MaxOf"@,
    }
}

/// The display name of an operation.
pub fn operation_name(op: NativeOperation) -> (r: &'static str)
    ensures
        r@ == operation_name_spec(op),
{
    match op {
        NativeOperation::NoOperation => "None",
        NativeOperation::NewEntry => "NewEntry",
        NativeOperation::CopyStatement => "CopyStatement",
        NativeOperation::EqualFromEntries => "EqualFromEntries",
        NativeOperation::NotEqualFromEntries => "NotEqualFromEntries",
        NativeOperation::GtFromEntries => "GtFromEntries",
        NativeOperation::LtFromEntries => "LtFromEntries",
        NativeOperation::TransitiveEqualFromStatements => "TransitiveEqualFromStatements",
        NativeOperation::GtToNotEqual => "GtToNotEqual",
        NativeOperation::LtToNotEqual => "LtToNotEqual",
        NativeOperation::ContainsFromEntries => "ContainsFromEntries",
        NativeOperation::NotContainsFromEntries => "NotContainsFromEntries",
        NativeOperation::SumOf => "SumOf",
        NativeOperation::ProductOf => "ProductOf",
        NativeOperation::MaxOf => "MaxOf",
    }
}

} // verus!
