//! The value domain that column summaries range over, with its total order.
use vstd::prelude::*;

verus! {

/// A value observed in a column. `Null` is the marker for "no non-null value
/// observed"; it never takes part in the order below. `String` holds bytes.
#[derive(Clone, Debug, PartialEq, Eq)]
pub enum DataValue {
    Null,
    Boolean(bool),
    Int64(i64),
    UInt64(u64),
    String(Vec<u8>),
}

/// A value as mathematical data.
pub enum ValueModel {
    Null,
    Boolean(bool),
    Int64(int),
    UInt64(int),
    String(Seq<u8>),
}

impl View for DataValue {
    type V = ValueModel;

    open spec fn view(&self) -> ValueModel {
        match self {
            DataValue::Null => ValueModel::Null,
            DataValue::Boolean(b) => ValueModel::Boolean(*b),
            DataValue::Int64(i) => ValueModel::Int64(*i as int),
            DataValue::UInt64(u) => ValueModel::UInt64(*u as int),
            DataValue::String(s) => ValueModel::String(s@),
        }
    }
}

/// Position of a value's kind in the order: kinds are ordered before payloads.
pub open spec fn kind_rank(v: ValueModel) -> int {
    match v {
        ValueModel::Null => 0,
        ValueModel::Boolean(_) => 1,
        ValueModel::Int64(_) => 2,
        ValueModel::UInt64(_) => 3,
        ValueModel::String(_) => 4,
    }
}

/// The payload of a non-string value as an integer, compared within one kind.
pub open spec fn payload(v: ValueModel) -> int {
    match v {
        ValueModel::Boolean(b) => if b {
            1int
        } else {
            0int
        },
        ValueModel::Int64(i) => i,
        ValueModel::UInt64(u) => u,
        _ => 0,
    }
}

/// Lexicographic order on byte strings: a proper prefix comes first.
pub open spec fn bytes_le(a: Seq<u8>, b: Seq<u8>) -> bool
    decreases a.len(),
{
    if a.len() == 0 {
        true
    } else if b.len() == 0 {
        false
    } else if a[0] != b[0] {
        a[0] < b[0]
    } else {
        bytes_le(a.skip(1), b.skip(1))
    }
}

/// The total order over values: first by kind, then by payload, strings
/// lexicographically.
pub open spec fn value_le(a: ValueModel, b: ValueModel) -> bool {
    if kind_rank(a) != kind_rank(b) {
        kind_rank(a) < kind_rank(b)
    } else {
        match (a, b) {
            (ValueModel::String(x), ValueModel::String(y)) => bytes_le(x, y),
            _ => payload(a) <= payload(b),
        }
    }
}

proof fn lemma_bytes_le_total(a: Seq<u8>, b: Seq<u8>)
    ensures
        bytes_le(a, b) || bytes_le(b, a),
    decreases a.len(),
{
    if a.len() > 0 && b.len() > 0 && a[0] == b[0] {
        lemma_bytes_le_total(a.skip(1), b.skip(1));
    }
}

proof fn lemma_bytes_le_antisymmetric(a: Seq<u8>, b: Seq<u8>)
    requires
        bytes_le(a, b),
        bytes_le(b, a),
    ensures
        a == b,
    decreases a.len(),
{
    if a.len() > 0 {
        lemma_bytes_le_antisymmetric(a.skip(1), b.skip(1));
        assert(a =~= seq![a[0]] + a.skip(1));
        assert(b =~= seq![b[0]] + b.skip(1));
    } else {
        assert(b.len() == 0);
        assert(a =~= b);
    }
}

proof fn lemma_bytes_le_transitive(a: Seq<u8>, b: Seq<u8>, c: Seq<u8>)
    requires
        bytes_le(a, b),
        bytes_le(b, c),
    ensures
        bytes_le(a, c),
    decreases a.len(),
{
    if a.len() > 0 && b.len() > 0 && c.len() > 0 && a[0] == b[0] && b[0] == c[0] {
        lemma_bytes_le_transitive(a.skip(1), b.skip(1), c.skip(1));
    }
}

/// The order is total.
pub proof fn lemma_value_le_total(a: ValueModel, b: ValueModel)
    ensures
        value_le(a, b) || value_le(b, a),
{
    if let (ValueModel::String(x), ValueModel::String(y)) = (a, b) {
        lemma_bytes_le_total(x, y);
    }
}

/// The order is antisymmetric.
pub proof fn lemma_value_le_antisymmetric(a: ValueModel, b: ValueModel)
    requires
        value_le(a, b),
        value_le(b, a),
    ensures
        a == b,
{
    match (a, b) {
        (ValueModel::String(x), ValueModel::String(y)) => lemma_bytes_le_antisymmetric(x, y),
        (ValueModel::Boolean(x), ValueModel::Boolean(y)) => {
            assert(x == y);
        },
        _ => {},
    }
}

/// The order is transitive.
pub proof fn lemma_value_le_transitive(a: ValueModel, b: ValueModel, c: ValueModel)
    requires
        value_le(a, b),
        value_le(b, c),
    ensures
        value_le(a, c),
{
    if let (ValueModel::String(x), ValueModel::String(y), ValueModel::String(z)) = (a, b, c) {
        lemma_bytes_le_transitive(x, y, z);
    }
}

/// The smaller of two values, where `Null` stands for "nothing observed".
pub open spec fn min_value(a: ValueModel, b: ValueModel) -> ValueModel {
    if a is Null {
        b
    } else if b is Null {
        a
    } else if value_le(a, b) {
        a
    } else {
        b
    }
}

/// The larger of two values, where `Null` stands for "nothing observed".
pub open spec fn max_value(a: ValueModel, b: ValueModel) -> ValueModel {
    if a is Null {
        b
    } else if b is Null {
        a
    } else if value_le(a, b) {
        b
    } else {
        a
    }
}

fn copy_bytes(v: &Vec<u8>) -> (r: Vec<u8>)
    ensures
        r@ == v@,
{
    let mut out: Vec<u8> = Vec::new();
    let mut i: usize = 0;
    while i < v.len()
        invariant
            i <= v@.len(),
            out@ == v@.take(i as int),
        decreases v@.len() - i,
    {
        out.push(v[i]);
        proof {
            assert(out@ =~= v@.take(i as int + 1));
        }
        i += 1;
    }
    proof {
        assert(v@.take(i as int) =~= v@);
    }
    out
}

fn bytes_le_exec(a: &Vec<u8>, b: &Vec<u8>) -> (r: bool)
    ensures
        r == bytes_le(a@, b@),
{
    let mut i: usize = 0;
    proof {
        assert(a@.skip(0) =~= a@);
        assert(b@.skip(0) =~= b@);
    }
    while i < a.len() && i < b.len()
        invariant
            i <= a@.len(),
            i <= b@.len(),
            bytes_le(a@, b@) == bytes_le(a@.skip(i as int), b@.skip(i as int)),
        decreases a@.len() - i,
    {
        let (x, y) = (a[i], b[i]);
        proof {
            assert(a@.skip(i as int)[0] == x);
            assert(b@.skip(i as int)[0] == y);
        }
        if x != y {
            return x < y;
        }
        proof {
            assert(a@.skip(i as int).skip(1) =~= a@.skip(i as int + 1));
            assert(b@.skip(i as int).skip(1) =~= b@.skip(i as int + 1));
        }
        i += 1;
    }
    i == a.len()
}

impl DataValue {
    /// Whether this is the `Null` marker.
    pub fn is_null(&self) -> (r: bool)
        ensures
            r == (self@ is Null),
    {
        matches!(self, DataValue::Null)
    }

    /// Whether `self` is ordered at or before `other`.
    pub fn le(&self, other: &DataValue) -> (r: bool)
        ensures
            r == value_le(self@, other@),
    {
        match (self, other) {
            (DataValue::Null, DataValue::Null) => true,
            (DataValue::Null, _) => true,
            (_, DataValue::Null) => false,
            (DataValue::Boolean(x), DataValue::Boolean(y)) => !*x || *y,
            (DataValue::Boolean(_), _) => true,
            (_, DataValue::Boolean(_)) => false,
            (DataValue::Int64(x), DataValue::Int64(y)) => *x <= *y,
            (DataValue::Int64(_), _) => true,
            (_, DataValue::Int64(_)) => false,
            (DataValue::UInt64(x), DataValue::UInt64(y)) => *x <= *y,
            (DataValue::UInt64(_), _) => true,
            (_, DataValue::UInt64(_)) => false,
            (DataValue::String(x), DataValue::String(y)) => bytes_le_exec(x, y),
        }
    }

    /// A copy of the value.
    pub fn duplicate(&self) -> (r: DataValue)
        ensures
            r@ == self@,
    {
        match self {
            DataValue::Null => DataValue::Null,
            DataValue::Boolean(b) => DataValue::Boolean(*b),
            DataValue::Int64(i) => DataValue::Int64(*i),
            DataValue::UInt64(u) => DataValue::UInt64(*u),
            DataValue::String(s) => DataValue::String(copy_bytes(s)),
        }
    }
}

/// The smaller non-null value of the two, `Null` where both are `Null`.
pub fn pick_min(a: &DataValue, b: &DataValue) -> (r: DataValue)
    ensures
        r@ == min_value(a@, b@),
{
    if a.is_null() {
        b.duplicate()
    } else if b.is_null() {
        a.duplicate()
    } else if a.le(b) {
        a.duplicate()
    } else {
        b.duplicate()
    }
}

/// The larger non-null value of the two, `Null` where both are `Null`.
pub fn pick_max(a: &DataValue, b: &DataValue) -> (r: DataValue)
    ensures
        r@ == max_value(a@, b@),
{
    if a.is_null() {
        b.duplicate()
    } else if b.is_null() {
        a.duplicate()
    } else if a.le(b) {
        b.duplicate()
    } else {
        a.duplicate()
    }
}

/// `min_value` is commutative, associative, and has `Null` as identity.
pub proof fn lemma_min_value_algebra(a: ValueModel, b: ValueModel, c: ValueModel)
    ensures
        min_value(a, b) == min_value(b, a),
        min_value(min_value(a, b), c) == min_value(a, min_value(b, c)),
        min_value(ValueModel::Null, a) == a,
{
    lemma_order_facts(a, b, c);
}

/// `max_value` is commutative, associative, and has `Null` as identity.
pub proof fn lemma_max_value_algebra(a: ValueModel, b: ValueModel, c: ValueModel)
    ensures
        max_value(a, b) == max_value(b, a),
        max_value(max_value(a, b), c) == max_value(a, max_value(b, c)),
        max_value(ValueModel::Null, a) == a,
{
    lemma_order_facts(a, b, c);
}

proof fn lemma_order_facts(a: ValueModel, b: ValueModel, c: ValueModel)
    ensures
        value_le(a, b) || value_le(b, a),
        value_le(b, c) || value_le(c, b),
        value_le(a, c) || value_le(c, a),
        value_le(a, b) && value_le(b, a) ==> a == b,
        value_le(b, c) && value_le(c, b) ==> b == c,
        value_le(a, c) && value_le(c, a) ==> a == c,
        value_le(a, b) && value_le(b, c) ==> value_le(a, c),
        value_le(c, b) && value_le(b, a) ==> value_le(c, a),
        value_le(b, a) && value_le(a, c) ==> value_le(b, c),
        value_le(c, a) && value_le(a, b) ==> value_le(c, b),
        value_le(a, c) && value_le(c, b) ==> value_le(a, b),
        value_le(b, c) && value_le(c, a) ==> value_le(b, a),
{
    lemma_value_le_total(a, b);
    lemma_value_le_total(b, c);
    lemma_value_le_total(a, c);
    if value_le(a, b) && value_le(b, a) {
        lemma_value_le_antisymmetric(a, b);
    }
    if value_le(b, c) && value_le(c, b) {
        lemma_value_le_antisymmetric(b, c);
    }
    if value_le(a, c) && value_le(c, a) {
        lemma_value_le_antisymmetric(a, c);
    }
    if value_le(a, b) && value_le(b, c) {
        lemma_value_le_transitive(a, b, c);
    }
    if value_le(c, b) && value_le(b, a) {
        lemma_value_le_transitive(c, b, a);
    }
    if value_le(b, a) && value_le(a, c) {
        lemma_value_le_transitive(b, a, c);
    }
    if value_le(c, a) && value_le(a, b) {
        lemma_value_le_transitive(c, a, b);
    }
    if value_le(a, c) && value_le(c, b) {
        lemma_value_le_transitive(a, c, b);
    }
    if value_le(b, c) && value_le(c, a) {
        lemma_value_le_transitive(b, c, a);
    }
}

} // verus!
