use vstd::prelude::*;

verus! {

/// A typed scalar cell value, as the relational engine hands it over.
///
/// A floating-point cell is carried as the big-endian bit pattern of its
/// IEEE-754 encoding and text as its raw bytes: the crate never performs
/// floating-point arithmetic and never assumes text is valid UTF-8, so a
/// value round-trips bit-for-bit through the codec.
#[derive(Debug)]
pub enum ColumnValue {
    Null,
    Integer(i64),
    Real(u64),
    Text(Vec<u8>),
    Blob(Vec<u8>),
}

impl Clone for ColumnValue {
    /// Cloning preserves the value's model.
    fn clone(&self) -> (r: ColumnValue)
        ensures
            r@ == self@,
    {
        match self {
            ColumnValue::Null => ColumnValue::Null,
            ColumnValue::Integer(i) => ColumnValue::Integer(*i),
            ColumnValue::Real(bits) => ColumnValue::Real(*bits),
            ColumnValue::Text(bytes) => {
                let b = bytes.clone();
                proof {
                    assert(b@ =~= bytes@);
                }
                ColumnValue::Text(b)
            },
            ColumnValue::Blob(bytes) => {
                let b = bytes.clone();
                proof {
                    assert(b@ =~= bytes@);
                }
                ColumnValue::Blob(b)
            },
        }
    }
}

impl PartialEq for ColumnValue {
    /// Structural equality: two values are equal when their models are.
    fn eq(&self, other: &ColumnValue) -> (r: bool) {
        values_equal(self, other)
    }
}

impl vstd::std_specs::cmp::PartialEqSpecImpl for ColumnValue {
    open spec fn obeys_eq_spec() -> bool {
        true
    }

    open spec fn eq_spec(&self, other: &ColumnValue) -> bool {
        self@ == other@
    }
}

/// The mathematical model of a `ColumnValue`: byte payloads become sequences.
pub enum ValueModel {
    Null,
    Integer(i64),
    Real(u64),
    Text(Seq<u8>),
    Blob(Seq<u8>),
}

impl View for ColumnValue {
    type V = ValueModel;

    open spec fn view(&self) -> ValueModel {
        match self {
            ColumnValue::Null => ValueModel::Null,
            ColumnValue::Integer(i) => ValueModel::Integer(*i),
            ColumnValue::Real(bits) => ValueModel::Real(*bits),
            ColumnValue::Text(bytes) => ValueModel::Text(bytes@),
            ColumnValue::Blob(bytes) => ValueModel::Blob(bytes@),
        }
    }
}

impl DeepView for ColumnValue {
    type V = ValueModel;

    open spec fn deep_view(&self) -> ValueModel {
        self.view()
    }
}

/// Rank of a value's type class in the deterministic cross-type ordering:
/// nulls sort first, then integers, reals, text and blobs.
pub open spec fn type_rank(v: ValueModel) -> int {
    match v {
        ValueModel::Null => 0,
        ValueModel::Integer(_) => 1,
        ValueModel::Real(_) => 2,
        ValueModel::Text(_) => 3,
        ValueModel::Blob(_) => 4,
    }
}

/// Order-preserving key for IEEE-754 bit patterns: flipping the sign bit of
/// non-negative encodings and all bits of negative ones yields an unsigned
/// key whose `<` agrees with the IEEE total order, so reals are compared
/// deterministically without any floating-point arithmetic.
pub open spec fn real_order_key(bits: u64) -> u64 {
    if bits >= 0x8000_0000_0000_0000u64 {
        !bits
    } else {
        bits ^ 0x8000_0000_0000_0000u64
    }
}

/// Strict lexicographic order on byte strings; a proper prefix sorts first.
pub open spec fn bytes_lt(a: Seq<u8>, b: Seq<u8>) -> bool
    decreases a.len(),
{
    if b.len() == 0 {
        false
    } else if a.len() == 0 {
        true
    } else if a[0] != b[0] {
        a[0] < b[0]
    } else {
        bytes_lt(a.skip(1), b.skip(1))
    }
}

/// The deterministic total order on cell values used to break last-writer
/// ties: type classes are ranked, and within a class values are compared
/// numerically (integers), by IEEE order key (reals) or lexicographically
/// (text and blobs).
///
/// Integers and reals are deliberately kept in distinct classes rather than
/// merged on a shared number line: the order stays total and identical on
/// every replica of this crate, which is all convergence needs, and no
/// floating-point arithmetic is ever performed. An engine that instead
/// compares numerics across the two classes could pick a different winner
/// for an exact version tie between an integer and a real.
pub open spec fn value_lt(a: ValueModel, b: ValueModel) -> bool {
    if type_rank(a) != type_rank(b) {
        type_rank(a) < type_rank(b)
    } else {
        match (a, b) {
            (ValueModel::Integer(x), ValueModel::Integer(y)) => x < y,
            (ValueModel::Real(x), ValueModel::Real(y)) => real_order_key(x) < real_order_key(y),
            (ValueModel::Text(x), ValueModel::Text(y)) => bytes_lt(x, y),
            (ValueModel::Blob(x), ValueModel::Blob(y)) => bytes_lt(x, y),
            _ => false,
        }
    }
}

/// Exactly one of `bytes_lt(a, b)`, `bytes_lt(b, a)` and `a == b` holds.
pub proof fn lemma_bytes_trichotomy(a: Seq<u8>, b: Seq<u8>)
    ensures
        bytes_lt(a, b) || bytes_lt(b, a) || a == b,
        bytes_lt(a, b) ==> !bytes_lt(b, a) && a != b,
        bytes_lt(b, a) ==> !bytes_lt(a, b) && a != b,
    decreases a.len(),
{
    if b.len() == 0 || a.len() == 0 {
        if a.len() == b.len() {
            assert(a =~= b);
        }
    } else if a[0] != b[0] {
    } else {
        lemma_bytes_trichotomy(a.skip(1), b.skip(1));
        if !bytes_lt(a, b) && !bytes_lt(b, a) {
            assert(a.skip(1) == b.skip(1));
            assert(a.len() == b.len());
            assert forall|i: int| 0 <= i < a.len() implies a[i] == b[i] by {
                if i >= 1 {
                    assert(a[i] == a.skip(1)[i - 1]);
                    assert(b[i] == b.skip(1)[i - 1]);
                }
            }
            assert(a =~= b);
        }
        if a == b {
            assert(a.skip(1) == b.skip(1));
        }
    }
}

/// Exactly one of `value_lt(a, b)`, `value_lt(b, a)` and `a == b` holds: the
/// tie-break order is total, so two replicas always agree on a winner.
pub proof fn lemma_value_trichotomy(a: ValueModel, b: ValueModel)
    ensures
        value_lt(a, b) || value_lt(b, a) || a == b,
        value_lt(a, b) ==> !value_lt(b, a) && a != b,
        value_lt(b, a) ==> !value_lt(a, b) && a != b,
{
    match (a, b) {
        (ValueModel::Text(x), ValueModel::Text(y)) => lemma_bytes_trichotomy(x, y),
        (ValueModel::Blob(x), ValueModel::Blob(y)) => lemma_bytes_trichotomy(x, y),
        (ValueModel::Real(x), ValueModel::Real(y)) => {
            if real_order_key(x) == real_order_key(y) {
                lemma_real_key_injective(x, y);
            }
        },
        _ => {},
    }
}

/// Byte-wise equality of two byte vectors.
fn bytes_equal(a: &Vec<u8>, b: &Vec<u8>) -> (r: bool)
    ensures
        r == (a@ == b@),
{
    if a.len() != b.len() {
        proof {
            assert(a@.len() != b@.len());
        }
        return false;
    }
    let n: usize = a.len();
    let mut i: usize = 0;
    while i < n
        invariant
            i <= n,
            n == a@.len() == b@.len(),
            forall|j: int| 0 <= j < i ==> a@[j] == b@[j],
        decreases n - i,
    {
        if a[i] != b[i] {
            return false;
        }
        i = i + 1;
    }
    proof {
        assert(a@ =~= b@);
    }
    true
}

/// Compares two byte vectors in the lexicographic order of `bytes_lt`,
/// returning a negative, zero or positive code.
pub fn compare_bytes(a: &Vec<u8>, b: &Vec<u8>) -> (r: i8)
    ensures
        r == -1i8 <==> bytes_lt(a@, b@),
        r == 1i8 <==> bytes_lt(b@, a@),
        r == 0i8 <==> a@ == b@,
        r == -1i8 || r == 0i8 || r == 1i8,
{
    proof {
        lemma_bytes_trichotomy(a@, b@);
    }
    let mut i: usize = 0;
    while i < a.len() && i < b.len()
        invariant
            i <= a@.len(),
            i <= b@.len(),
            forall|j: int| 0 <= j < i ==> a@[j] == b@[j],
        decreases a@.len() - i,
    {
        if a[i] < b[i] {
            proof {
                lemma_bytes_lt_from_first_difference(a@, b@, i as int);
                lemma_bytes_trichotomy(a@, b@);
            }
            return -1;
        }
        if a[i] > b[i] {
            proof {
                lemma_bytes_lt_from_first_difference(b@, a@, i as int);
                lemma_bytes_trichotomy(a@, b@);
            }
            return 1;
        }
        i = i + 1;
    }
    if a.len() < b.len() {
        proof {
            lemma_bytes_lt_from_prefix(a@, b@, i as int);
        }
        -1
    } else if a.len() > b.len() {
        proof {
            lemma_bytes_lt_from_prefix(b@, a@, i as int);
            lemma_bytes_trichotomy(a@, b@);
        }
        1
    } else {
        proof {
            assert(a@ =~= b@);
        }
        0
    }
}

/// If the first `i` bytes agree and `a[i] < b[i]`, then `a` sorts before `b`.
proof fn lemma_bytes_lt_from_first_difference(a: Seq<u8>, b: Seq<u8>, i: int)
    requires
        0 <= i < a.len(),
        i < b.len(),
        forall|j: int| 0 <= j < i ==> a[j] == b[j],
        a[i] < b[i],
    ensures
        bytes_lt(a, b),
    decreases i,
{
    if i > 0 {
        lemma_bytes_lt_from_first_difference(a.skip(1), b.skip(1), i - 1);
    }
}

/// If `a` is a proper prefix of `b` (they agree on all of `a`), `a` sorts first.
proof fn lemma_bytes_lt_from_prefix(a: Seq<u8>, b: Seq<u8>, n: int)
    requires
        a.len() == n,
        n < b.len(),
        forall|j: int| 0 <= j < n ==> a[j] == b[j],
    ensures
        bytes_lt(a, b),
    decreases n,
{
    if n > 0 {
        lemma_bytes_lt_from_prefix(a.skip(1), b.skip(1), n - 1);
    }
}

/// Structural equality of two cell values, the null-aware comparison the
/// local-write tracker uses to decide whether a column actually changed.
pub fn values_equal(a: &ColumnValue, b: &ColumnValue) -> (r: bool)
    ensures
        r == (a@ == b@),
{
    match (a, b) {
        (ColumnValue::Null, ColumnValue::Null) => true,
        (ColumnValue::Integer(x), ColumnValue::Integer(y)) => x == y,
        (ColumnValue::Real(x), ColumnValue::Real(y)) => x == y,
        (ColumnValue::Text(x), ColumnValue::Text(y)) => bytes_equal(x, y),
        (ColumnValue::Blob(x), ColumnValue::Blob(y)) => bytes_equal(x, y),
        _ => false,
    }
}

/// Exec rank matching `type_rank`.
fn value_type_rank(v: &ColumnValue) -> (r: i8)
    ensures
        r as int == type_rank(v@),
{
    match v {
        ColumnValue::Null => 0,
        ColumnValue::Integer(_) => 1,
        ColumnValue::Real(_) => 2,
        ColumnValue::Text(_) => 3,
        ColumnValue::Blob(_) => 4,
    }
}

/// Compares two cell values in the deterministic total order `value_lt`,
/// returning a negative, zero or positive code. This is the last-writer
/// tie-break: when two writes carry equal column versions, the one whose
/// value sorts strictly later wins on every replica.
pub fn compare_values(a: &ColumnValue, b: &ColumnValue) -> (r: i8)
    ensures
        r == -1i8 <==> value_lt(a@, b@),
        r == 1i8 <==> value_lt(b@, a@),
        r == 0i8 <==> a@ == b@,
        r == -1i8 || r == 0i8 || r == 1i8,
{
    proof {
        lemma_value_trichotomy(a@, b@);
    }
    let ra = value_type_rank(a);
    let rb = value_type_rank(b);
    if ra < rb {
        return -1;
    }
    if ra > rb {
        return 1;
    }
    match (a, b) {
        (ColumnValue::Null, ColumnValue::Null) => 0,
        (ColumnValue::Integer(x), ColumnValue::Integer(y)) => {
            if x < y {
                -1
            } else if x > y {
                1
            } else {
                0
            }
        }
        (ColumnValue::Real(x), ColumnValue::Real(y)) => {
            let ka = real_key_exec(*x);
            let kb = real_key_exec(*y);
            if ka < kb {
                -1
            } else if ka > kb {
                1
            } else {
                proof {
                    lemma_real_key_injective(*x, *y);
                }
                0
            }
        }
        (ColumnValue::Text(x), ColumnValue::Text(y)) => compare_bytes(x, y),
        (ColumnValue::Blob(x), ColumnValue::Blob(y)) => compare_bytes(x, y),
        _ => {
            proof {
                assert(false);
            }
            0
        }
    }
}

/// Exec computation of `real_order_key`.
fn real_key_exec(bits: u64) -> (r: u64)
    ensures
        r == real_order_key(bits),
{
    if bits >= 0x8000_0000_0000_0000u64 {
        !bits
    } else {
        bits ^ 0x8000_0000_0000_0000u64
    }
}

/// Distinct bit patterns have distinct order keys.
proof fn lemma_real_key_injective(x: u64, y: u64)
    requires
        real_order_key(x) == real_order_key(y),
    ensures
        x == y,
{
    assert(real_order_key(x) == real_order_key(y) ==> x == y) by (bit_vector);
}

} // verus!
