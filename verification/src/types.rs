use vstd::prelude::*;

verus! {

/// The width and sign of an integer type.
#[derive(Clone, Copy, Debug, PartialEq, Eq, Structural)]
pub enum IntegerType {
    U8,
    U16,
    U32,
    U64,
    U128,
    I8,
    I16,
    I32,
    I64,
    I128,
}

/// The type of a value. A circuit type names its circuit by the circuit's
/// place in the program's list of circuits.
#[derive(Debug)]
pub enum Type {
    Address,
    Boolean,
    Char,
    Field,
    Group,
    Integer(IntegerType),
    Circuit(usize),
    Tuple(Vec<Type>),
    Array(Box<Type>, u32),
    ArrayWithoutSize(Box<Type>),
}

/// Whether the circuit at `index` is the record circuit, by a table that
/// holds one flag per circuit. An index past the table names no record.
pub open spec fn names_record(records: Seq<bool>, index: usize) -> bool {
    index < records.len() && records[index as int]
}

/// How many records a value of the type holds: a record circuit is one, a
/// tuple holds what its parts hold, an array holds its element's count once
/// per place, and an array of unknown size is counted as holding none.
pub open spec fn record_count(t: Type, records: Seq<bool>) -> nat
    decreases t, 0nat,
{
    match t {
        Type::Circuit(index) => if names_record(records, index) {
            1
        } else {
            0
        },
        Type::Tuple(parts) => record_count_upto(parts@, parts@.len(), records),
        Type::Array(element, length) => length as nat * record_count(*element, records),
        _ => 0,
    }
}

/// The records held by the first `n` types of a list together.
pub open spec fn record_count_upto(ts: Seq<Type>, n: nat, records: Seq<bool>) -> nat
    decreases ts, n,
{
    if n == 0 || n > ts.len() {
        0
    } else {
        record_count_upto(ts, (n - 1) as nat, records) + record_count(ts[n - 1], records)
    }
}

/// How many arrays of unknown size inside the type hold a record, each
/// counted where it stands: one inside an array of known size counts once.
pub open spec fn unsized_record_arrays(t: Type, records: Seq<bool>) -> nat
    decreases t, 0nat,
{
    match t {
        Type::Tuple(parts) => unsized_record_arrays_upto(parts@, parts@.len(), records),
        Type::Array(element, _) => unsized_record_arrays(*element, records),
        Type::ArrayWithoutSize(element) => {
            let own: nat = if record_count(*element, records) > 0 {
                1
            } else {
                0
            };
            unsized_record_arrays(*element, records) + own
        },
        _ => 0,
    }
}

/// The same count over the first `n` types of a list.
pub open spec fn unsized_record_arrays_upto(ts: Seq<Type>, n: nat, records: Seq<bool>) -> nat
    decreases ts, n,
{
    if n == 0 || n > ts.len() {
        0
    } else {
        unsized_record_arrays_upto(ts, (n - 1) as nat, records) + unsized_record_arrays(
            ts[n - 1],
            records,
        )
    }
}

/// Whether two types have the same structure: the same kind, the same
/// circuit or the same length, and parts of the same structure throughout.
pub open spec fn same_type(a: Type, b: Type) -> bool
    decreases a, 0nat,
{
    match (a, b) {
        (Type::Address, Type::Address) => true,
        (Type::Boolean, Type::Boolean) => true,
        (Type::Char, Type::Char) => true,
        (Type::Field, Type::Field) => true,
        (Type::Group, Type::Group) => true,
        (Type::Integer(x), Type::Integer(y)) => x == y,
        (Type::Circuit(x), Type::Circuit(y)) => x == y,
        (Type::Tuple(xs), Type::Tuple(ys)) => xs@.len() == ys@.len() && same_types_upto(
            xs@,
            ys@,
            xs@.len(),
        ),
        (Type::Array(x, n), Type::Array(y, m)) => n == m && same_type(*x, *y),
        (Type::ArrayWithoutSize(x), Type::ArrayWithoutSize(y)) => same_type(*x, *y),
        _ => false,
    }
}

/// Whether the first `n` types of two lists have the same structure, place
/// by place.
pub open spec fn same_types_upto(xs: Seq<Type>, ys: Seq<Type>, n: nat) -> bool
    decreases xs, n,
{
    if n == 0 || n > xs.len() || n > ys.len() {
        true
    } else {
        same_types_upto(xs, ys, (n - 1) as nat) && same_type(xs[n - 1], ys[n - 1])
    }
}

impl IntegerType {
    /// Whether two integer types have the same width and sign.
    pub fn equals(&self, other: &IntegerType) -> (r: bool)
        ensures
            r == (*self == *other),
    {
        match (self, other) {
            (IntegerType::U8, IntegerType::U8) => true,
            (IntegerType::U16, IntegerType::U16) => true,
            (IntegerType::U32, IntegerType::U32) => true,
            (IntegerType::U64, IntegerType::U64) => true,
            (IntegerType::U128, IntegerType::U128) => true,
            (IntegerType::I8, IntegerType::I8) => true,
            (IntegerType::I16, IntegerType::I16) => true,
            (IntegerType::I32, IntegerType::I32) => true,
            (IntegerType::I64, IntegerType::I64) => true,
            (IntegerType::I128, IntegerType::I128) => true,
            _ => false,
        }
    }
}

impl Type {
    /// Compares two types by their structure.
    pub fn equals(&self, other: &Type) -> (r: bool)
        ensures
            r == same_type(*self, *other),
        decreases self,
    {
        match (self, other) {
            (Type::Address, Type::Address) => true,
            (Type::Boolean, Type::Boolean) => true,
            (Type::Char, Type::Char) => true,
            (Type::Field, Type::Field) => true,
            (Type::Group, Type::Group) => true,
            (Type::Integer(x), Type::Integer(y)) => x.equals(y),
            (Type::Circuit(x), Type::Circuit(y)) => *x == *y,
            (Type::Tuple(xs), Type::Tuple(ys)) => {
                if xs.len() != ys.len() {
                    return false;
                }
                let mut i: usize = 0;
                while i < xs.len()
                    invariant
                        i <= xs.len(),
                        xs.len() == ys.len(),
                        *self == Type::Tuple(*xs),
                        *other == Type::Tuple(*ys),
                        same_types_upto(xs@, ys@, i as nat),
                    decreases xs.len() - i,
                {
                    assert(decreases_to!(*self => self->Tuple_0));
                    assert(decreases_to!(*xs => xs[i as int]));
                    if !xs[i].equals(&ys[i]) {
                        proof {
                            if same_types_upto(xs@, ys@, xs@.len()) {
                                lemma_same_types_upto_holds_below(
                                    xs@,
                                    ys@,
                                    (i + 1) as nat,
                                    xs@.len(),
                                );
                            }
                        }
                        return false;
                    }
                    i += 1;
                }
                true
            },
            (Type::Array(x, n), Type::Array(y, m)) => *n == *m && x.equals(y),
            (Type::ArrayWithoutSize(x), Type::ArrayWithoutSize(y)) => x.equals(y),
            _ => false,
        }
    }
}

/// Where the first `n` places agree, the first `i` of them agree.
proof fn lemma_same_types_upto_holds_below(xs: Seq<Type>, ys: Seq<Type>, i: nat, n: nat)
    requires
        i <= n <= xs.len(),
        n <= ys.len(),
        same_types_upto(xs, ys, n),
    ensures
        same_types_upto(xs, ys, i),
    decreases n - i,
{
    if i < n {
        lemma_same_types_upto_holds_below(xs, ys, i, (n - 1) as nat);
    }
}

/// Every type has the same structure as itself.
pub proof fn lemma_same_type_reflexive(a: Type)
    ensures
        same_type(a, a),
    decreases a, 0nat,
{
    match a {
        Type::Tuple(xs) => {
            lemma_same_types_reflexive(xs@, xs@.len());
        },
        Type::Array(x, _) => {
            lemma_same_type_reflexive(*x);
        },
        Type::ArrayWithoutSize(x) => {
            lemma_same_type_reflexive(*x);
        },
        _ => {},
    }
}

/// Every list of types agrees with itself, place by place.
proof fn lemma_same_types_reflexive(xs: Seq<Type>, n: nat)
    ensures
        same_types_upto(xs, xs, n),
    decreases xs, n,
{
    if n == 0 || n > xs.len() {
    } else {
        lemma_same_types_reflexive(xs, (n - 1) as nat);
        lemma_same_type_reflexive(xs[n - 1]);
    }
}

/// Types of the same structure hold the same number of records, and the
/// same number of arrays of unknown size that hold one.
pub proof fn lemma_same_type_same_counts(a: Type, b: Type, records: Seq<bool>)
    requires
        same_type(a, b),
    ensures
        record_count(a, records) == record_count(b, records),
        unsized_record_arrays(a, records) == unsized_record_arrays(b, records),
    decreases a, 0nat,
{
    match (a, b) {
        (Type::Tuple(xs), Type::Tuple(ys)) => {
            lemma_same_types_same_counts(xs@, ys@, xs@.len(), records);
        },
        (Type::Array(x, _), Type::Array(y, _)) => {
            lemma_same_type_same_counts(*x, *y, records);
        },
        (Type::ArrayWithoutSize(x), Type::ArrayWithoutSize(y)) => {
            lemma_same_type_same_counts(*x, *y, records);
        },
        _ => {},
    }
}

/// Lists that agree place by place hold the same counts.
proof fn lemma_same_types_same_counts(xs: Seq<Type>, ys: Seq<Type>, n: nat, records: Seq<bool>)
    requires
        n <= xs.len(),
        xs.len() == ys.len(),
        same_types_upto(xs, ys, n),
    ensures
        record_count_upto(xs, n, records) == record_count_upto(ys, n, records),
        unsized_record_arrays_upto(xs, n, records) == unsized_record_arrays_upto(ys, n, records),
    decreases xs, n,
{
    if n > 0 {
        lemma_same_types_same_counts(xs, ys, (n - 1) as nat, records);
        lemma_same_type_same_counts(xs[n - 1], ys[n - 1], records);
    }
}

} // verus!
