use vstd::prelude::*;

verus! {

/// Identifier of a built-in callable. Native functions compare by identity:
/// two are equal exactly when they name the same built-in.
#[derive(Debug, Clone, Copy, PartialEq, Eq, Structural)]
pub enum NativeFn {
    /// The one built-in: writes a rendering of one value per call.
    Print,
}

/// A runtime value, generic over the representation of string payloads so
/// that the same variant set serves executable values (`Vec<u8>`) and their
/// mathematical models (`Seq<u8>`).
#[verifier::ext_equal]
#[derive(Debug, Clone, PartialEq, Eq)]
pub enum ValueG<S> {
    Nil,
    Boolean(bool),
    Integer(i64),
    Str(S),
    NativeFunction(NativeFn),
}

/// An executable value: strings carried as byte vectors (source text is
/// byte-oriented and restricted to ASCII).
pub type Value = ValueG<Vec<u8>>;

/// The mathematical model of a value.
pub type SpecValue = ValueG<Seq<u8>>;

impl View for Value {
    type V = SpecValue;

    open spec fn view(&self) -> SpecValue {
        match self {
            ValueG::Nil => ValueG::Nil,
            ValueG::Boolean(b) => ValueG::Boolean(*b),
            ValueG::Integer(i) => ValueG::Integer(*i),
            ValueG::Str(s) => ValueG::Str(s@),
            ValueG::NativeFunction(f) => ValueG::NativeFunction(*f),
        }
    }
}

/// Byte-for-byte equality of two byte vectors.
pub fn bytes_eq(a: &Vec<u8>, b: &Vec<u8>) -> (r: bool)
    ensures
        r == (a@ == b@),
{
    if a.len() != b.len() {
        return false;
    }
    let mut i: usize = 0;
    while i < a.len()
        invariant
            a@.len() == b@.len(),
            i <= a@.len(),
            forall|j: int| 0 <= j < i ==> a@[j] == b@[j],
        decreases a@.len() - i,
    {
        if a[i] != b[i] {
            return false;
        }
        i += 1;
    }
    proof {
        assert(a@ =~= b@);
    }
    true
}

/// A fresh byte vector with the same contents.
pub fn copy_bytes(v: &Vec<u8>) -> (r: Vec<u8>)
    ensures
        r@ == v@,
{
    let mut r: Vec<u8> = Vec::new();
    let mut i: usize = 0;
    while i < v.len()
        invariant
            i <= v@.len(),
            r@ == v@.subrange(0, i as int),
        decreases v@.len() - i,
    {
        r.push(v[i]);
        proof {
            assert(r@ =~= v@.subrange(0, i + 1 as int));
        }
        i += 1;
    }
    proof {
        assert(v@.subrange(0, v@.len() as int) =~= v@);
    }
    r
}

impl Value {
    /// Structural equality of values; the callable variant compares by
    /// identity of the built-in.
    pub fn equals(&self, other: &Value) -> (r: bool)
        ensures
            r == (self@ == other@),
    {
        match (self, other) {
            (ValueG::Nil, ValueG::Nil) => true,
            (ValueG::Boolean(a), ValueG::Boolean(b)) => *a == *b,
            (ValueG::Integer(a), ValueG::Integer(b)) => *a == *b,
            (ValueG::Str(a), ValueG::Str(b)) => bytes_eq(a, b),
            (ValueG::NativeFunction(a), ValueG::NativeFunction(b)) => *a == *b,
            _ => false,
        }
    }

    /// An owned value with the same model.
    pub fn duplicate(&self) -> (r: Value)
        ensures
            r@ == self@,
    {
        match self {
            ValueG::Nil => ValueG::Nil,
            ValueG::Boolean(b) => ValueG::Boolean(*b),
            ValueG::Integer(i) => ValueG::Integer(*i),
            ValueG::Str(s) => ValueG::Str(copy_bytes(s)),
            ValueG::NativeFunction(f) => ValueG::NativeFunction(*f),
        }
    }
}

} // verus!
