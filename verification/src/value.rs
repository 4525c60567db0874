//! The tagged runtime value representation and its kind classification.
//!
//! A `Value` is what an expression produces at runtime; a `Kind` is the tag of
//! one value; a `KindSet` is a set of kinds, used by the type system when an
//! expression's result kind is not statically determined. Contracts speak of
//! values through their mathematical view `ValueV`.

use vstd::prelude::*;

verus! {

/// The runtime tag of a `Value`.
#[derive(Clone, Copy, Debug, PartialEq, Eq, Structural)]
pub enum Kind {
    Null,
    Boolean,
    Integer,
    Bytes,
}

/// A set of `Kind`s, one membership flag per tag.
#[derive(Clone, Copy, Debug, PartialEq, Eq, Structural)]
pub struct KindSet {
    pub null: bool,
    pub boolean: bool,
    pub integer: bool,
    pub bytes: bool,
}

impl KindSet {
    /// Membership of one kind in the set.
    pub open spec fn has(self, k: Kind) -> bool {
        match k {
            Kind::Null => self.null,
            Kind::Boolean => self.boolean,
            Kind::Integer => self.integer,
            Kind::Bytes => self.bytes,
        }
    }

    /// The set holds exactly the one kind `k`.
    pub open spec fn is_exactly_spec(self, k: Kind) -> bool {
        forall|j: Kind| self.has(j) <==> j == k
    }

    /// The set with every kind in it, as a spec-level value.
    pub open spec fn any_spec() -> KindSet {
        KindSet { null: true, boolean: true, integer: true, bytes: true }
    }

    /// The set holding only `k`, as a spec-level value.
    pub open spec fn exactly_as_spec(k: Kind) -> KindSet {
        KindSet {
            null: k == Kind::Null,
            boolean: k == Kind::Boolean,
            integer: k == Kind::Integer,
            bytes: k == Kind::Bytes,
        }
    }

    /// The set with every kind in it.
    pub fn any() -> (r: KindSet)
        ensures
            forall|k: Kind| r.has(k),
            r == KindSet::any_spec(),
    {
        KindSet { null: true, boolean: true, integer: true, bytes: true }
    }

    /// The set holding only `k`.
    pub fn exactly(k: Kind) -> (r: KindSet)
        ensures
            r.is_exactly_spec(k),
            forall|j: Kind| r.has(j) <==> j == k,
            r == KindSet::exactly_as_spec(k),
    {
        KindSet {
            null: matches!(k, Kind::Null),
            boolean: matches!(k, Kind::Boolean),
            integer: matches!(k, Kind::Integer),
            bytes: matches!(k, Kind::Bytes),
        }
    }

    /// Set union, kind by kind.
    pub fn union(self, other: KindSet) -> (r: KindSet)
        ensures
            forall|k: Kind| r.has(k) <==> self.has(k) || other.has(k),
            r == (KindSet {
                null: self.null || other.null,
                boolean: self.boolean || other.boolean,
                integer: self.integer || other.integer,
                bytes: self.bytes || other.bytes,
            }),
    {
        KindSet {
            null: self.null || other.null,
            boolean: self.boolean || other.boolean,
            integer: self.integer || other.integer,
            bytes: self.bytes || other.bytes,
        }
    }

    /// Whether the set holds exactly the one kind `k`.
    pub fn is_exactly(self, k: Kind) -> (r: bool)
        ensures
            r == self.is_exactly_spec(k),
    {
        let e = KindSet::exactly(k);
        let r = self == e;
        proof {
            if r {
                assert(forall|j: Kind| self.has(j) <==> j == k);
            } else {
                assert(self.null != e.null || self.boolean != e.boolean || self.integer != e.integer
                    || self.bytes != e.bytes);
                if self.null != e.null {
                    assert(self.has(Kind::Null) != e.has(Kind::Null));
                } else if self.boolean != e.boolean {
                    assert(self.has(Kind::Boolean) != e.has(Kind::Boolean));
                } else if self.integer != e.integer {
                    assert(self.has(Kind::Integer) != e.has(Kind::Integer));
                } else {
                    assert(self.has(Kind::Bytes) != e.has(Kind::Bytes));
                }
            }
        }
        r
    }
}

/// A runtime value: the tagged union the expression engine computes over.
/// Character data is carried as its byte sequence.
#[derive(Debug, PartialEq, Eq)]
pub enum Value {
    Null,
    Boolean(bool),
    Integer(i64),
    Bytes(Vec<u8>),
}

/// The mathematical view of a `Value`.
#[verifier::ext_equal]
pub enum ValueV {
    Null,
    Boolean(bool),
    Integer(int),
    Bytes(Seq<u8>),
}

impl View for Value {
    type V = ValueV;

    open spec fn view(&self) -> ValueV {
        match *self {
            Value::Null => ValueV::Null,
            Value::Boolean(b) => ValueV::Boolean(b),
            Value::Integer(n) => ValueV::Integer(n as int),
            Value::Bytes(b) => ValueV::Bytes(b@),
        }
    }
}

/// A kind-coercion failure: a conversion accessor was applied to a value of
/// the wrong tag.
#[derive(Clone, Copy, Debug, PartialEq, Eq, Structural)]
pub struct ValueError {
    pub expected: Kind,
    pub got: Kind,
}

impl ValueError {
    /// The human-readable cause of the failure.
    pub fn message(&self) -> &'static str {
        "invalid value kind"
    }
}

/// The tag of a value, as a function of its view.
pub open spec fn kind_of(v: ValueV) -> Kind {
    match v {
        ValueV::Null => Kind::Null,
        ValueV::Boolean(_) => Kind::Boolean,
        ValueV::Integer(_) => Kind::Integer,
        ValueV::Bytes(_) => Kind::Bytes,
    }
}

impl Value {
    /// The tag of this value.
    pub fn kind(&self) -> (k: Kind)
        ensures
            k == kind_of(self@),
    {
        match self {
            Value::Null => Kind::Null,
            Value::Boolean(_) => Kind::Boolean,
            Value::Integer(_) => Kind::Integer,
            Value::Bytes(_) => Kind::Bytes,
        }
    }

    /// Extracts the boolean payload, or fails with a kind mismatch naming the
    /// expected and the actual kind.
    pub fn try_boolean(&self) -> (r: Result<bool, ValueError>)
        ensures
            match self@ {
                ValueV::Boolean(b) => r == Ok::<bool, ValueError>(b),
                _ => r == Err::<bool, ValueError>(
                    ValueError { expected: Kind::Boolean, got: kind_of(self@) },
                ),
            },
    {
        match self {
            Value::Boolean(b) => Ok(*b),
            _ => Err(ValueError { expected: Kind::Boolean, got: self.kind() }),
        }
    }

    /// Extracts the byte-sequence payload, or fails with a kind mismatch
    /// naming the expected and the actual kind.
    pub fn try_bytes(&self) -> (r: Result<&Vec<u8>, ValueError>)
        ensures
            match self@ {
                ValueV::Bytes(s) => r is Ok && r.unwrap()@ == s,
                _ => r == Err::<&Vec<u8>, ValueError>(
                    ValueError { expected: Kind::Bytes, got: kind_of(self@) },
                ),
            },
    {
        match self {
            Value::Bytes(b) => Ok(b),
            _ => Err(ValueError { expected: Kind::Bytes, got: self.kind() }),
        }
    }

    /// A copy of this value, equal in view.
    pub fn duplicate(&self) -> (r: Value)
        ensures
            r@ == self@,
    {
        match self {
            Value::Null => Value::Null,
            Value::Boolean(b) => Value::Boolean(*b),
            Value::Integer(n) => Value::Integer(*n),
            Value::Bytes(b) => Value::Bytes(copy_bytes(b)),
        }
    }
}

/// A byte-for-byte copy of a byte vector.
pub fn copy_bytes(v: &Vec<u8>) -> (r: Vec<u8>)
    ensures
        r@ == v@,
{
    let mut r: Vec<u8> = Vec::new();
    let mut i: usize = 0;
    while i < v.len()
        invariant
            i <= v.len(),
            r@ == v@.subrange(0, i as int),
        decreases v.len() - i,
    {
        r.push(v[i]);
        i += 1;
        proof {
            assert(r@ =~= v@.subrange(0, i as int));
        }
    }
    proof {
        assert(r@ =~= v@);
    }
    r
}

} // verus!
