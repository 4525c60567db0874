//! The compile-time type descriptor attached to every expression node.
//!
//! A `TypeDef` records whether an expression can fail at runtime (`fallible`),
//! whether its result may be the absent value (`optional`), and an upper bound
//! on the kinds its result may have (`kind`).

use vstd::prelude::*;
use crate::value::Kind;
use crate::value::KindSet;

verus! {

/// The compile-time descriptor `{ fallible, optional, kind }`.
#[derive(Clone, Copy, Debug, PartialEq, Eq, Structural)]
pub struct TypeDef {
    pub fallible: bool,
    pub optional: bool,
    pub kind: KindSet,
}

impl TypeDef {
    /// Combines the descriptors of two sibling expressions: fallibility and
    /// optionality are ORed, the kind sets are unioned.
    pub fn merge(self, other: TypeDef) -> (r: TypeDef)
        ensures
            r.fallible == (self.fallible || other.fallible),
            r.optional == (self.optional || other.optional),
            forall|k: Kind| r.kind.has(k) <==> self.kind.has(k) || other.kind.has(k),
            r == merge_spec(self, other),
    {
        TypeDef {
            fallible: self.fallible || other.fallible,
            optional: self.optional || other.optional,
            kind: self.kind.union(other.kind),
        }
    }

    /// Narrows fallibility: the result is non-fallible only when this
    /// descriptor is already non-fallible and its kind set is statically known
    /// to be exactly `k`; otherwise the result is fallible. Optionality and
    /// kinds are unchanged.
    pub fn fallible_unless(self, k: Kind) -> (r: TypeDef)
        ensures
            r.fallible == (self.fallible || !self.kind.is_exactly_spec(k)),
            r.optional == self.optional,
            r.kind == self.kind,
            r == fallible_unless_spec(self, k),
    {
        if self.kind.is_exactly(k) {
            self
        } else {
            TypeDef { fallible: true, ..self }
        }
    }

    /// Replaces the kind set by exactly `k`, leaving the flags unchanged.
    pub fn with_constraint(self, k: Kind) -> (r: TypeDef)
        ensures
            r.fallible == self.fallible,
            r.optional == self.optional,
            r.kind.is_exactly_spec(k),
            r.kind == KindSet::exactly_as_spec(k),
            r == with_constraint_spec(self, k),
    {
        TypeDef { kind: KindSet::exactly(k), ..self }
    }
}

/// The fallibility narrowing, as a spec-level function.
pub open spec fn fallible_unless_spec(t: TypeDef, k: Kind) -> TypeDef {
    TypeDef { fallible: t.fallible || !t.kind.is_exactly_spec(k), optional: t.optional, kind: t.kind }
}

/// The kind replacement, as a spec-level function.
pub open spec fn with_constraint_spec(t: TypeDef, k: Kind) -> TypeDef {
    TypeDef { fallible: t.fallible, optional: t.optional, kind: KindSet::exactly_as_spec(k) }
}

/// The merge of two descriptors, as a spec-level function.
pub open spec fn merge_spec(a: TypeDef, b: TypeDef) -> TypeDef {
    TypeDef {
        fallible: a.fallible || b.fallible,
        optional: a.optional || b.optional,
        kind: KindSet {
            null: a.kind.null || b.kind.null,
            boolean: a.kind.boolean || b.kind.boolean,
            integer: a.kind.integer || b.kind.integer,
            bytes: a.kind.bytes || b.kind.bytes,
        },
    }
}

/// Merging descriptors is commutative: the order of two sibling expressions
/// does not change the inferred descriptor.
pub proof fn lemma_merge_commutative(a: TypeDef, b: TypeDef)
    ensures
        merge_spec(a, b) == merge_spec(b, a),
{
}

/// Merging descriptors is associative: type inference over a chain of sibling
/// expressions is independent of grouping.
pub proof fn lemma_merge_associative(a: TypeDef, b: TypeDef, c: TypeDef)
    ensures
        merge_spec(merge_spec(a, b), c) == merge_spec(a, merge_spec(b, c)),
{
}

} // verus!
