//! Boolean negation.
//!
//! `Not` coerces its operand to a boolean and returns the logical negation;
//! a non-boolean operand fails with a value error. Its descriptor is fixed:
//! fallible (the coercion can always fail), optional, boolean-kinded.

use vstd::prelude::*;
use crate::expression::Expr;
use crate::expression::RuntimeError;
use crate::expression::eval_spec;
use crate::expression::type_def_spec;
use crate::state::Compiler;
use crate::typedef::TypeDef;
use crate::value::Kind;
use crate::value::KindSet;
use crate::value::ValueError;
use crate::value::ValueV;
use crate::value::kind_of;

verus! {

/// The error a negation can raise: a kind-coercion failure of its operand.
#[derive(Clone, Copy, Debug, PartialEq, Eq, Structural)]
pub enum Error {
    Value(ValueError),
}

impl Error {
    /// The human-readable cause of the failure.
    pub fn message(&self) -> &'static str {
        "value error"
    }

    /// This failure as the engine's runtime error.
    pub fn into_runtime(self) -> (r: RuntimeError)
        ensures
            match self {
                Error::Value(e) => r == RuntimeError::Value(e),
            },
    {
        match self {
            Error::Value(e) => RuntimeError::Value(e),
        }
    }
}

/// The boolean-negation node.
#[derive(Debug)]
pub struct Not {
    pub expression: Box<Expr>,
}

impl Not {
    /// A negation of the given operand.
    pub fn new(expression: Box<Expr>) -> (r: Not)
        ensures
            r.expression == expression,
    {
        Not { expression }
    }

    /// The descriptor of a negation, irrespective of its operand: the boolean
    /// coercion can always fail and the operand's optionality propagates, so
    /// it is fallible and optional, with boolean kind.
    pub fn type_def(&self, _state: &Compiler) -> (t: TypeDef)
        ensures
            t == type_def_spec(Expr::Not(*self)),
            t == (TypeDef {
                fallible: true,
                optional: true,
                kind: KindSet::exactly_as_spec(Kind::Boolean),
            }),
    {
        TypeDef { fallible: true, optional: true, kind: KindSet::exactly(Kind::Boolean) }
    }
}

/// Negation semantics: when the operand produces a boolean, the node
/// produces its logical negation; when the operand produces a value of any
/// other kind, the node fails with a value error; an operand failure passes
/// through. The record is left exactly as the operand left it.
pub proof fn lemma_not_semantics(n: Not, m: Map<Seq<u8>, ValueV>)
    ensures
        ({
            let (r0, m0) = eval_spec(*n.expression, m);
            let (r, m1) = eval_spec(Expr::Not(n), m);
            m1 == m0 && match r0 {
                Ok(v) => match v {
                    ValueV::Boolean(b) => r == Ok::<ValueV, RuntimeError>(ValueV::Boolean(!b)),
                    _ => r == Err::<ValueV, RuntimeError>(
                        RuntimeError::Value(
                            ValueError { expected: Kind::Boolean, got: kind_of(v) },
                        ),
                    ),
                },
                Err(e) => r == Err::<ValueV, RuntimeError>(e),
            }
        }),
{
}

} // verus!
