//! The function framework: parameter declarations and keyword-addressed
//! argument resolution.
//!
//! A function declares its `Parameter`s: keyword, accepted value kinds, and
//! whether the argument is required. A caller supplies an `ArgumentList`,
//! a mapping from keyword to expression; compiling the call resolves each
//! declared parameter against it and fails on a missing required argument or
//! an argument of the wrong shape.

use vstd::prelude::*;
use vstd::string::*;
use crate::expression::Expr;
use crate::path::Path;
use crate::value::KindSet;

verus! {

/// A compile-time failure: compilation aborts and no program is produced.
#[derive(Clone, Copy, Debug, PartialEq, Eq, Structural)]
pub enum CompileError {
    /// A required argument was not supplied.
    MissingArgument,
    /// An argument that must be a path literal was some other expression.
    NotAPath,
}

impl CompileError {
    /// The human-readable cause of the failure.
    pub fn message(&self) -> &'static str {
        match self {
            CompileError::MissingArgument => "missing required argument",
            CompileError::NotAPath => "argument must be a path literal",
        }
    }
}

/// A declared parameter: its keyword, the value kinds it accepts, and
/// whether a call must supply it.
#[derive(Debug)]
pub struct Parameter {
    pub keyword: &'static str,
    pub accepts: KindSet,
    pub required: bool,
}

/// The index of the first entry carrying keyword `kw` at or after `i`.
pub open spec fn first_kw_from(s: Seq<(Vec<u8>, Expr)>, kw: Seq<u8>, i: int) -> Option<int>
    decreases s.len() - i,
{
    if i < 0 || i >= s.len() {
        None
    } else if s[i].0@ == kw {
        Some(i)
    } else {
        first_kw_from(s, kw, i + 1)
    }
}

/// Removing the first entry for `kw`: the entry's expression and the list
/// without it, or nothing when no entry carries `kw`.
pub open spec fn take_spec(s: Seq<(Vec<u8>, Expr)>, kw: Seq<u8>) -> Option<(Expr, Seq<(Vec<u8>, Expr)>)> {
    match first_kw_from(s, kw, 0) {
        None => None,
        Some(i) => Some((s[i].1, s.remove(i))),
    }
}

/// The caller-supplied arguments of one function call: keyword/expression
/// pairs, resolved and consumed during compilation.
#[derive(Debug)]
pub struct ArgumentList {
    entries: Vec<(Vec<u8>, Expr)>,
}

impl View for ArgumentList {
    type V = Seq<(Vec<u8>, Expr)>;

    closed spec fn view(&self) -> Seq<(Vec<u8>, Expr)> {
        self.entries@
    }
}

impl ArgumentList {
    /// An empty argument list.
    pub fn new() -> (r: ArgumentList)
        ensures
            r@ == Seq::<(Vec<u8>, Expr)>::empty(),
    {
        let r = ArgumentList { entries: Vec::new() };
        proof {
            assert(r@ =~= Seq::<(Vec<u8>, Expr)>::empty());
        }
        r
    }

    /// Supplies the argument `expr` under `keyword`.
    pub fn insert(&mut self, keyword: &str, expr: Expr)
        ensures
            final(self)@.len() == old(self)@.len() + 1,
            final(self)@.subrange(0, old(self)@.len() as int) == old(self)@,
            final(self)@.last().0@ == keyword.spec_bytes(),
            final(self)@.last().1 == expr,
    {
        let kb = keyword.as_bytes_vec();
        self.entries.push((kb, expr));
        proof {
            assert(self.entries@.subrange(0, old(self)@.len() as int) =~= old(self)@);
        }
    }

    /// Takes the first argument supplied under `keyword` out of the list.
    pub fn take(&mut self, keyword: &str) -> (r: Option<Expr>)
        ensures
            match take_spec(old(self)@, keyword.spec_bytes()) {
                None => r is None && final(self)@ == old(self)@,
                Some((e, rest)) => r == Some(e) && final(self)@ == rest,
            },
    {
        let kb = keyword.as_bytes_vec();
        let n = self.entries.len();
        let mut i: usize = 0;
        while i < n
            invariant
                i <= n,
                n == self.entries@.len(),
                self.entries@ == old(self)@,
                kb@ == keyword.spec_bytes(),
                forall|j: int| 0 <= j < i ==> (#[trigger] self.entries@[j]).0@ != kb@,
                first_kw_from(self.entries@, kb@, 0) == first_kw_from(self.entries@, kb@, i as int),
            decreases n - i,
        {
            if crate::path::starts_with_bytes(&self.entries[i].0, &kb) && crate::path::starts_with_bytes(
                &kb,
                &self.entries[i].0,
            ) {
                proof {
                    let ek = self.entries@[i as int].0@;
                    assert(ek.subrange(0, kb@.len() as int) == kb@);
                    assert(ek =~= kb@);
                    assert(first_kw_from(self.entries@, kb@, i as int) == Some(i as int));
                }
                let (_, e) = self.entries.remove(i);
                return Some(e);
            }
            proof {
                let ek = self.entries@[i as int].0@;
                if ek == kb@ {
                    crate::path::lemma_prefix_reflexive(kb@);
                }
            }
            i += 1;
        }
        None
    }

    /// Takes the argument under `keyword`, failing when it is absent.
    pub fn required_expr(&mut self, keyword: &str) -> (r: Result<Expr, CompileError>)
        ensures
            match take_spec(old(self)@, keyword.spec_bytes()) {
                None => r == Err::<Expr, CompileError>(CompileError::MissingArgument) && final(self)@
                    == old(self)@,
                Some((e, rest)) => r == Ok::<Expr, CompileError>(e) && final(self)@ == rest,
            },
    {
        match self.take(keyword) {
            Some(e) => Ok(e),
            None => Err(CompileError::MissingArgument),
        }
    }

    /// Takes the argument under `keyword` and insists it is a path literal;
    /// fails when it is absent or of another shape.
    pub fn required_path(&mut self, keyword: &str) -> (r: Result<Path, CompileError>)
        ensures
            match take_spec(old(self)@, keyword.spec_bytes()) {
                None => r == Err::<Path, CompileError>(CompileError::MissingArgument) && final(self)@
                    == old(self)@,
                Some((e, rest)) => match e {
                    Expr::Lookup(p) => r == Ok::<Path, CompileError>(p) && final(self)@ == rest,
                    _ => r == Err::<Path, CompileError>(CompileError::NotAPath) && final(self)@
                        == rest,
                },
            },
    {
        match self.take(keyword) {
            None => Err(CompileError::MissingArgument),
            Some(e) => match e {
                Expr::Lookup(p) => Ok(p),
                _ => Err(CompileError::NotAPath),
            },
        }
    }

    /// Takes the argument under `keyword` if it was supplied, insisting it is
    /// a path literal; an absent argument is no failure.
    pub fn optional_path(&mut self, keyword: &str) -> (r: Result<Option<Path>, CompileError>)
        ensures
            match take_spec(old(self)@, keyword.spec_bytes()) {
                None => r == Ok::<Option<Path>, CompileError>(None) && final(self)@ == old(self)@,
                Some((e, rest)) => match e {
                    Expr::Lookup(p) => r == Ok::<Option<Path>, CompileError>(Some(p))
                        && final(self)@ == rest,
                    _ => r == Err::<Option<Path>, CompileError>(CompileError::NotAPath)
                        && final(self)@ == rest,
                },
            },
    {
        match self.take(keyword) {
            None => Ok(None),
            Some(e) => match e {
                Expr::Lookup(p) => Ok(Some(p)),
                _ => Err(CompileError::NotAPath),
            },
        }
    }
}

} // verus!
