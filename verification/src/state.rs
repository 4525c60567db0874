//! Compile-time and runtime state.
//!
//! The two phases of the engine thread separate state so that they never
//! interfere: `Compiler` is consulted while descriptors are computed,
//! `Program` is threaded through execution. The representative nodes in this
//! crate consult neither; the two types anchor the signatures that every
//! expression shares.

use vstd::prelude::*;

verus! {

/// Compile-time state, passed to every `type_def` computation.
#[derive(Debug)]
pub struct Compiler {
    _private: (),
}

impl Compiler {
    /// A fresh compile-time state.
    pub fn new() -> Compiler {
        Compiler { _private: () }
    }
}

/// Runtime state, threaded through every `execute` call.
#[derive(Debug)]
pub struct Program {
    _private: (),
}

impl Program {
    /// A fresh runtime state.
    pub fn new() -> Program {
        Program { _private: () }
    }
}

} // verus!
