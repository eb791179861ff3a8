//! Failures of compiling and of running a unit.

use vstd::prelude::*;

verus! {

/// Why interpretation stopped; each kind carries a message for the reader.
#[derive(Debug)]
pub enum InterpretError {
    /// The source could not be compiled.
    CompileError(String),
    /// Execution of the bytecode could not go on.
    RuntimeError(String),
}

} // verus!
