//! Compilation errors.  Every violation is unrecoverable at detection: the
//! error is carried back through every parse call, and the compilation
//! produces no output.

use vstd::prelude::*;

verus! {

/// The three ways a compilation can fail.
#[derive(PartialEq, Eq, Structural, Clone, Copy, Debug)]
pub enum ErrorKind {
    /// A malformed or unrecognized tag or word sequence.
    Lexical,
    /// The token sequence violates the grammar at the current position.
    Syntax,
    /// A variable was referenced with no definition visible in scope.
    Semantic,
}

/// A fatal compilation error: its kind and the character position at which it
/// was detected.
#[derive(PartialEq, Eq, Structural, Clone, Copy, Debug)]
pub struct CompileError {
    pub kind: ErrorKind,
    pub at: usize,
}

impl CompileError {
    pub fn new(kind: ErrorKind, at: usize) -> (e: CompileError)
        ensures
            e.kind == kind,
            e.at == at,
    {
        CompileError { kind, at }
    }

    /// A short description of the error kind.
    pub fn describe(&self) -> (s: &'static str)
        ensures
            self.kind == ErrorKind::Lexical ==> s@ == "lexical error"@,
            self.kind == ErrorKind::Syntax ==> s@ == "syntax error"@,
            self.kind == ErrorKind::Semantic ==> s@ == "static semantic error"@,
    {
        match self.kind {
            ErrorKind::Lexical => "lexical error",
            ErrorKind::Syntax => "syntax error",
            ErrorKind::Semantic => "static semantic error",
        }
    }
}

} // verus!
