//! The result of semantic analysis.
use vstd::prelude::*;
use crate::semantic::scope::Scope;
use crate::semantic::statement::SemanticStatement;
use crate::semantic::warning::SemanticWarning;

verus! {

/// An analyzed program: its scope table (scope 0 is the global scope), its
/// analyzed top-level statements, and the warnings found.
#[derive(Debug)]
pub struct SemanticProgram {
    pub scope_table: Vec<Scope>,
    pub body: Vec<SemanticStatement>,
    pub diagnostics: Vec<SemanticWarning>,
}

} // verus!
