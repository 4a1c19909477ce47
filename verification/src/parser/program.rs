//! A parsed program.
use vstd::prelude::*;
use crate::parser::statement::Statement;

verus! {

/// The top-level statements of a program, in source order.
#[derive(Debug)]
pub struct Program {
    pub body: Vec<Statement>,
}

} // verus!
