//! A program in intermediate representation.
use vstd::prelude::*;
use crate::ir::instruction::IrFunction;

verus! {

/// The functions of a program, and its string constants as (label, text) pairs.
#[derive(Debug)]
pub struct IrProgram {
    pub functions: Vec<IrFunction>,
    pub strings: Vec<(String, String)>,
}

} // verus!
