//! Statements of the source language.
use vstd::prelude::*;
use crate::parser::expression::{copy_expr, copy_exprs, exprs_view, ExprV, Expression};
use crate::parser::types::{copy_type, Type};
use crate::util::text::copy_string;

verus! {

/// A function parameter.
#[derive(Debug, PartialEq)]
pub struct Parameter {
    pub name: String,
    pub param_type: Type,
}

/// A flag written after a function's parameter list, as in `#[no_stack]`.
#[derive(Debug, Clone, Copy, PartialEq, Eq, Structural)]
pub enum FunctionFlag {
    NoStack,
}

/// A statement.
#[derive(Debug, PartialEq)]
pub enum Statement {
    FunctionDecleration {
        return_type: Type,
        name: String,
        params: Vec<Parameter>,
        body: Vec<Statement>,
        flags: Vec<FunctionFlag>,
        line: usize,
    },
    FunctionCall { name: String, args: Vec<Expression>, line: usize },
    VariableDeclaration {
        var_name: String,
        var_type: Type,
        operation: Option<Expression>,
        line: usize,
    },
    Assign { var_name: String, value: Expression, line: usize },
    LValueAssign { target: Expression, value: Expression, line: usize },
    DerefAssign { target: Expression, value: Expression, line: usize },
    StructDef { name: String, fields: Vec<(String, Type, Option<usize>)> },
    If {
        label: String,
        condition: Expression,
        body: Vec<Statement>,
        else_label: Option<String>,
        else_body: Option<Vec<Statement>>,
    },
    While { body_label: String, body: Vec<Statement>, cond_label: String, condition: Expression },
    Block(Vec<Statement>),
    Assembly { body: Vec<String> },
    Return { return_value: Option<Expression> },
    NewLine,
}

impl Clone for Parameter {
    fn clone(&self) -> (r: Parameter)
        ensures
            r == *self,
    {
        Parameter { name: copy_string(&self.name), param_type: copy_type(&self.param_type) }
    }
}

/// A copy of a parameter list.
pub fn copy_params(v: &Vec<Parameter>) -> (r: Vec<Parameter>)
    ensures
        r@ == v@,
{
    let mut r: Vec<Parameter> = Vec::new();
    let mut i: usize = 0;
    while i < v.len()
        invariant
            i <= v@.len(),
            r@ == v@.subrange(0, i as int),
        decreases v@.len() - i,
    {
        r.push(v[i].clone());
        i += 1;
        assert(r@ =~= v@.subrange(0, i as int));
    }
    assert(v@.subrange(0, v@.len() as int) =~= v@);
    r
}

/// A copy of a list of strings.
pub fn copy_strings(v: &Vec<String>) -> (r: Vec<String>)
    ensures
        r@ == v@,
{
    let mut r: Vec<String> = Vec::new();
    let mut i: usize = 0;
    while i < v.len()
        invariant
            i <= v@.len(),
            r@ == v@.subrange(0, i as int),
        decreases v@.len() - i,
    {
        r.push(copy_string(&v[i]));
        i += 1;
        assert(r@ =~= v@.subrange(0, i as int));
    }
    assert(v@.subrange(0, v@.len() as int) =~= v@);
    r
}

/// An optional expression's value.
pub open spec fn opt_expr_view(e: Option<Expression>) -> Option<ExprV> {
    match e {
        Some(x) => Some(x@),
        None => None,
    }
}

/// A copy of an optional expression.
pub fn copy_opt_expr(e: &Option<Expression>) -> (r: Option<Expression>)
    ensures
        opt_expr_view(r) == opt_expr_view(*e),
{
    match e {
        Some(x) => Some(copy_expr(x)),
        None => None,
    }
}

} // verus!
