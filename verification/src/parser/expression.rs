//! Expressions of the source language.
use vstd::prelude::*;
use crate::parser::types::{copy_type, Type};
use crate::util::text::copy_string;

verus! {

/// A binary operator.
#[derive(Debug, Clone, Copy, PartialEq, Eq, Structural)]
pub enum BinaryOperator {
    Add,
    Sub,
    Mul,
    Div,
    Eq,
    NotEq,
    Lt,
    Gt,
    LtEq,
    GtEq,
    And,
    Or,
}

/// A unary operator: logical not, dereference (`%`), address-of (`&`) and
/// negation (`-`).
#[derive(Debug, Clone, Copy, PartialEq, Eq, Structural)]
pub enum UnaryOperator {
    Not,
    Deref,
    AddressOf,
    Neg,
}

/// An expression.
#[derive(Debug, PartialEq)]
pub enum Expression {
    Integer(i32),
    Bool(bool),
    String(String),
    Identifier(String),
    BinaryOperation { op: BinaryOperator, left: Box<Expression>, right: Box<Expression> },
    UnaryOperation { op: UnaryOperator, operand: Box<Expression> },
    FunctionCall { return_type: Option<Type>, name: String, args: Vec<Expression> },
    FieldAccess { base: Box<Expression>, field: String },
    Index { base: Box<Expression>, index: Box<Expression> },
    Array { values: Vec<Box<Expression>>, size: usize },
    SizeOf(Type),
}

/// The mathematical value of an expression: names as character sequences and
/// argument lists as sequences.
pub enum ExprV {
    Integer(i32),
    Bool(bool),
    String(Seq<char>),
    Identifier(Seq<char>),
    BinaryOperation { op: BinaryOperator, left: Box<ExprV>, right: Box<ExprV> },
    UnaryOperation { op: UnaryOperator, operand: Box<ExprV> },
    FunctionCall { return_type: Option<Type>, name: Seq<char>, args: Seq<ExprV> },
    FieldAccess { base: Box<ExprV>, field: Seq<char> },
    Index { base: Box<ExprV>, index: Box<ExprV> },
    Array { values: Seq<ExprV>, size: usize },
    SizeOf(Type),
}

/// The values of a list of expressions.
pub open spec fn exprs_view(s: Seq<Expression>) -> Seq<ExprV>
    decreases s,
{
    if s.len() == 0 {
        Seq::empty()
    } else {
        exprs_view(s.drop_last()).push(expr_view(s.last()))
    }
}

/// The values of a list of boxed expressions.
pub open spec fn boxed_exprs_view(s: Seq<Box<Expression>>) -> Seq<ExprV>
    decreases s,
{
    if s.len() == 0 {
        Seq::empty()
    } else {
        boxed_exprs_view(s.drop_last()).push(expr_view(*s.last()))
    }
}

/// `exprs_view` is elementwise.
pub proof fn lemma_exprs_view_index(s: Seq<Expression>)
    ensures
        exprs_view(s).len() == s.len(),
        forall|k: int| 0 <= k < s.len() ==> #[trigger] exprs_view(s)[k] == expr_view(s[k]),
    decreases s.len(),
{
    if s.len() > 0 {
        lemma_exprs_view_index(s.drop_last());
    }
}

/// `boxed_exprs_view` is elementwise.
pub proof fn lemma_boxed_exprs_view_index(s: Seq<Box<Expression>>)
    ensures
        boxed_exprs_view(s).len() == s.len(),
        forall|k: int| 0 <= k < s.len() ==> #[trigger] boxed_exprs_view(s)[k] == expr_view(*s[k]),
    decreases s.len(),
{
    if s.len() > 0 {
        lemma_boxed_exprs_view_index(s.drop_last());
    }
}

/// The value of an expression.
pub open spec fn expr_view(e: Expression) -> ExprV
    decreases e,
{
    match e {
        Expression::Integer(n) => ExprV::Integer(n),
        Expression::Bool(b) => ExprV::Bool(b),
        Expression::String(s) => ExprV::String(s@),
        Expression::Identifier(s) => ExprV::Identifier(s@),
        Expression::BinaryOperation { op, left, right } => ExprV::BinaryOperation {
            op,
            left: Box::new(expr_view(*left)),
            right: Box::new(expr_view(*right)),
        },
        Expression::UnaryOperation { op, operand } => ExprV::UnaryOperation {
            op,
            operand: Box::new(expr_view(*operand)),
        },
        Expression::FunctionCall { return_type, name, args } => ExprV::FunctionCall {
            return_type,
            name: name@,
            args: exprs_view(args@),
        },
        Expression::FieldAccess { base, field } => ExprV::FieldAccess {
            base: Box::new(expr_view(*base)),
            field: field@,
        },
        Expression::Index { base, index } => ExprV::Index {
            base: Box::new(expr_view(*base)),
            index: Box::new(expr_view(*index)),
        },
        Expression::Array { values, size } => ExprV::Array {
            values: boxed_exprs_view(values@),
            size,
        },
        Expression::SizeOf(t) => ExprV::SizeOf(t),
    }
}

impl View for Expression {
    type V = ExprV;

    open spec fn view(&self) -> ExprV {
        expr_view(*self)
    }
}

/// A copy of a list of expressions.
pub fn copy_exprs(v: &Vec<Expression>) -> (r: Vec<Expression>)
    ensures
        exprs_view(r@) == exprs_view(v@),
        r@.len() == v@.len(),
    decreases v,
{
    let mut r: Vec<Expression> = Vec::new();
    let mut i: usize = 0;
    while i < v.len()
        invariant
            i <= v@.len(),
            r@.len() == i,
            exprs_view(r@) == exprs_view(v@.subrange(0, i as int)),
        decreases v@.len() - i,
    {
        proof {
            assert(decreases_to!(v => v@));
            assert(decreases_to!(v@ => v@[i as int]));
        }
        let e = copy_expr(&v[i]);
        let ghost before = r@;
        r.push(e);
        assert(r@.drop_last() =~= before);
        proof {
            assert(v@.subrange(0, i + 1).drop_last() =~= v@.subrange(0, i as int));
            
        }
        i += 1;
    }
    assert(v@.subrange(0, v@.len() as int) =~= v@);
    r
}

/// A copy of a list of boxed expressions.
pub fn copy_boxed_exprs(v: &Vec<Box<Expression>>) -> (r: Vec<Box<Expression>>)
    ensures
        boxed_exprs_view(r@) == boxed_exprs_view(v@),
        r@.len() == v@.len(),
    decreases v,
{
    let mut r: Vec<Box<Expression>> = Vec::new();
    let mut i: usize = 0;
    while i < v.len()
        invariant
            i <= v@.len(),
            r@.len() == i,
            boxed_exprs_view(r@) == boxed_exprs_view(v@.subrange(0, i as int)),
        decreases v@.len() - i,
    {
        proof {
            assert(decreases_to!(v => v@));
            assert(decreases_to!(v@ => v@[i as int]));
        }
        let e = copy_expr(&v[i]);
        let ghost before = r@;
        r.push(Box::new(e));
        proof {
            assert(v@.subrange(0, i + 1).drop_last() =~= v@.subrange(0, i as int));
            assert(r@.drop_last() =~= before);
        }
        i += 1;
    }
    assert(v@.subrange(0, v@.len() as int) =~= v@);
    r
}

/// A copy of an expression.
pub fn copy_expr(e: &Expression) -> (r: Expression)
    ensures
        r@ == e@,
    decreases e,
{
    match e {
        Expression::Integer(n) => Expression::Integer(*n),
        Expression::Bool(b) => Expression::Bool(*b),
        Expression::String(s) => Expression::String(copy_string(s)),
        Expression::Identifier(s) => Expression::Identifier(copy_string(s)),
        Expression::BinaryOperation { op, left, right } => Expression::BinaryOperation {
            op: *op,
            left: Box::new(copy_expr(left)),
            right: Box::new(copy_expr(right)),
        },
        Expression::UnaryOperation { op, operand } => Expression::UnaryOperation {
            op: *op,
            operand: Box::new(copy_expr(operand)),
        },
        Expression::FunctionCall { return_type, name, args } => {
            let rt = match return_type {
                Some(t) => Some(copy_type(t)),
                None => None,
            };
            Expression::FunctionCall { return_type: rt, name: copy_string(name), args: copy_exprs(args) }
        },
        Expression::FieldAccess { base, field } => Expression::FieldAccess {
            base: Box::new(copy_expr(base)),
            field: copy_string(field),
        },
        Expression::Index { base, index } => Expression::Index {
            base: Box::new(copy_expr(base)),
            index: Box::new(copy_expr(index)),
        },
        Expression::Array { values, size } => Expression::Array {
            values: copy_boxed_exprs(values),
            size: *size,
        },
        Expression::SizeOf(t) => Expression::SizeOf(copy_type(t)),
    }
}

impl Clone for Expression {
    fn clone(&self) -> (r: Expression)
        ensures
            r@ == self@,
    {
        copy_expr(self)
    }
}

/// Comparison operators produce a boolean.
pub open spec fn is_comparison(op: BinaryOperator) -> bool {
    op == BinaryOperator::Eq || op == BinaryOperator::NotEq || op == BinaryOperator::Lt || op
        == BinaryOperator::Gt || op == BinaryOperator::LtEq || op == BinaryOperator::GtEq
}

/// Logical operators take and produce booleans.
pub open spec fn is_logical(op: BinaryOperator) -> bool {
    op == BinaryOperator::And || op == BinaryOperator::Or
}

/// Arithmetic operators.
pub open spec fn is_arithmetic(op: BinaryOperator) -> bool {
    op == BinaryOperator::Add || op == BinaryOperator::Sub || op == BinaryOperator::Mul || op
        == BinaryOperator::Div
}

} // verus!
