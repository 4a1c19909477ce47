//! The grammar the parser implements, as functions from a token list and a
//! parsing state (position, line, label counter) to what is parsed and the
//! state after it, or the error reported where the tokens do not parse.
use vstd::prelude::*;
use crate::lexer::token::{token_debug, Token};
use crate::parser::expression::{BinaryOperator, ExprV, UnaryOperator};
use crate::parser::labels::label_text;
use crate::parser::parser::spec_tag;
use crate::parser::statement::{opt_expr_view, FunctionFlag, Parameter, Statement};
use crate::parser::expression::expr_view;
use crate::parser::types::Type;
use crate::util::error::ErrV;

verus! {

/// Where parsing stands: the next token's index, the line, and the number
/// of the next label to generate.
pub struct PState {
    pub pos: int,
    pub line: int,
    pub labels: int,
}

/// A parse error with message `m` on the line of state `st`.
pub open spec fn perr(m: Seq<char>, st: PState) -> ErrV {
    ErrV::Parse(m, st.line as usize)
}

/// The error of a state the parser never reaches from a well-formed start
/// (the position off the tokens, or a step that does not move on); it only
/// gives those cases a value.
pub open spec fn stuck(st: PState) -> ErrV {
    ErrV::Parse(Seq::empty(), st.line as usize)
}

/// The token a variant number stands for, among those the parser expects by
/// variant: `=`, brackets and `;`.
pub open spec fn tag_token(k: u8) -> Token {
    if k == 18 {
        Token::Equal
    } else if k == 39 {
        Token::LeftParen
    } else if k == 40 {
        Token::RightParen
    } else if k == 41 {
        Token::LeftBrace
    } else if k == 42 {
        Token::RightBrace
    } else if k == 43 {
        Token::LeftBracket
    } else if k == 44 {
        Token::RightBracket
    } else {
        Token::Semicolon
    }
}

/// The variant number of the token at the position.
pub open spec fn tag_at(ts: Seq<Token>, st: PState) -> u8 {
    spec_tag(ts[st.pos])
}

/// One token on; the last token is never passed.
pub open spec fn adv(ts: Seq<Token>, st: PState) -> PState {
    PState { pos: if st.pos < ts.len() - 1 { st.pos + 1 } else { st.pos }, ..st }
}

/// The expected token (by variant number `k`), after any line breaks,
/// which are counted.
pub open spec fn expect_g(ts: Seq<Token>, st: PState, k: u8) -> Result<PState, ErrV>
    decreases ts.len() - st.pos,
{
    if !(0 <= st.pos < ts.len()) {
        Err(stuck(st))
    } else if tag_at(ts, st) == k {
        Ok(adv(ts, st))
    } else if tag_at(ts, st) == 50 && st.pos + 1 < ts.len() {
        expect_g(ts, PState { line: st.line + 1, ..adv(ts, st) }, k)
    } else {
        Err(perr("Expected "@ + token_debug(tag_token(k)) + ", found "@ + token_debug(ts[st.pos]), st))
    }
}

/// An identifier.
pub open spec fn ident_g(ts: Seq<Token>, st: PState) -> Result<(String, PState), ErrV> {
    if !(0 <= st.pos < ts.len()) {
        Err(stuck(st))
    } else if ts[st.pos] is Identifier {
        Ok((ts[st.pos]->Identifier_0, adv(ts, st)))
    } else {
        Err(perr("Expected identifier, found "@ + token_debug(ts[st.pos]), st))
    }
}

/// The `%` suffixes of a type: one pointer level each.
pub open spec fn ptr_tail(ts: Seq<Token>, st: PState, ty: Type) -> Result<(Type, PState), ErrV>
    decreases ts.len() - st.pos,
{
    if !(0 <= st.pos < ts.len()) {
        Err(stuck(st))
    } else if tag_at(ts, st) == 23 {
        if st.pos + 1 < ts.len() {
            ptr_tail(ts, adv(ts, st), Type::Pointer(Box::new(ty)))
        } else {
            Err(stuck(st))
        }
    } else {
        Ok((ty, st))
    }
}

/// A type: a base type or a struct name, then `%` per pointer level.
pub open spec fn type_g(ts: Seq<Token>, st: PState) -> Result<(Type, PState), ErrV> {
    if !(0 <= st.pos < ts.len()) {
        Err(stuck(st))
    } else {
        let base = match ts[st.pos] {
            Token::Void => Some(Type::Void),
            Token::I8 => Some(Type::Int8),
            Token::I16 => Some(Type::Int16),
            Token::I32 => Some(Type::Int32),
            Token::Bool => Some(Type::Bool),
            Token::Identifier(name) => Some(Type::Struct(name)),
            _ => None,
        };
        match base {
            Some(b) => ptr_tail(ts, adv(ts, st), b),
            None => Err(perr("Expected type, found "@ + token_debug(ts[st.pos]), st)),
        }
    }
}

/// A parameter list's remaining entries `type name`, comma separated.
pub open spec fn params_tail(ts: Seq<Token>, st: PState, acc: Seq<Parameter>) -> Result<(Seq<Parameter>, PState), ErrV>
    decreases ts.len() - st.pos,
{
    match type_g(ts, st) {
        Ok((ty, st1)) => match ident_g(ts, st1) {
            Ok((name, st2)) => {
                let acc2 = acc.push(Parameter { name, param_type: ty });
                if 0 <= st2.pos < ts.len() && tag_at(ts, st2) == 46 {
                    let st3 = adv(ts, st2);
                    if st.pos < st3.pos && st3.pos <= ts.len() {
                        params_tail(ts, st3, acc2)
                    } else {
                        Err(stuck(st))
                    }
                } else {
                    Ok((acc2, st2))
                }
            },
            Err(e) => Err(e),
        },
        Err(e) => Err(e),
    }
}

/// A parameter list, possibly empty, up to `)`.
pub open spec fn params_g(ts: Seq<Token>, st: PState) -> Result<(Seq<Parameter>, PState), ErrV> {
    if 0 <= st.pos < ts.len() && tag_at(ts, st) == 40 {
        Ok((Seq::empty(), st))
    } else {
        params_tail(ts, st, Seq::empty())
    }
}

// ---------------------------------------------------------------------------
// Expressions

/// An expression.
pub open spec fn expr_g(ts: Seq<Token>, st: PState) -> Result<(ExprV, PState), ErrV>
    decreases ts.len() - st.pos, 7nat,
{
    logical_g(ts, st)
}

/// `&&` / `||` chains, left-associative.
pub open spec fn logical_g(ts: Seq<Token>, st: PState) -> Result<(ExprV, PState), ErrV>
    decreases ts.len() - st.pos, 6nat,
{
    match comparison_g(ts, st) {
        Ok((left, st1)) => if st.pos < st1.pos && st1.pos <= ts.len() {
            logical_tail(ts, st1, left)
        } else {
            Err(stuck(st))
        },
        Err(e) => Err(e),
    }
}

/// The rest of a `&&` / `||` chain after `left`.
pub open spec fn logical_tail(ts: Seq<Token>, st: PState, left: ExprV) -> Result<(ExprV, PState), ErrV>
    decreases ts.len() - st.pos, 0nat,
{
    if !(0 <= st.pos < ts.len()) {
        Err(stuck(st))
    } else {
        let k = tag_at(ts, st);
        if k != 37 && k != 38 {
            Ok((left, st))
        } else {
            let op = if k == 37 { BinaryOperator::And } else { BinaryOperator::Or };
            let st1 = adv(ts, st);
            if st.pos < st1.pos && st1.pos <= ts.len() {
                match comparison_g(ts, st1) {
                    Ok((right, st2)) => if st1.pos < st2.pos && st2.pos <= ts.len() {
                        logical_tail(ts, st2, ExprV::BinaryOperation { op, left: Box::new(left), right: Box::new(right) })
                    } else {
                        Err(stuck(st))
                    },
                    Err(e) => Err(e),
                }
            } else {
                Err(stuck(st))
            }
        }
    }
}

/// Comparison chains, left-associative.
pub open spec fn comparison_g(ts: Seq<Token>, st: PState) -> Result<(ExprV, PState), ErrV>
    decreases ts.len() - st.pos, 5nat,
{
    match additive_g(ts, st) {
        Ok((left, st1)) => if st.pos < st1.pos && st1.pos <= ts.len() {
            comparison_tail(ts, st1, left)
        } else {
            Err(stuck(st))
        },
        Err(e) => Err(e),
    }
}

/// The comparison operator of a token variant number.
pub open spec fn comparison_op(k: u8) -> Option<BinaryOperator> {
    if k == 31 {
        Some(BinaryOperator::Eq)
    } else if k == 32 {
        Some(BinaryOperator::NotEq)
    } else if k == 33 {
        Some(BinaryOperator::Lt)
    } else if k == 34 {
        Some(BinaryOperator::Gt)
    } else if k == 35 {
        Some(BinaryOperator::LtEq)
    } else if k == 36 {
        Some(BinaryOperator::GtEq)
    } else {
        None
    }
}

/// The rest of a comparison chain after `left`.
pub open spec fn comparison_tail(ts: Seq<Token>, st: PState, left: ExprV) -> Result<(ExprV, PState), ErrV>
    decreases ts.len() - st.pos, 0nat,
{
    if !(0 <= st.pos < ts.len()) {
        Err(stuck(st))
    } else {
        match comparison_op(tag_at(ts, st)) {
            None => Ok((left, st)),
            Some(op) => {
                let st1 = adv(ts, st);
                if st.pos < st1.pos && st1.pos <= ts.len() {
                    match additive_g(ts, st1) {
                        Ok((right, st2)) => if st1.pos < st2.pos && st2.pos <= ts.len() {
                            comparison_tail(ts, st2, ExprV::BinaryOperation { op, left: Box::new(left), right: Box::new(right) })
                        } else {
                            Err(stuck(st))
                        },
                        Err(e) => Err(e),
                    }
                } else {
                    Err(stuck(st))
                }
            },
        }
    }
}

/// `+` / `-` chains, left-associative.
pub open spec fn additive_g(ts: Seq<Token>, st: PState) -> Result<(ExprV, PState), ErrV>
    decreases ts.len() - st.pos, 4nat,
{
    match multiplicative_g(ts, st) {
        Ok((left, st1)) => if st.pos < st1.pos && st1.pos <= ts.len() {
            additive_tail(ts, st1, left)
        } else {
            Err(stuck(st))
        },
        Err(e) => Err(e),
    }
}

/// The rest of a `+` / `-` chain after `left`.
pub open spec fn additive_tail(ts: Seq<Token>, st: PState, left: ExprV) -> Result<(ExprV, PState), ErrV>
    decreases ts.len() - st.pos, 0nat,
{
    if !(0 <= st.pos < ts.len()) {
        Err(stuck(st))
    } else {
        let k = tag_at(ts, st);
        if k != 19 && k != 20 {
            Ok((left, st))
        } else {
            let op = if k == 19 { BinaryOperator::Add } else { BinaryOperator::Sub };
            let st1 = adv(ts, st);
            if st.pos < st1.pos && st1.pos <= ts.len() {
                match multiplicative_g(ts, st1) {
                    Ok((right, st2)) => if st1.pos < st2.pos && st2.pos <= ts.len() {
                        additive_tail(ts, st2, ExprV::BinaryOperation { op, left: Box::new(left), right: Box::new(right) })
                    } else {
                        Err(stuck(st))
                    },
                    Err(e) => Err(e),
                }
            } else {
                Err(stuck(st))
            }
        }
    }
}

/// `*` / `/` chains, left-associative; each right operand is a primary
/// expression.
pub open spec fn multiplicative_g(ts: Seq<Token>, st: PState) -> Result<(ExprV, PState), ErrV>
    decreases ts.len() - st.pos, 3nat,
{
    match unary_g(ts, st) {
        Ok((left, st1)) => if st.pos < st1.pos && st1.pos <= ts.len() {
            multiplicative_tail(ts, st1, left)
        } else {
            Err(stuck(st))
        },
        Err(e) => Err(e),
    }
}

/// The rest of a `*` / `/` chain after `left`.
pub open spec fn multiplicative_tail(ts: Seq<Token>, st: PState, left: ExprV) -> Result<(ExprV, PState), ErrV>
    decreases ts.len() - st.pos, 0nat,
{
    if !(0 <= st.pos < ts.len()) {
        Err(stuck(st))
    } else {
        let k = tag_at(ts, st);
        if k != 21 && k != 22 {
            Ok((left, st))
        } else {
            let op = if k == 21 { BinaryOperator::Mul } else { BinaryOperator::Div };
            let st1 = adv(ts, st);
            if st.pos < st1.pos && st1.pos <= ts.len() {
                match primary_g(ts, st1) {
                    Ok((right, st2)) => if st1.pos < st2.pos && st2.pos <= ts.len() {
                        multiplicative_tail(ts, st2, ExprV::BinaryOperation { op, left: Box::new(left), right: Box::new(right) })
                    } else {
                        Err(stuck(st))
                    },
                    Err(e) => Err(e),
                }
            } else {
                Err(stuck(st))
            }
        }
    }
}

/// The prefix operator of a token variant number: `!`, `%`, `&`, `-`.
pub open spec fn prefix_op(k: u8) -> Option<UnaryOperator> {
    if k == 28 {
        Some(UnaryOperator::Not)
    } else if k == 23 {
        Some(UnaryOperator::Deref)
    } else if k == 29 {
        Some(UnaryOperator::AddressOf)
    } else if k == 20 {
        Some(UnaryOperator::Neg)
    } else {
        None
    }
}

/// Prefix operators, then a primary expression with its `[index]` and
/// `.field` suffixes.
pub open spec fn unary_g(ts: Seq<Token>, st: PState) -> Result<(ExprV, PState), ErrV>
    decreases ts.len() - st.pos, 2nat,
{
    if !(0 <= st.pos < ts.len()) {
        Err(stuck(st))
    } else {
        match prefix_op(tag_at(ts, st)) {
            Some(op) => {
                let st1 = adv(ts, st);
                if st.pos < st1.pos && st1.pos <= ts.len() {
                    match unary_g(ts, st1) {
                        Ok((operand, st2)) => Ok((ExprV::UnaryOperation { op, operand: Box::new(operand) }, st2)),
                        Err(e) => Err(e),
                    }
                } else {
                    Err(stuck(st))
                }
            },
            None => match primary_g(ts, st) {
                Ok((e, st1)) => if st.pos < st1.pos && st1.pos <= ts.len() {
                    suffix_tail(ts, st1, e)
                } else {
                    Err(stuck(st))
                },
                Err(e) => Err(e),
            },
        }
    }
}

/// The `[index]` and `.field` suffixes after `e`.
pub open spec fn suffix_tail(ts: Seq<Token>, st: PState, e: ExprV) -> Result<(ExprV, PState), ErrV>
    decreases ts.len() - st.pos, 0nat,
{
    if !(0 <= st.pos < ts.len()) {
        Err(stuck(st))
    } else {
        let k = tag_at(ts, st);
        let st1 = adv(ts, st);
        if k == 43 {
            if st.pos < st1.pos && st1.pos <= ts.len() {
                match expr_g(ts, st1) {
                    Ok((index, st2)) => match expect_g(ts, st2, 44) {
                        Ok(st3) => if st1.pos < st3.pos && st3.pos <= ts.len() {
                            suffix_tail(ts, st3, ExprV::Index { base: Box::new(e), index: Box::new(index) })
                        } else {
                            Err(stuck(st))
                        },
                        Err(e) => Err(e),
                    },
                    Err(e) => Err(e),
                }
            } else {
                Err(stuck(st))
            }
        } else if k == 47 {
            if st.pos < st1.pos && st1.pos <= ts.len() {
                match ident_g(ts, st1) {
                    Ok((field, st2)) => suffix_tail(ts, st2, ExprV::FieldAccess { base: Box::new(e), field: field@ }),
                    Err(e) => Err(e),
                }
            } else {
                Err(stuck(st))
            }
        } else {
            Ok((e, st))
        }
    }
}

/// Call arguments from the first one on: expressions separated by commas.
pub open spec fn args_tail(ts: Seq<Token>, st: PState, acc: Seq<ExprV>) -> Result<(Seq<ExprV>, PState), ErrV>
    decreases ts.len() - st.pos, 8nat,
{
    match expr_g(ts, st) {
        Ok((a, st1)) => {
            let acc2 = acc.push(a);
            if 0 <= st1.pos < ts.len() && tag_at(ts, st1) == 46 {
                let st2 = adv(ts, st1);
                if st.pos < st2.pos && st2.pos <= ts.len() {
                    args_tail(ts, st2, acc2)
                } else {
                    Err(stuck(st))
                }
            } else {
                Ok((acc2, st1))
            }
        },
        Err(e) => Err(e),
    }
}

/// A call's argument list after `(`, up to and including `)`.
pub open spec fn call_args_g(ts: Seq<Token>, st: PState) -> Result<(Seq<ExprV>, PState), ErrV>
    decreases ts.len() - st.pos, 9nat,
{
    if !(0 <= st.pos < ts.len()) {
        Err(stuck(st))
    } else {
        let args = if tag_at(ts, st) != 40 {
            args_tail(ts, st, Seq::empty())
        } else {
            Ok((Seq::empty(), st))
        };
        match args {
            Ok((a, st1)) => match expect_g(ts, st1, 40) {
                Ok(st2) => Ok((a, st2)),
                Err(e) => Err(e),
            },
            Err(e) => Err(e),
        }
    }
}

/// The values of an array literal after `{`, up to the `}`, with commas
/// between them optional; also their count.
pub open spec fn array_tail(ts: Seq<Token>, st: PState, acc: Seq<ExprV>) -> Result<(Seq<ExprV>, PState), ErrV>
    decreases ts.len() - st.pos, 8nat,
{
    if !(0 <= st.pos < ts.len()) {
        Err(stuck(st))
    } else if tag_at(ts, st) == 42 {
        Ok((acc, st))
    } else {
        match expr_g(ts, st) {
            Ok((e, st1)) => {
                let st2 = if 0 <= st1.pos < ts.len() && tag_at(ts, st1) == 46 { adv(ts, st1) } else { st1 };
                if st.pos < st2.pos && st2.pos <= ts.len() {
                    array_tail(ts, st2, acc.push(e))
                } else {
                    Err(stuck(st))
                }
            },
            Err(e) => Err(e),
        }
    }
}

/// A literal, `sizeof` type, name, call, parenthesized expression or array
/// literal.
pub open spec fn primary_g(ts: Seq<Token>, st: PState) -> Result<(ExprV, PState), ErrV>
    decreases ts.len() - st.pos, 1nat,
{
    if !(0 <= st.pos < ts.len()) {
        Err(stuck(st))
    } else {
        let st1 = adv(ts, st);
        match ts[st.pos] {
            Token::IntegerLiteral(n) => Ok((ExprV::Integer(n), st1)),
            Token::BoolLiteral(b) => Ok((ExprV::Bool(b), st1)),
            Token::StringLiteral(s) => Ok((ExprV::String(s@), st1)),
            Token::SizeOf => match type_g(ts, st1) {
                Ok((t, st2)) => Ok((ExprV::SizeOf(t), st2)),
                Err(e) => Err(e),
            },
            Token::Identifier(name) => if 0 <= st1.pos < ts.len() && tag_at(ts, st1) == 39 {
                let st2 = adv(ts, st1);
                if st.pos < st2.pos && st2.pos <= ts.len() {
                    match call_args_g(ts, st2) {
                        Ok((args, st3)) => Ok((ExprV::FunctionCall { return_type: None, name: name@, args }, st3)),
                        Err(e) => Err(e),
                    }
                } else {
                    Err(stuck(st))
                }
            } else {
                Ok((ExprV::Identifier(name@), st1))
            },
            Token::LeftParen => if st.pos < st1.pos && st1.pos <= ts.len() {
                match expr_g(ts, st1) {
                    Ok((e, st2)) => match expect_g(ts, st2, 40) {
                        Ok(st3) => Ok((e, st3)),
                        Err(e) => Err(e),
                    },
                    Err(e) => Err(e),
                }
            } else {
                Err(stuck(st))
            },
            Token::LeftBrace => if st.pos < st1.pos && st1.pos <= ts.len() {
                match array_tail(ts, st1, Seq::empty()) {
                    Ok((vals, st2)) => match expect_g(ts, st2, 42) {
                        Ok(st3) => Ok((ExprV::Array { values: vals, size: vals.len() as usize }, st3)),
                        Err(e) => Err(e),
                    },
                    Err(e) => Err(e),
                }
            } else {
                Err(stuck(st))
            },
            _ => Err(perr(token_debug(ts[st.pos]) + " not implemented in parse_primary"@, st)),
        }
    }
}


// ---------------------------------------------------------------------------
// Statements

/// The mathematical value of a statement: names and labels as character
/// sequences, lists as sequences.
pub enum StmtV {
    FunctionDecleration {
        return_type: Type,
        name: Seq<char>,
        params: Seq<Parameter>,
        body: Seq<StmtV>,
        flags: Seq<FunctionFlag>,
        line: usize,
    },
    FunctionCall { name: Seq<char>, args: Seq<ExprV>, line: usize },
    VariableDeclaration { var_name: Seq<char>, var_type: Type, operation: Option<ExprV>, line: usize },
    Assign { var_name: Seq<char>, value: ExprV, line: usize },
    LValueAssign { target: ExprV, value: ExprV, line: usize },
    DerefAssign { target: ExprV, value: ExprV, line: usize },
    StructDef { name: Seq<char>, fields: Seq<(Seq<char>, Type, Option<usize>)> },
    If {
        label: Seq<char>,
        condition: ExprV,
        body: Seq<StmtV>,
        else_label: Option<Seq<char>>,
        else_body: Option<Seq<StmtV>>,
    },
    While { body_label: Seq<char>, body: Seq<StmtV>, cond_label: Seq<char>, condition: ExprV },
    Block(Seq<StmtV>),
    Assembly { body: Seq<Seq<char>> },
    Return { return_value: Option<ExprV> },
    NewLine,
}

/// The values of a list of statements.
pub open spec fn stmts_view(ss: Seq<Statement>) -> Seq<StmtV>
    decreases ss,
{
    if ss.len() == 0 {
        Seq::empty()
    } else {
        stmts_view(ss.drop_last()).push(stmt_view(ss.last()))
    }
}

/// The value of a struct field list.
pub open spec fn fields_view(fs: Seq<(String, Type, Option<usize>)>) -> Seq<(Seq<char>, Type, Option<usize>)> {
    fs.map_values(|f: (String, Type, Option<usize>)| (f.0@, f.1, f.2))
}

/// The value of a statement.
pub open spec fn stmt_view(s: Statement) -> StmtV
    decreases s,
{
    match s {
        Statement::FunctionDecleration { return_type, name, params, body, flags, line } => StmtV::FunctionDecleration {
            return_type,
            name: name@,
            params: params@,
            body: stmts_view(body@),
            flags: flags@,
            line,
        },
        Statement::FunctionCall { name, args, line } => StmtV::FunctionCall { name: name@, args: crate::parser::expression::exprs_view(args@), line },
        Statement::VariableDeclaration { var_name, var_type, operation, line } => StmtV::VariableDeclaration {
            var_name: var_name@,
            var_type,
            operation: opt_expr_view(operation),
            line,
        },
        Statement::Assign { var_name, value, line } => StmtV::Assign { var_name: var_name@, value: expr_view(value), line },
        Statement::LValueAssign { target, value, line } => StmtV::LValueAssign { target: expr_view(target), value: expr_view(value), line },
        Statement::DerefAssign { target, value, line } => StmtV::DerefAssign { target: expr_view(target), value: expr_view(value), line },
        Statement::StructDef { name, fields } => StmtV::StructDef { name: name@, fields: fields_view(fields@) },
        Statement::If { label, condition, body, else_label, else_body } => StmtV::If {
            label: label@,
            condition: expr_view(condition),
            body: stmts_view(body@),
            else_label: match else_label {
                Some(l) => Some(l@),
                None => None,
            },
            else_body: match else_body {
                Some(eb) => Some(stmts_view(eb@)),
                None => None,
            },
        },
        Statement::While { body_label, body, cond_label, condition } => StmtV::While {
            body_label: body_label@,
            body: stmts_view(body@),
            cond_label: cond_label@,
            condition: expr_view(condition),
        },
        Statement::Block(v) => StmtV::Block(stmts_view(v@)),
        Statement::Assembly { body } => StmtV::Assembly { body: body@.map_values(|l: String| l@) },
        Statement::Return { return_value } => StmtV::Return { return_value: opt_expr_view(return_value) },
        Statement::NewLine => StmtV::NewLine,
    }
}

/// `stmts_view` is elementwise.
pub proof fn lemma_stmts_view_index(ss: Seq<Statement>)
    ensures
        stmts_view(ss).len() == ss.len(),
        forall|k: int| 0 <= k < ss.len() ==> #[trigger] stmts_view(ss)[k] == stmt_view(ss[k]),
    decreases ss.len(),
{
    if ss.len() > 0 {
        lemma_stmts_view_index(ss.drop_last());
    }
}

/// Whether the token at index `i` exists and has variant number `k`.
pub open spec fn tag_is(ts: Seq<Token>, i: int, k: u8) -> bool {
    0 <= i < ts.len() && spec_tag(ts[i]) == k
}

/// The first index from `i` on that does not hold a `%`.
pub open spec fn percent_end(ts: Seq<Token>, i: int) -> int
    decreases ts.len() - i,
{
    if tag_is(ts, i, 23) {
        percent_end(ts, i + 1)
    } else {
        i
    }
}

/// The size of an empty array initializer `[n]`, which marks an array field.
pub open spec fn array_size(op: Option<ExprV>) -> Option<usize> {
    match op {
        Some(ExprV::Array { values, size }) => if values.len() == 0 { Some(size) } else { None },
        _ => None,
    }
}

/// What may follow a declared name: `= e`, `[n]` (an empty array of `n`
/// elements), or nothing.
pub open spec fn initializer_g(ts: Seq<Token>, st2: PState) -> Result<(Option<ExprV>, PState), ErrV> {
    if tag_is(ts, st2.pos, 18) {
        match expr_g(ts, adv(ts, st2)) {
            Ok((e, st3)) => Ok((Some(e), st3)),
            Err(e) => Err(e),
        }
    } else if tag_is(ts, st2.pos, 43) {
        let st3 = adv(ts, st2);
        if 0 <= st3.pos < ts.len() && ts[st3.pos] is IntegerLiteral {
            match expect_g(ts, adv(ts, st3), 44) {
                Ok(st4) => Ok((Some(ExprV::Array { values: Seq::empty(), size: ts[st3.pos]->IntegerLiteral_0 as usize }), st4)),
                Err(e) => Err(e),
            }
        } else {
            Err(perr("Expected integer literal in array size initializer"@, st3))
        }
    } else {
        Ok((None, st2))
    }
}

/// A variable declaration `type name [= e | [n]];`, its line the one it
/// starts on.
pub open spec fn vardecl_g(ts: Seq<Token>, st: PState) -> Result<(StmtV, PState), ErrV> {
    match type_g(ts, st) {
        Ok((ty, st1)) => match ident_g(ts, st1) {
            Ok((name, st2)) => match initializer_g(ts, st2) {
                Ok((op, st3)) => match expect_g(ts, st3, 45) {
                    Ok(st4) => Ok((
                        StmtV::VariableDeclaration { var_name: name@, var_type: ty, operation: op, line: st.line as usize },
                        st4,
                    )),
                    Err(e) => Err(e),
                },
                Err(e) => Err(e),
            },
            Err(e) => Err(e),
        },
        Err(e) => Err(e),
    }
}

/// The step of a `for` loop: `x += e`, `x -= e`, `x++` or `x--`.
pub open spec fn increment_g(ts: Seq<Token>, st: PState) -> Result<(StmtV, PState), ErrV> {
    match ident_g(ts, st) {
        Ok((name, st1)) => {
            let st2 = adv(ts, st1);
            if tag_is(ts, st1.pos, 24) || tag_is(ts, st1.pos, 25) {
                let op = if tag_is(ts, st1.pos, 24) { BinaryOperator::Add } else { BinaryOperator::Sub };
                match expr_g(ts, st2) {
                    Ok((rhs, st3)) => Ok((
                        StmtV::Assign {
                            var_name: name@,
                            value: ExprV::BinaryOperation { op, left: Box::new(ExprV::Identifier(name@)), right: Box::new(rhs) },
                            line: st.line as usize,
                        },
                        st3,
                    )),
                    Err(e) => Err(e),
                }
            } else if tag_is(ts, st1.pos, 26) || tag_is(ts, st1.pos, 27) {
                let op = if tag_is(ts, st1.pos, 26) { BinaryOperator::Add } else { BinaryOperator::Sub };
                Ok((
                    StmtV::Assign {
                        var_name: name@,
                        value: ExprV::BinaryOperation { op, left: Box::new(ExprV::Identifier(name@)), right: Box::new(ExprV::Integer(1)) },
                        line: st2.line as usize,
                    },
                    st2,
                ))
            } else {
                Err(perr("expected += / ++ or -= / -- in for-loop increment"@, st))
            }
        },
        Err(e) => Err(e),
    }
}

/// Function flags after `#[`, up to the `]`: only `no_stack`, each kept
/// once; an unknown flag is an error on line `line`, where the flags began.
pub open spec fn flags_tail(ts: Seq<Token>, st: PState, flags: Seq<FunctionFlag>, line: int) -> Result<(Seq<FunctionFlag>, PState), ErrV>
    decreases ts.len() - st.pos,
{
    if !(0 <= st.pos < ts.len()) {
        Err(stuck(st))
    } else if tag_at(ts, st) == 44 {
        Ok((flags, st))
    } else {
        match ident_g(ts, st) {
            Ok((name, st1)) => if name@ != "no_stack"@ {
                Err(ErrV::Parse(name@ + " is not a valid function flag"@, line as usize))
            } else {
                let flags2 = if flags.contains(FunctionFlag::NoStack) { flags } else { flags.push(FunctionFlag::NoStack) };
                let st2 = if tag_is(ts, st1.pos, 46) { adv(ts, st1) } else { st1 };
                if st.pos < st2.pos && st2.pos <= ts.len() {
                    flags_tail(ts, st2, flags2, line)
                } else {
                    Err(stuck(st))
                }
            },
            Err(e) => Err(e),
        }
    }
}

/// The `[index]` and `.field` suffixes of an assignment's target.
pub open spec fn lvalue_tail(ts: Seq<Token>, st: PState, e: ExprV) -> Result<(ExprV, PState), ErrV>
    decreases ts.len() - st.pos,
{
    if !(0 <= st.pos < ts.len()) {
        Err(stuck(st))
    } else {
        let k = tag_at(ts, st);
        let st1 = adv(ts, st);
        if k == 47 {
            match ident_g(ts, st1) {
                Ok((field, st2)) => if st.pos < st2.pos && st2.pos <= ts.len() {
                    lvalue_tail(ts, st2, ExprV::FieldAccess { base: Box::new(e), field: field@ })
                } else {
                    Err(stuck(st))
                },
                Err(e) => Err(e),
            }
        } else if k == 43 {
            match expr_g(ts, st1) {
                Ok((index, st2)) => match expect_g(ts, st2, 44) {
                    Ok(st3) => if st.pos < st3.pos && st3.pos <= ts.len() {
                        lvalue_tail(ts, st3, ExprV::Index { base: Box::new(e), index: Box::new(index) })
                    } else {
                        Err(stuck(st))
                    },
                    Err(e) => Err(e),
                },
                Err(e) => Err(e),
            }
        } else {
            Ok((e, st))
        }
    }
}

/// A statement that starts with a name and is not a declaration: an
/// assignment to a name or to an element or field, a call, or `+=`, `-=`,
/// `++`, `--`; its line the one it ends on.
pub open spec fn name_stmt_g(ts: Seq<Token>, st: PState) -> Result<(StmtV, PState), ErrV> {
    match ident_g(ts, st) {
        Ok((name, st1)) => if tag_is(ts, st1.pos, 47) || tag_is(ts, st1.pos, 43) {
            lvalue_assign_g(ts, st1, name@)
        } else if tag_is(ts, st1.pos, 39) {
            call_stmt_g(ts, st1, name@)
        } else if tag_is(ts, st1.pos, 24) || tag_is(ts, st1.pos, 25) {
            compound_assign_g(ts, st1, name@)
        } else if tag_is(ts, st1.pos, 26) || tag_is(ts, st1.pos, 27) {
            step_assign_g(ts, st1, name@)
        } else {
            plain_assign_g(ts, st1, name@)
        },
        Err(e) => Err(e),
    }
}

/// After a name: its suffixes, `=`, a value and `;`.
pub open spec fn lvalue_assign_g(ts: Seq<Token>, st1: PState, name: Seq<char>) -> Result<(StmtV, PState), ErrV> {
    match lvalue_tail(ts, st1, ExprV::Identifier(name)) {
        Ok((target, st2)) => match expect_g(ts, st2, 18) {
            Ok(st3) => match expr_g(ts, st3) {
                Ok((value, st4)) => match expect_g(ts, st4, 45) {
                    Ok(st5) => Ok((StmtV::LValueAssign { target, value, line: st5.line as usize }, st5)),
                    Err(e) => Err(e),
                },
                Err(e) => Err(e),
            },
            Err(e) => Err(e),
        },
        Err(e) => Err(e),
    }
}

/// After a name: `(arguments);`.
pub open spec fn call_stmt_g(ts: Seq<Token>, st1: PState, name: Seq<char>) -> Result<(StmtV, PState), ErrV> {
    match call_args_g(ts, adv(ts, st1)) {
        Ok((args, st3)) => match expect_g(ts, st3, 45) {
            Ok(st4) => Ok((StmtV::FunctionCall { name, args, line: st4.line as usize }, st4)),
            Err(e) => Err(e),
        },
        Err(e) => Err(e),
    }
}

/// After a name: `+= e;` or `-= e;`.
pub open spec fn compound_assign_g(ts: Seq<Token>, st1: PState, name: Seq<char>) -> Result<(StmtV, PState), ErrV> {
    let op = if tag_is(ts, st1.pos, 24) { BinaryOperator::Add } else { BinaryOperator::Sub };
    match expr_g(ts, adv(ts, st1)) {
        Ok((rhs, st3)) => match expect_g(ts, st3, 45) {
            Ok(st4) => Ok((
                StmtV::Assign {
                    var_name: name,
                    value: ExprV::BinaryOperation { op, left: Box::new(ExprV::Identifier(name)), right: Box::new(rhs) },
                    line: st4.line as usize,
                },
                st4,
            )),
            Err(e) => Err(e),
        },
        Err(e) => Err(e),
    }
}

/// After a name: `++;` or `--;`.
pub open spec fn step_assign_g(ts: Seq<Token>, st1: PState, name: Seq<char>) -> Result<(StmtV, PState), ErrV> {
    let op = if tag_is(ts, st1.pos, 26) { BinaryOperator::Add } else { BinaryOperator::Sub };
    match expect_g(ts, adv(ts, st1), 45) {
        Ok(st3) => Ok((
            StmtV::Assign {
                var_name: name,
                value: ExprV::BinaryOperation { op, left: Box::new(ExprV::Identifier(name)), right: Box::new(ExprV::Integer(1)) },
                line: st3.line as usize,
            },
            st3,
        )),
        Err(e) => Err(e),
    }
}

/// After a name: `= e;`.
pub open spec fn plain_assign_g(ts: Seq<Token>, st1: PState, name: Seq<char>) -> Result<(StmtV, PState), ErrV> {
    match expect_g(ts, st1, 18) {
        Ok(st2) => match expr_g(ts, st2) {
            Ok((value, st3)) => match expect_g(ts, st3, 45) {
                Ok(st4) => Ok((StmtV::Assign { var_name: name, value, line: st4.line as usize }, st4)),
                Err(e) => Err(e),
            },
            Err(e) => Err(e),
        },
        Err(e) => Err(e),
    }
}

/// An assignment through a pointer: `%p = e;`.
pub open spec fn deref_assign_g(ts: Seq<Token>, st: PState) -> Result<(StmtV, PState), ErrV> {
    match unary_g(ts, st) {
        Ok((target, st1)) => match expect_g(ts, st1, 18) {
            Ok(st2) => match expr_g(ts, st2) {
                Ok((value, st3)) => match expect_g(ts, st3, 45) {
                    Ok(st4) => Ok((StmtV::DerefAssign { target, value, line: st4.line as usize }, st4)),
                    Err(e) => Err(e),
                },
                Err(e) => Err(e),
            },
            Err(e) => Err(e),
        },
        Err(e) => Err(e),
    }
}

/// One struct field: a declaration, of which the name, the type and the
/// size of an empty array initializer are kept.
pub open spec fn field_g(ts: Seq<Token>, st: PState) -> Result<((Seq<char>, Type, Option<usize>), PState), ErrV> {
    match vardecl_g(ts, st) {
        Ok((d, st1)) => Ok((
            (d->VariableDeclaration_var_name, d->VariableDeclaration_var_type, array_size(d->VariableDeclaration_operation)),
            st1,
        )),
        Err(e) => Err(e),
    }
}

/// The fields of a struct, up to the `}`: declarations, line breaks skipped
/// (and not counted).
pub open spec fn fields_tail(ts: Seq<Token>, st: PState, acc: Seq<(Seq<char>, Type, Option<usize>)>) -> Result<(Seq<(Seq<char>, Type, Option<usize>)>, PState), ErrV>
    decreases ts.len() - st.pos,
{
    if !(0 <= st.pos < ts.len()) {
        Err(stuck(st))
    } else if tag_at(ts, st) == 42 || tag_at(ts, st) == 49 {
        Ok((acc, st))
    } else if tag_at(ts, st) == 50 {
        let st1 = adv(ts, st);
        if st.pos < st1.pos && st1.pos <= ts.len() {
            fields_tail(ts, st1, acc)
        } else {
            Err(stuck(st))
        }
    } else {
        match field_g(ts, st) {
            Ok((f, st1)) => if st.pos < st1.pos && st1.pos <= ts.len() {
                fields_tail(ts, st1, acc.push(f))
            } else {
                Err(stuck(st))
            },
            Err(e) => Err(e),
        }
    }
}

/// The end of a struct definition once its fields are parsed: `};`.
pub open spec fn struct_finish(
    ts: Seq<Token>,
    o: Result<(Seq<(Seq<char>, Type, Option<usize>)>, PState), ErrV>,
    name: Seq<char>,
) -> Result<(StmtV, PState), ErrV> {
    match o {
        Ok((fields, st4)) => match expect_g(ts, st4, 42) {
            Ok(st5) => match expect_g(ts, st5, 45) {
                Ok(st6) => Ok((StmtV::StructDef { name, fields }, st6)),
                Err(e) => Err(e),
            },
            Err(e) => Err(e),
        },
        Err(e) => Err(e),
    }
}

/// A struct definition `struct Name { fields };`.
pub open spec fn struct_g(ts: Seq<Token>, st: PState) -> Result<(StmtV, PState), ErrV> {
    match ident_g(ts, adv(ts, st)) {
        Ok((name, st2)) => match expect_g(ts, st2, 41) {
            Ok(st3) => struct_finish(ts, fields_tail(ts, st3, Seq::empty()), name@),
            Err(e) => Err(e),
        },
        Err(e) => Err(e),
    }
}

/// A return `return [e];`.
pub open spec fn return_g(ts: Seq<Token>, st: PState) -> Result<(StmtV, PState), ErrV> {
    let st1 = adv(ts, st);
    let v = if tag_is(ts, st1.pos, 45) {
        Ok((None, st1))
    } else {
        match expr_g(ts, st1) {
            Ok((e, st2)) => Ok((Some(e), st2)),
            Err(e) => Err(e),
        }
    };
    match v {
        Ok((rv, st2)) => match expect_g(ts, st2, 45) {
            Ok(st3) => Ok((StmtV::Return { return_value: rv }, st3)),
            Err(e) => Err(e),
        },
        Err(e) => Err(e),
    }
}

/// A statement.
pub open spec fn stmt_g(ts: Seq<Token>, st: PState) -> Result<(StmtV, PState), ErrV>
    decreases ts.len() - st.pos, 20nat,
{
    if !(0 <= st.pos < ts.len()) {
        Err(stuck(st))
    } else {
        let t = tag_at(ts, st);
        if t <= 4 || t == 17 {
            decl_like_g(ts, st)
        } else if t == 5 {
            if_g(ts, st)
        } else if t == 7 {
            while_g(ts, st)
        } else if t == 10 {
            for_g(ts, st)
        } else if t == 23 {
            deref_assign_g(ts, st)
        } else if t == 11 {
            struct_g(ts, st)
        } else if t == 16 {
            Ok((StmtV::Assembly { body: ts[st.pos]->AsmBlock_0@.map_values(|l: String| l@) }, adv(ts, st)))
        } else if t == 8 {
            return_g(ts, st)
        } else if t == 50 {
            Ok((StmtV::NewLine, PState { line: st.line + 1, ..adv(ts, st) }))
        } else {
            Err(perr(token_debug(ts[st.pos]) + " is not a statement"@, st))
        }
    }
}

/// Optional function flags `#[...]`.
pub open spec fn flags_g(ts: Seq<Token>, st5: PState) -> Result<(Seq<FunctionFlag>, PState), ErrV> {
    if tag_is(ts, st5.pos, 48) {
        match expect_g(ts, adv(ts, st5), 43) {
            Ok(st7) => match flags_tail(ts, st7, Seq::empty(), st5.line) {
                Ok((flags, st8)) => match expect_g(ts, st8, 44) {
                    Ok(st9) => Ok((flags, st9)),
                    Err(e) => Err(e),
                },
                Err(e) => Err(e),
            },
            Err(e) => Err(e),
        }
    } else {
        Ok((Seq::empty(), st5))
    }
}

/// A function's signature up to the `{` of its body: return type, name,
/// parameters, flags.
pub open spec fn signature_g(ts: Seq<Token>, st: PState) -> Result<(Type, String, Seq<Parameter>, Seq<FunctionFlag>, PState), ErrV> {
    match type_g(ts, st) {
        Ok((rt, st1)) => match ident_g(ts, st1) {
            Ok((name, st2)) => match expect_g(ts, st2, 39) {
                Ok(st3) => match params_g(ts, st3) {
                    Ok((params, st4)) => match expect_g(ts, st4, 40) {
                        Ok(st5) => match flags_g(ts, st5) {
                            Ok((flags, st9)) => match expect_g(ts, st9, 41) {
                                Ok(st10) => Ok((rt, name, params, flags, st10)),
                                Err(e) => Err(e),
                            },
                            Err(e) => Err(e),
                        },
                        Err(e) => Err(e),
                    },
                    Err(e) => Err(e),
                },
                Err(e) => Err(e),
            },
            Err(e) => Err(e),
        },
        Err(e) => Err(e),
    }
}

/// A function declaration: signature and body; its line the one it starts
/// on.
pub open spec fn function_g(ts: Seq<Token>, st: PState) -> Result<(StmtV, PState), ErrV>
    decreases ts.len() - st.pos, 10nat,
{
    match signature_g(ts, st) {
        Ok((rt, name, params, flags, st10)) => if st.pos < st10.pos && st10.pos <= ts.len() {
            match block_tail(ts, st10, Seq::empty()) {
                Ok((body, st11)) => match expect_g(ts, st11, 42) {
                    Ok(st12) => Ok((
                        StmtV::FunctionDecleration { return_type: rt, name: name@, params, body, flags, line: st.line as usize },
                        st12,
                    )),
                    Err(e) => Err(e),
                },
                Err(e) => Err(e),
            }
        } else {
            Err(stuck(st))
        },
        Err(e) => Err(e),
    }
}

/// The condition and body of an `if` or `while`: `(cond) { body }`.
pub open spec fn cond_body_g(ts: Seq<Token>, st: PState) -> Result<(ExprV, Seq<StmtV>, PState), ErrV>
    decreases ts.len() - st.pos, 9nat,
{
    match expect_g(ts, adv(ts, st), 39) {
        Ok(st2) => match expr_g(ts, st2) {
            Ok((cond, st3)) => match expect_g(ts, st3, 40) {
                Ok(st4) => match expect_g(ts, st4, 41) {
                    Ok(st5) => if st.pos < st5.pos && st5.pos <= ts.len() {
                        match block_tail(ts, st5, Seq::empty()) {
                            Ok((body, st6)) => match expect_g(ts, st6, 42) {
                                Ok(st7) => Ok((cond, body, st7)),
                                Err(e) => Err(e),
                            },
                            Err(e) => Err(e),
                        }
                    } else {
                        Err(stuck(st))
                    },
                    Err(e) => Err(e),
                },
                Err(e) => Err(e),
            },
            Err(e) => Err(e),
        },
        Err(e) => Err(e),
    }
}

/// An `if` with an optional `else`: the labels are numbered after those of
/// the parts, the `else` label first.
pub open spec fn if_g(ts: Seq<Token>, st: PState) -> Result<(StmtV, PState), ErrV>
    decreases ts.len() - st.pos, 10nat,
{
    match cond_body_g(ts, st) {
        Ok((cond, body, st7)) => if tag_is(ts, st7.pos, 6) {
            match expect_g(ts, adv(ts, st7), 41) {
                Ok(st9) => if st.pos < st9.pos && st9.pos <= ts.len() {
                    match block_tail(ts, st9, Seq::empty()) {
                        Ok((eb, st10)) => match expect_g(ts, st10, 42) {
                            Ok(st11) => Ok((
                                StmtV::If {
                                    label: label_text((st11.labels + 1) as nat),
                                    condition: cond,
                                    body,
                                    else_label: Some(label_text(st11.labels as nat)),
                                    else_body: Some(eb),
                                },
                                PState { labels: st11.labels + 2, ..st11 },
                            )),
                            Err(e) => Err(e),
                        },
                        Err(e) => Err(e),
                    }
                } else {
                    Err(stuck(st))
                },
                Err(e) => Err(e),
            }
        } else {
            Ok((
                StmtV::If { label: label_text(st7.labels as nat), condition: cond, body, else_label: None, else_body: None },
                PState { labels: st7.labels + 1, ..st7 },
            ))
        },
        Err(e) => Err(e),
    }
}

/// A `while` loop; its body label is numbered before its condition label.
pub open spec fn while_g(ts: Seq<Token>, st: PState) -> Result<(StmtV, PState), ErrV>
    decreases ts.len() - st.pos, 10nat,
{
    match cond_body_g(ts, st) {
        Ok((cond, body, st7)) => Ok((
            StmtV::While {
                body_label: label_text(st7.labels as nat),
                body,
                cond_label: label_text((st7.labels + 1) as nat),
                condition: cond,
            },
            PState { labels: st7.labels + 2, ..st7 },
        )),
        Err(e) => Err(e),
    }
}

/// A statement that starts with a type or a name: a function when `(`
/// follows the name (after the type and its `%`s), a declaration when it
/// starts with a type keyword or a name follows, else a statement about a
/// name.
pub open spec fn decl_like_g(ts: Seq<Token>, st: PState) -> Result<(StmtV, PState), ErrV>
    decreases ts.len() - st.pos, 15nat,
{
    let t = tag_at(ts, st);
    let e = percent_end(ts, st.pos + 1);
    if tag_is(ts, e + 1, 39) {
        function_g(ts, st)
    } else if t <= 4 || tag_is(ts, e, 17) {
        vardecl_g(ts, st)
    } else {
        name_stmt_g(ts, st)
    }
}

/// The head of a `for` loop after the keyword: `(init cond; step) {`.
pub open spec fn for_head_g(ts: Seq<Token>, st: PState) -> Result<(StmtV, ExprV, StmtV, PState), ErrV>
    decreases ts.len() - st.pos, 9nat,
{
    match expect_g(ts, adv(ts, st), 39) {
        Ok(st2) => if st.pos < st2.pos && st2.pos <= ts.len() {
            match stmt_g(ts, st2) {
                Ok((init, st3)) => match expr_g(ts, st3) {
                    Ok((cond, st4)) => match expect_g(ts, st4, 45) {
                        Ok(st5) => match increment_g(ts, st5) {
                            Ok((inc, st6)) => match expect_g(ts, st6, 40) {
                                Ok(st7) => match expect_g(ts, st7, 41) {
                                    Ok(st8) => Ok((init, cond, inc, st8)),
                                    Err(e) => Err(e),
                                },
                                Err(e) => Err(e),
                            },
                            Err(e) => Err(e),
                        },
                        Err(e) => Err(e),
                    },
                    Err(e) => Err(e),
                },
                Err(e) => Err(e),
            }
        } else {
            Err(stuck(st))
        },
        Err(e) => Err(e),
    }
}

/// A `for (init cond; step) { body }` loop: the initializer followed by a
/// `while` loop whose body ends with the step.
pub open spec fn for_g(ts: Seq<Token>, st: PState) -> Result<(StmtV, PState), ErrV>
    decreases ts.len() - st.pos, 10nat,
{
    match for_head_g(ts, st) {
        Ok((init, cond, inc, st8)) => if st.pos < st8.pos && st8.pos <= ts.len() {
            match block_tail(ts, st8, Seq::empty()) {
                Ok((body, st9)) => match expect_g(ts, st9, 42) {
                    Ok(st10) => Ok((
                        StmtV::Block(seq![
                            init,
                            StmtV::While {
                                body_label: label_text(st10.labels as nat),
                                body: body.push(inc),
                                cond_label: label_text((st10.labels + 1) as nat),
                                condition: cond,
                            },
                        ]),
                        PState { labels: st10.labels + 2, ..st10 },
                    )),
                    Err(e) => Err(e),
                },
                Err(e) => Err(e),
            }
        } else {
            Err(stuck(st))
        },
        Err(e) => Err(e),
    }
}

/// Statements up to `}` or the end.
pub open spec fn block_tail(ts: Seq<Token>, st: PState, acc: Seq<StmtV>) -> Result<(Seq<StmtV>, PState), ErrV>
    decreases ts.len() - st.pos, 30nat,
{
    if !(0 <= st.pos < ts.len()) {
        Err(stuck(st))
    } else if tag_at(ts, st) == 42 || tag_at(ts, st) == 49 {
        Ok((acc, st))
    } else {
        match stmt_g(ts, st) {
            Ok((s, st1)) => if st.pos < st1.pos && st1.pos <= ts.len() {
                block_tail(ts, st1, acc.push(s))
            } else {
                Err(stuck(st))
            },
            Err(e) => Err(e),
        }
    }
}

/// The statements of a program, up to the end.
pub open spec fn program_tail(ts: Seq<Token>, st: PState, acc: Seq<StmtV>) -> Result<(Seq<StmtV>, PState), ErrV>
    decreases ts.len() - st.pos,
{
    if !(0 <= st.pos < ts.len()) {
        Err(stuck(st))
    } else if tag_at(ts, st) == 49 {
        Ok((acc, st))
    } else {
        match stmt_g(ts, st) {
            Ok((s, st1)) => if st.pos < st1.pos && st1.pos <= ts.len() {
                program_tail(ts, st1, acc.push(s))
            } else {
                Err(stuck(st))
            },
            Err(e) => Err(e),
        }
    }
}

/// The binary operator a token names: `+` `-` `*` `/`, the comparisons
/// `==` `!=` `<` `>` `<=` `>=`, and `&&` `||`.
pub open spec fn operator_named(t: Token) -> Option<BinaryOperator> {
    match t {
        Token::Plus => Some(BinaryOperator::Add),
        Token::Minus => Some(BinaryOperator::Sub),
        Token::Star => Some(BinaryOperator::Mul),
        Token::Slash => Some(BinaryOperator::Div),
        Token::EqualEqual => Some(BinaryOperator::Eq),
        Token::NotEqual => Some(BinaryOperator::NotEq),
        Token::LessThan => Some(BinaryOperator::Lt),
        Token::GreaterThan => Some(BinaryOperator::Gt),
        Token::LessEqual => Some(BinaryOperator::LtEq),
        Token::GreaterEqual => Some(BinaryOperator::GtEq),
        Token::AndAnd => Some(BinaryOperator::And),
        Token::OrOr => Some(BinaryOperator::Or),
        _ => None,
    }
}

/// The binary operation a chain builds at an operator token: `left` and
/// `right` joined by the operator the token names.
pub open spec fn joined_at(ts: Seq<Token>, st: PState, left: ExprV, right: ExprV) -> ExprV {
    ExprV::BinaryOperation { op: operator_named(ts[st.pos])->Some_0, left: Box::new(left), right: Box::new(right) }
}

/// Law: in every chain of binary operations (`+ -`, `* /`, comparisons,
/// `&& ||`), the operation built at an operator token has the operator the
/// token names, everything parsed before the token as its left operand and
/// the next operand of the chain's operand kind as its right operand, and
/// the chain goes on after that operand.
pub proof fn lemma_binary_operator_of_token(ts: Seq<Token>, st: PState, left: ExprV)
    requires
        0 <= st.pos < ts.len() - 1,
    ensures
        ({
            let st1 = PState { pos: st.pos + 1, ..st };
            let t = ts[st.pos];
            &&& (t is Plus || t is Minus) ==> match multiplicative_g(ts, st1) {
                Ok((right, st2)) => st1.pos < st2.pos <= ts.len()
                    ==> additive_tail(ts, st, left) == additive_tail(ts, st2, joined_at(ts, st, left, right)),
                Err(e) => additive_tail(ts, st, left) == Err::<(ExprV, PState), ErrV>(e),
            }
            &&& (t is Star || t is Slash) ==> match primary_g(ts, st1) {
                Ok((right, st2)) => st1.pos < st2.pos <= ts.len()
                    ==> multiplicative_tail(ts, st, left) == multiplicative_tail(ts, st2, joined_at(ts, st, left, right)),
                Err(e) => multiplicative_tail(ts, st, left) == Err::<(ExprV, PState), ErrV>(e),
            }
            &&& (t is EqualEqual || t is NotEqual || t is LessThan || t is GreaterThan || t is LessEqual
                || t is GreaterEqual) ==> match additive_g(ts, st1) {
                Ok((right, st2)) => st1.pos < st2.pos <= ts.len()
                    ==> comparison_tail(ts, st, left) == comparison_tail(ts, st2, joined_at(ts, st, left, right)),
                Err(e) => comparison_tail(ts, st, left) == Err::<(ExprV, PState), ErrV>(e),
            }
            &&& (t is AndAnd || t is OrOr) ==> match comparison_g(ts, st1) {
                Ok((right, st2)) => st1.pos < st2.pos <= ts.len()
                    ==> logical_tail(ts, st, left) == logical_tail(ts, st2, joined_at(ts, st, left, right)),
                Err(e) => logical_tail(ts, st, left) == Err::<(ExprV, PState), ErrV>(e),
            }
        }),
{
}

/// The prefix operator a token names: `!` not, `%` dereference, `&` address
/// of, `-` negation.
pub open spec fn prefix_named(t: Token) -> Option<UnaryOperator> {
    match t {
        Token::Not => Some(UnaryOperator::Not),
        Token::Percent => Some(UnaryOperator::Deref),
        Token::And => Some(UnaryOperator::AddressOf),
        Token::Minus => Some(UnaryOperator::Neg),
        _ => None,
    }
}

/// Law: a prefix operator token applies the operator it names to the unary
/// expression that follows it.
pub proof fn lemma_prefix_operator_of_token(ts: Seq<Token>, st: PState)
    requires
        0 <= st.pos < ts.len() - 1,
        prefix_named(ts[st.pos]) is Some,
    ensures
        match unary_g(ts, PState { pos: st.pos + 1, ..st }) {
            Ok((operand, st2)) => unary_g(ts, st) == Ok::<(ExprV, PState), ErrV>(
                (ExprV::UnaryOperation { op: prefix_named(ts[st.pos])->Some_0, operand: Box::new(operand) }, st2),
            ),
            Err(e) => unary_g(ts, st) == Err::<(ExprV, PState), ErrV>(e),
        },
{
}

} // verus!
