//! The parser: tokens to a syntax tree, by recursive descent.
use vstd::prelude::*;
use crate::lexer::token::Token;
use crate::parser::expression::{BinaryOperator, Expression, UnaryOperator};
use crate::parser::labels::{
    block_labels, fresh_labels, label_text, lemma_block_labels_push, lemma_fresh_concat, lemma_fresh_empty,
    lemma_fresh_one, lemma_fresh_widen, stmt_labels,
};
use crate::parser::grammar::{
    perr, stuck, tag_token,
    additive_g, additive_tail, adv, args_tail, array_tail, call_args_g, comparison_g, comparison_op, comparison_tail,
    expect_g, expr_g, ident_g, logical_g, logical_tail, multiplicative_g, multiplicative_tail, params_g, params_tail,
    prefix_op, primary_g, ptr_tail, suffix_tail, tag_at, type_g, unary_g, PState, stmt_view, stmts_view,
    lemma_stmts_view_index, fields_view, percent_end, tag_is, stmt_g, name_stmt_g, lvalue_tail, deref_assign_g,
    struct_g, fields_tail, return_g, lvalue_assign_g, call_stmt_g, compound_assign_g, step_assign_g, plain_assign_g, vardecl_g, increment_g, function_g, flags_tail, cond_body_g, if_g, while_g,
    for_g, block_tail, program_tail, array_size, initializer_g, field_g, struct_finish, flags_g, signature_g, decl_like_g, for_head_g, StmtV,
};
use crate::parser::expression::{exprs_view, boxed_exprs_view, lemma_exprs_view_index, lemma_boxed_exprs_view_index, ExprV};
use crate::parser::program::Program;
use crate::parser::statement::{opt_expr_view, FunctionFlag, Parameter, Statement};
use crate::parser::types::Type;
use crate::util::error::{CompileError, ErrV};
use crate::util::text::{copy_string, decimal, push_decimal, push_str, string_equal, string_of};

verus! {

/// The variant number of a token, ignoring any payload.
pub open spec fn spec_tag(t: Token) -> u8 {
    match t {
        Token::Void => 0,
        Token::I32 => 1,
        Token::I16 => 2,
        Token::I8 => 3,
        Token::Bool => 4,
        Token::If => 5,
        Token::Else => 6,
        Token::While => 7,
        Token::Return => 8,
        Token::ASMKeyword => 9,
        Token::For => 10,
        Token::Struct => 11,
        Token::SizeOf => 12,
        Token::IntegerLiteral(_) => 13,
        Token::BoolLiteral(_) => 14,
        Token::StringLiteral(_) => 15,
        Token::AsmBlock(_) => 16,
        Token::Identifier(_) => 17,
        Token::Equal => 18,
        Token::Plus => 19,
        Token::Minus => 20,
        Token::Star => 21,
        Token::Slash => 22,
        Token::Percent => 23,
        Token::PlusEqual => 24,
        Token::MinusEqual => 25,
        Token::PlusPlus => 26,
        Token::MinusMinus => 27,
        Token::Not => 28,
        Token::And => 29,
        Token::Or => 30,
        Token::EqualEqual => 31,
        Token::NotEqual => 32,
        Token::LessThan => 33,
        Token::GreaterThan => 34,
        Token::LessEqual => 35,
        Token::GreaterEqual => 36,
        Token::AndAnd => 37,
        Token::OrOr => 38,
        Token::LeftParen => 39,
        Token::RightParen => 40,
        Token::LeftBrace => 41,
        Token::RightBrace => 42,
        Token::LeftBracket => 43,
        Token::RightBracket => 44,
        Token::Semicolon => 45,
        Token::Comma => 46,
        Token::Period => 47,
        Token::Pound => 48,
        Token::Eof => 49,
        Token::Newline => 50,
    }
}

/// The variant number of a token.
pub fn tag(t: &Token) -> (r: u8)
    ensures
        r == spec_tag(*t),
{
    match t {
        Token::Void => 0,
        Token::I32 => 1,
        Token::I16 => 2,
        Token::I8 => 3,
        Token::Bool => 4,
        Token::If => 5,
        Token::Else => 6,
        Token::While => 7,
        Token::Return => 8,
        Token::ASMKeyword => 9,
        Token::For => 10,
        Token::Struct => 11,
        Token::SizeOf => 12,
        Token::IntegerLiteral(_) => 13,
        Token::BoolLiteral(_) => 14,
        Token::StringLiteral(_) => 15,
        Token::AsmBlock(_) => 16,
        Token::Identifier(_) => 17,
        Token::Equal => 18,
        Token::Plus => 19,
        Token::Minus => 20,
        Token::Star => 21,
        Token::Slash => 22,
        Token::Percent => 23,
        Token::PlusEqual => 24,
        Token::MinusEqual => 25,
        Token::PlusPlus => 26,
        Token::MinusMinus => 27,
        Token::Not => 28,
        Token::And => 29,
        Token::Or => 30,
        Token::EqualEqual => 31,
        Token::NotEqual => 32,
        Token::LessThan => 33,
        Token::GreaterThan => 34,
        Token::LessEqual => 35,
        Token::GreaterEqual => 36,
        Token::AndAnd => 37,
        Token::OrOr => 38,
        Token::LeftParen => 39,
        Token::RightParen => 40,
        Token::LeftBrace => 41,
        Token::RightBrace => 42,
        Token::LeftBracket => 43,
        Token::RightBracket => 44,
        Token::Semicolon => 45,
        Token::Comma => 46,
        Token::Period => 47,
        Token::Pound => 48,
        Token::Eof => 49,
        Token::Newline => 50,
    }
}

/// The number of labels a token's construct is given: one for `if` and one
/// for `else`, two for `while` and for `for`, none for any other token.
pub open spec fn label_weight(t: Token) -> nat {
    if t is If || t is Else {
        1
    } else if t is While || t is For {
        2
    } else {
        0
    }
}

/// The labels the tokens of `ts` from position `i` on can be given.
pub open spec fn label_demand(ts: Seq<Token>, i: int) -> nat
    decreases ts.len() - i,
{
    if i < 0 || i >= ts.len() {
        0
    } else {
        label_weight(ts[i]) + label_demand(ts, i + 1)
    }
}

/// A token list the parser can run over: it ends with `Eof`, and the labels
/// its `if`, `else`, `while` and `for` tokens can be given, numbered on from
/// `label_count`, do not pass the largest `usize`.
pub open spec fn parsable(tokens: Seq<Token>, label_count: usize) -> bool {
    &&& 0 < tokens.len() < usize::MAX
    &&& tokens.last() is Eof
    &&& label_count + label_demand(tokens, 0) <= usize::MAX
}

/// A recursive-descent parser over a token list.
pub struct Parser {
    tokens: Vec<Token>,
    current: usize,
    line: usize,
    label_count: usize,
}

fn parse_error(message: String, line: usize) -> (e: CompileError)
    ensures
        e == (CompileError::ParseError { message, line }),
{
    CompileError::ParseError { message, line }
}

impl Parser {
    /// The tokens.
    pub closed spec fn toks(&self) -> Seq<Token> {
        self.tokens@
    }

    /// The index of the next token.
    pub closed spec fn pos(&self) -> int {
        self.current as int
    }

    /// The number of labels generated so far, plus the starting count.
    pub closed spec fn labels(&self) -> usize {
        self.label_count
    }

    /// Where parsing stands.
    pub closed spec fn state(&self) -> PState {
        PState { pos: self.current as int, line: self.line as int, labels: self.label_count as int }
    }

    /// The parser's state is consistent: the position is on a token, the
    /// last token is `Eof`, counters have room.
    pub closed spec fn wf(&self) -> bool {
        &&& 0 < self.tokens@.len() < usize::MAX
        &&& self.tokens@.last() is Eof
        &&& self.current < self.tokens@.len()
        &&& self.line <= self.current + 1
        &&& self.label_count + label_demand(self.tokens@, self.current as int) <= usize::MAX
    }

    /// The labels numbered so far and those the tokens still to read can be
    /// given.
    pub closed spec fn budget(&self) -> int {
        self.label_count + label_demand(self.tokens@, self.current as int)
    }

    /// A parsing step keeps the tokens and consistency, moves forwards and
    /// spends no more label room than the tokens it read pay for.
    pub closed spec fn step(a: Parser, b: Parser) -> bool {
        &&& b.tokens@ == a.tokens@
        &&& b.wf()
        &&& b.current >= a.current
        &&& b.label_count >= a.label_count
        &&& b.budget() <= a.budget()
    }

    /// A parser at the start of `tokens`, numbering labels from `label_count`.
    pub fn new(tokens: Vec<Token>, label_count: usize) -> (r: Self)
        ensures
            r.toks() == tokens@,
            r.pos() == 0,
            r.labels() == label_count,
            r.state() == (PState { pos: 0, line: 1, labels: label_count as int }),
            parsable(tokens@, label_count) ==> r.wf(),
    {
        Parser { tokens, current: 0, line: 1, label_count }
    }

    /// Parses statements up to `Eof`.
    pub fn parse(&mut self) -> (r: Result<Program, CompileError>)
        requires
            old(self).wf(),
        ensures
            match program_tail(old(self).toks(), old(self).state(), Seq::empty()) {
                Ok((v, st)) => r matches Ok(p) && stmts_view(p.body@) == v && final(self).state() == st,
                Err(e) => r matches Err(x) && x@ == e,
            },
            r matches Ok(p) ==> fresh_labels(block_labels(p.body@, p.body@.len()), old(self).labels() as nat, final(self).labels() as nat),
            r matches Ok(p) ==> final(self).labels() == old(self).labels() + block_labels(p.body@, p.body@.len()).len(),
            final(self).toks() == old(self).toks(),
            final(self).labels() >= old(self).labels(),
            final(self).labels() + label_demand(final(self).toks(), final(self).pos())
                <= old(self).labels() + label_demand(old(self).toks(), old(self).pos()),
            r is Ok ==> final(self).toks()[final(self).pos()] is Eof,
    {
        let ghost ts = self.tokens@;
        let ghost st0 = self.state();
        let mut statements: Vec<Statement> = Vec::new();
        assert(stmts_view(statements@) =~= Seq::<StmtV>::empty());
        while !self.is_at_end()
            invariant
                Self::step(*old(self), *self),
                fresh_labels(block_labels(statements@, statements@.len()), old(self).label_count as nat, self.label_count as nat),
                block_labels(statements@, statements@.len()).len() == self.label_count - old(self).label_count,
                ts == self.tokens@,
                st0 == old(self).state(),
                program_tail(ts, st0, Seq::empty()) == program_tail(ts, self.state(), stmts_view(statements@)),
            decreases self.tokens@.len() - self.current,
        {
            let ghost before = statements@;
            let ghost c0 = self.label_count as nat;
            let s = self.parse_statement()?;
            proof {
                lemma_block_labels_push(before, s);
                lemma_fresh_concat(
                    block_labels(before, before.len()),
                    stmt_labels(s),
                    old(self).label_count as nat,
                    c0,
                    c0,
                    self.label_count as nat,
                    old(self).label_count as nat,
                    self.label_count as nat,
                );
            }
            statements.push(s);
            proof {
                assert(statements@.drop_last() =~= before);
            }
        }
        Ok(Program { body: statements })
    }

    /// The next label number to be generated.
    pub fn get_label_count(&self) -> (r: usize)
        ensures
            r == self.labels(),
            r == self.state().labels,
    {
        self.label_count
    }

    /// Parses one statement (see `stmt_g`).
    #[verifier::spinoff_prover]
    #[verifier::rlimit(60)]
    fn parse_statement(&mut self) -> (r: Result<Statement, CompileError>)
        requires
            old(self).wf(),
        ensures
            match stmt_g(old(self).tokens@, old(self).state()) {
                Ok((v, st)) => r matches Ok(x) && stmt_view(x) == v && final(self).state() == st,
                Err(e) => r matches Err(x) && x@ == e,
            },
            r matches Ok(x) ==> fresh_labels(stmt_labels(x), old(self).label_count as nat, final(self).label_count as nat),
            r matches Ok(x) ==> stmt_labels(x).len() == final(self).label_count - old(self).label_count,
            Self::step(*old(self), *final(self)),
            r is Ok ==> final(self).current > old(self).current,
            ({
                let t = tag_at(old(self).tokens@, old(self).state());
                !(t <= 4 || t == 17 || t == 5 || t == 7 || t == 10 || t == 23 || t == 11 || t == 16 || t == 8 || t == 50)
                    ==> r is Err && final(self).state() == old(self).state()
            }),
        decreases old(self).tokens@.len() - old(self).current, 20nat,
    {
        let ghost ts = self.tokens@;
        let t = tag(self.peek());
        if t <= 4 || t == 17 {
            self.parse_declaration_like()
        } else if t == 5 {
            self.parse_if()
        } else if t == 7 {
            self.parse_while()
        } else if t == 10 {
            self.parse_for()
        } else if t == 23 {
            self.parse_deref_assign()
        } else if t == 11 {
            self.parse_struct_def()
        } else if t == 16 {
            let body = match self.peek() {
                Token::AsmBlock(code) => crate::parser::statement::copy_strings(code),
                _ => Vec::new(),
            };
            self.advance();
            Ok(Statement::Assembly { body })
        } else if t == 8 {
            self.parse_return()
        } else if t == 50 {
            self.advance();
            self.line += 1;
            Ok(Statement::NewLine)
        } else {
            let mut m = self.peek().debug_text();
            push_str(&mut m, " is not a statement");
            Err(parse_error(m, self.line))
        }
    }

    /// Parses a statement that starts with a type or a name (see
    /// `decl_like_g`).
    #[verifier::spinoff_prover]
    #[verifier::rlimit(40)]
    fn parse_declaration_like(&mut self) -> (r: Result<Statement, CompileError>)
        requires
            old(self).wf(),
        ensures
            match decl_like_g(old(self).tokens@, old(self).state()) {
                Ok((v, st)) => r matches Ok(x) && stmt_view(x) == v && final(self).state() == st,
                Err(e) => r matches Err(x) && x@ == e,
            },
            r matches Ok(x) ==> fresh_labels(stmt_labels(x), old(self).label_count as nat, final(self).label_count as nat),
            r matches Ok(x) ==> stmt_labels(x).len() == final(self).label_count - old(self).label_count,
            Self::step(*old(self), *final(self)),
            r is Ok ==> final(self).current > old(self).current,
        decreases old(self).tokens@.len() - old(self).current, 16nat,
    {
        let ghost ts = self.tokens@;
        let t = tag(self.peek());
        let mut offset: usize = 1;
        while self.peek_is_at(offset, 23)
            invariant
                Self::step(*old(self), *self),
                self.current == old(self).current,
                self.state() == old(self).state(),
                1 <= offset <= self.tokens@.len(),
                ts == self.tokens@,
                percent_end(ts, self.current + 1) == percent_end(ts, self.current + offset),
            decreases self.tokens@.len() - offset,
        {
            offset += 1;
        }
        if self.peek_is_at(offset + 1, 39) {
            return self.parse_function();
        }
        if t <= 4 || self.peek_is_at(offset, 17) {
            return self.parse_variable_decleration();
        }
        self.parse_name_statement()
    }

    /// Parses a statement that starts with a name and is not a declaration
    /// (see `name_stmt_g`).
    #[verifier::spinoff_prover]
    #[verifier::rlimit(40)]
    fn parse_name_statement(&mut self) -> (r: Result<Statement, CompileError>)
        requires
            old(self).wf(),
        ensures
            match name_stmt_g(old(self).tokens@, old(self).state()) {
                Ok((v, st)) => r matches Ok(x) && stmt_view(x) == v && final(self).state() == st,
                Err(e) => r matches Err(x) && x@ == e,
            },
            r matches Ok(x) ==> stmt_labels(x) == Seq::<Seq<char>>::empty(),
            Self::step(*old(self), *final(self)),
            final(self).label_count == old(self).label_count,
            r is Ok ==> final(self).current > old(self).current,
        decreases old(self).tokens@.len() - old(self).current, 15nat,
    {
        let name = self.parse_identifier()?;
        let nt = tag(self.peek());
        if nt == 47 || nt == 43 {
            self.parse_lvalue_assign(name)
        } else if nt == 39 {
            self.parse_call_statement(name)
        } else if nt == 24 || nt == 25 {
            self.parse_compound_assign(name)
        } else if nt == 26 || nt == 27 {
            self.parse_step_assign(name)
        } else {
            self.parse_plain_assign(name)
        }
    }

    /// After a name: its suffixes, `=`, a value and `;`.
    #[verifier::spinoff_prover]
    #[verifier::rlimit(40)]
    fn parse_lvalue_assign(&mut self, name: String) -> (r: Result<Statement, CompileError>)
        requires
            old(self).wf(),
        ensures
            match lvalue_assign_g(old(self).tokens@, old(self).state(), name@) {
                Ok((v, st)) => r matches Ok(x) && stmt_view(x) == v && final(self).state() == st,
                Err(e) => r matches Err(x) && x@ == e,
            },
            r matches Ok(x) ==> stmt_labels(x) == Seq::<Seq<char>>::empty(),
            Self::step(*old(self), *final(self)),
            final(self).label_count == old(self).label_count,
        decreases old(self).tokens@.len() - old(self).current, 14nat,
    {
        let target = self.parse_lvalue_suffixes(Expression::Identifier(name))?;
        self.expect(Token::Equal)?;
        let value = self.parse_expresion()?;
        self.expect(Token::Semicolon)?;
        Ok(Statement::LValueAssign { target, value, line: self.line })
    }

    /// After a name: `(arguments);`.
    #[verifier::spinoff_prover]
    #[verifier::rlimit(40)]
    fn parse_call_statement(&mut self, name: String) -> (r: Result<Statement, CompileError>)
        requires
            old(self).wf(),
        ensures
            match call_stmt_g(old(self).tokens@, old(self).state(), name@) {
                Ok((v, st)) => r matches Ok(x) && stmt_view(x) == v && final(self).state() == st,
                Err(e) => r matches Err(x) && x@ == e,
            },
            r matches Ok(x) ==> stmt_labels(x) == Seq::<Seq<char>>::empty(),
            Self::step(*old(self), *final(self)),
            final(self).label_count == old(self).label_count,
        decreases old(self).tokens@.len() - old(self).current, 14nat,
    {
        self.advance();
        let args = self.parse_call_args()?;
        self.expect(Token::Semicolon)?;
        Ok(Statement::FunctionCall { name, args, line: self.line })
    }

    /// After a name: `+= e;` or `-= e;`.
    #[verifier::spinoff_prover]
    #[verifier::rlimit(40)]
    fn parse_compound_assign(&mut self, name: String) -> (r: Result<Statement, CompileError>)
        requires
            old(self).wf(),
        ensures
            match compound_assign_g(old(self).tokens@, old(self).state(), name@) {
                Ok((v, st)) => r matches Ok(x) && stmt_view(x) == v && final(self).state() == st,
                Err(e) => r matches Err(x) && x@ == e,
            },
            r matches Ok(x) ==> stmt_labels(x) == Seq::<Seq<char>>::empty(),
            Self::step(*old(self), *final(self)),
            final(self).label_count == old(self).label_count,
        decreases old(self).tokens@.len() - old(self).current, 14nat,
    {
        let ghost ts = self.tokens@;
        let ghost st1 = self.state();
        let op = if tag(self.peek()) == 24 { BinaryOperator::Add } else { BinaryOperator::Sub };
        self.advance();
        assert(self.state() == adv(ts, st1));
        let rhs = self.parse_expresion()?;
        let ghost st3 = self.state();
        assert(expr_g(ts, adv(ts, st1)) == Ok::<(ExprV, PState), ErrV>((rhs@, st3)));
        self.expect(Token::Semicolon)?;
        assert(expect_g(ts, st3, 45) == Ok::<PState, ErrV>(self.state()));
        let lhs = Expression::Identifier(copy_string(&name));
        assert(lhs@ == ExprV::Identifier(name@));
        let value = Expression::BinaryOperation { op, left: Box::new(lhs), right: Box::new(rhs) };
        assert(value@ == ExprV::BinaryOperation { op, left: Box::new(ExprV::Identifier(name@)), right: Box::new(rhs@) });
        Ok(Statement::Assign { var_name: name, value, line: self.line })
    }

    /// After a name: `++;` or `--;`.
    #[verifier::spinoff_prover]
    #[verifier::rlimit(40)]
    fn parse_step_assign(&mut self, name: String) -> (r: Result<Statement, CompileError>)
        requires
            old(self).wf(),
        ensures
            match step_assign_g(old(self).tokens@, old(self).state(), name@) {
                Ok((v, st)) => r matches Ok(x) && stmt_view(x) == v && final(self).state() == st,
                Err(e) => r matches Err(x) && x@ == e,
            },
            r matches Ok(x) ==> stmt_labels(x) == Seq::<Seq<char>>::empty(),
            Self::step(*old(self), *final(self)),
            final(self).label_count == old(self).label_count,
        decreases old(self).tokens@.len() - old(self).current, 14nat,
    {
        let op = if tag(self.peek()) == 26 { BinaryOperator::Add } else { BinaryOperator::Sub };
        self.advance();
        self.expect(Token::Semicolon)?;
        let lhs = Expression::Identifier(copy_string(&name));
        assert(lhs@ == ExprV::Identifier(name@));
        let one = Expression::Integer(1);
        assert(one@ == ExprV::Integer(1));
        let value = Expression::BinaryOperation { op, left: Box::new(lhs), right: Box::new(one) };
        assert(value@ == ExprV::BinaryOperation { op, left: Box::new(ExprV::Identifier(name@)), right: Box::new(ExprV::Integer(1)) });
        Ok(Statement::Assign { var_name: name, value, line: self.line })
    }

    /// After a name: `= e;`.
    #[verifier::spinoff_prover]
    #[verifier::rlimit(40)]
    fn parse_plain_assign(&mut self, name: String) -> (r: Result<Statement, CompileError>)
        requires
            old(self).wf(),
        ensures
            match plain_assign_g(old(self).tokens@, old(self).state(), name@) {
                Ok((v, st)) => r matches Ok(x) && stmt_view(x) == v && final(self).state() == st,
                Err(e) => r matches Err(x) && x@ == e,
            },
            r matches Ok(x) ==> stmt_labels(x) == Seq::<Seq<char>>::empty(),
            Self::step(*old(self), *final(self)),
            final(self).label_count == old(self).label_count,
        decreases old(self).tokens@.len() - old(self).current, 14nat,
    {
        self.expect(Token::Equal)?;
        let value = self.parse_expresion()?;
        self.expect(Token::Semicolon)?;
        Ok(Statement::Assign { var_name: name, value, line: self.line })
    }

    /// Parses the `[index]` and `.field` suffixes of an assignment's target
    /// `e` (see `lvalue_tail`).
    #[verifier::spinoff_prover]
    #[verifier::rlimit(40)]
    fn parse_lvalue_suffixes(&mut self, e: Expression) -> (r: Result<Expression, CompileError>)
        requires
            old(self).wf(),
        ensures
            match lvalue_tail(old(self).tokens@, old(self).state(), e@) {
                Ok((v, st)) => r matches Ok(x) && x@ == v && final(self).state() == st,
                Err(e) => r matches Err(x) && x@ == e,
            },
            Self::step(*old(self), *final(self)),
            final(self).label_count == old(self).label_count,
    {
        let ghost ts = self.tokens@;
        let ghost st0 = self.state();
        let mut expr = e;
        loop
            invariant
                Self::step(*old(self), *self),
                self.label_count == old(self).label_count,
                ts == self.tokens@,
                st0 == old(self).state(),
                lvalue_tail(ts, st0, e@) == lvalue_tail(ts, self.state(), expr@),
            decreases self.tokens@.len() - self.current,
        {
            let k = tag(self.peek());
            if k == 47 {
                self.advance();
                let field = self.parse_identifier()?;
                expr = Expression::FieldAccess { base: Box::new(expr), field };
            } else if k == 43 {
                self.advance();
                let index = self.parse_expresion()?;
                self.expect(Token::RightBracket)?;
                expr = Expression::Index { base: Box::new(expr), index: Box::new(index) };
            } else {
                return Ok(expr);
            }
        }
    }

    /// Parses `%p = e;` (see `deref_assign_g`).
    #[verifier::spinoff_prover]
    #[verifier::rlimit(40)]
    fn parse_deref_assign(&mut self) -> (r: Result<Statement, CompileError>)
        requires
            old(self).wf(),
        ensures
            match deref_assign_g(old(self).tokens@, old(self).state()) {
                Ok((v, st)) => r matches Ok(x) && stmt_view(x) == v && final(self).state() == st,
                Err(e) => r matches Err(x) && x@ == e,
            },
            r matches Ok(x) ==> fresh_labels(stmt_labels(x), old(self).label_count as nat, final(self).label_count as nat),
            r matches Ok(x) ==> stmt_labels(x).len() == final(self).label_count - old(self).label_count,
            Self::step(*old(self), *final(self)),
            final(self).label_count == old(self).label_count,
            r is Ok ==> final(self).current > old(self).current,
        decreases old(self).tokens@.len() - old(self).current, 15nat,
    {
        let target = self.parse_unary()?;
        self.expect(Token::Equal)?;
        let value = self.parse_expresion()?;
        self.expect(Token::Semicolon)?;
        Ok(Statement::DerefAssign { target, value, line: self.line })
    }

    /// Parses `struct Name { fields };` (see `struct_g`).
    #[verifier::spinoff_prover]
    #[verifier::rlimit(40)]
    fn parse_struct_def(&mut self) -> (r: Result<Statement, CompileError>)
        requires
            old(self).wf(),
            old(self).tokens@[old(self).current as int] is Struct,
        ensures
            match struct_g(old(self).tokens@, old(self).state()) {
                Ok((v, st)) => r matches Ok(x) && stmt_view(x) == v && final(self).state() == st,
                Err(e) => r matches Err(x) && x@ == e,
            },
            r matches Ok(x) ==> fresh_labels(stmt_labels(x), old(self).label_count as nat, final(self).label_count as nat),
            r matches Ok(x) ==> stmt_labels(x).len() == final(self).label_count - old(self).label_count,
            Self::step(*old(self), *final(self)),
            final(self).label_count == old(self).label_count,
            r is Ok ==> final(self).current > old(self).current,
        decreases old(self).tokens@.len() - old(self).current, 15nat,
    {
        let ghost ts = self.tokens@;
        self.advance();
        let name = self.parse_identifier()?;
        self.expect(Token::LeftBrace)?;
        let ghost st3 = self.state();
        let mut fields: Vec<(String, Type, Option<usize>)> = Vec::new();
        assert(fields_view(fields@) =~= Seq::<(Seq<char>, Type, Option<usize>)>::empty());
        loop
            invariant
                Self::step(*old(self), *self),
                self.label_count == old(self).label_count,
                self.current > old(self).current,
                ts == self.tokens@,
                struct_g(ts, old(self).state()) == struct_finish(ts, fields_tail(ts, st3, Seq::empty()), name@),
                fields_tail(ts, st3, Seq::empty()) == fields_tail(ts, self.state(), fields_view(fields@)),
            decreases self.tokens@.len() - self.current,
        {
            let k = tag(self.peek());
            if k == 42 || k == 49 {
                self.expect(Token::RightBrace)?;
                self.expect(Token::Semicolon)?;
                return Ok(Statement::StructDef { name, fields });
            }
            if k == 50 {
                self.advance();
                continue;
            }
            let ghost before = fields@;
            let f = self.parse_struct_field()?;
            fields.push(f);
            proof {
                assert(fields_view(fields@) =~= fields_view(before).push((f.0@, f.1, f.2)));
            }
        }
    }

    /// Parses one struct field (see `field_g`).
    #[verifier::spinoff_prover]
    #[verifier::rlimit(40)]
    fn parse_struct_field(&mut self) -> (r: Result<(String, Type, Option<usize>), CompileError>)
        requires
            old(self).wf(),
        ensures
            match field_g(old(self).tokens@, old(self).state()) {
                Ok((v, st)) => r matches Ok(x) && (x.0@, x.1, x.2) == v && final(self).state() == st,
                Err(e) => r matches Err(x) && x@ == e,
            },
            Self::step(*old(self), *final(self)),
            final(self).label_count == old(self).label_count,
            r is Ok ==> final(self).current > old(self).current,
        decreases old(self).tokens@.len() - old(self).current, 14nat,
    {
        let decl = self.parse_variable_decleration()?;
        match decl {
            Statement::VariableDeclaration { var_name, var_type, operation, .. } => {
                let arr_size = match &operation {
                    Some(Expression::Array { size, values }) => {
                        proof {
                            lemma_boxed_exprs_view_index(values@);
                        }
                        if values.len() == 0 {
                            Some(*size)
                        } else {
                            None
                        }
                    },
                    _ => None,
                };
                Ok((var_name, var_type, arr_size))
            },
            _ => Err(parse_error(string_of("expected a field declaration"), self.line)),
        }
    }

    /// Parses `return [e];` (see `return_g`).
    #[verifier::spinoff_prover]
    #[verifier::rlimit(40)]
    fn parse_return(&mut self) -> (r: Result<Statement, CompileError>)
        requires
            old(self).wf(),
            old(self).tokens@[old(self).current as int] is Return,
        ensures
            match return_g(old(self).tokens@, old(self).state()) {
                Ok((v, st)) => r matches Ok(x) && stmt_view(x) == v && final(self).state() == st,
                Err(e) => r matches Err(x) && x@ == e,
            },
            r matches Ok(x) ==> fresh_labels(stmt_labels(x), old(self).label_count as nat, final(self).label_count as nat),
            r matches Ok(x) ==> stmt_labels(x).len() == final(self).label_count - old(self).label_count,
            Self::step(*old(self), *final(self)),
            final(self).label_count == old(self).label_count,
            r is Ok ==> final(self).current > old(self).current,
        decreases old(self).tokens@.len() - old(self).current, 15nat,
    {
        self.advance();
        let return_value = if tag(self.peek()) == 45 {
            None
        } else {
            Some(self.parse_expresion()?)
        };
        self.expect(Token::Semicolon)?;
        Ok(Statement::Return { return_value })
    }

    /// Parses a type: a base type or struct name, then `%` for each level of
    /// pointer.
    fn parse_type(&mut self) -> (r: Result<Type, CompileError>)
        requires
            old(self).wf(),
        ensures
            match type_g(old(self).tokens@, old(self).state()) {
                Ok((v, st)) => r == Ok::<Type, CompileError>(v) && final(self).state() == st,
                Err(e) => r matches Err(x) && x@ == e,
            },
            Self::step(*old(self), *final(self)),
            r is Ok ==> final(self).current > old(self).current,
            final(self).label_count == old(self).label_count,
            ({
                let t = old(self).tokens@[old(self).current as int];
                r is Ok <==> (t is Void || t is I8 || t is I16 || t is I32 || t is Bool || t is Identifier)
            }),
    {
        let t = tag(self.peek());
        let mut ty = if t == 0 {
            Type::Void
        } else if t == 3 {
            Type::Int8
        } else if t == 2 {
            Type::Int16
        } else if t == 1 {
            Type::Int32
        } else if t == 4 {
            Type::Bool
        } else if t == 17 {
            match self.peek() {
                Token::Identifier(name) => Type::Struct(copy_string(name)),
                _ => Type::Void,
            }
        } else {
            let mut m = string_of("Expected type, found ");
            let d = self.peek().debug_text();
            push_str(&mut m, d.as_str());
            return Err(parse_error(m, self.line));
        };
        let ghost ts = self.tokens@;
        let ghost st0 = self.state();
        self.advance();
        while tag(self.peek()) == 23
            invariant
                Self::step(*old(self), *self),
                self.current > old(self).current,
                self.label_count == old(self).label_count,
                ts == self.tokens@,
                st0 == old(self).state(),
                type_g(ts, st0) == ptr_tail(ts, self.state(), ty),
            decreases self.tokens@.len() - self.current,
        {
            self.advance();
            ty = Type::Pointer(Box::new(ty));
        }
        Ok(ty)
    }

    /// Parses an identifier.
    fn parse_identifier(&mut self) -> (r: Result<String, CompileError>)
        requires
            old(self).wf(),
        ensures
            match ident_g(old(self).tokens@, old(self).state()) {
                Ok((v, st)) => r == Ok::<String, CompileError>(v) && final(self).state() == st,
                Err(e) => r matches Err(x) && x@ == e,
            },
            Self::step(*old(self), *final(self)),
            final(self).label_count == old(self).label_count,
            old(self).tokens@[old(self).current as int] is Identifier ==> {
                &&& r == Ok::<String, CompileError>(old(self).tokens@[old(self).current as int]->Identifier_0)
                &&& final(self).current == old(self).current + 1
            },
            !(old(self).tokens@[old(self).current as int] is Identifier) ==> r is Err && final(self).current == old(self).current,
    {
        match self.peek() {
            Token::Identifier(name) => {
                let n = copy_string(name);
                self.advance();
                Ok(n)
            },
            _ => {
                let mut m = string_of("Expected identifier, found ");
                let d = self.peek().debug_text();
                push_str(&mut m, d.as_str());
                Err(parse_error(m, self.line))
            },
        }
    }

    /// Parses a comma-separated parameter list (possibly empty) up to `)`.
    fn parse_parameters(&mut self) -> (r: Result<Vec<Parameter>, CompileError>)
        requires
            old(self).wf(),
        ensures
            match params_g(old(self).tokens@, old(self).state()) {
                Ok((v, st)) => r matches Ok(ps) && ps@ == v && final(self).state() == st,
                Err(e) => r matches Err(x) && x@ == e,
            },
            Self::step(*old(self), *final(self)),
            final(self).label_count == old(self).label_count,
    {
        let ghost ts = self.tokens@;
        let ghost st0 = self.state();
        let mut params: Vec<Parameter> = Vec::new();
        if tag(self.peek()) == 40 {
            return Ok(params);
        }
        loop
            invariant
                Self::step(*old(self), *self),
                self.label_count == old(self).label_count,
                ts == self.tokens@,
                st0 == old(self).state(),
                tag_at(ts, st0) != 40,
                params_tail(ts, st0, Seq::empty()) == params_tail(ts, self.state(), params@),
            decreases self.tokens@.len() - self.current,
        {
            let typ = self.parse_type()?;
            let name = self.parse_identifier()?;
            params.push(Parameter { name, param_type: typ });
            if tag(self.peek()) != 46 {
                return Ok(params);
            }
            self.advance();
        }
    }

    /// Parses statements up to `}` or `Eof`.
    #[verifier::spinoff_prover]
    #[verifier::rlimit(40)]
    fn parse_block(&mut self) -> (r: Result<Vec<Statement>, CompileError>)
        requires
            old(self).wf(),
        ensures
            match block_tail(old(self).tokens@, old(self).state(), Seq::empty()) {
                Ok((v, st)) => r matches Ok(b) && stmts_view(b@) == v && final(self).state() == st,
                Err(e) => r matches Err(x) && x@ == e,
            },
            r matches Ok(v) ==> fresh_labels(block_labels(v@, v@.len()), old(self).label_count as nat, final(self).label_count as nat),
            r matches Ok(v) ==> block_labels(v@, v@.len()).len() == final(self).label_count - old(self).label_count,
            Self::step(*old(self), *final(self)),
        decreases old(self).tokens@.len() - old(self).current, 30nat,
    {
        let ghost ts = self.tokens@;
        let ghost st0 = self.state();
        let mut statements: Vec<Statement> = Vec::new();
        assert(stmts_view(statements@) =~= Seq::<StmtV>::empty());
        loop
            invariant
                Self::step(*old(self), *self),
                ts == self.tokens@,
                st0 == old(self).state(),
                block_tail(ts, st0, Seq::empty()) == block_tail(ts, self.state(), stmts_view(statements@)),
                fresh_labels(block_labels(statements@, statements@.len()), old(self).label_count as nat, self.label_count as nat),
                block_labels(statements@, statements@.len()).len() == self.label_count - old(self).label_count,
            decreases self.tokens@.len() - self.current,
        {
            let k = tag(self.peek());
            if k == 42 || k == 49 {
                return Ok(statements);
            }
            let ghost before = statements@;
            let ghost c0 = self.label_count as nat;
            let s = self.parse_statement()?;
            proof {
                lemma_block_labels_push(before, s);
                lemma_fresh_concat(
                    block_labels(before, before.len()),
                    stmt_labels(s),
                    old(self).label_count as nat,
                    c0,
                    c0,
                    self.label_count as nat,
                    old(self).label_count as nat,
                    self.label_count as nat,
                );
            }
            statements.push(s);
            proof {
                assert(statements@.drop_last() =~= before);
            }
        }
    }

    /// Parses a function declaration (see `function_g`).
    #[verifier::spinoff_prover]
    #[verifier::rlimit(40)]
    fn parse_function(&mut self) -> (r: Result<Statement, CompileError>)
        requires
            old(self).wf(),
        ensures
            match function_g(old(self).tokens@, old(self).state()) {
                Ok((v, st)) => r matches Ok(x) && stmt_view(x) == v && final(self).state() == st,
                Err(e) => r matches Err(x) && x@ == e,
            },
            r matches Ok(x) ==> fresh_labels(stmt_labels(x), old(self).label_count as nat, final(self).label_count as nat),
            r matches Ok(x) ==> stmt_labels(x).len() == final(self).label_count - old(self).label_count,
            Self::step(*old(self), *final(self)),
            r is Ok ==> final(self).current > old(self).current,
        decreases old(self).tokens@.len() - old(self).current, 10nat,
    {
        let line = self.line;
        let (return_type, name, params, function_flags) = self.parse_signature()?;
        let ghost c0 = self.label_count as nat;
        let body = self.parse_block()?;
        let ghost c1 = self.label_count as nat;
        self.expect(Token::RightBrace)?;
        proof {
            lemma_fresh_widen(block_labels(body@, body@.len()), c0, c1, old(self).label_count as nat, self.label_count as nat);
        }
        Ok(Statement::FunctionDecleration {
            return_type,
            name,
            params,
            body,
            flags: function_flags,
            line,
        })
    }

    /// Parses a function's signature up to the `{` of its body (see
    /// `signature_g`).
    #[verifier::spinoff_prover]
    #[verifier::rlimit(40)]
    fn parse_signature(&mut self) -> (r: Result<(Type, String, Vec<Parameter>, Vec<FunctionFlag>), CompileError>)
        requires
            old(self).wf(),
        ensures
            match signature_g(old(self).tokens@, old(self).state()) {
                Ok((rt, name, params, flags, st)) => r matches Ok(x) && x.0 == rt && x.1 == name && x.2@ == params
                    && x.3@ == flags && final(self).state() == st,
                Err(e) => r matches Err(x) && x@ == e,
            },
            Self::step(*old(self), *final(self)),
            final(self).label_count == old(self).label_count,
            r is Ok ==> final(self).current > old(self).current,
    {
        let return_type = self.parse_type()?;
        let name = self.parse_identifier()?;
        self.expect(Token::LeftParen)?;
        let params = self.parse_parameters()?;
        self.expect(Token::RightParen)?;
        let flags = self.parse_flags()?;
        self.expect(Token::LeftBrace)?;
        Ok((return_type, name, params, flags))
    }

    /// Parses optional function flags `#[...]` (see `flags_g`): only
    /// `no_stack`, kept once.
    #[verifier::spinoff_prover]
    #[verifier::rlimit(40)]
    fn parse_flags(&mut self) -> (r: Result<Vec<FunctionFlag>, CompileError>)
        requires
            old(self).wf(),
        ensures
            match flags_g(old(self).tokens@, old(self).state()) {
                Ok((v, st)) => r matches Ok(x) && x@ == v && final(self).state() == st,
                Err(e) => r matches Err(x) && x@ == e,
            },
            Self::step(*old(self), *final(self)),
            final(self).label_count == old(self).label_count,
            final(self).current >= old(self).current,
    {
        let ghost ts = self.tokens@;
        let line = self.line;
        let mut function_flags: Vec<FunctionFlag> = Vec::new();
        if tag(self.peek()) != 48 {
            return Ok(function_flags);
        }
        self.advance();
        self.expect(Token::LeftBracket)?;
        let ghost st7 = self.state();
        while tag(self.peek()) != 44
            invariant
                Self::step(*old(self), *self),
                self.label_count == old(self).label_count,
                self.current > old(self).current,
                ts == self.tokens@,
                flags_tail(ts, st7, Seq::empty(), line as int) == flags_tail(ts, self.state(), function_flags@, line as int),
                flags_tail(ts, st7, Seq::empty(), line as int) is Err ==> flags_g(ts, old(self).state()) == flags_tail(ts, st7, Seq::empty(), line as int),
                line == old(self).line,
            decreases self.tokens@.len() - self.current,
        {
            let flag_name = self.parse_identifier()?;
            let no_stack = string_of("no_stack");
            if !flag_name.eq(&no_stack) {
                let mut m = copy_string(&flag_name);
                push_str(&mut m, " is not a valid function flag");
                return Err(parse_error(m, line));
            }
            let flag = FunctionFlag::NoStack;
            let mut present = false;
            let mut i: usize = 0;
            while i < function_flags.len()
                invariant
                    i <= function_flags@.len(),
                    present == exists|k: int| 0 <= k < i && function_flags@[k] == flag,
                decreases function_flags@.len() - i,
            {
                if function_flags[i] == flag {
                    present = true;
                }
                i += 1;
            }
            if !present {
                function_flags.push(flag);
            }
            if tag(self.peek()) == 46 {
                self.advance();
            }
        }
        self.expect(Token::RightBracket)?;
        Ok(function_flags)
    }

    /// Parses `(cond) { body }` after `if` or `while` (see `cond_body_g`).
    #[verifier::spinoff_prover]
    #[verifier::rlimit(40)]
    fn parse_cond_body(&mut self) -> (r: Result<(Expression, Vec<Statement>), CompileError>)
        requires
            old(self).wf(),
            old(self).tokens@[old(self).current as int] is If || old(self).tokens@[old(self).current as int] is While,
        ensures
            match cond_body_g(old(self).tokens@, old(self).state()) {
                Ok((c, b, st)) => r matches Ok(x) && x.0@ == c && stmts_view(x.1@) == b && final(self).state() == st,
                Err(e) => r matches Err(x) && x@ == e,
            },
            r matches Ok(x) ==> fresh_labels(block_labels(x.1@, x.1@.len()), old(self).label_count as nat, final(self).label_count as nat),
            r matches Ok(x) ==> block_labels(x.1@, x.1@.len()).len() == final(self).label_count - old(self).label_count,
            Self::step(*old(self), *final(self)),
            r is Ok ==> final(self).current > old(self).current,
            r is Ok ==> final(self).budget() + label_weight(old(self).tokens@[old(self).current as int]) <= old(self).budget(),
        decreases old(self).tokens@.len() - old(self).current, 9nat,
    {
        self.advance();
        self.expect(Token::LeftParen)?;
        let condition = self.parse_expresion()?;
        self.expect(Token::RightParen)?;
        self.expect(Token::LeftBrace)?;
        let ghost c0 = self.label_count as nat;
        let body = self.parse_block()?;
        let ghost c1 = self.label_count as nat;
        self.expect(Token::RightBrace)?;
        proof {
            lemma_fresh_widen(block_labels(body@, body@.len()), c0, c1, old(self).label_count as nat, self.label_count as nat);
        }
        Ok((condition, body))
    }

    /// Parses `if (cond) { ... } [else { ... }]` (see `if_g`).
    #[verifier::spinoff_prover]
    #[verifier::rlimit(60)]
    fn parse_if(&mut self) -> (r: Result<Statement, CompileError>)
        requires
            old(self).wf(),
            old(self).tokens@[old(self).current as int] is If,
        ensures
            match if_g(old(self).tokens@, old(self).state()) {
                Ok((v, st)) => r matches Ok(x) && stmt_view(x) == v && final(self).state() == st,
                Err(e) => r matches Err(x) && x@ == e,
            },
            r matches Ok(x) ==> fresh_labels(stmt_labels(x), old(self).label_count as nat, final(self).label_count as nat),
            r matches Ok(x) ==> stmt_labels(x).len() == final(self).label_count - old(self).label_count,
            Self::step(*old(self), *final(self)),
            r is Ok ==> final(self).current > old(self).current,
        decreases old(self).tokens@.len() - old(self).current, 10nat,
    {
        let ghost c0 = self.label_count as nat;
        let (condition, body) = self.parse_cond_body()?;
        let ghost c1 = self.label_count as nat;
        let ghost lb = block_labels(body@, body@.len());
        let mut else_label: Option<String> = None;
        let mut else_body: Option<Vec<Statement>> = None;
        let ghost mut tail: Seq<Seq<char>> = Seq::empty();
        let ghost mut c2 = self.label_count as nat;
        proof {
            lemma_fresh_empty(c1, c2);
        }
        if tag(self.peek()) == 6 {
            self.advance();
            self.expect(Token::LeftBrace)?;
            let ghost d0 = self.label_count as nat;
            let eb = self.parse_block()?;
            let ghost d1 = self.label_count as nat;
            self.expect(Token::RightBrace)?;
            let el = self.new_label();
            proof {
                lemma_fresh_one(d1);
                lemma_fresh_concat(block_labels(eb@, eb@.len()), seq![el@], d0, d1, d1, d1 + 1, c1, d1 + 1);
                tail = block_labels(eb@, eb@.len()) + seq![el@];
                c2 = self.label_count as nat;
            }
            else_body = Some(eb);
            else_label = Some(el);
        }
        let ghost c3 = self.label_count as nat;
        let label = self.new_label();
        proof {
            lemma_fresh_one(c3);
            lemma_fresh_concat(tail, seq![label@], c1, c2, c3, c3 + 1, c1, c3 + 1);
            lemma_fresh_concat(lb, tail + seq![label@], c0, c1, c1, c3 + 1, old(self).label_count as nat, self.label_count as nat);
            let eb_part = if else_body is Some {
                block_labels(else_body->Some_0@, else_body->Some_0@.len())
            } else {
                Seq::empty()
            };
            let el_part = if else_label is Some {
                seq![else_label->Some_0@]
            } else {
                Seq::<Seq<char>>::empty()
            };
            assert(eb_part + el_part =~= tail);
            assert(lb + eb_part + el_part + seq![label@] =~= lb + (tail + seq![label@]));
        }
        Ok(Statement::If { label, condition, body, else_label, else_body })
    }

    /// Parses `while (cond) { ... }` (see `while_g`).
    #[verifier::spinoff_prover]
    #[verifier::rlimit(60)]
    fn parse_while(&mut self) -> (r: Result<Statement, CompileError>)
        requires
            old(self).wf(),
            old(self).tokens@[old(self).current as int] is While,
        ensures
            match while_g(old(self).tokens@, old(self).state()) {
                Ok((v, st)) => r matches Ok(x) && stmt_view(x) == v && final(self).state() == st,
                Err(e) => r matches Err(x) && x@ == e,
            },
            r matches Ok(x) ==> fresh_labels(stmt_labels(x), old(self).label_count as nat, final(self).label_count as nat),
            r matches Ok(x) ==> stmt_labels(x).len() == final(self).label_count - old(self).label_count,
            Self::step(*old(self), *final(self)),
            r is Ok ==> final(self).current > old(self).current,
        decreases old(self).tokens@.len() - old(self).current, 10nat,
    {
        let ghost c0 = self.label_count as nat;
        let (condition, body) = self.parse_cond_body()?;
        let ghost c1 = self.label_count as nat;
        let ghost c2 = self.label_count as nat;
        let body_label = self.new_label();
        let cond_label = self.new_label();
        proof {
            lemma_fresh_one(c2);
            lemma_fresh_one(c2 + 1);
            lemma_fresh_concat(seq![body_label@], seq![cond_label@], c2, c2 + 1, c2 + 1, c2 + 2, c2, c2 + 2);
            assert(seq![body_label@] + seq![cond_label@] =~= seq![body_label@, cond_label@]);
            lemma_fresh_concat(
                block_labels(body@, body@.len()),
                seq![body_label@, cond_label@],
                c0,
                c1,
                c2,
                c2 + 2,
                old(self).label_count as nat,
                self.label_count as nat,
            );
        }
        Ok(Statement::While { body_label, body, cond_label, condition })
    }

    /// Parses the head of a `for` loop after the keyword, `(init cond;
    /// step) {` (see `for_head_g`).
    #[verifier::spinoff_prover]
    #[verifier::rlimit(40)]
    fn parse_for_head(&mut self) -> (r: Result<(Statement, Expression, Statement), CompileError>)
        requires
            old(self).wf(),
            old(self).tokens@[old(self).current as int] is For,
        ensures
            match for_head_g(old(self).tokens@, old(self).state()) {
                Ok((init, cond, inc, st)) => r matches Ok(x) && stmt_view(x.0) == init && x.1@ == cond
                    && stmt_view(x.2) == inc && final(self).state() == st,
                Err(e) => r matches Err(x) && x@ == e,
            },
            r matches Ok(x) ==> fresh_labels(stmt_labels(x.0), old(self).label_count as nat, final(self).label_count as nat)
                && stmt_labels(x.0).len() == final(self).label_count - old(self).label_count
                && stmt_labels(x.2) == Seq::<Seq<char>>::empty(),
            Self::step(*old(self), *final(self)),
            r is Ok ==> final(self).current > old(self).current,
            r is Ok ==> final(self).budget() + 2 <= old(self).budget(),
        decreases old(self).tokens@.len() - old(self).current, 9nat,
    {
        self.advance();
        self.expect(Token::LeftParen)?;
        let ghost a0 = self.label_count as nat;
        let init = self.parse_statement()?;
        let ghost a1 = self.label_count as nat;
        let condition = self.parse_expresion()?;
        self.expect(Token::Semicolon)?;
        let increment = self.parse_for_increment_stmt()?;
        self.expect(Token::RightParen)?;
        self.expect(Token::LeftBrace)?;
        proof {
            lemma_fresh_widen(stmt_labels(init), a0, a1, old(self).label_count as nat, self.label_count as nat);
        }
        Ok((init, condition, increment))
    }

    /// Parses `for (init cond; step) { ... }` into the initializer
    /// followed by a while loop whose body ends with the step (see `for_g`).
    #[verifier::spinoff_prover]
    #[verifier::rlimit(60)]
    fn parse_for(&mut self) -> (r: Result<Statement, CompileError>)
        requires
            old(self).wf(),
            old(self).tokens@[old(self).current as int] is For,
        ensures
            match for_g(old(self).tokens@, old(self).state()) {
                Ok((v, st)) => r matches Ok(x) && stmt_view(x) == v && final(self).state() == st,
                Err(e) => r matches Err(x) && x@ == e,
            },
            r matches Ok(x) ==> fresh_labels(stmt_labels(x), old(self).label_count as nat, final(self).label_count as nat),
            r matches Ok(x) ==> stmt_labels(x).len() == final(self).label_count - old(self).label_count,
            Self::step(*old(self), *final(self)),
            r is Ok ==> final(self).current > old(self).current,
        decreases old(self).tokens@.len() - old(self).current, 10nat,
    {
        let ghost a0 = self.label_count as nat;
        let (init, condition, increment) = self.parse_for_head()?;
        let ghost b0 = self.label_count as nat;
        let body = self.parse_block()?;
        let ghost d1 = self.label_count as nat;
        self.expect(Token::RightBrace)?;
        Ok(self.finish_for(init, condition, increment, body, Ghost(a0), Ghost(b0), Ghost(d1)))
    }

    /// The statement of a `for` loop from its parsed parts: the initializer,
    /// then a `while` loop under the next two labels whose body ends with
    /// the step.
    #[verifier::spinoff_prover]
    fn finish_for(
        &mut self,
        init: Statement,
        condition: Expression,
        increment: Statement,
        body: Vec<Statement>,
        Ghost(a0): Ghost<nat>,
        Ghost(b0): Ghost<nat>,
        Ghost(d1): Ghost<nat>,
    ) -> (r: Statement)
        requires
            old(self).wf(),
            fresh_labels(stmt_labels(init), a0, b0),
            stmt_labels(init).len() == b0 - a0,
            fresh_labels(block_labels(body@, body@.len()), b0, d1),
            block_labels(body@, body@.len()).len() == d1 - b0,
            stmt_labels(increment) == Seq::<Seq<char>>::empty(),
            a0 <= b0 <= d1 == old(self).label_count,
            old(self).label_count + 2 <= usize::MAX,
        ensures
            stmt_view(r) == StmtV::Block(seq![
                stmt_view(init),
                StmtV::While {
                    body_label: label_text(old(self).label_count as nat),
                    body: stmts_view(body@).push(stmt_view(increment)),
                    cond_label: label_text((old(self).label_count + 1) as nat),
                    condition: condition@,
                },
            ]),
            fresh_labels(stmt_labels(r), a0, final(self).label_count as nat),
            stmt_labels(r).len() == final(self).label_count - a0,
            final(self).label_count == old(self).label_count + 2,
            final(self).tokens@ == old(self).tokens@,
            final(self).current == old(self).current,
            final(self).line == old(self).line,
    {
        let mut body = body;
        let ghost body0 = body@;
        body.push(increment);
        proof {
            assert(body@.drop_last() =~= body0);
        }
        let ghost c2 = self.label_count as nat;
        let body_label = self.new_label();
        let cond_label = self.new_label();
        proof {
            lemma_block_labels_push(body0, increment);
            assert(block_labels(body0, body0.len()) + stmt_labels(increment) =~= block_labels(body0, body0.len()));
            lemma_fresh_one(c2);
            lemma_fresh_one(c2 + 1);
            lemma_fresh_concat(seq![body_label@], seq![cond_label@], c2, c2 + 1, c2 + 1, c2 + 2, c2, c2 + 2);
            assert(seq![body_label@] + seq![cond_label@] =~= seq![body_label@, cond_label@]);
            lemma_fresh_concat(block_labels(body@, body@.len()), seq![body_label@, cond_label@], b0, d1, c2, c2 + 2, b0, c2 + 2);
        }
        let looped = Statement::While { body_label, cond_label, condition, body };
        let mut block: Vec<Statement> = Vec::new();
        block.push(init);
        block.push(looped);
        proof {
            lemma_fresh_concat(stmt_labels(init), stmt_labels(looped), a0, b0, b0, c2 + 2, a0, self.label_count as nat);
            assert(block@ =~= seq![init].push(looped));
            lemma_block_labels_push(seq![init], looped);
            lemma_block_labels_push(Seq::<Statement>::empty(), init);
            assert(Seq::<Statement>::empty().push(init) =~= seq![init]);
            assert(block_labels(Seq::<Statement>::empty(), 0) + stmt_labels(init) =~= stmt_labels(init));
            lemma_stmts_view_index(block@);
            lemma_stmts_view_index(body@);
            assert(stmts_view(body@) =~= stmts_view(body0).push(stmt_view(increment)));
            assert(stmts_view(block@) =~= seq![stmt_view(init), stmt_view(looped)]);
        }
        Statement::Block(block)
    }

    /// Parses the step of a `for` loop: `x += e`, `x -= e`, `x++` or `x--`.
    #[verifier::spinoff_prover]
    #[verifier::rlimit(60)]
    fn parse_for_increment_stmt(&mut self) -> (r: Result<Statement, CompileError>)
        requires
            old(self).wf(),
        ensures
            match increment_g(old(self).tokens@, old(self).state()) {
                Ok((v, st)) => r matches Ok(x) && stmt_view(x) == v && final(self).state() == st,
                Err(e) => r matches Err(x) && x@ == e,
            },
            r matches Ok(x) ==> stmt_labels(x) == Seq::<Seq<char>>::empty(),
            r matches Ok(st) ==> fresh_labels(stmt_labels(st), old(self).label_count as nat, final(self).label_count as nat),
            r matches Ok(st) ==> stmt_labels(st).len() == final(self).label_count - old(self).label_count,
            Self::step(*old(self), *final(self)),
            final(self).label_count == old(self).label_count,
        decreases old(self).tokens@.len() - old(self).current, 10nat,
    {
        let line = self.line;
        let name = self.parse_identifier()?;
        let nt = tag(self.peek());
        if nt == 24 || nt == 25 {
            let op = if nt == 24 { BinaryOperator::Add } else { BinaryOperator::Sub };
            self.advance();
            let rhs = self.parse_expresion()?;
            let lhs = Expression::Identifier(copy_string(&name));
            assert(lhs@ == ExprV::Identifier(name@));
            let value = Expression::BinaryOperation { op, left: Box::new(lhs), right: Box::new(rhs) };
            assert(value@ == ExprV::BinaryOperation { op, left: Box::new(ExprV::Identifier(name@)), right: Box::new(rhs@) });
            Ok(Statement::Assign { var_name: name, value, line })
        } else if nt == 26 || nt == 27 {
            let op = if nt == 26 { BinaryOperator::Add } else { BinaryOperator::Sub };
            self.advance();
            let lhs = Expression::Identifier(copy_string(&name));
            assert(lhs@ == ExprV::Identifier(name@));
            let one = Expression::Integer(1);
            assert(one@ == ExprV::Integer(1));
            let value = Expression::BinaryOperation { op, left: Box::new(lhs), right: Box::new(one) };
            assert(value@ == ExprV::BinaryOperation { op, left: Box::new(ExprV::Identifier(name@)), right: Box::new(ExprV::Integer(1)) });
            Ok(Statement::Assign { var_name: name, value, line: self.line })
        } else {
            Err(parse_error(string_of("expected += / ++ or -= / -- in for-loop increment"), line))
        }
    }

    /// Parses an expression.
    fn parse_expresion(&mut self) -> (r: Result<Expression, CompileError>)
        requires
            old(self).wf(),
        ensures
            match expr_g(old(self).tokens@, old(self).state()) {
                Ok((v, st)) => r matches Ok(e) && e@ == v && final(self).state() == st,
                Err(e) => r matches Err(x) && x@ == e,
            },
            Self::step(*old(self), *final(self)),
            final(self).label_count == old(self).label_count,
            r is Ok ==> final(self).current > old(self).current,
        decreases old(self).tokens@.len() - old(self).current, 7nat,
    {
        self.parse_logical()
    }

    /// Parses `&&` / `||` chains, left-associative.
    #[verifier::spinoff_prover]
    #[verifier::rlimit(40)]
    fn parse_logical(&mut self) -> (r: Result<Expression, CompileError>)
        requires
            old(self).wf(),
        ensures
            match logical_g(old(self).tokens@, old(self).state()) {
                Ok((v, st)) => r matches Ok(e) && e@ == v && final(self).state() == st,
                Err(e) => r matches Err(x) && x@ == e,
            },
            Self::step(*old(self), *final(self)),
            final(self).label_count == old(self).label_count,
            r is Ok ==> final(self).current > old(self).current,
        decreases old(self).tokens@.len() - old(self).current, 6nat,
    {
        let ghost ts = self.tokens@;
        let ghost st0 = self.state();
        let mut left = self.parse_comparison()?;
        loop
            invariant
                Self::step(*old(self), *self),
                self.label_count == old(self).label_count,
                self.current > old(self).current,
                ts == self.tokens@,
                st0 == old(self).state(),
                logical_g(ts, st0) == logical_tail(ts, self.state(), left@),
            decreases self.tokens@.len() - self.current,
        {
            let k = tag(self.peek());
            if k != 37 && k != 38 {
                return Ok(left);
            }
            let op = if k == 37 { BinaryOperator::And } else { BinaryOperator::Or };
            self.advance();
            let right = self.parse_comparison()?;
            left = Expression::BinaryOperation { op, left: Box::new(left), right: Box::new(right) };
        }
    }

    /// Parses comparison chains, left-associative.
    #[verifier::spinoff_prover]
    #[verifier::rlimit(40)]
    fn parse_comparison(&mut self) -> (r: Result<Expression, CompileError>)
        requires
            old(self).wf(),
        ensures
            match comparison_g(old(self).tokens@, old(self).state()) {
                Ok((v, st)) => r matches Ok(e) && e@ == v && final(self).state() == st,
                Err(e) => r matches Err(x) && x@ == e,
            },
            Self::step(*old(self), *final(self)),
            final(self).label_count == old(self).label_count,
            r is Ok ==> final(self).current > old(self).current,
        decreases old(self).tokens@.len() - old(self).current, 5nat,
    {
        let ghost ts = self.tokens@;
        let ghost st0 = self.state();
        let mut left = self.parse_additive()?;
        loop
            invariant
                Self::step(*old(self), *self),
                self.label_count == old(self).label_count,
                self.current > old(self).current,
                ts == self.tokens@,
                st0 == old(self).state(),
                comparison_g(ts, st0) == comparison_tail(ts, self.state(), left@),
            decreases self.tokens@.len() - self.current,
        {
            let k = tag(self.peek());
            let op = if k == 31 {
                BinaryOperator::Eq
            } else if k == 32 {
                BinaryOperator::NotEq
            } else if k == 33 {
                BinaryOperator::Lt
            } else if k == 34 {
                BinaryOperator::Gt
            } else if k == 35 {
                BinaryOperator::LtEq
            } else if k == 36 {
                BinaryOperator::GtEq
            } else {
                return Ok(left);
            };
            self.advance();
            let right = self.parse_additive()?;
            left = Expression::BinaryOperation { op, left: Box::new(left), right: Box::new(right) };
        }
    }

    /// Parses `+` / `-` chains, left-associative.
    #[verifier::spinoff_prover]
    #[verifier::rlimit(40)]
    fn parse_additive(&mut self) -> (r: Result<Expression, CompileError>)
        requires
            old(self).wf(),
        ensures
            match additive_g(old(self).tokens@, old(self).state()) {
                Ok((v, st)) => r matches Ok(e) && e@ == v && final(self).state() == st,
                Err(e) => r matches Err(x) && x@ == e,
            },
            Self::step(*old(self), *final(self)),
            final(self).label_count == old(self).label_count,
            r is Ok ==> final(self).current > old(self).current,
        decreases old(self).tokens@.len() - old(self).current, 4nat,
    {
        let ghost ts = self.tokens@;
        let ghost st0 = self.state();
        let mut left = self.parse_multiplicative()?;
        loop
            invariant
                Self::step(*old(self), *self),
                self.label_count == old(self).label_count,
                self.current > old(self).current,
                ts == self.tokens@,
                st0 == old(self).state(),
                additive_g(ts, st0) == additive_tail(ts, self.state(), left@),
            decreases self.tokens@.len() - self.current,
        {
            let k = tag(self.peek());
            if k != 19 && k != 20 {
                return Ok(left);
            }
            let op = if k == 19 { BinaryOperator::Add } else { BinaryOperator::Sub };
            self.advance();
            let right = self.parse_multiplicative()?;
            left = Expression::BinaryOperation { op, left: Box::new(left), right: Box::new(right) };
        }
    }

    /// Parses `*` / `/` chains, left-associative; the right operand of each
    /// is a primary expression.
    #[verifier::spinoff_prover]
    #[verifier::rlimit(40)]
    fn parse_multiplicative(&mut self) -> (r: Result<Expression, CompileError>)
        requires
            old(self).wf(),
        ensures
            match multiplicative_g(old(self).tokens@, old(self).state()) {
                Ok((v, st)) => r matches Ok(e) && e@ == v && final(self).state() == st,
                Err(e) => r matches Err(x) && x@ == e,
            },
            Self::step(*old(self), *final(self)),
            final(self).label_count == old(self).label_count,
            r is Ok ==> final(self).current > old(self).current,
        decreases old(self).tokens@.len() - old(self).current, 3nat,
    {
        let ghost ts = self.tokens@;
        let ghost st0 = self.state();
        let mut left = self.parse_unary()?;
        loop
            invariant
                Self::step(*old(self), *self),
                self.label_count == old(self).label_count,
                self.current > old(self).current,
                ts == self.tokens@,
                st0 == old(self).state(),
                multiplicative_g(ts, st0) == multiplicative_tail(ts, self.state(), left@),
            decreases self.tokens@.len() - self.current,
        {
            let k = tag(self.peek());
            if k != 21 && k != 22 {
                return Ok(left);
            }
            let op = if k == 21 { BinaryOperator::Mul } else { BinaryOperator::Div };
            self.advance();
            let right = self.parse_primary()?;
            left = Expression::BinaryOperation { op, left: Box::new(left), right: Box::new(right) };
        }
    }

    /// Parses prefix operators `!`, `%`, `&`, `-`, then a primary expression
    /// followed by any `[index]` and `.field` suffixes.
    #[verifier::spinoff_prover]
    #[verifier::rlimit(40)]
    fn parse_unary(&mut self) -> (r: Result<Expression, CompileError>)
        requires
            old(self).wf(),
        ensures
            match unary_g(old(self).tokens@, old(self).state()) {
                Ok((v, st)) => r matches Ok(e) && e@ == v && final(self).state() == st,
                Err(e) => r matches Err(x) && x@ == e,
            },
            Self::step(*old(self), *final(self)),
            final(self).label_count == old(self).label_count,
            r is Ok ==> final(self).current > old(self).current,
        decreases old(self).tokens@.len() - old(self).current, 2nat,
    {
        let ghost ts = self.tokens@;
        let ghost st0 = self.state();
        let k = tag(self.peek());
        if k == 28 || k == 23 || k == 29 || k == 20 {
            let op = if k == 28 {
                UnaryOperator::Not
            } else if k == 23 {
                UnaryOperator::Deref
            } else if k == 29 {
                UnaryOperator::AddressOf
            } else {
                UnaryOperator::Neg
            };
            self.advance();
            let operand = self.parse_unary()?;
            return Ok(Expression::UnaryOperation { op, operand: Box::new(operand) });
        }
        let mut expr = self.parse_primary()?;
        loop
            invariant
                Self::step(*old(self), *self),
                self.label_count == old(self).label_count,
                self.current > old(self).current,
                ts == self.tokens@,
                st0 == old(self).state(),
                unary_g(ts, st0) == suffix_tail(ts, self.state(), expr@),
            decreases self.tokens@.len() - self.current,
        {
            let k = tag(self.peek());
            if k == 43 {
                self.advance();
                let index = self.parse_expresion()?;
                self.expect(Token::RightBracket)?;
                expr = Expression::Index { base: Box::new(expr), index: Box::new(index) };
            } else if k == 47 {
                self.advance();
                let field = self.parse_identifier()?;
                expr = Expression::FieldAccess { base: Box::new(expr), field };
            } else {
                return Ok(expr);
            }
        }
    }

    /// Parses a literal, `sizeof` type, identifier, call, parenthesized
    /// expression or array literal `{a, b, ...}`.
    #[verifier::spinoff_prover]
    #[verifier::rlimit(40)]
    fn parse_primary(&mut self) -> (r: Result<Expression, CompileError>)
        requires
            old(self).wf(),
        ensures
            match primary_g(old(self).tokens@, old(self).state()) {
                Ok((v, st)) => r matches Ok(e) && e@ == v && final(self).state() == st,
                Err(e) => r matches Err(x) && x@ == e,
            },
            Self::step(*old(self), *final(self)),
            final(self).label_count == old(self).label_count,
            r is Ok ==> final(self).current > old(self).current,
            ({
                let t = old(self).tokens@[old(self).current as int];
                &&& t is IntegerLiteral ==> r == Ok::<Expression, CompileError>(Expression::Integer(t->IntegerLiteral_0))
                &&& t is BoolLiteral ==> r == Ok::<Expression, CompileError>(Expression::Bool(t->BoolLiteral_0))
                &&& t is StringLiteral ==> r is Ok && r->Ok_0 is String && r->Ok_0->String_0@ == t->StringLiteral_0@
                &&& !(t is IntegerLiteral || t is BoolLiteral || t is StringLiteral || t is SizeOf
                    || t is Identifier || t is LeftParen || t is LeftBrace) ==> r is Err
            }),
        decreases old(self).tokens@.len() - old(self).current, 1nat,
    {
        let ghost ts = self.tokens@;
        let ghost st0 = self.state();
        let k = tag(self.peek());
        if k == 13 {
            let n = match self.peek() {
                Token::IntegerLiteral(n) => *n,
                _ => 0,
            };
            self.advance();
            Ok(Expression::Integer(n))
        } else if k == 14 {
            let b = match self.peek() {
                Token::BoolLiteral(b) => *b,
                _ => false,
            };
            self.advance();
            Ok(Expression::Bool(b))
        } else if k == 15 {
            let s = match self.peek() {
                Token::StringLiteral(s) => copy_string(s),
                _ => String::new(),
            };
            self.advance();
            Ok(Expression::String(s))
        } else if k == 12 {
            self.advance();
            let t = self.parse_type()?;
            Ok(Expression::SizeOf(t))
        } else if k == 17 {
            self.parse_name_or_call()
        } else if k == 39 {
            self.parse_parenthesized()
        } else if k == 41 {
            self.parse_array_literal()
        } else {
            let mut m = self.peek().debug_text();
            push_str(&mut m, " not implemented in parse_primary");
            Err(parse_error(m, self.line))
        }
    }

    /// Parses a name, or a call when `(` follows it.
    #[verifier::spinoff_prover]
    #[verifier::rlimit(40)]
    fn parse_name_or_call(&mut self) -> (r: Result<Expression, CompileError>)
        requires
            old(self).wf(),
            old(self).tokens@[old(self).current as int] is Identifier,
        ensures
            match primary_g(old(self).tokens@, old(self).state()) {
                Ok((v, st)) => r matches Ok(e) && e@ == v && final(self).state() == st,
                Err(e) => r matches Err(x) && x@ == e,
            },
            Self::step(*old(self), *final(self)),
            final(self).label_count == old(self).label_count,
            r is Ok ==> final(self).current > old(self).current,
        decreases old(self).tokens@.len() - old(self).current, 0nat,
    {
        let name = match self.peek() {
            Token::Identifier(name) => copy_string(name),
            _ => String::new(),
        };
        self.advance();
        if tag(self.peek()) == 39 {
            self.advance();
            let args = self.parse_call_args()?;
            Ok(Expression::FunctionCall { name, args, return_type: None })
        } else {
            Ok(Expression::Identifier(name))
        }
    }

    /// Parses `( expression )`.
    #[verifier::spinoff_prover]
    #[verifier::rlimit(40)]
    fn parse_parenthesized(&mut self) -> (r: Result<Expression, CompileError>)
        requires
            old(self).wf(),
            old(self).tokens@[old(self).current as int] is LeftParen,
        ensures
            match primary_g(old(self).tokens@, old(self).state()) {
                Ok((v, st)) => r matches Ok(e) && e@ == v && final(self).state() == st,
                Err(e) => r matches Err(x) && x@ == e,
            },
            Self::step(*old(self), *final(self)),
            final(self).label_count == old(self).label_count,
            r is Ok ==> final(self).current > old(self).current,
        decreases old(self).tokens@.len() - old(self).current, 0nat,
    {
        self.advance();
        let expr = self.parse_expresion()?;
        self.expect(Token::RightParen)?;
        Ok(expr)
    }

    /// Parses an array literal `{a, b, ...}`.
    #[verifier::spinoff_prover]
    #[verifier::rlimit(40)]
    fn parse_array_literal(&mut self) -> (r: Result<Expression, CompileError>)
        requires
            old(self).wf(),
            old(self).tokens@[old(self).current as int] is LeftBrace,
        ensures
            match primary_g(old(self).tokens@, old(self).state()) {
                Ok((v, st)) => r matches Ok(e) && e@ == v && final(self).state() == st,
                Err(e) => r matches Err(x) && x@ == e,
            },
            Self::step(*old(self), *final(self)),
            final(self).label_count == old(self).label_count,
            r is Ok ==> final(self).current > old(self).current,
        decreases old(self).tokens@.len() - old(self).current, 0nat,
    {
        self.advance();
        let exprs = self.parse_array_values()?;
        let size = exprs.len();
        proof {
            lemma_boxed_exprs_view_index(exprs@);
        }
        self.expect(Token::RightBrace)?;
        Ok(Expression::Array { values: exprs, size })
    }

    /// Parses call arguments after `(`: expressions separated by commas, up
    /// to and including `)`.
    #[verifier::spinoff_prover]
    #[verifier::rlimit(40)]
    fn parse_call_args(&mut self) -> (r: Result<Vec<Expression>, CompileError>)
        requires
            old(self).wf(),
        ensures
            match call_args_g(old(self).tokens@, old(self).state()) {
                Ok((v, st)) => r matches Ok(args) && exprs_view(args@) == v && final(self).state() == st,
                Err(e) => r matches Err(x) && x@ == e,
            },
            Self::step(*old(self), *final(self)),
            final(self).label_count == old(self).label_count,
            r is Ok ==> final(self).current > old(self).current,
        decreases old(self).tokens@.len() - old(self).current, 9nat,
    {
        let ghost ts = self.tokens@;
        let ghost st0 = self.state();
        let mut args: Vec<Expression> = Vec::new();
        if tag(self.peek()) != 40 {
            loop
                invariant
                    Self::step(*old(self), *self),
                    self.label_count == old(self).label_count,
                    ts == self.tokens@,
                    st0 == old(self).state(),
                    tag_at(ts, st0) != 40,
                    self.state() == st0 || self.current > old(self).current,
                    args_tail(ts, st0, Seq::empty()) == args_tail(ts, self.state(), exprs_view(args@)),
                decreases self.tokens@.len() - self.current,
            {
                let ghost before = args@;
                let a = self.parse_expresion()?;
                args.push(a);
                proof {
                    assert(args@.drop_last() =~= before);
                }
                if tag(self.peek()) != 46 {
                    self.expect(Token::RightParen)?;
                    return Ok(args);
                }
                self.advance();
            }
        }
        self.expect(Token::RightParen)?;
        Ok(args)
    }

    /// Parses the values of an array literal after `{`, up to the `}`
    /// (which is not consumed); commas between values are optional.
    #[verifier::spinoff_prover]
    #[verifier::rlimit(40)]
    fn parse_array_values(&mut self) -> (r: Result<Vec<Box<Expression>>, CompileError>)
        requires
            old(self).wf(),
        ensures
            match array_tail(old(self).tokens@, old(self).state(), Seq::empty()) {
                Ok((v, st)) => r matches Ok(vals) && boxed_exprs_view(vals@) == v && final(self).state() == st,
                Err(e) => r matches Err(x) && x@ == e,
            },
            Self::step(*old(self), *final(self)),
            final(self).label_count == old(self).label_count,
        decreases old(self).tokens@.len() - old(self).current, 8nat,
    {
        let ghost ts = self.tokens@;
        let ghost st0 = self.state();
        let mut exprs: Vec<Box<Expression>> = Vec::new();
        loop
            invariant
                Self::step(*old(self), *self),
                self.label_count == old(self).label_count,
                ts == self.tokens@,
                st0 == old(self).state(),
                array_tail(ts, st0, Seq::empty()) == array_tail(ts, self.state(), boxed_exprs_view(exprs@)),
            decreases self.tokens@.len() - self.current,
        {
            if tag(self.peek()) == 42 {
                return Ok(exprs);
            }
            let ghost before = exprs@;
            let e = self.parse_expresion()?;
            exprs.push(Box::new(e));
            proof {
                assert(exprs@.drop_last() =~= before);
            }
            if tag(self.peek()) == 46 {
                self.advance();
            }
        }
    }

    /// Parses `type name;`, `type name = expr;` or `type name[N];`.
    #[verifier::spinoff_prover]
    #[verifier::rlimit(40)]
    fn parse_variable_decleration(&mut self) -> (r: Result<Statement, CompileError>)
        requires
            old(self).wf(),
        ensures
            match vardecl_g(old(self).tokens@, old(self).state()) {
                Ok((v, st)) => r matches Ok(x) && stmt_view(x) == v && final(self).state() == st,
                Err(e) => r matches Err(x) && x@ == e,
            },
            r matches Ok(st) ==> fresh_labels(stmt_labels(st), old(self).label_count as nat, final(self).label_count as nat),
            r matches Ok(st) ==> stmt_labels(st).len() == final(self).label_count - old(self).label_count,
            Self::step(*old(self), *final(self)),
            final(self).label_count == old(self).label_count,
            r is Ok ==> final(self).current > old(self).current,
            r matches Ok(s) ==> s is VariableDeclaration,
        decreases old(self).tokens@.len() - old(self).current, 9nat,
    {
        let line = self.line;
        let var_type = self.parse_type()?;
        let var_name = self.parse_identifier()?;
        let operation = self.parse_initializer()?;
        self.expect(Token::Semicolon)?;
        Ok(Statement::VariableDeclaration { var_name, var_type, operation, line })
    }

    /// Parses what may follow a declared name (see `initializer_g`).
    #[verifier::spinoff_prover]
    #[verifier::rlimit(40)]
    fn parse_initializer(&mut self) -> (r: Result<Option<Expression>, CompileError>)
        requires
            old(self).wf(),
        ensures
            match initializer_g(old(self).tokens@, old(self).state()) {
                Ok((v, st)) => r matches Ok(x) && opt_expr_view(x) == v && final(self).state() == st,
                Err(e) => r matches Err(x) && x@ == e,
            },
            Self::step(*old(self), *final(self)),
            final(self).label_count == old(self).label_count,
            final(self).current >= old(self).current,
        decreases old(self).tokens@.len() - old(self).current, 8nat,
    {
        let k = tag(self.peek());
        if k == 18 {
            self.advance();
            let e = self.parse_expresion()?;
            Ok(Some(e))
        } else if k == 43 {
            self.advance();
            let arr_size: usize = match self.peek() {
                Token::IntegerLiteral(n) => {
                    let v = *n as usize;
                    self.advance();
                    v
                },
                _ => {
                    return Err(parse_error(string_of("Expected integer literal in array size initializer"), self.line));
                },
            };
            self.expect(Token::RightBracket)?;
            let values: Vec<Box<Expression>> = Vec::new();
            assert(boxed_exprs_view(values@) =~= Seq::<ExprV>::empty());
            Ok(Some(Expression::Array { values, size: arr_size }))
        } else {
            Ok(None)
        }
    }

    /// A fresh label `L<n>`, numbering on.
    fn new_label(&mut self) -> (r: String)
        requires
            old(self).label_count < usize::MAX,
        ensures
            r@ == label_text(old(self).label_count as nat),
            final(self).label_count == old(self).label_count + 1,
            final(self).tokens@ == old(self).tokens@,
            final(self).current == old(self).current,
            final(self).line == old(self).line,
    {
        let mut s = string_of("L");
        push_decimal(&mut s, self.label_count);
        self.label_count += 1;
        s
    }

    /// Moves to the next token, staying on the last one.
    fn advance(&mut self)
        requires
            old(self).wf(),
        ensures
            final(self).tokens@ == old(self).tokens@,
            final(self).line == old(self).line,
            final(self).label_count == old(self).label_count,
            final(self).current == (if old(self).current < old(self).tokens@.len() - 1 {
                old(self).current + 1
            } else {
                old(self).current as int
            }),
            final(self).wf(),
            final(self).budget() <= old(self).budget(),
            old(self).current < old(self).tokens@.len() - 1
                ==> final(self).budget() + label_weight(old(self).tokens@[old(self).current as int]) == old(self).budget(),
    {
        if self.current < self.tokens.len() - 1 {
            self.current += 1;
        }
    }

    /// The current token.
    fn peek(&self) -> (r: &Token)
        requires
            self.current < self.tokens@.len(),
        ensures
            *r == self.tokens@[self.current as int],
    {
        &self.tokens[self.current]
    }

    /// Whether the token `n` places ahead exists and has variant number `t`.
    fn peek_is_at(&self, n: usize, t: u8) -> (r: bool)
        ensures
            r == (self.current + n < self.tokens@.len() && spec_tag(self.tokens@[self.current + n]) == t),
    {
        if n < self.tokens.len() && self.current < self.tokens.len() - n {
            tag(&self.tokens[self.current + n]) == t
        } else {
            false
        }
    }

    /// Whether the current token is `Eof`.
    fn is_at_end(&self) -> (r: bool)
        requires
            self.current < self.tokens@.len(),
        ensures
            r == (self.tokens@[self.current as int] is Eof),
    {
        matches!(self.peek(), Token::Eof)
    }

    /// Consumes the expected token, skipping (and counting) line breaks
    /// before it; an error names the token found instead.
    fn expect(&mut self, expected: Token) -> (r: Result<(), CompileError>)
        requires
            old(self).wf(),
            !(expected is Eof),
            !(expected is Newline),
            expected == tag_token(spec_tag(expected)),
        ensures
            match expect_g(old(self).tokens@, old(self).state(), spec_tag(expected)) {
                Ok(st) => r is Ok && final(self).state() == st,
                Err(e) => r matches Err(x) && x@ == e,
            },
            Self::step(*old(self), *final(self)),
            final(self).label_count == old(self).label_count,
            r is Ok ==> final(self).current > old(self).current,
            r is Ok ==> spec_tag(old(self).tokens@[final(self).current - 1]) == spec_tag(expected),
        decreases old(self).tokens@.len() - old(self).current,
    {
        let k = tag(self.peek());
        if k == tag(&expected) {
            self.advance();
            Ok(())
        } else if k == 50 {
            self.advance();
            self.line += 1;
            self.expect(expected)
        } else {
            let mut m = string_of("Expected ");
            let d = expected.debug_text();
            push_str(&mut m, d.as_str());
            push_str(&mut m, ", found ");
            let f = self.peek().debug_text();
            push_str(&mut m, f.as_str());
            Err(parse_error(m, self.line))
        }
    }
}

} // verus!
