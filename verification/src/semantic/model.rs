//! What semantic analysis computes, as functions on values: the state the
//! analyzer keeps (scope table, current scope, next symbol number,
//! warnings) and what analyzing an expression, a statement, a list of
//! statements and a whole program does to that state and gives back.
use vstd::prelude::*;
use crate::parser::expression::{exprs_view, is_arithmetic, is_comparison, is_logical, BinaryOperator, ExprV, UnaryOperator};
use crate::parser::statement::{opt_expr_view, Parameter, Statement};
use crate::parser::types::{same_type, type_debug, Type};
use crate::semantic::scope::{find_in, lookup, Scope, ScopeId, ScopeType};
use crate::semantic::statement::{SemanticParam, SemanticStatement};
use crate::semantic::symbol::{State, Symbol, SymbolId, SymbolKind};
use crate::semantic::warning::{spec_warning_message, SemanticWarning, WarningType};
use crate::util::error::{CompileError, ErrV};
use crate::util::text::decimal;

verus! {

// ---------------------------------------------------------------------------
// Values of the analyzer's data

/// What a symbol names, with texts as character sequences.
pub enum KindV {
    Function { return_type: Type, params: Seq<Parameter> },
    Variable { var_type: Type, state: State },
}

/// A symbol's value.
pub struct SymV {
    pub name: Seq<char>,
    pub id: SymbolId,
    pub kind: KindV,
    pub declared_scope: ScopeId,
    pub line: usize,
}

/// The value of a scope's kind.
pub enum ScopeKindV {
    Global,
    FunctionBody { name: Seq<char>, parent: SymbolId },
    IfBody { parent: SymbolId },
}

/// A scope's value.
pub struct ScopeV {
    pub scope_id: ScopeId,
    pub kind: ScopeKindV,
    pub parent: Option<ScopeId>,
    pub symbols: Seq<SymV>,
}

/// A warning's value.
pub struct WarnV {
    pub warning_type: WarningType,
    pub name: Seq<char>,
    pub message: Seq<char>,
    pub line: usize,
}

/// The analyzer's state: the scope table, the current scope, the number the
/// next symbol gets, and the warnings so far.
pub struct AState {
    pub table: Seq<ScopeV>,
    pub cur: int,
    pub next_id: int,
    pub warnings: Seq<WarnV>,
}

/// A parameter after analysis.
pub struct ParamV {
    pub name: Seq<char>,
    pub param_type: Type,
    pub symbol: SymbolId,
}

/// An analyzed statement's value.
pub enum SemV {
    Function {
        name: Seq<char>,
        symbol: SymbolId,
        return_type: Type,
        params: Seq<ParamV>,
        body: Seq<SemV>,
        line: usize,
    },
    FunctionCall { name: Seq<char>, args: Seq<ExprV>, line: usize },
    VarDecl { symbol: SymbolId, initializer: Option<ExprV> },
    Assign { symbol: SymbolId, value: ExprV },
    DerefAssign { target: ExprV, value: ExprV, line: usize },
    If {
        label: Seq<char>,
        condition: ExprV,
        body: Seq<SemV>,
        else_label: Option<Seq<char>>,
        else_body: Option<Seq<SemV>>,
    },
    While { body_label: Seq<char>, body: Seq<SemV>, cond_label: Seq<char>, condition: ExprV },
    Assembly { body: Seq<String> },
    Return { value: Option<ExprV> },
}

/// The value of a symbol kind.
pub open spec fn kind_view(k: SymbolKind) -> KindV {
    match k {
        SymbolKind::Function { return_type, params } => KindV::Function { return_type, params: params@ },
        SymbolKind::Variable { var_type, state } => KindV::Variable { var_type, state },
    }
}

/// The value of a symbol.
pub open spec fn sym_view(s: Symbol) -> SymV {
    SymV { name: s.name@, id: s.id, kind: kind_view(s.kind), declared_scope: s.declared_scope, line: s.line }
}

/// The values of a list of symbols.
pub open spec fn syms_view(s: Seq<Symbol>) -> Seq<SymV> {
    s.map_values(|x: Symbol| sym_view(x))
}

/// The value of a scope kind.
pub open spec fn scope_kind_view(k: ScopeType) -> ScopeKindV {
    match k {
        ScopeType::Global => ScopeKindV::Global,
        ScopeType::FunctionBody { name, parent } => ScopeKindV::FunctionBody { name: name@, parent },
        ScopeType::IfBody { parent } => ScopeKindV::IfBody { parent },
    }
}

/// The value of a scope.
pub open spec fn scope_view(s: Scope) -> ScopeV {
    ScopeV { scope_id: s.scope_id, kind: scope_kind_view(s.kind), parent: s.parent, symbols: syms_view(s.symbols@) }
}

/// The value of a scope table.
pub open spec fn table_view(t: Seq<Scope>) -> Seq<ScopeV> {
    t.map_values(|s: Scope| scope_view(s))
}

/// The value of a warning.
pub open spec fn warn_view(w: SemanticWarning) -> WarnV {
    WarnV { warning_type: w.warning_type, name: w.name@, message: w.message@, line: w.line }
}

/// The values of a list of warnings.
pub open spec fn warns_view(w: Seq<SemanticWarning>) -> Seq<WarnV> {
    w.map_values(|x: SemanticWarning| warn_view(x))
}

/// The value of an analyzed parameter.
pub open spec fn param_view(p: SemanticParam) -> ParamV {
    ParamV { name: p.name@, param_type: p.param_type, symbol: p.symbol }
}

/// The text of an optional string.
pub open spec fn opt_text(s: Option<String>) -> Option<Seq<char>> {
    match s {
        Some(x) => Some(x@),
        None => None,
    }
}

/// The value of an analyzed statement.
pub open spec fn sem_view(s: SemanticStatement) -> SemV
    decreases s,
{
    match s {
        SemanticStatement::SemanticFunction { name, symbol, return_type, params, body, line } => SemV::Function {
            name: name@,
            symbol,
            return_type,
            params: params@.map_values(|p: SemanticParam| param_view(p)),
            body: sems_view(body@),
            line,
        },
        SemanticStatement::SemanticFunctionCall { name, args, line } => SemV::FunctionCall {
            name: name@,
            args: exprs_view(args@),
            line,
        },
        SemanticStatement::SemanticVarDecl { symbol, initializer } => SemV::VarDecl {
            symbol,
            initializer: opt_expr_view(initializer),
        },
        SemanticStatement::SemanticAssign { symbol, value } => SemV::Assign { symbol, value: value@ },
        SemanticStatement::SemanticDerefAssign { target, value, line } => SemV::DerefAssign {
            target: target@,
            value: value@,
            line,
        },
        SemanticStatement::SemanticIf { label, condition, body, else_label, else_body } => SemV::If {
            label: label@,
            condition: condition@,
            body: sems_view(body@),
            else_label: opt_text(else_label),
            else_body: match else_body {
                Some(v) => Some(sems_view(v@)),
                None => None,
            },
        },
        SemanticStatement::SemanticWhile { body_label, body, cond_label, condition } => SemV::While {
            body_label: body_label@,
            body: sems_view(body@),
            cond_label: cond_label@,
            condition: condition@,
        },
        SemanticStatement::SemanticAssembly { body } => SemV::Assembly { body: body@ },
        SemanticStatement::SemanticReturn { value } => SemV::Return { value: opt_expr_view(value) },
    }
}

/// The values of a list of analyzed statements.
pub open spec fn sems_view(s: Seq<SemanticStatement>) -> Seq<SemV>
    decreases s,
{
    if s.len() == 0 {
        Seq::empty()
    } else {
        sems_view(s.drop_last()).push(sem_view(s.last()))
    }
}

/// The values of a list of analyzed statements with one more.
pub proof fn lemma_sems_view_push(s: Seq<SemanticStatement>, x: SemanticStatement)
    ensures
        sems_view(s.push(x)) == sems_view(s).push(sem_view(x)),
{
    assert(s.push(x).drop_last() =~= s);
}

/// The value of a list of warnings with one more.
pub proof fn lemma_warns_push(w: Seq<SemanticWarning>, x: SemanticWarning)
    ensures
        warns_view(w.push(x)) == warns_view(w).push(warn_view(x)),
{
    assert(warns_view(w.push(x)) =~= warns_view(w).push(warn_view(x)));
}

/// The value of a table with one scope replaced.
pub proof fn lemma_table_update(t: Seq<Scope>, i: int, s: Scope)
    requires
        0 <= i < t.len(),
    ensures
        table_view(t.update(i, s)) == table_view(t).update(i, scope_view(s)),
{
    assert(table_view(t.update(i, s)) =~= table_view(t).update(i, scope_view(s)));
}

/// The value of a table with one more scope.
pub proof fn lemma_table_push(t: Seq<Scope>, s: Scope)
    ensures
        table_view(t.push(s)) == table_view(t).push(scope_view(s)),
{
    assert(table_view(t.push(s)) =~= table_view(t).push(scope_view(s)));
}

/// The value of a list of symbols with one more.
pub proof fn lemma_syms_push(v: Seq<Symbol>, x: Symbol)
    ensures
        syms_view(v.push(x)) == syms_view(v).push(sym_view(x)),
{
    assert(syms_view(v.push(x)) =~= syms_view(v).push(sym_view(x)));
}

/// The value of a list of symbols with one replaced.
pub proof fn lemma_syms_update(v: Seq<Symbol>, i: int, x: Symbol)
    requires
        0 <= i < v.len(),
    ensures
        syms_view(v.update(i, x)) == syms_view(v).update(i, sym_view(x)),
{
    assert(syms_view(v.update(i, x)) =~= syms_view(v).update(i, sym_view(x)));
}

/// The analyzed statements' values, index by index.
pub proof fn lemma_sems_view_index(s: Seq<SemanticStatement>)
    ensures
        sems_view(s).len() == s.len(),
        forall|k: int| 0 <= k < s.len() ==> #[trigger] sems_view(s)[k] == sem_view(s[k]),
    decreases s.len(),
{
    if s.len() > 0 {
        lemma_sems_view_index(s.drop_last());
    }
}

/// The value of the result of analyzing a statement.
pub open spec fn stmt_result(r: Result<Option<SemanticStatement>, CompileError>) -> Result<Option<SemV>, ErrV> {
    match r {
        Ok(Some(x)) => Ok(Some(sem_view(x))),
        Ok(None) => Ok(None),
        Err(e) => Err(e@),
    }
}

/// The value of the result of analyzing a list of statements.
pub open spec fn block_result(r: Result<Vec<SemanticStatement>, CompileError>) -> Result<Seq<SemV>, ErrV> {
    match r {
        Ok(v) => Ok(sems_view(v@)),
        Err(e) => Err(e@),
    }
}

// ---------------------------------------------------------------------------
// Name resolution on values

/// The index of the first symbol named `name`.
pub open spec fn find_name(syms: Seq<SymV>, name: Seq<char>) -> Option<int>
    decreases syms.len(),
{
    if syms.len() == 0 {
        None
    } else if syms[0].name == name {
        Some(0)
    } else {
        match find_name(syms.skip(1), name) {
            Some(i) => Some(i + 1),
            None => None,
        }
    }
}

/// The scope and index of the symbol `name` refers to from scope `s`: the
/// first one of that name in `s`, else what it refers to from the parent.
pub open spec fn resolve_symbol(t: Seq<ScopeV>, s: int, name: Seq<char>) -> Option<(int, int)>
    decreases s,
{
    if 0 <= s < t.len() {
        match find_name(t[s].symbols, name) {
            Some(i) => Some((s, i)),
            None => match t[s].parent {
                Some(p) => if 0 <= p.0 < s {
                    resolve_symbol(t, p.0 as int, name)
                } else {
                    None
                },
                None => None,
            },
        }
    } else {
        None
    }
}

/// Whether some symbol of `syms` is named `name`.
pub open spec fn declared_in(syms: Seq<SymV>, name: Seq<char>) -> bool {
    exists|k: int| 0 <= k < syms.len() && (#[trigger] syms[k]).name == name
}

/// Finding a name among symbols and among their values agree.
pub proof fn lemma_find_in_view(syms: Seq<Symbol>, name: Seq<char>)
    ensures
        find_in(syms, name) == find_name(syms_view(syms), name),
    decreases syms.len(),
{
    if syms.len() > 0 {
        assert(syms_view(syms).skip(1) =~= syms_view(syms.skip(1)));
        lemma_find_in_view(syms.skip(1), name);
    }
}

/// Name resolution on a table and on its value agree.
pub proof fn lemma_lookup_view(t: Seq<Scope>, s: int, name: Seq<char>)
    ensures
        lookup(t, s, name) == resolve_symbol(table_view(t), s, name),
    decreases s,
{
    if 0 <= s < t.len() {
        lemma_find_in_view(t[s].symbols@, name);
        match t[s].parent {
            Some(p) => {
                if 0 <= p.0 < s {
                    lemma_lookup_view(t, p.0 as int, name);
                }
            },
            None => {},
        }
    }
}

// ---------------------------------------------------------------------------
// Steps on the state

/// The state with one more warning.
pub open spec fn warn(st: AState, w: WarningType, name: Seq<char>, message: Seq<char>, line: usize) -> AState {
    AState { warnings: st.warnings.push(WarnV { warning_type: w, name, message, line }), ..st }
}

/// The state with symbol `i` of scope `si`, when a variable, in state `state`.
pub open spec fn set_state(st: AState, si: int, i: int, state: State) -> AState {
    let sc = st.table[si];
    let sym = sc.symbols[i];
    let kind = match sym.kind {
        KindV::Variable { var_type, .. } => KindV::Variable { var_type, state },
        KindV::Function { return_type, params } => KindV::Function { return_type, params },
    };
    AState {
        table: st.table.update(si, ScopeV { symbols: sc.symbols.update(i, SymV { kind, ..sym }), ..sc }),
        ..st
    }
}

/// The state with `name` declared in the current scope under the next number.
pub open spec fn declare(st: AState, name: Seq<char>, kind: KindV, line: usize) -> AState {
    let sc = st.table[st.cur];
    let sym = SymV { name, id: SymbolId(st.next_id as usize), kind, declared_scope: ScopeId(st.cur as i32), line };
    AState {
        table: st.table.update(st.cur, ScopeV { symbols: sc.symbols.push(sym), ..sc }),
        next_id: st.next_id + 1,
        ..st
    }
}

/// Whether the table has room for another scope.
pub open spec fn can_open(st: AState) -> bool {
    st.table.len() + 1 < 0x7fff_ffff
}

/// The state with a new empty scope of kind `kind` inside the current one,
/// made current.
pub open spec fn open_scope(st: AState, kind: ScopeKindV) -> AState {
    let id = st.table.len() as int;
    AState {
        table: st.table.push(ScopeV { scope_id: ScopeId(id as i32), kind, parent: Some(ScopeId(st.cur as i32)), symbols: Seq::empty() }),
        cur: id,
        ..st
    }
}

/// A warning for each variable of `syms` never initialized, in order.
pub open spec fn uninit_warnings(syms: Seq<SymV>) -> Seq<WarnV>
    decreases syms.len(),
{
    if syms.len() == 0 {
        Seq::empty()
    } else {
        let w = uninit_warnings(syms.drop_last());
        let s = syms.last();
        match s.kind {
            KindV::Variable { state, .. } => if state == State::Uninitialized {
                w.push(WarnV {
                    warning_type: WarningType::UninitializedVariable,
                    name: s.name,
                    message: spec_warning_message(WarningType::UninitializedVariable, s.name),
                    line: 0,
                })
            } else {
                w
            },
            KindV::Function { .. } => w,
        }
    }
}

/// The state after closing the current scope: a warning for each of its
/// variables never initialized, and its parent made current.
pub open spec fn close_scope(st: AState) -> AState {
    let sc = st.table[st.cur];
    AState {
        warnings: st.warnings + uninit_warnings(sc.symbols),
        cur: match sc.parent {
            Some(p) => p.0 as int,
            None => 0,
        },
        ..st
    }
}

// ---------------------------------------------------------------------------
// Expressions

/// The type of an analyzed expression from scope `s`: literals have their
/// types, a name the type of what it refers to, a comparison or logical
/// operation is boolean, an arithmetic one has its left operand's type, a
/// call the return type recorded on it, `!e` is boolean; other forms have no
/// known type.
pub open spec fn type_of(t: Seq<ScopeV>, s: int, e: ExprV) -> Option<Type>
    decreases e,
{
    match e {
        ExprV::Integer(_) => Some(Type::Int32),
        ExprV::Bool(_) => Some(Type::Bool),
        ExprV::Identifier(n) => match resolve_symbol(t, s, n) {
            Some((si, i)) => match t[si].symbols[i].kind {
                KindV::Variable { var_type, .. } => Some(var_type),
                KindV::Function { return_type, .. } => Some(return_type),
            },
            None => None,
        },
        ExprV::UnaryOperation { op, .. } => if op == UnaryOperator::Not {
            Some(Type::Bool)
        } else {
            None
        },
        ExprV::BinaryOperation { op, left, .. } => if is_comparison(op) || is_logical(op) {
            Some(Type::Bool)
        } else {
            type_of(t, s, *left)
        },
        ExprV::FunctionCall { return_type, .. } => return_type,
        _ => None,
    }
}

/// The message for a call of `name` with `got` arguments where `expected` are taken.
pub open spec fn arg_count_message(name: Seq<char>, expected: nat, got: nat) -> Seq<char> {
    "'"@ + name + "' expects "@ + decimal(expected) + " args, got "@ + decimal(got)
}

/// The warnings about the operand types `lt` and `rt` of a binary operation.
pub open spec fn binary_warnings(st: AState, op: BinaryOperator, lt: Option<Type>, rt: Option<Type>, line: usize) -> AState {
    let s1 = if is_logical(op) {
        if lt != Some(Type::Bool) || rt != Some(Type::Bool) {
            warn(st, WarningType::TypeMismatch, "logical operators require bool operands"@, "logical operators require bool operands"@, line)
        } else {
            st
        }
    } else if is_arithmetic(op) {
        let a = if lt == Some(Type::Bool) || rt == Some(Type::Bool) {
            warn(
                st,
                WarningType::TypeMismatch,
                "bool cannot be used in arithmetic expression"@,
                spec_warning_message(WarningType::TypeMismatch, "bool cannot be used in arithmetic expression"@),
                line,
            )
        } else {
            st
        };
        match (lt, rt) {
            (Some(x), Some(y)) => if !same_type(x, y) {
                let m = "type mismatch in expression: "@ + type_debug(x) + " and "@ + type_debug(y);
                warn(a, WarningType::TypeMismatch, m, m, line)
            } else {
                a
            },
            _ => a,
        }
    } else {
        st
    };
    if is_comparison(op) {
        match (lt, rt) {
            (Some(x), Some(y)) => if !same_type(x, y) {
                let m = "cannot compare "@ + type_debug(x) + " and "@ + type_debug(y);
                warn(s1, WarningType::TypeMismatch, m, m, line)
            } else {
                s1
            },
            _ => s1,
        }
    } else {
        s1
    }
}

/// Analyzing expression `e` (on source line `line`): the new state and the
/// analyzed expression. A name read is marked used, or warned about when
/// never initialized; a call of a known function records its return type
/// (with a warning when the argument count differs) and its arguments are
/// analyzed in turn; calls of unknown names and of variables are warned
/// about; operands are analyzed left to right and their types checked.
pub open spec fn expr_step(st: AState, e: ExprV, line: usize) -> (AState, ExprV)
    decreases e,
{
    match e {
        ExprV::Identifier(name) => (
            match resolve_symbol(st.table, st.cur, name) {
                None => st,
                Some((si, i)) => match st.table[si].symbols[i].kind {
                    KindV::Variable { state, .. } => if state == State::Uninitialized {
                        warn(st, WarningType::UninitializedVariable, name, spec_warning_message(WarningType::UninitializedVariable, name), line)
                    } else {
                        set_state(st, si, i, State::Used)
                    },
                    KindV::Function { .. } => st,
                },
            },
            e,
        ),
        ExprV::FunctionCall { return_type, name, args } => match resolve_symbol(st.table, st.cur, name) {
            None => (warn(st, WarningType::UndeclaredFunction, name, "call to undeclared function '"@ + name + "'"@, line), e),
            Some((si, i)) => match st.table[si].symbols[i].kind {
                KindV::Function { params, return_type: rt } => {
                    let st1 = if args.len() != params.len() {
                        let m = arg_count_message(name, params.len(), args.len());
                        warn(st, WarningType::TypeMismatch, name, m, line)
                    } else {
                        st
                    };
                    let (st2, a2) = args_step(st1, args, line);
                    (st2, ExprV::FunctionCall { return_type: Some(rt), name, args: a2 })
                },
                KindV::Variable { .. } => (warn(st, WarningType::TypeMismatch, name, "'"@ + name + "' is not a function"@, line), e),
            },
        },
        ExprV::BinaryOperation { op, left, right } => {
            let (s1, l) = expr_step(st, *left, line);
            let (s2, r) = expr_step(s1, *right, line);
            (
                binary_warnings(s2, op, type_of(s2.table, s2.cur, l), type_of(s2.table, s2.cur, r), line),
                ExprV::BinaryOperation { op, left: Box::new(l), right: Box::new(r) },
            )
        },
        ExprV::UnaryOperation { op, operand } => {
            let (s1, o) = expr_step(st, *operand, line);
            let s2 = if op == UnaryOperator::Not && type_of(s1.table, s1.cur, o) != Some(Type::Bool) {
                warn(s1, WarningType::TypeMismatch, "not operator requires bool operand"@, "not operator requires bool operand"@, line)
            } else {
                s1
            };
            (s2, ExprV::UnaryOperation { op, operand: Box::new(o) })
        },
        _ => (st, e),
    }
}

/// Analyzing a list of expressions in order.
pub open spec fn args_step(st: AState, v: Seq<ExprV>, line: usize) -> (AState, Seq<ExprV>)
    decreases v,
{
    if v.len() == 0 {
        (st, Seq::empty())
    } else {
        let (s1, a) = args_step(st, v.drop_last(), line);
        let (s2, e) = expr_step(s1, v.last(), line);
        (s2, a.push(e))
    }
}

// ---------------------------------------------------------------------------
// Statements

/// Whether an analyzed body holds a return statement.
pub open spec fn has_return_v(body: Seq<SemV>) -> bool {
    exists|i: int| 0 <= i < body.len() && (#[trigger] body[i]) is Return
}

/// The warning, if any, about a declared variable's initializer of type `et`.
pub open spec fn decl_type_warning(st: AState, name: Seq<char>, var_type: Type, et: Option<Type>, line: usize) -> AState {
    match et {
        Some(t) => if !same_type(t, var_type) && var_type != Type::Void {
            let m = "variable '"@ + name + "' declared as "@ + type_debug(var_type) + " but assigned "@ + type_debug(t);
            warn(st, WarningType::TypeMismatch, name, m, line)
        } else {
            st
        },
        None => st,
    }
}

/// Whether an integer literal initializer does not fit its declared type.
pub open spec fn literal_overflows(init: Option<ExprV>, var_type: Type) -> bool {
    match init {
        Some(ExprV::Integer(n)) => match var_type {
            Type::Int8 => !(-128 <= n <= 127),
            Type::Int16 => !(-32768 <= n <= 32767),
            _ => false,
        },
        _ => false,
    }
}

/// Declaring a function's parameters in turn in the current scope (the
/// function's): each must have a name not yet declared there.
pub open spec fn params_step(st: AState, ps: Seq<Parameter>, line: usize) -> (AState, Result<Seq<ParamV>, ErrV>)
    decreases ps.len(),
{
    if ps.len() == 0 {
        (st, Ok(Seq::empty()))
    } else {
        let (s1, r1) = params_step(st, ps.drop_last(), line);
        match r1 {
            Err(e) => (s1, Err(e)),
            Ok(out) => {
                let p = ps.last();
                if declared_in(s1.table[s1.cur].symbols, p.name@) {
                    (s1, Err(ErrV::Semantic("duplicate parameter name '"@ + p.name@ + "'"@, line)))
                } else if s1.next_id == usize::MAX {
                    (s1, Err(ErrV::Compiler("too many symbols"@, line)))
                } else {
                    (
                        declare(s1, p.name@, KindV::Variable { var_type: p.param_type, state: State::Initialized }, line),
                        Ok(out.push(ParamV { name: p.name@, param_type: p.param_type, symbol: SymbolId(s1.next_id as usize) })),
                    )
                }
            },
        }
    }
}

/// Analyzing a list of statements in a new scope of kind `kind`, which is
/// closed afterwards.
pub open spec fn scoped_block_step(st: AState, kind: ScopeKindV, body: Seq<Statement>) -> (AState, Result<Seq<SemV>, ErrV>)
    decreases body, 1nat,
{
    if !can_open(st) {
        (st, Err(ErrV::Compiler("too many scopes"@, 0)))
    } else {
        let (s1, r) = block_step(open_scope(st, kind), body);
        match r {
            Err(e) => (s1, Err(e)),
            Ok(out) => (close_scope(s1), Ok(out)),
        }
    }
}

/// Analyzing one statement: the new state, and the analyzed statement
/// (`None` for a line break and for an assignment to a function's name) or
/// the error that stops the analysis.
pub open spec fn stmt_step(st: AState, stmt: Statement) -> (AState, Result<Option<SemV>, ErrV>)
    decreases stmt, 3nat,
{
    match stmt {
        Statement::FunctionDecleration { return_type, name, params, body, line, .. } => {
            match resolve_symbol(st.table, st.cur, name@) {
                None => (st, Err(ErrV::Semantic("function '"@ + name@ + "' not found in scope"@, line))),
                Some((_, i)) => if i >= st.table[0].symbols.len() {
                    (st, Err(ErrV::Compiler("function symbol outside the global scope"@, line)))
                } else if !can_open(st) {
                    (st, Err(ErrV::Compiler("too many scopes"@, 0)))
                } else {
                    let sid = st.table[0].symbols[i].id;
                    let s1 = open_scope(st, ScopeKindV::FunctionBody { name: name@, parent: sid });
                    let (s2, rp) = params_step(s1, params@, line);
                    match rp {
                        Err(e) => (s2, Err(e)),
                        Ok(ps) => {
                            proof {
                                assert(decreases_to!(stmt => body));
                            }
                            let (s3, rb) = block_step(s2, body@);
                            match rb {
                                Err(e) => (s3, Err(e)),
                                Ok(sb) => {
                                    let s4 = close_scope(s3);
                                    if !has_return_v(sb) {
                                        (s4, Err(ErrV::Semantic("function `"@ + name@ + "` has no return statement"@, line)))
                                    } else {
                                        (s4, Ok(Some(SemV::Function { name: name@, symbol: sid, return_type, params: ps, body: sb, line })))
                                    }
                                },
                            }
                        },
                    }
                },
            }
        },
        Statement::FunctionCall { name, args, line } => match resolve_symbol(st.table, st.cur, name@) {
            None => (st, Err(ErrV::Semantic("call to undeclared function '"@ + name@ + "'"@, line))),
            Some((si, i)) => match st.table[si].symbols[i].kind {
                KindV::Variable { .. } => (st, Err(ErrV::Semantic("'"@ + name@ + "' is not a function"@, line))),
                KindV::Function { params, .. } => if args@.len() != params.len() {
                    (st, Err(ErrV::Semantic(arg_count_message(name@, params.len(), args@.len()), line)))
                } else {
                    let (s1, a) = args_step(st, exprs_view(args@), line);
                    (s1, Ok(Some(SemV::FunctionCall { name: name@, args: a, line })))
                },
            },
        },
        Statement::VariableDeclaration { var_name, var_type, operation, line } => {
            if declared_in(st.table[st.cur].symbols, var_name@) {
                (st, Err(ErrV::Semantic("variable '"@ + var_name@ + "' already declared in this scope"@, line)))
            } else if st.next_id == usize::MAX {
                (st, Err(ErrV::Compiler("too many symbols"@, line)))
            } else {
                let (s1, init) = match operation {
                    Some(x) => {
                        let (a, e2) = expr_step(st, x@, line);
                        (decl_type_warning(a, var_name@, var_type, type_of(a.table, a.cur, e2), line), Some(e2))
                    },
                    None => (st, None),
                };
                let s2 = if literal_overflows(init, var_type) {
                    warn(s1, WarningType::LiteralOverflow, var_name@, spec_warning_message(WarningType::LiteralOverflow, var_name@), line)
                } else {
                    s1
                };
                let state = if operation is Some { State::Initialized } else { State::Uninitialized };
                (
                    declare(s2, var_name@, KindV::Variable { var_type, state }, line),
                    Ok(Some(SemV::VarDecl { symbol: SymbolId(st.next_id as usize), initializer: init })),
                )
            }
        },
        Statement::Assign { var_name, value, line } => {
            let (s1, v) = expr_step(st, value@, line);
            match resolve_symbol(s1.table, s1.cur, var_name@) {
                None => (s1, Err(ErrV::Semantic("assignment to undeclared variable '"@ + var_name@ + "'"@, line))),
                Some((si, i)) => match s1.table[si].symbols[i].kind {
                    KindV::Function { .. } => (s1, Ok(None)),
                    KindV::Variable { var_type, .. } => {
                        let s2 = match type_of(s1.table, s1.cur, v) {
                            Some(t) => if !same_type(t, var_type) {
                                let m = "cannot assign "@ + type_debug(t) + " to variable '"@ + var_name@ + "' of type "@ + type_debug(var_type);
                                warn(s1, WarningType::TypeMismatch, var_name@, m, line)
                            } else {
                                s1
                            },
                            None => s1,
                        };
                        (set_state(s2, si, i, State::Initialized), Ok(Some(SemV::Assign { symbol: s1.table[si].symbols[i].id, value: v })))
                    },
                },
            }
        },
        Statement::If { label, condition, body, else_label, else_body } => {
            let (s1, c) = expr_step(st, condition@, 0);
            proof {
                assert(decreases_to!(stmt => body));
            }
            let (s2, rb) = scoped_block_step(s1, ScopeKindV::IfBody { parent: SymbolId(s1.cur as usize) }, body@);
            match rb {
                Err(e) => (s2, Err(e)),
                Ok(sb) => match else_body {
                    None => (s2, Ok(Some(SemV::If { label: label@, condition: c, body: sb, else_label: opt_text(else_label), else_body: None }))),
                    Some(es) => {
                        proof {
                            assert(decreases_to!(stmt => else_body));
                        }
                        let (s3, re) = scoped_block_step(s2, ScopeKindV::IfBody { parent: SymbolId(s2.cur as usize) }, es@);
                        match re {
                            Err(e) => (s3, Err(e)),
                            Ok(se) => (s3, Ok(Some(SemV::If {
                                label: label@,
                                condition: c,
                                body: sb,
                                else_label: opt_text(else_label),
                                else_body: Some(se),
                            }))),
                        }
                    },
                },
            }
        },
        Statement::While { body_label, body, cond_label, condition } => {
            let (s1, c) = expr_step(st, condition@, 0);
            proof {
                assert(decreases_to!(stmt => body));
            }
            let (s2, rb) = scoped_block_step(s1, ScopeKindV::IfBody { parent: SymbolId(s1.cur as usize) }, body@);
            match rb {
                Err(e) => (s2, Err(e)),
                Ok(sb) => (s2, Ok(Some(SemV::While { body_label: body_label@, body: sb, cond_label: cond_label@, condition: c }))),
            }
        },
        Statement::Return { return_value } => match return_value {
            Some(x) => {
                let (s1, e) = expr_step(st, x@, 0);
                (s1, Ok(Some(SemV::Return { value: Some(e) })))
            },
            None => (st, Ok(Some(SemV::Return { value: None }))),
        },
        Statement::NewLine => (st, Ok(None)),
        Statement::Assembly { body } => (st, Ok(Some(SemV::Assembly { body: body@ }))),
        Statement::DerefAssign { target, value, line } => {
            let (s1, t) = expr_step(st, target@, line);
            let (s2, v) = expr_step(s1, value@, line);
            (s2, Ok(Some(SemV::DerefAssign { target: t, value: v, line })))
        },
        Statement::LValueAssign { line, .. } => (
            st,
            Err(ErrV::Semantic("assignment to a field or element is not supported by semantic analysis"@, line)),
        ),
        Statement::StructDef { .. } => (st, Err(ErrV::Semantic("struct definitions are not supported by semantic analysis"@, 0))),
        Statement::Block(_) => (st, Err(ErrV::Semantic("statement blocks are not supported by semantic analysis"@, 0))),
    }
}

/// Analyzing a list of statements in order, keeping the analyzed forms of
/// those that have one, up to the first error.
pub open spec fn block_step(st: AState, stmts: Seq<Statement>) -> (AState, Result<Seq<SemV>, ErrV>)
    decreases stmts, 0nat,
{
    if stmts.len() == 0 {
        (st, Ok(Seq::empty()))
    } else {
        let (s1, r1) = block_step(st, stmts.drop_last());
        match r1 {
            Err(e) => (s1, Err(e)),
            Ok(out) => {
                let (s2, r2) = stmt_step(s1, stmts.last());
                match r2 {
                    Err(e) => (s2, Err(e)),
                    Ok(Some(x)) => (s2, Ok(out.push(x))),
                    Ok(None) => (s2, Ok(out)),
                }
            },
        }
    }
}

// ---------------------------------------------------------------------------
// Programs

/// The symbols of the top-level functions of `stmts`, in order and numbered
/// from `next`; an error at the first function whose name an earlier one
/// already has.
pub open spec fn globals(stmts: Seq<Statement>, next: int) -> Result<Seq<SymV>, ErrV>
    decreases stmts.len(),
{
    if stmts.len() == 0 {
        Ok(Seq::empty())
    } else {
        match globals(stmts.drop_last(), next) {
            Err(e) => Err(e),
            Ok(fs) => match stmts.last() {
                Statement::FunctionDecleration { return_type, name, params, line, .. } => if declared_in(fs, name@) {
                    Err(ErrV::Semantic("function '"@ + name@ + "' already declared"@, line))
                } else if next + fs.len() == usize::MAX {
                    Err(ErrV::Compiler("too many symbols"@, line))
                } else {
                    Ok(fs.push(SymV {
                        name: name@,
                        id: SymbolId((next + fs.len()) as usize),
                        kind: KindV::Function { return_type, params: params@ },
                        declared_scope: ScopeId(0),
                        line: 0,
                    }))
                },
                _ => Ok(fs),
            },
        }
    }
}

/// Analyzing a program whose symbols are numbered from `next`, after the
/// warnings `warnings`: the global scope holds the top-level functions,
/// then the top-level statements are analyzed in it in order. The result is
/// the final state and the analyzed statements, or the first error.
pub open spec fn analysis(stmts: Seq<Statement>, next: int, warnings: Seq<WarnV>) -> Result<(AState, Seq<SemV>), ErrV> {
    match globals(stmts, next) {
        Err(e) => Err(e),
        Ok(fs) => {
            let st = AState {
                table: seq![ScopeV { scope_id: ScopeId(0), kind: ScopeKindV::Global, parent: None, symbols: fs }],
                cur: 0,
                next_id: next + fs.len(),
                warnings,
            };
            let (s1, r) = block_step(st, stmts);
            match r {
                Err(e) => Err(e),
                Ok(out) => Ok((s1, out)),
            }
        },
    }
}

/// An error while declaring the first parameters is the error of declaring
/// them all.
pub proof fn lemma_params_err(st: AState, ps: Seq<Parameter>, k: int, line: usize)
    requires
        0 <= k <= ps.len(),
        params_step(st, ps.take(k), line).1 is Err,
    ensures
        params_step(st, ps, line) == params_step(st, ps.take(k), line),
    decreases ps.len(),
{
    if k == ps.len() {
        assert(ps.take(k) =~= ps);
    } else {
        assert(ps.drop_last().take(k) =~= ps.take(k));
        lemma_params_err(st, ps.drop_last(), k, line);
    }
}

/// An error in the first statements of a list is the error of the list.
pub proof fn lemma_block_err(st: AState, stmts: Seq<Statement>, k: int)
    requires
        0 <= k <= stmts.len(),
        block_step(st, stmts.take(k)).1 is Err,
    ensures
        block_step(st, stmts) == block_step(st, stmts.take(k)),
    decreases stmts.len(),
{
    if k == stmts.len() {
        assert(stmts.take(k) =~= stmts);
    } else {
        assert(stmts.drop_last().take(k) =~= stmts.take(k));
        lemma_block_err(st, stmts.drop_last(), k);
    }
}

/// An error among the first statements' functions is the error of all.
pub proof fn lemma_globals_err(stmts: Seq<Statement>, next: int, k: int)
    requires
        0 <= k <= stmts.len(),
        globals(stmts.take(k), next) is Err,
    ensures
        globals(stmts, next) == globals(stmts.take(k), next),
    decreases stmts.len(),
{
    if k == stmts.len() {
        assert(stmts.take(k) =~= stmts);
    } else {
        assert(stmts.drop_last().take(k) =~= stmts.take(k));
        lemma_globals_err(stmts.drop_last(), next, k);
    }
}

/// A statement analyzes to a function only when it declares one whose
/// analyzed body holds a return.
pub proof fn lemma_stmt_function_returns(st: AState, stmt: Statement)
    ensures
        stmt_step(st, stmt).1 matches Ok(Some(x)) ==> (x is Function ==> has_return_v(x->Function_body)),
{
    match stmt {
        Statement::FunctionDecleration { .. } => {},
        Statement::If { .. } => {},
        Statement::While { .. } => {},
        Statement::VariableDeclaration { .. } => {},
        Statement::Assign { .. } => {},
        _ => {},
    }
}

/// Every function among the analyzed statements of a list holds a return.
pub proof fn lemma_block_functions_return(st: AState, stmts: Seq<Statement>)
    ensures
        block_step(st, stmts).1 matches Ok(out) ==> forall|k: int|
            0 <= k < out.len() && (#[trigger] out[k]) is Function ==> has_return_v(out[k]->Function_body),
    decreases stmts.len(),
{
    if stmts.len() > 0 {
        lemma_block_functions_return(st, stmts.drop_last());
        let s1 = block_step(st, stmts.drop_last()).0;
        lemma_stmt_function_returns(s1, stmts.last());
    }
}

/// Every function of an analyzed program holds a return statement: the
/// analysis of a function without one fails.
pub proof fn lemma_analysis_functions_return(stmts: Seq<Statement>, next: int, warnings: Seq<WarnV>)
    ensures
        analysis(stmts, next, warnings) matches Ok((st, out)) ==> forall|k: int|
            0 <= k < out.len() && (#[trigger] out[k]) is Function ==> has_return_v(out[k]->Function_body),
{
    match globals(stmts, next) {
        Ok(fs) => {
            let st = AState {
                table: seq![ScopeV { scope_id: ScopeId(0), kind: ScopeKindV::Global, parent: None, symbols: fs }],
                cur: 0,
                next_id: next + fs.len(),
                warnings,
            };
            lemma_block_functions_return(st, stmts);
        },
        Err(_) => {},
    }
}

/// Law: a variable declaration is refused, with the state left as it was,
/// exactly when some symbol of the current scope, wherever it stands among
/// the scope's symbols, already has the declared name; a name held only by
/// an enclosing scope may be declared again.
pub proof fn lemma_redeclaration_refused(st: AState, stmt: Statement)
    requires
        stmt is VariableDeclaration,
    ensures
        stmt matches Statement::VariableDeclaration { var_name, line, .. } ==> {
            &&& (exists|k: int| 0 <= k < st.table[st.cur].symbols.len() && (#[trigger] st.table[st.cur].symbols[k]).name == var_name@)
                <==> stmt_step(st, stmt).1 == Err::<Option<SemV>, ErrV>(
                    ErrV::Semantic("variable '"@ + var_name@ + "' already declared in this scope"@, line),
                )
            &&& (exists|k: int| 0 <= k < st.table[st.cur].symbols.len() && (#[trigger] st.table[st.cur].symbols[k]).name == var_name@)
                ==> stmt_step(st, stmt).0 == st
        },
{
}

/// Law: the global functions of a program that analyzes have pairwise
/// different names: a function declared with the name of any earlier one,
/// wherever it stands, is refused.
pub proof fn lemma_global_functions_distinct(stmts: Seq<Statement>, next: int)
    requires
        globals(stmts, next) is Ok,
    ensures
        forall|i: int, j: int| 0 <= i < j < globals(stmts, next)->Ok_0.len()
            ==> (#[trigger] globals(stmts, next)->Ok_0[i]).name != (#[trigger] globals(stmts, next)->Ok_0[j]).name,
    decreases stmts.len(),
{
    if stmts.len() > 0 {
        lemma_global_functions_distinct(stmts.drop_last(), next);
        let fs = globals(stmts.drop_last(), next)->Ok_0;
        let gs = globals(stmts, next)->Ok_0;
        if let Statement::FunctionDecleration { name, .. } = stmts.last() {
            assert forall|i: int, j: int| 0 <= i < j < gs.len() implies (#[trigger] gs[i]).name != (#[trigger] gs[j]).name by {
                if j == fs.len() {
                    assert(gs[i] == fs[i]);
                    if fs[i].name == name@ {
                        assert(declared_in(fs, name@));
                    }
                } else {
                    assert(gs[i] == fs[i] && gs[j] == fs[j]);
                }
            }
        }
    }
}

/// Every parameter declared so far is named in the current scope.
proof fn lemma_params_named(st: AState, ps: Seq<Parameter>, line: usize)
    requires
        0 <= st.cur < st.table.len(),
        params_step(st, ps, line).1 is Ok,
    ensures
        params_step(st, ps, line).0.cur == st.cur,
        params_step(st, ps, line).0.table.len() == st.table.len(),
        forall|k: int| 0 <= k < ps.len() ==> declared_in(
            params_step(st, ps, line).0.table[st.cur].symbols,
            (#[trigger] ps[k]).name@,
        ),
    decreases ps.len(),
{
    if ps.len() > 0 {
        let s1 = params_step(st, ps.drop_last(), line).0;
        lemma_params_named(st, ps.drop_last(), line);
        let s2 = params_step(st, ps, line).0;
        let p = ps.last();
        assert(s2 == declare(s1, p.name@, KindV::Variable { var_type: p.param_type, state: State::Initialized }, line));
        let old_syms = s1.table[st.cur].symbols;
        let new_syms = s2.table[st.cur].symbols;
        assert(new_syms == old_syms.push(new_syms.last()));
        assert forall|k: int| 0 <= k < ps.len() implies declared_in(new_syms, (#[trigger] ps[k]).name@) by {
            if k == ps.len() - 1 {
                assert(new_syms[old_syms.len() as int].name == p.name@);
            } else {
                assert(ps.drop_last()[k] == ps[k]);
                assert(declared_in(old_syms, ps.drop_last()[k].name@));
                let q = choose|q: int| 0 <= q < old_syms.len() && (#[trigger] old_syms[q]).name == ps.drop_last()[k].name@;
                assert(new_syms[q] == old_syms[q]);
            }
        }
    }
}

/// Law: the parameters of a function whose parameter list analyzes have
/// pairwise different names: a parameter named like any earlier one is
/// refused.
pub proof fn lemma_parameters_distinct(st: AState, ps: Seq<Parameter>, line: usize)
    requires
        0 <= st.cur < st.table.len(),
        params_step(st, ps, line).1 is Ok,
    ensures
        forall|i: int, j: int| 0 <= i < j < ps.len() ==> (#[trigger] ps[i]).name@ != (#[trigger] ps[j]).name@,
    decreases ps.len(),
{
    if ps.len() > 0 {
        let init = ps.drop_last();
        lemma_parameters_distinct(st, init, line);
        lemma_params_named(st, init, line);
        let s1 = params_step(st, init, line).0;
        assert forall|i: int, j: int| 0 <= i < j < ps.len() implies (#[trigger] ps[i]).name@ != (#[trigger] ps[j]).name@ by {
            if j == ps.len() - 1 {
                assert(init[i] == ps[i]);
                assert(declared_in(s1.table[st.cur].symbols, init[i].name@));
            } else {
                assert(init[i] == ps[i] && init[j] == ps[j]);
            }
        }
    }
}

} // verus!
