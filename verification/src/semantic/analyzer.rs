//! Semantic analysis: builds the scope table, resolves names to symbols,
//! checks declarations, calls and returns, and reports type warnings.
use vstd::prelude::*;
use crate::parser::expression::{
    expr_view, exprs_view, lemma_exprs_view_index, BinaryOperator, ExprV, Expression, UnaryOperator,
};
use crate::parser::program::Program;
use crate::parser::statement::{copy_params, copy_strings, Parameter, Statement};
use crate::parser::types::{copy_type, type_eq, Type};
use crate::semantic::program::SemanticProgram;
use crate::semantic::scope::{
    extends_shape, lemma_extends_of_same_shape, lemma_extends_refl, lemma_extends_trans,
    lemma_find_in_first, lemma_lookup_found, lemma_lookup_same_shape,
    lookup, same_shape, same_sym_shape, scope_table_wf, ids_distinct, Scope, ScopeId, ScopeType,
};
use crate::semantic::statement::{SemanticParam, SemanticStatement};
use crate::semantic::symbol::{State, Symbol, SymbolId, SymbolKind};
use crate::semantic::warning::{SemanticWarning, WarningType};
use crate::util::error::{CompileError, ErrV};
use crate::semantic::model::{
    analysis, args_step, block_result, block_step, can_open, close_scope, declare, declared_in, expr_step, globals,
    has_return_v, kind_view, lemma_block_err, lemma_globals_err, lemma_lookup_view, lemma_params_err,
    lemma_sems_view_index, lemma_sems_view_push, lemma_syms_push, lemma_syms_update, lemma_table_push,
    lemma_table_update, lemma_warns_push, open_scope, param_view, params_step, resolve_symbol, scope_kind_view,
    scope_view, sems_view, set_state, stmt_result, stmt_step, sym_view, syms_view, table_view, type_of,
    uninit_warnings, warn, warns_view, AState, KindV, ParamV, ScopeKindV, ScopeV, SemV, SymV, WarnV,
};
use crate::util::text::{copy_string, push_decimal, push_str, string_of};

verus! {

// ---------------------------------------------------------------------------
// Facts about the scope table

/// Adding a symbol at the end of one scope extends the table.
pub proof fn lemma_extends_insert(a: Seq<Scope>, b: Seq<Scope>, s: int)
    requires
        0 <= s < a.len(),
        b.len() == a.len(),
        forall|j: int| 0 <= j < a.len() && j != s ==> #[trigger] b[j] == a[j],
        b[s].scope_id == a[s].scope_id,
        b[s].parent == a[s].parent,
        b[s].kind == a[s].kind,
        b[s].symbols@.len() == a[s].symbols@.len() + 1,
        forall|k: int| 0 <= k < a[s].symbols@.len() ==> #[trigger] b[s].symbols@[k] == a[s].symbols@[k],
    ensures
        extends_shape(a, b),
{
    lemma_extends_refl(a);
    assert forall|j: int| #![trigger a[j], b[j]] 0 <= j < a.len() implies forall|k: int|
        0 <= k < a[j].symbols@.len() ==> same_sym_shape(#[trigger] a[j].symbols@[k], b[j].symbols@[k]) by {
        if j == s {
            assert forall|k: int| 0 <= k < a[j].symbols@.len() implies same_sym_shape(#[trigger] a[j].symbols@[k], b[j].symbols@[k]) by {
                assert(same_sym_shape(a[j].symbols@[k], a[j].symbols@[k]));
            }
        } else {
            assert(a[j] == b[j]);
        }
    }
}

/// Adding a scope at the end extends the table.
pub proof fn lemma_extends_push(a: Seq<Scope>, b: Seq<Scope>)
    requires
        b.len() == a.len() + 1,
        forall|j: int| 0 <= j < a.len() ==> #[trigger] b[j] == a[j],
    ensures
        extends_shape(a, b),
{
    lemma_extends_refl(a);
    assert forall|j: int| #![trigger a[j], b[j]] 0 <= j < a.len() implies a[j] == b[j] by {}
}

/// `same_shape` is reflexive.
pub proof fn lemma_same_shape_refl(a: Seq<Scope>)
    ensures
        same_shape(a, a),
{
    assert forall|i: int| #![trigger a[i]] 0 <= i < a.len() implies forall|k: int|
        0 <= k < a[i].symbols@.len() ==> same_sym_shape(#[trigger] a[i].symbols@[k], a[i].symbols@[k]) by {
        assert forall|k: int| 0 <= k < a[i].symbols@.len() implies same_sym_shape(#[trigger] a[i].symbols@[k], a[i].symbols@[k]) by {
            let x = a[i].symbols@[k];
            match x.kind {
                SymbolKind::Function { .. } => {},
                SymbolKind::Variable { .. } => {},
            }
        }
    }
}

/// `same_shape` is transitive.
pub proof fn lemma_same_shape_trans(a: Seq<Scope>, b: Seq<Scope>, c: Seq<Scope>)
    requires
        same_shape(a, b),
        same_shape(b, c),
    ensures
        same_shape(a, c),
{
    assert forall|i: int| #![trigger a[i], c[i]] 0 <= i < a.len() implies {
        &&& a[i].scope_id == c[i].scope_id
        &&& a[i].parent == c[i].parent
        &&& a[i].kind == c[i].kind
        &&& a[i].symbols@.len() == c[i].symbols@.len()
        &&& forall|k: int| 0 <= k < a[i].symbols@.len() ==> same_sym_shape(#[trigger] a[i].symbols@[k], c[i].symbols@[k])
    } by {
        assert(b[i] == b[i]);
        assert forall|k: int| 0 <= k < a[i].symbols@.len() implies same_sym_shape(#[trigger] a[i].symbols@[k], c[i].symbols@[k]) by {
            assert(same_sym_shape(a[i].symbols@[k], b[i].symbols@[k]));
            assert(same_sym_shape(b[i].symbols@[k], c[i].symbols@[k]));
        }
    }
}

/// Whether a list of analyzed statements contains a return statement.
pub open spec fn has_return(body: Seq<SemanticStatement>) -> bool {
    exists|i: int| 0 <= i < body.len() && (#[trigger] body[i]) is SemanticReturn
}

/// The function declarations among `body`, in order.
pub open spec fn function_decls(body: Seq<Statement>) -> Seq<Statement>
    decreases body.len(),
{
    if body.len() == 0 {
        Seq::empty()
    } else if body.last() is FunctionDecleration {
        function_decls(body.drop_last()).push(body.last())
    } else {
        function_decls(body.drop_last())
    }
}

/// The names of the function declarations in `decls` are pairwise different.
pub open spec fn decl_names_distinct(decls: Seq<Statement>) -> bool {
    forall|a: int, b: int|
        0 <= a < b < decls.len() ==> (#[trigger] decls[a])->FunctionDecleration_name@
            != (#[trigger] decls[b])->FunctionDecleration_name@
}

/// The declarations before position `i` are a prefix of all declarations.
pub proof fn lemma_function_decls_prefix(s: Seq<Statement>, i: int)
    requires
        0 <= i <= s.len(),
    ensures
        function_decls(s.take(i)).is_prefix_of(function_decls(s)),
    decreases s.len(),
{
    if i < s.len() {
        lemma_function_decls_prefix(s.drop_last(), i);
        assert(s.drop_last().take(i) =~= s.take(i));
    } else {
        assert(s.take(i) =~= s);
    }
}

// ---------------------------------------------------------------------------
// The analyzer

fn semantic_error(message: String, line: usize) -> (e: CompileError)
    ensures
        e == (CompileError::SemanticError { message, line }),
{
    CompileError::SemanticError { message, line }
}

fn internal_error(message: String, line: usize) -> (e: CompileError)
    ensures
        e == (CompileError::CompilerError { message, line }),
{
    CompileError::CompilerError { message, line }
}

/// Whether a type is `void`.
fn is_void(t: &Type) -> (r: bool)
    ensures
        r == (*t == Type::Void),
{
    match t {
        Type::Void => true,
        _ => false,
    }
}

/// Whether an optional type is `bool`.
fn is_bool(t: &Option<Type>) -> (r: bool)
    ensures
        r == (*t == Some(Type::Bool)),
{
    match t {
        Some(Type::Bool) => true,
        _ => false,
    }
}

/// Semantic analysis of one program.
pub struct Analyzer {
    statements: Program,
    scope_table: Vec<Scope>,
    body: Vec<SemanticStatement>,
    warnings: Vec<SemanticWarning>,
    current_scope_id: usize,
    current_symbol_id: usize,
}

impl Analyzer {
    /// The scope table so far.
    pub closed spec fn table(&self) -> Seq<Scope> {
        self.scope_table@
    }

    /// The warnings so far.
    pub closed spec fn warnings_so_far(&self) -> Seq<SemanticWarning> {
        self.warnings@
    }

    /// The analyzer's state as a value.
    pub closed spec fn state(&self) -> AState {
        AState {
            table: table_view(self.scope_table@),
            cur: self.current_scope_id as int,
            next_id: self.current_symbol_id as int,
            warnings: warns_view(self.warnings@),
        }
    }

    /// The program being analyzed.
    pub closed spec fn input(&self) -> Seq<Statement> {
        self.statements.body@
    }

    /// The scope table is well formed, its first scope is the global one,
    /// the current scope exists, every symbol's number is below the next one
    /// to be given, and no two symbols share a number.
    pub closed spec fn wf(&self) -> bool {
        &&& scope_table_wf(self.scope_table@)
        &&& ids_distinct(self.scope_table@)
        &&& 0 < self.scope_table@.len() < 0x7fff_ffff
        &&& self.scope_table@[0].parent is None
        &&& self.current_scope_id < self.scope_table@.len()
        &&& forall|i: int, k: int|
            0 <= i < self.scope_table@.len() && 0 <= k < self.scope_table@[i].symbols@.len()
                ==> (#[trigger] self.scope_table@[i].symbols@[k]).id.0 < self.current_symbol_id
    }

    /// An analyzer for `ast`.
    pub fn new(ast: Program) -> (r: Self)
        ensures
            r.input() == ast.body@,
            r.table().len() == 0,
            r.warnings_so_far().len() == 0,
            r.state().next_id == 0,
            r.state().warnings == Seq::<WarnV>::empty(),
    {
        Self {
            statements: ast,
            scope_table: Vec::new(),
            body: Vec::new(),
            warnings: Vec::new(),
            current_scope_id: 0,
            current_symbol_id: 0,
        }
    }

    /// The symbols of the functions declared at the top level, numbered on
    /// from the next symbol number; an error when two share a name.
    #[verifier::loop_isolation(false)]
    fn collect_global_functions(&mut self) -> (r: Result<Vec<Symbol>, CompileError>)
        ensures
            final(self).statements == old(self).statements,
            final(self).scope_table@ == old(self).scope_table@,
            final(self).warnings@ == old(self).warnings@,
            final(self).current_scope_id == old(self).current_scope_id,
            final(self).current_symbol_id >= old(self).current_symbol_id,
            r matches Ok(v) ==> {
                let d = function_decls(old(self).statements.body@);
                &&& v@.len() == d.len()
                &&& decl_names_distinct(d)
                &&& final(self).current_symbol_id == old(self).current_symbol_id + v@.len()
                &&& forall|k: int| 0 <= k < v@.len() ==> {
                    &&& (#[trigger] v@[k]).name@ == d[k]->FunctionDecleration_name@
                    &&& v@[k].id.0 == old(self).current_symbol_id + k
                    &&& v@[k].declared_scope == ScopeId(0)
                    &&& v@[k].kind is Function
                    &&& v@[k].kind->Function_return_type == d[k]->FunctionDecleration_return_type
                    &&& v@[k].kind->Function_params@ == d[k]->FunctionDecleration_params@
                }
            },
            r matches Err(e) ==> (e is SemanticError && !decl_names_distinct(function_decls(old(self).statements.body@)))
                || e is CompilerError,
            r matches Ok(v) ==> globals(old(self).statements.body@, old(self).current_symbol_id as int) == Ok::<Seq<SymV>, ErrV>(syms_view(v@)),
            r matches Err(e) ==> globals(old(self).statements.body@, old(self).current_symbol_id as int) == Err::<Seq<SymV>, ErrV>(e@),
    {
        let mut functions: Vec<Symbol> = Vec::new();
        let n = self.statements.body.len();
        let ghost input = self.statements.body@;
        let base = self.current_symbol_id;
        let mut i: usize = 0;
        assert(input.take(0) =~= Seq::<Statement>::empty());
        assert(syms_view(functions@) =~= Seq::<SymV>::empty());
        while i < n
            invariant
                self.statements == old(self).statements,
                input == old(self).statements.body@,
                n == input.len(),
                i <= n,
                self.scope_table@ == old(self).scope_table@,
                self.warnings@ == old(self).warnings@,
                self.current_scope_id == old(self).current_scope_id,
                base == old(self).current_symbol_id,
                self.current_symbol_id == base + functions@.len(),
                globals(input.take(i as int), base as int) == Ok::<Seq<SymV>, ErrV>(syms_view(functions@)),
                ({
                    let d = function_decls(input.take(i as int));
                    &&& functions@.len() == d.len()
                    &&& decl_names_distinct(d)
                    &&& forall|k: int| 0 <= k < functions@.len() ==> {
                        &&& (#[trigger] functions@[k]).name@ == d[k]->FunctionDecleration_name@
                        &&& functions@[k].id.0 == base + k
                        &&& functions@[k].declared_scope == ScopeId(0)
                        &&& functions@[k].kind is Function
                        &&& functions@[k].kind->Function_return_type == d[k]->FunctionDecleration_return_type
                        &&& functions@[k].kind->Function_params@ == d[k]->FunctionDecleration_params@
                    }
                }),
            decreases n - i,
        {
            proof {
                assert(input.take(i + 1).drop_last() =~= input.take(i as int));
                assert(input.take(i + 1).last() == input[i as int]);
            }
            let ghost d0 = function_decls(input.take(i as int));
            match &self.statements.body[i] {
                Statement::FunctionDecleration { return_type, name, params, line, .. } => {
                    let mut j: usize = 0;
                    while j < functions.len()
                        invariant
                            j <= functions@.len(),
                            forall|k: int| 0 <= k < j ==> (#[trigger] functions@[k]).name@ != name@,
                        decreases functions@.len() - j,
                    {
                        if functions[j].name.eq(name) {
                            proof {
                                assert(syms_view(functions@)[j as int] == sym_view(functions@[j as int]));
                                lemma_globals_err(input, base as int, i + 1);
                            }
                            let mut m = string_of("function '");
                            push_str(&mut m, name.as_str());
                            push_str(&mut m, "' already declared");
                            proof {
                                let d1 = function_decls(input.take(i + 1));
                                assert(d1 == d0.push(input[i as int]));
                                assert(d1[j as int]->FunctionDecleration_name@ == d1[d0.len() as int]->FunctionDecleration_name@);
                                lemma_function_decls_prefix(input, i + 1);
                                assert(input.take(n as int) =~= input);
                                let d = function_decls(input);
                                assert(d[j as int] == d1[j as int]);
                                assert(d[d0.len() as int] == d1[d0.len() as int]);
                            }
                            return Err(semantic_error(m, *line));
                        }
                        j += 1;
                    }
                    proof {
                        assert forall|q: int| 0 <= q < syms_view(functions@).len() implies (#[trigger] syms_view(functions@)[q]).name != name@ by {
                            assert(syms_view(functions@)[q] == sym_view(functions@[q]));
                        }
                    }
                    if self.current_symbol_id == usize::MAX {
                        proof {
                            lemma_globals_err(input, base as int, i + 1);
                        }
                        return Err(internal_error(string_of("too many symbols"), *line));
                    }
                    let ghost f0 = functions@;
                    let sym = Symbol {
                        name: copy_string(name),
                        id: SymbolId(self.current_symbol_id),
                        kind: SymbolKind::Function { return_type: copy_type(return_type), params: copy_params(params) },
                        declared_scope: ScopeId(0),
                        line: 0,
                    };
                    let ghost symg = sym;
                    functions.push(sym);
                    self.current_symbol_id += 1;
                    proof {
                        lemma_syms_push(f0, symg);
                        let d1 = function_decls(input.take(i + 1));
                        assert(d1 == d0.push(input[i as int]));
                        assert forall|a: int, b: int| 0 <= a < b < d1.len() implies (#[trigger] d1[a])->FunctionDecleration_name@
                            != (#[trigger] d1[b])->FunctionDecleration_name@ by {
                            if b == d0.len() {
                                assert(functions@[a].name@ == d0[a]->FunctionDecleration_name@);
                            } else {
                                assert(d1[a] == d0[a] && d1[b] == d0[b]);
                            }
                        }
                    }
                },
                _ => {},
            }
            i += 1;
        }
        proof {
            assert(input.take(n as int) =~= input);
        }
        Ok(functions)
    }

    /// Creates the global scope, holding the top-level functions.
    fn init_scope_table(&mut self) -> (r: Result<(), CompileError>)
        requires
            old(self).scope_table@.len() == 0,
        ensures
            final(self).statements == old(self).statements,
            final(self).warnings@ == old(self).warnings@,
            r is Ok ==> {
                let d = function_decls(old(self).statements.body@);
                let g = final(self).scope_table@[0];
                &&& final(self).wf()
                &&& final(self).scope_table@.len() == 1
                &&& final(self).current_scope_id == 0
                &&& g.kind is Global
                &&& decl_names_distinct(d)
                &&& g.symbols@.len() == d.len()
                &&& forall|k: int| 0 <= k < d.len() ==> {
                    &&& (#[trigger] g.symbols@[k]).name@ == d[k]->FunctionDecleration_name@
                    &&& g.symbols@[k].kind is Function
                    &&& g.symbols@[k].kind->Function_return_type == d[k]->FunctionDecleration_return_type
                    &&& g.symbols@[k].kind->Function_params@ == d[k]->FunctionDecleration_params@
                }
            },
            r matches Err(e) ==> (e is SemanticError && !decl_names_distinct(function_decls(old(self).statements.body@)))
                || e is CompilerError,
            r is Ok ==> (globals(old(self).statements.body@, old(self).current_symbol_id as int) matches Ok(fs) && final(self).state() == (AState {
                table: seq![ScopeV { scope_id: ScopeId(0), kind: ScopeKindV::Global, parent: None, symbols: fs }],
                cur: 0,
                next_id: old(self).current_symbol_id + fs.len(),
                warnings: old(self).state().warnings,
            })),
            r matches Err(e) ==> globals(old(self).statements.body@, old(self).current_symbol_id as int) == Err::<Seq<SymV>, ErrV>(e@),
    {
        let funcs = self.collect_global_functions()?;
        self.scope_table.push(Scope { scope_id: ScopeId(0), kind: ScopeType::Global, parent: None, symbols: funcs });
        self.current_scope_id = 0;
        proof {
            assert(table_view(self.scope_table@) =~= seq![scope_view(self.scope_table@[0])]);
            assert(self.scope_table@.len() == 1);
            assert forall|i: int, k: int|
                0 <= i < self.scope_table@.len() && 0 <= k < self.scope_table@[i].symbols@.len()
                    implies (#[trigger] self.scope_table@[i].symbols@[k]).id.0 < self.current_symbol_id by {
                assert(i == 0);
            }
        }
        Ok(())
    }

    /// Analyzes a list of statements in the current scope, keeping the
    /// analyzed forms of those that have one.
    fn analyze_block(&mut self, body: &mut Vec<Statement>) -> (r: Result<Vec<SemanticStatement>, CompileError>)
        requires
            old(self).wf(),
        ensures
            final(self).wf(),
            extends_shape(old(self).scope_table@, final(self).scope_table@),
            final(self).statements == old(self).statements,
            old(self).warnings@.is_prefix_of(final(self).warnings@),
            final(self).current_symbol_id >= old(self).current_symbol_id,
            r is Ok ==> final(self).current_scope_id == old(self).current_scope_id,
            final(self).state() == block_step(old(self).state(), old(body)@).0,
            block_result(r) == block_step(old(self).state(), old(body)@).1,
        decreases *old(body), 0nat,
    {
        let mut out: Vec<SemanticStatement> = Vec::new();
        let mut i: usize = 0;
        proof {
            lemma_extends_refl(self.scope_table@);
        }
        while i < body.len()
            invariant
                self.wf(),
                extends_shape(old(self).scope_table@, self.scope_table@),
                self.statements == old(self).statements,
                old(self).warnings@.is_prefix_of(self.warnings@),
                self.current_symbol_id >= old(self).current_symbol_id,
                self.current_scope_id == old(self).current_scope_id,
                body@.len() == old(body)@.len(),
                i <= body@.len(),
                forall|k: int| i <= k < body@.len() ==> #[trigger] body@[k] == old(body)@[k],
                block_step(old(self).state(), old(body)@.take(i as int)) == (self.state(), Ok::<Seq<SemV>, ErrV>(sems_view(out@))),
            decreases body@.len() - i,
        {
            let ghost t1 = self.scope_table@;
            let ghost before = body@;
            proof {
                assert(decreases_to!(*old(body) => old(body)@));
                assert(decreases_to!(old(body)@ => old(body)@[i as int]));
            }
            let res = self.analyze_statement(&mut body[i]);
            proof {
                lemma_extends_trans(old(self).scope_table@, t1, self.scope_table@);
                assert forall|k: int| i + 1 <= k < body@.len() implies #[trigger] body@[k] == old(body)@[k] by {
                    assert(body@[k] == before[k]);
                }
                let ob = old(body)@;
                assert(ob.take(i + 1).drop_last() =~= ob.take(i as int));
                assert(ob.take(i + 1).last() == ob[i as int]);
            }
            match res {
                Ok(Some(sem)) => {
                    let ghost out0 = out@;
                    out.push(sem);
                    proof {
                        lemma_sems_view_push(out0, sem);
                    }
                },
                Ok(None) => {},
                Err(e) => {
                    proof {
                        lemma_block_err(old(self).state(), old(body)@, i + 1);
                    }
                    return Err(e);
                },
            }
            i += 1;
        }
        proof {
            assert(old(body)@.take(body@.len() as int) =~= old(body)@);
        }
        Ok(out)
    }

    /// Analyzes the program (see `analysis`): builds the global scope from
    /// the top-level functions, then analyzes each top-level statement in
    /// order. The result holds the scope table, the analyzed statements and
    /// the warnings; two top-level functions of the same name are an error.
    pub fn analyze(&mut self) -> (r: Result<SemanticProgram, CompileError>)
        requires
            old(self).table().len() == 0,
        ensures
            !decl_names_distinct(function_decls(old(self).input())) ==> r is Err,
            match analysis(old(self).input(), old(self).state().next_id, old(self).state().warnings) {
                Ok((st, out)) => r matches Ok(p) && table_view(p.scope_table@) == st.table && sems_view(p.body@) == out
                    && warns_view(p.diagnostics@) == st.warnings,
                Err(e) => r matches Err(x) && x@ == e,
            },
            r matches Ok(p) ==> {
                let d = function_decls(old(self).input());
                let g = p.scope_table@[0];
                &&& scope_table_wf(p.scope_table@)
                &&& ids_distinct(p.scope_table@)
                &&& p.scope_table@.len() > 0
                &&& g.parent is None
                &&& g.kind is Global
                &&& decl_names_distinct(d)
                &&& d.len() <= g.symbols@.len()
                &&& forall|k: int| 0 <= k < d.len() ==> {
                    &&& (#[trigger] g.symbols@[k]).name@ == d[k]->FunctionDecleration_name@
                    &&& g.symbols@[k].kind is Function
                    &&& g.symbols@[k].kind->Function_return_type == d[k]->FunctionDecleration_return_type
                    &&& g.symbols@[k].kind->Function_params@ == d[k]->FunctionDecleration_params@
                }
            },
    {
        self.init_scope_table()?;
        let ghost t0 = self.scope_table@;
        let mut top_level: Vec<Statement> = Vec::new();
        std::mem::swap(&mut top_level, &mut self.statements.body);
        let res = self.analyze_block(&mut top_level);
        proof {
            let d = function_decls(old(self).input());
            assert forall|k: int| 0 <= k < d.len() implies {
                &&& (#[trigger] self.scope_table@[0].symbols@[k]).name@ == d[k]->FunctionDecleration_name@
                &&& self.scope_table@[0].symbols@[k].kind is Function
                &&& self.scope_table@[0].symbols@[k].kind->Function_return_type == d[k]->FunctionDecleration_return_type
                &&& self.scope_table@[0].symbols@[k].kind->Function_params@ == d[k]->FunctionDecleration_params@
            } by {
                assert(t0[0] == t0[0]);
                assert(same_sym_shape(t0[0].symbols@[k], self.scope_table@[0].symbols@[k]));
            }
        }
        std::mem::swap(&mut top_level, &mut self.statements.body);
        let body = res?;
        let mut table: Vec<Scope> = Vec::new();
        std::mem::swap(&mut table, &mut self.scope_table);
        let mut diagnostics: Vec<SemanticWarning> = Vec::new();
        std::mem::swap(&mut diagnostics, &mut self.warnings);
        Ok(SemanticProgram { scope_table: table, body, diagnostics })
    }

    /// Analyzes one statement (see `stmt_step`): function
    /// declarations get a scope with their parameters and must contain a
    /// return; calls must name a function with as many parameters as
    /// arguments; declarations must not repeat a name of their scope;
    /// assignments must name a declared symbol; `if` and `while` bodies get
    /// scopes of their own.
    fn analyze_statement(&mut self, stmt: &mut Statement) -> (r: Result<Option<SemanticStatement>, CompileError>)
        requires
            old(self).wf(),
        ensures
            final(self).wf(),
            extends_shape(old(self).scope_table@, final(self).scope_table@),
            final(self).statements == old(self).statements,
            old(self).warnings@.is_prefix_of(final(self).warnings@),
            final(self).current_symbol_id >= old(self).current_symbol_id,
            r is Ok ==> final(self).current_scope_id == old(self).current_scope_id,
            final(self).state() == stmt_step(old(self).state(), *old(stmt)).0,
            stmt_result(r) == stmt_step(old(self).state(), *old(stmt)).1,
        decreases *old(stmt), 2nat,
    {
        proof {
            lemma_extends_refl(self.scope_table@);
        }
        match stmt {
            Statement::FunctionDecleration { .. } => self.analyze_function_decl(stmt),
            Statement::FunctionCall { .. } => self.analyze_call_statement(stmt),
            Statement::VariableDeclaration { .. } => self.analyze_var_decl(stmt),
            Statement::Assign { .. } => self.analyze_assign(stmt),
            Statement::If { .. } => self.analyze_if(stmt),
            Statement::While { .. } => self.analyze_while(stmt),
            _ => self.analyze_simple(stmt),
        }
    }

    /// Analyzes a function declaration.
    #[verifier::loop_isolation(false)]
    #[verifier::spinoff_prover]
    #[verifier::rlimit(80)]
    fn analyze_function_decl(&mut self, stmt: &mut Statement) -> (r: Result<Option<SemanticStatement>, CompileError>)
        requires
            old(self).wf(),
            *old(stmt) is FunctionDecleration,
        ensures
            final(self).wf(),
            extends_shape(old(self).scope_table@, final(self).scope_table@),
            final(self).statements == old(self).statements,
            old(self).warnings@.is_prefix_of(final(self).warnings@),
            final(self).current_symbol_id >= old(self).current_symbol_id,
            r is Ok ==> final(self).current_scope_id == old(self).current_scope_id,
            final(self).state() == stmt_step(old(self).state(), *old(stmt)).0,
            stmt_result(r) == stmt_step(old(self).state(), *old(stmt)).1,
        decreases *old(stmt), 1nat,
    {
        let ghost t0 = self.scope_table@;
        let ghost cs = self.current_scope_id as int;
        let ghost st0 = self.state();
        proof {
            lemma_extends_refl(t0);
            lemma_same_shape_refl(t0);
        }
        match stmt {
            Statement::FunctionDecleration { return_type, name, params, body, line, .. } => {
                let found = self.find_symbol(name);
                let sym_idx = match found {
                    Some((_, i)) => i,
                    None => {
                        let mut m = string_of("function '");
                        push_str(&mut m, name.as_str());
                        push_str(&mut m, "' not found in scope");
                        return Err(semantic_error(m, *line));
                    },
                };
                if sym_idx >= self.scope_table[0].symbols.len() {
                    return Err(internal_error(string_of("function symbol outside the global scope"), *line));
                }
                let symbol_id = self.scope_table[0].symbols[sym_idx].id;
                proof {
                    assert(st0.table[0].symbols[sym_idx as int] == sym_view(t0[0].symbols@[sym_idx as int]));
                }
                self.enter_scope(ScopeType::FunctionBody { name: copy_string(name), parent: symbol_id })?;
                let ghost fs = self.current_scope_id;
                let ghost s1 = self.state();
                let ghost ps0 = params@;
                let mut sem_params: Vec<SemanticParam> = Vec::new();
                let mut pi: usize = 0;
                proof {
                    assert(ps0.take(0) =~= Seq::<Parameter>::empty());
                    assert(sem_params@.map_values(|p: SemanticParam| param_view(p)) =~= Seq::<ParamV>::empty());
                }
                while pi < params.len()
                    invariant
                        self.wf(),
                        extends_shape(t0, self.scope_table@),
                        self.statements == old(self).statements,
                        old(self).warnings@.is_prefix_of(self.warnings@),
                        self.current_symbol_id >= old(self).current_symbol_id,
                        self.current_scope_id == fs,
                        fs == t0.len(),
                        self.scope_table@[fs as int].parent == Some(ScopeId(cs as i32)),
                        pi <= params@.len(),
                        params@ == ps0,
                        params_step(s1, ps0.take(pi as int), *line) == (
                            self.state(),
                            Ok::<Seq<ParamV>, ErrV>(sem_params@.map_values(|p: SemanticParam| param_view(p))),
                        ),
                    decreases params@.len() - pi,
                {
                    let cur = self.current_scope_id;
                    let ghost sp = self.state();
                    let mut dup = false;
                    let mut k: usize = 0;
                    while k < self.scope_table[cur].symbols.len()
                        invariant
                            k <= self.scope_table@[cur as int].symbols@.len(),
                            dup ==> exists|q: int| 0 <= q < k && (#[trigger] self.scope_table@[cur as int].symbols@[q]).name@ == params@[pi as int].name@,
                            !dup ==> forall|q: int| 0 <= q < k ==> (#[trigger] self.scope_table@[cur as int].symbols@[q]).name@ != params@[pi as int].name@,
                        decreases self.scope_table@[cur as int].symbols@.len() - k,
                    {
                        if self.scope_table[cur].symbols[k].name.eq(&params[pi].name) {
                            dup = true;
                        }
                        k += 1;
                    }
                    proof {
                        let pn = ps0[pi as int].name@;
                        let vs = sp.table[cur as int].symbols;
                        let es = self.scope_table@[cur as int].symbols@;
                        assert(vs == syms_view(es));
                        if dup {
                            let q = choose|q: int| 0 <= q < k && (#[trigger] es[q]).name@ == pn;
                            assert(vs[q] == sym_view(es[q]));
                        } else {
                            assert forall|q: int| 0 <= q < vs.len() implies (#[trigger] vs[q]).name != pn by {
                                assert(vs[q] == sym_view(es[q]));
                            }
                        }
                        assert(dup == declared_in(vs, pn));
                        assert(ps0.take(pi + 1).drop_last() =~= ps0.take(pi as int));
                        assert(ps0.take(pi + 1).last() == ps0[pi as int]);
                    }
                    if dup {
                        let mut m = string_of("duplicate parameter name '");
                        push_str(&mut m, params[pi].name.as_str());
                        push_str(&mut m, "'");
                        proof {
                            lemma_params_err(s1, ps0, pi + 1, *line);
                        }
                        return Err(semantic_error(m, *line));
                    }
                    let pname = copy_string(&params[pi].name);
                    let ptype = copy_type(&params[pi].param_type);
                    let ghost t2 = self.scope_table@;
                    let ghost sem0 = sem_params@;
                    let ins = self.insert_symbol(
                        &pname,
                        SymbolKind::Variable { var_type: copy_type(&ptype), state: State::Initialized },
                        *line,
                    );
                    let param_id = match ins {
                        Ok(id) => id,
                        Err(e) => {
                            proof {
                                lemma_params_err(s1, ps0, pi + 1, *line);
                            }
                            return Err(e);
                        },
                    };
                    proof {
                        lemma_extends_insert(t2, self.scope_table@, cur as int);
                        lemma_extends_trans(t0, t2, self.scope_table@);
                    }
                    let sp_new = SemanticParam { name: pname, param_type: ptype, symbol: param_id };
                    let ghost spg = sp_new;
                    sem_params.push(sp_new);
                    proof {
                        assert(sem_params@.map_values(|p: SemanticParam| param_view(p)) =~= sem0.map_values(
                            |p: SemanticParam| param_view(p),
                        ).push(param_view(spg)));
                    }
                    pi += 1;
                }
                proof {
                    assert(ps0.take(pi as int) =~= ps0);
                }
                let ghost t3 = self.scope_table@;
                proof {
                    assert(decreases_to!(*old(stmt) => *body));
                }
                let res = self.analyze_block(body);
                proof {
                    lemma_extends_trans(t0, t3, self.scope_table@);
                    assert(self.scope_table@[fs as int].parent == t3[fs as int].parent);
                }
                let sem_body = res?;
                self.exit_scope();
                let mut has_ret = false;
                let mut bi: usize = 0;
                while bi < sem_body.len()
                    invariant
                        bi <= sem_body@.len(),
                        has_ret ==> has_return(sem_body@),
                        !has_ret ==> forall|q: int| 0 <= q < bi ==> !(#[trigger] sem_body@[q] is SemanticReturn),
                    decreases sem_body@.len() - bi,
                {
                    if let SemanticStatement::SemanticReturn { .. } = &sem_body[bi] {
                        has_ret = true;
                    }
                    bi += 1;
                }
                proof {
                    let sv = sems_view(sem_body@);
                    lemma_sems_view_index(sem_body@);
                    if has_ret {
                        let q = choose|q: int| 0 <= q < sem_body@.len() && (#[trigger] sem_body@[q]) is SemanticReturn;
                        assert(sv[q] is Return);
                    } else {
                        assert forall|q: int| 0 <= q < sv.len() implies !((#[trigger] sv[q]) is Return) by {
                            assert(!(sem_body@[q] is SemanticReturn));
                        }
                    }
                    assert(has_ret == has_return_v(sv));
                }
                if !has_ret {
                    let mut m = string_of("function `");
                    push_str(&mut m, name.as_str());
                    push_str(&mut m, "` has no return statement");
                    return Err(semantic_error(m, *line));
                }
                Ok(Some(SemanticStatement::SemanticFunction {
                    name: copy_string(name),
                    symbol: symbol_id,
                    return_type: copy_type(return_type),
                    params: sem_params,
                    body: sem_body,
                    line: *line,
                }))
            },
            _ => Err(internal_error(string_of("unexpected statement"), 0)),
        }
    }

    /// Analyzes a call statement.
    #[verifier::loop_isolation(false)]
    fn analyze_call_statement(&mut self, stmt: &mut Statement) -> (r: Result<Option<SemanticStatement>, CompileError>)
        requires
            old(self).wf(),
            *old(stmt) is FunctionCall,
        ensures
            final(self).wf(),
            extends_shape(old(self).scope_table@, final(self).scope_table@),
            final(self).statements == old(self).statements,
            old(self).warnings@.is_prefix_of(final(self).warnings@),
            final(self).current_symbol_id >= old(self).current_symbol_id,
            r is Ok ==> final(self).current_scope_id == old(self).current_scope_id,
            final(self).state() == stmt_step(old(self).state(), *old(stmt)).0,
            stmt_result(r) == stmt_step(old(self).state(), *old(stmt)).1,
        decreases *old(stmt), 1nat,
    {
        let ghost t0 = self.scope_table@;
        let ghost cs = self.current_scope_id as int;
        proof {
            lemma_extends_refl(t0);
            lemma_same_shape_refl(t0);
        }
        match stmt {
            Statement::FunctionCall { name, args, line } => {
                let found = self.find_symbol(name);
                let (si, sym_i) = match found {
                    Some(p) => p,
                    None => {
                        let mut m = string_of("call to undeclared function '");
                        push_str(&mut m, name.as_str());
                        push_str(&mut m, "'");
                        return Err(semantic_error(m, *line));
                    },
                };
                proof {
                    lemma_lookup_found(t0, cs, name@);
                }
                let (is_fn, expected) = match &self.scope_table[si].symbols[sym_i].kind {
                    SymbolKind::Function { params, .. } => (true, params.len()),
                    _ => (false, 0),
                };
                if !is_fn {
                    let mut m = string_of("'");
                    push_str(&mut m, name.as_str());
                    push_str(&mut m, "' is not a function");
                    return Err(semantic_error(m, *line));
                }
                if args.len() != expected {
                    let mut m = string_of("'");
                    push_str(&mut m, name.as_str());
                    push_str(&mut m, "' expects ");
                    push_decimal(&mut m, expected);
                    push_str(&mut m, " args, got ");
                    push_decimal(&mut m, args.len());
                    return Err(semantic_error(m, *line));
                }
                self.analyze_args(args, *line);
                proof {
                    lemma_extends_of_same_shape(t0, self.scope_table@);
                }
                let a = crate::parser::expression::copy_exprs(args);
                Ok(Some(SemanticStatement::SemanticFunctionCall { name: copy_string(name), args: a, line: *line }))
            },
            _ => Err(internal_error(string_of("unexpected statement"), 0)),
        }
    }

    /// Analyzes a variable declaration.
    #[verifier::loop_isolation(false)]
    fn analyze_var_decl(&mut self, stmt: &mut Statement) -> (r: Result<Option<SemanticStatement>, CompileError>)
        requires
            old(self).wf(),
            *old(stmt) is VariableDeclaration,
        ensures
            final(self).wf(),
            extends_shape(old(self).scope_table@, final(self).scope_table@),
            final(self).statements == old(self).statements,
            old(self).warnings@.is_prefix_of(final(self).warnings@),
            final(self).current_symbol_id >= old(self).current_symbol_id,
            r is Ok ==> final(self).current_scope_id == old(self).current_scope_id,
            final(self).state() == stmt_step(old(self).state(), *old(stmt)).0,
            stmt_result(r) == stmt_step(old(self).state(), *old(stmt)).1,
        decreases *old(stmt), 1nat,
    {
        let ghost t0 = self.scope_table@;
        let ghost cs = self.current_scope_id as int;
        proof {
            lemma_extends_refl(t0);
            lemma_same_shape_refl(t0);
        }
        match stmt {
            Statement::VariableDeclaration { var_name, var_type, operation, line } => {
                let cur = self.current_scope_id;
                let mut k: usize = 0;
                while k < self.scope_table[cur].symbols.len()
                    invariant
                        k <= self.scope_table@[cur as int].symbols@.len(),
                        forall|q: int| 0 <= q < k ==> (#[trigger] self.scope_table@[cur as int].symbols@[q]).name@ != var_name@,
                    decreases self.scope_table@[cur as int].symbols@.len() - k,
                {
                    if self.scope_table[cur].symbols[k].name.eq(var_name) {
                        proof {
                            lemma_find_in_first(t0[cs].symbols@, var_name@, k as int);
                            assert(self.state().table[cs].symbols[k as int] == sym_view(t0[cs].symbols@[k as int]));
                        }
                        let mut m = string_of("variable '");
                        push_str(&mut m, var_name.as_str());
                        push_str(&mut m, "' already declared in this scope");
                        return Err(semantic_error(m, *line));
                    }
                    k += 1;
                }
                proof {
                    lemma_find_in_first(t0[cs].symbols@, var_name@, k as int);
                }
                if self.current_symbol_id == usize::MAX {
                    return Err(internal_error(string_of("too many symbols"), *line));
                }
                let ghost t1 = self.scope_table@;
                match operation {
                    Some(expr) => {
                        self.analyze_expression(expr, *line);
                        let expr_type = self.resolve_type(expr);
                        if let Some(et) = &expr_type {
                            if !type_eq(et, var_type) && !is_void(var_type) {
                                let mut m = string_of("variable '");
                                push_str(&mut m, var_name.as_str());
                                push_str(&mut m, "' declared as ");
                                let a = var_type.debug_text();
                                push_str(&mut m, a.as_str());
                                push_str(&mut m, " but assigned ");
                                let b = et.debug_text();
                                push_str(&mut m, b.as_str());
                                self.push_warning(WarningType::TypeMismatch, copy_string(var_name), m, *line);
                            }
                        }
                    },
                    None => {},
                }
                if let Some(Expression::Integer(n)) = operation {
                    let fits = match var_type {
                        Type::Int8 => *n >= -128 && *n <= 127,
                        Type::Int16 => *n >= -32768 && *n <= 32767,
                        _ => true,
                    };
                    if !fits {
                        let msg = WarningType::LiteralOverflow.get_message(copy_string(var_name));
                        self.push_warning(WarningType::LiteralOverflow, copy_string(var_name), msg, *line);
                    }
                }
                let state = if operation.is_some() { State::Initialized } else { State::Uninitialized };
                let ghost t3 = self.scope_table@;
                let symbol_id = self.insert_symbol(
                    var_name,
                    SymbolKind::Variable { var_type: copy_type(var_type), state },
                    *line,
                )?;
                proof {
                    lemma_extends_of_same_shape(t0, t3);
                    lemma_extends_insert(t3, self.scope_table@, cs);
                    lemma_extends_trans(t0, t3, self.scope_table@);
                    match *old(stmt) {
                        Statement::VariableDeclaration { operation: o, .. } => {
                            match o {
                                Some(x) => {},
                                None => {},
                            }
                        },
                        _ => {},
                    }
                }
                let init = crate::parser::statement::copy_opt_expr(operation);
                Ok(Some(SemanticStatement::SemanticVarDecl { symbol: symbol_id, initializer: init }))
            },
            _ => Err(internal_error(string_of("unexpected statement"), 0)),
        }
    }

    /// Analyzes an assignment.
    #[verifier::loop_isolation(false)]
    fn analyze_assign(&mut self, stmt: &mut Statement) -> (r: Result<Option<SemanticStatement>, CompileError>)
        requires
            old(self).wf(),
            *old(stmt) is Assign,
        ensures
            final(self).wf(),
            extends_shape(old(self).scope_table@, final(self).scope_table@),
            final(self).statements == old(self).statements,
            old(self).warnings@.is_prefix_of(final(self).warnings@),
            final(self).current_symbol_id >= old(self).current_symbol_id,
            r is Ok ==> final(self).current_scope_id == old(self).current_scope_id,
            final(self).state() == stmt_step(old(self).state(), *old(stmt)).0,
            stmt_result(r) == stmt_step(old(self).state(), *old(stmt)).1,
        decreases *old(stmt), 1nat,
    {
        let ghost t0 = self.scope_table@;
        let ghost cs = self.current_scope_id as int;
        proof {
            lemma_extends_refl(t0);
            lemma_same_shape_refl(t0);
        }
        match stmt {
            Statement::Assign { var_name, value, line } => {
                self.analyze_expression(value, *line);
                let ghost t1 = self.scope_table@;
                proof {
                    lemma_lookup_same_shape(t0, t1, cs, var_name@);
                }
                let expr_type = self.resolve_type(value);
                let found = self.find_symbol(var_name);
                match found {
                    None => {
                        proof {
                            lemma_extends_of_same_shape(t0, self.scope_table@);
                        }
                        let mut m = string_of("assignment to undeclared variable '");
                        push_str(&mut m, var_name.as_str());
                        push_str(&mut m, "'");
                        return Err(semantic_error(m, *line));
                    },
                    Some((si, sym_i)) => {
                        proof {
                            lemma_lookup_found(t1, cs, var_name@);
                            lemma_lookup_found(t0, cs, var_name@);
                            assert(same_sym_shape(t0[si as int].symbols@[sym_i as int], t1[si as int].symbols@[sym_i as int]));
                        }
                        let var_type_clone = match &self.scope_table[si].symbols[sym_i].kind {
                            SymbolKind::Variable { var_type, .. } => Some(copy_type(var_type)),
                            _ => None,
                        };
                        let vt = match var_type_clone {
                            Some(vt) => vt,
                            None => {
                                proof {
                                    lemma_extends_of_same_shape(t0, self.scope_table@);
                                }
                                return Ok(None);
                            },
                        };
                        if let Some(et) = &expr_type {
                            if !type_eq(et, &vt) {
                                let mut m = string_of("cannot assign ");
                                let a = et.debug_text();
                                push_str(&mut m, a.as_str());
                                push_str(&mut m, " to variable '");
                                push_str(&mut m, var_name.as_str());
                                push_str(&mut m, "' of type ");
                                let b = vt.debug_text();
                                push_str(&mut m, b.as_str());
                                self.push_warning(WarningType::TypeMismatch, copy_string(var_name), m, *line);
                            }
                        }
                        let symbol_id = self.scope_table[si].symbols[sym_i].id;
                        self.set_variable_state(si, sym_i, State::Initialized);
                        proof {
                            lemma_same_shape_trans(t0, t1, self.scope_table@);
                            lemma_extends_of_same_shape(t0, self.scope_table@);
                        }
                        let v = crate::parser::expression::copy_expr(value);
                        Ok(Some(SemanticStatement::SemanticAssign { symbol: symbol_id, value: v }))
                    },
                }
            },
            _ => Err(internal_error(string_of("unexpected statement"), 0)),
        }
    }

    /// Analyzes an `if` statement.
    #[verifier::loop_isolation(false)]
    fn analyze_if(&mut self, stmt: &mut Statement) -> (r: Result<Option<SemanticStatement>, CompileError>)
        requires
            old(self).wf(),
            *old(stmt) is If,
        ensures
            final(self).wf(),
            extends_shape(old(self).scope_table@, final(self).scope_table@),
            final(self).statements == old(self).statements,
            old(self).warnings@.is_prefix_of(final(self).warnings@),
            final(self).current_symbol_id >= old(self).current_symbol_id,
            r is Ok ==> final(self).current_scope_id == old(self).current_scope_id,
            final(self).state() == stmt_step(old(self).state(), *old(stmt)).0,
            stmt_result(r) == stmt_step(old(self).state(), *old(stmt)).1,
        decreases *old(stmt), 1nat,
    {
        let ghost t0 = self.scope_table@;
        let ghost cs = self.current_scope_id as int;
        proof {
            lemma_extends_refl(t0);
            lemma_same_shape_refl(t0);
        }
        match stmt {
            Statement::If { label, condition, body, else_label, else_body } => {
                self.analyze_expression(condition, 0);
                let ghost t1 = self.scope_table@;
                proof {
                    lemma_extends_of_same_shape(t0, t1);
                }
                let cur = self.current_scope_id;
                self.enter_scope(ScopeType::IfBody { parent: SymbolId(cur) })?;
                let ghost t2 = self.scope_table@;
                let ghost fs = self.current_scope_id;
                proof {
                    lemma_extends_push(t1, t2);
                    lemma_extends_trans(t0, t1, t2);
                    assert(decreases_to!(*old(stmt) => *body));
                }
                let res = self.analyze_block(body);
                proof {
                    lemma_extends_trans(t0, t2, self.scope_table@);
                    assert(self.scope_table@[fs as int].parent == t2[fs as int].parent);
                }
                let sem_body = res?;
                self.exit_scope();
                let sem_else_body = match else_body {
                    Some(else_stmts) => {
                        let c2 = self.current_scope_id;
                        let ghost t4 = self.scope_table@;
                        self.enter_scope(ScopeType::IfBody { parent: SymbolId(c2) })?;
                        let ghost t5 = self.scope_table@;
                        let ghost fs2 = self.current_scope_id;
                        proof {
                            lemma_extends_push(t4, t5);
                            lemma_extends_trans(t0, t4, t5);
                            assert(decreases_to!(*old(stmt) => *else_stmts));
                        }
                        let res2 = self.analyze_block(else_stmts);
                        proof {
                            lemma_extends_trans(t0, t5, self.scope_table@);
                            assert(self.scope_table@[fs2 as int].parent == t5[fs2 as int].parent);
                        }
                        let else_sem = res2?;
                        self.exit_scope();
                        Some(else_sem)
                    },
                    None => None,
                };
                let c = crate::parser::expression::copy_expr(condition);
                let el = match else_label {
                    Some(l) => Some(copy_string(l)),
                    None => None,
                };
                Ok(Some(SemanticStatement::SemanticIf {
                    label: copy_string(label),
                    condition: c,
                    body: sem_body,
                    else_label: el,
                    else_body: sem_else_body,
                }))
            },
            _ => Err(internal_error(string_of("unexpected statement"), 0)),
        }
    }

    /// Analyzes a `while` statement.
    #[verifier::loop_isolation(false)]
    fn analyze_while(&mut self, stmt: &mut Statement) -> (r: Result<Option<SemanticStatement>, CompileError>)
        requires
            old(self).wf(),
            *old(stmt) is While,
        ensures
            final(self).wf(),
            extends_shape(old(self).scope_table@, final(self).scope_table@),
            final(self).statements == old(self).statements,
            old(self).warnings@.is_prefix_of(final(self).warnings@),
            final(self).current_symbol_id >= old(self).current_symbol_id,
            r is Ok ==> final(self).current_scope_id == old(self).current_scope_id,
            final(self).state() == stmt_step(old(self).state(), *old(stmt)).0,
            stmt_result(r) == stmt_step(old(self).state(), *old(stmt)).1,
        decreases *old(stmt), 1nat,
    {
        let ghost t0 = self.scope_table@;
        let ghost cs = self.current_scope_id as int;
        proof {
            lemma_extends_refl(t0);
            lemma_same_shape_refl(t0);
        }
        match stmt {
            Statement::While { body_label, body, cond_label, condition } => {
                self.analyze_expression(condition, 0);
                let ghost t1 = self.scope_table@;
                proof {
                    lemma_extends_of_same_shape(t0, t1);
                }
                let cur = self.current_scope_id;
                self.enter_scope(ScopeType::IfBody { parent: SymbolId(cur) })?;
                let ghost t2 = self.scope_table@;
                let ghost fs = self.current_scope_id;
                proof {
                    lemma_extends_push(t1, t2);
                    lemma_extends_trans(t0, t1, t2);
                    assert(decreases_to!(*old(stmt) => *body));
                }
                let res = self.analyze_block(body);
                proof {
                    lemma_extends_trans(t0, t2, self.scope_table@);
                    assert(self.scope_table@[fs as int].parent == t2[fs as int].parent);
                }
                let sem_body = res?;
                self.exit_scope();
                let c = crate::parser::expression::copy_expr(condition);
                Ok(Some(SemanticStatement::SemanticWhile {
                    body_label: copy_string(body_label),
                    body: sem_body,
                    cond_label: copy_string(cond_label),
                    condition: c,
                }))
            },
            _ => Err(internal_error(string_of("unexpected statement"), 0)),
        }
    }

    /// Analyzes a return, line break, assembly block, store through a pointer, or an unsupported form.
    #[verifier::loop_isolation(false)]
    fn analyze_simple(&mut self, stmt: &mut Statement) -> (r: Result<Option<SemanticStatement>, CompileError>)
        requires
            old(self).wf(),
            !(*old(stmt) is FunctionDecleration || *old(stmt) is FunctionCall || *old(stmt) is VariableDeclaration || *old(stmt) is Assign || *old(stmt) is If || *old(stmt) is While),
        ensures
            final(self).wf(),
            extends_shape(old(self).scope_table@, final(self).scope_table@),
            final(self).statements == old(self).statements,
            old(self).warnings@.is_prefix_of(final(self).warnings@),
            final(self).current_symbol_id >= old(self).current_symbol_id,
            r is Ok ==> final(self).current_scope_id == old(self).current_scope_id,
            final(self).state() == stmt_step(old(self).state(), *old(stmt)).0,
            stmt_result(r) == stmt_step(old(self).state(), *old(stmt)).1,
        decreases *old(stmt), 1nat,
    {
        let ghost t0 = self.scope_table@;
        proof {
            lemma_extends_refl(t0);
            lemma_same_shape_refl(t0);
        }
        match stmt {
            Statement::Return { return_value } => {
                match return_value {
                    Some(expr) => {
                        self.analyze_expression(expr, 0);
                    },
                    None => {},
                }
                proof {
                    lemma_extends_of_same_shape(t0, self.scope_table@);
                }
                let v = crate::parser::statement::copy_opt_expr(return_value);
                Ok(Some(SemanticStatement::SemanticReturn { value: v }))
            },
            Statement::NewLine => Ok(None),
            Statement::Assembly { body } => Ok(Some(SemanticStatement::SemanticAssembly { body: copy_strings(body) })),
            Statement::DerefAssign { target, value, line } => {
                self.analyze_expression(target, *line);
                let ghost t1 = self.scope_table@;
                self.analyze_expression(value, *line);
                proof {
                    lemma_same_shape_trans(t0, t1, self.scope_table@);
                    lemma_extends_of_same_shape(t0, self.scope_table@);
                }
                let tg = crate::parser::expression::copy_expr(target);
                let v = crate::parser::expression::copy_expr(value);
                Ok(Some(SemanticStatement::SemanticDerefAssign { target: tg, value: v, line: *line }))
            },
            Statement::LValueAssign { line, .. } => {
                Err(semantic_error(string_of("assignment to a field or element is not supported by semantic analysis"), *line))
            },
            Statement::StructDef { .. } => {
                Err(semantic_error(string_of("struct definitions are not supported by semantic analysis"), 0))
            },
            Statement::Block(_) => {
                Err(semantic_error(string_of("statement blocks are not supported by semantic analysis"), 0))
            },
            _ => Err(internal_error(string_of("unexpected statement"), 0)),
        }
    }

    /// The scope and index of the symbol `name` refers to from the current
    /// scope (see `lookup`).
    fn find_symbol(&self, name: &String) -> (r: Option<(usize, usize)>)
        requires
            self.wf(),
        ensures
            r matches Some((a, b)) ==> lookup(self.scope_table@, self.current_scope_id as int, name@) == Some((a as int, b as int)),
            r is None ==> lookup(self.scope_table@, self.current_scope_id as int, name@) is None,
            r matches Some((a, b)) ==> resolve_symbol(self.state().table, self.state().cur, name@) == Some((a as int, b as int)),
            r is None ==> resolve_symbol(self.state().table, self.state().cur, name@) is None,
    {
        proof {
            lemma_lookup_view(self.scope_table@, self.current_scope_id as int, name@);
        }
        let mut scope_id = self.current_scope_id;
        loop
            invariant
                self.wf(),
                scope_id < self.scope_table@.len(),
                lookup(self.scope_table@, self.current_scope_id as int, name@) == lookup(self.scope_table@, scope_id as int, name@),
            decreases scope_id,
        {
            let scope = &self.scope_table[scope_id];
            let mut i: usize = 0;
            while i < scope.symbols.len()
                invariant
                    self.wf(),
                    scope_id < self.scope_table@.len(),
                    *scope == self.scope_table@[scope_id as int],
                    lookup(self.scope_table@, self.current_scope_id as int, name@) == lookup(self.scope_table@, scope_id as int, name@),
                    i <= scope.symbols@.len(),
                    forall|k: int| 0 <= k < i ==> (#[trigger] scope.symbols@[k]).name@ != name@,
                decreases scope.symbols@.len() - i,
            {
                if scope.symbols[i].name.eq(name) {
                    proof {
                        lemma_find_in_first(scope.symbols@, name@, i as int);
                        assert(self.scope_table@[scope_id as int] == *scope);
                        lemma_lookup_view(self.scope_table@, self.current_scope_id as int, name@);
                    }
                    return Some((scope_id, i));
                }
                i += 1;
            }
            proof {
                lemma_find_in_first(scope.symbols@, name@, i as int);
                assert(self.scope_table@[scope_id as int] == *scope);
            }
            match scope.parent {
                Some(ScopeId(id)) => {
                    proof {
                        assert(0 <= id < scope_id);
                    }
                    scope_id = id as usize;
                },
                None => {
                    proof {
                        lemma_lookup_view(self.scope_table@, self.current_scope_id as int, name@);
                    }
                    return None;
                },
            }
        }
    }

    /// Declares `name` in the current scope with the next symbol number.
    fn insert_symbol(&mut self, name: &String, kind: SymbolKind, line: usize) -> (r: Result<SymbolId, CompileError>)
        requires
            old(self).wf(),
        ensures
            final(self).wf(),
            final(self).current_scope_id == old(self).current_scope_id,
            final(self).warnings@ == old(self).warnings@,
            final(self).statements == old(self).statements,
            r matches Ok(id) ==> {
                &&& id.0 == old(self).current_symbol_id
                &&& final(self).current_symbol_id == old(self).current_symbol_id + 1
                &&& final(self).scope_table@ == old(self).scope_table@.update(
                    old(self).current_scope_id as int,
                    Scope { symbols: final(self).scope_table@[old(self).current_scope_id as int].symbols, ..old(self).scope_table@[old(self).current_scope_id as int] },
                )
                &&& final(self).scope_table@[old(self).current_scope_id as int].symbols@ == old(self).scope_table@[old(self).current_scope_id as int].symbols@.push(
                    Symbol { name: *name, id, kind, declared_scope: ScopeId(old(self).current_scope_id as i32), line },
                )
            },
            r is Err ==> old(self).current_symbol_id == usize::MAX && final(self).scope_table@ == old(self).scope_table@
                && final(self).current_symbol_id == old(self).current_symbol_id,
            r is Ok <==> old(self).current_symbol_id != usize::MAX,
            r matches Err(e) ==> e@ == ErrV::Compiler("too many symbols"@, line),
            r is Ok ==> final(self).state() == declare(old(self).state(), name@, kind_view(kind), line),
    {
        if self.current_symbol_id == usize::MAX {
            return Err(internal_error(string_of("too many symbols"), line));
        }
        let id = SymbolId(self.current_symbol_id);
        self.current_symbol_id += 1;
        let cs = self.current_scope_id;
        let sym = Symbol { name: copy_string(name), id, kind, declared_scope: ScopeId(cs as i32), line };
        let ghost t0 = self.scope_table@;
        let mut scope = self.take_scope(cs);
        let ghost syms0 = scope.symbols@;
        scope.symbols.push(sym);
        self.put_scope(cs, scope);
        proof {
            assert(self.scope_table@ =~= t0.update(cs as int, scope));
            lemma_table_update(t0, cs as int, scope);
            lemma_syms_push(syms0, sym);
            let st = declare(old(self).state(), name@, kind_view(kind), line);
            assert(scope_view(scope) == st.table[cs as int]);
            assert(table_view(self.scope_table@) =~= st.table);
            assert forall|i: int, k: int|
                0 <= i < self.scope_table@.len() && 0 <= k < self.scope_table@[i].symbols@.len()
                    implies (#[trigger] self.scope_table@[i].symbols@[k]).id.0 < self.current_symbol_id by {
                if i != cs || k < old(self).scope_table@[i].symbols@.len() {
                    assert(self.scope_table@[i].symbols@[k] == old(self).scope_table@[i].symbols@[k]);
                }
            }
        }
        Ok(id)
    }

    /// Takes scope `i` out of the table, leaving an empty scope with the same
    /// number and parent in its place.
    fn take_scope(&mut self, i: usize) -> (r: Scope)
        requires
            i < old(self).scope_table@.len(),
        ensures
            r == old(self).scope_table@[i as int],
            final(self).scope_table@.len() == old(self).scope_table@.len(),
            forall|j: int| 0 <= j < old(self).scope_table@.len() && j != i ==> final(self).scope_table@[j] == old(self).scope_table@[j],
            final(self).scope_table@[i as int].scope_id == old(self).scope_table@[i as int].scope_id,
            final(self).scope_table@[i as int].parent == old(self).scope_table@[i as int].parent,
            final(self).scope_table@[i as int].symbols@.len() == 0,
            final(self).current_scope_id == old(self).current_scope_id,
            final(self).current_symbol_id == old(self).current_symbol_id,
            final(self).warnings@ == old(self).warnings@,
            final(self).statements == old(self).statements,
            final(self).body@ == old(self).body@,
    {
        let placeholder = Scope {
            scope_id: self.scope_table[i].scope_id,
            kind: ScopeType::Global,
            parent: self.scope_table[i].parent,
            symbols: Vec::new(),
        };
        let mut table = Vec::new();
        std::mem::swap(&mut table, &mut self.scope_table);
        let r = table.remove(i);
        table.insert(i, placeholder);
        std::mem::swap(&mut table, &mut self.scope_table);
        proof {
            assert forall|j: int| 0 <= j < old(self).scope_table@.len() && j != i implies self.scope_table@[j] == old(self).scope_table@[j] by {
            }
        }
        r
    }

    /// Puts a scope back at index `i`.
    fn put_scope(&mut self, i: usize, s: Scope)
        requires
            i < old(self).scope_table@.len(),
        ensures
            final(self).scope_table@ == old(self).scope_table@.update(i as int, s),
            final(self).current_scope_id == old(self).current_scope_id,
            final(self).current_symbol_id == old(self).current_symbol_id,
            final(self).warnings@ == old(self).warnings@,
            final(self).statements == old(self).statements,
            final(self).body@ == old(self).body@,
    {
        let mut table = Vec::new();
        std::mem::swap(&mut table, &mut self.scope_table);
        table.set(i, s);
        std::mem::swap(&mut table, &mut self.scope_table);
    }

    /// Opens a new scope of kind `kind` inside the current one and makes it
    /// current.
    fn enter_scope(&mut self, kind: ScopeType) -> (r: Result<usize, CompileError>)
        requires
            old(self).wf(),
        ensures
            final(self).wf(),
            final(self).warnings@ == old(self).warnings@,
            final(self).current_symbol_id == old(self).current_symbol_id,
            final(self).statements == old(self).statements,
            r matches Ok(id) ==> {
                &&& id == old(self).scope_table@.len()
                &&& final(self).current_scope_id == id
                &&& final(self).scope_table@ == old(self).scope_table@.push(Scope {
                    scope_id: ScopeId(id as i32),
                    kind,
                    parent: Some(ScopeId(old(self).current_scope_id as i32)),
                    symbols: final(self).scope_table@[id as int].symbols,
                })
                &&& final(self).scope_table@[id as int].symbols@.len() == 0
            },
            r is Err ==> final(self).scope_table@ == old(self).scope_table@ && final(self).current_scope_id == old(self).current_scope_id && old(self).scope_table@.len() + 1 >= 0x7fff_ffff,
            r is Ok <==> can_open(old(self).state()),
            r matches Err(e) ==> e@ == ErrV::Compiler("too many scopes"@, 0),
            r is Ok ==> final(self).state() == open_scope(old(self).state(), scope_kind_view(kind)),
    {
        let id = self.scope_table.len();
        if id + 1 >= 0x7fff_ffff {
            return Err(internal_error(string_of("too many scopes"), 0));
        }
        let ghost t0 = self.scope_table@;
        let sc = Scope {
            scope_id: ScopeId(id as i32),
            kind,
            parent: Some(ScopeId(self.current_scope_id as i32)),
            symbols: Vec::new(),
        };
        let ghost scg = sc;
        self.scope_table.push(sc);
        self.current_scope_id = id;
        proof {
            lemma_table_push(t0, scg);
            assert(syms_view(scg.symbols@) =~= Seq::<crate::semantic::model::SymV>::empty());
            assert(table_view(self.scope_table@) =~= open_scope(old(self).state(), scope_kind_view(kind)).table);
            assert forall|i: int, k: int|
                0 <= i < self.scope_table@.len() && 0 <= k < self.scope_table@[i].symbols@.len()
                    implies (#[trigger] self.scope_table@[i].symbols@[k]).id.0 < self.current_symbol_id by {
                assert(i < id);
                assert(self.scope_table@[i] == old(self).scope_table@[i]);
            }
            assert(forall|i: int| 0 <= i < id ==> #[trigger] self.scope_table@[i] == old(self).scope_table@[i]);
        }
        Ok(id)
    }

    /// Closes the current scope: warns about each variable declared in it
    /// that was never initialized, and returns to its parent scope.
    fn exit_scope(&mut self)
        requires
            old(self).wf(),
        ensures
            final(self).wf(),
            final(self).scope_table@ == old(self).scope_table@,
            final(self).current_symbol_id == old(self).current_symbol_id,
            final(self).statements == old(self).statements,
            old(self).warnings@.is_prefix_of(final(self).warnings@),
            forall|i: int| old(self).warnings@.len() <= i < final(self).warnings@.len()
                ==> (#[trigger] final(self).warnings@[i]).warning_type == WarningType::UninitializedVariable,
            final(self).current_scope_id == (match old(self).scope_table@[old(self).current_scope_id as int].parent {
                Some(p) => p.0 as usize,
                None => 0usize,
            }),
            final(self).state() == close_scope(old(self).state()),
    {
        let cs = self.current_scope_id;
        let n = self.scope_table[cs].symbols.len();
        let mut i: usize = 0;
        while i < n
            invariant
                self.wf(),
                cs == self.current_scope_id,
                n == self.scope_table@[cs as int].symbols@.len(),
                i <= n,
                self.scope_table@ == old(self).scope_table@,
                self.current_symbol_id == old(self).current_symbol_id,
                self.current_scope_id == old(self).current_scope_id,
                self.statements == old(self).statements,
                old(self).warnings@.is_prefix_of(self.warnings@),
                forall|j: int| old(self).warnings@.len() <= j < self.warnings@.len()
                    ==> (#[trigger] self.warnings@[j]).warning_type == WarningType::UninitializedVariable,
                warns_view(self.warnings@) == warns_view(old(self).warnings@) + uninit_warnings(
                    syms_view(self.scope_table@[cs as int].symbols@).take(i as int),
                ),
            decreases n - i,
        {
            let ghost sv = syms_view(self.scope_table@[cs as int].symbols@);
            proof {
                assert(sv.take(i + 1).drop_last() =~= sv.take(i as int));
                assert(sv.take(i + 1).last() == sym_view(self.scope_table@[cs as int].symbols@[i as int]));
            }
            let uninit = match &self.scope_table[cs].symbols[i].kind {
                SymbolKind::Variable { state, .. } => *state == State::Uninitialized,
                _ => false,
            };
            if uninit {
                let name = copy_string(&self.scope_table[cs].symbols[i].name);
                let message = WarningType::UninitializedVariable.get_message(copy_string(&name));
                let ghost before = self.warnings@;
                let ghost w = SemanticWarning { warning_type: WarningType::UninitializedVariable, name, message, line: 0 };
                self.warnings.push(SemanticWarning {
                    warning_type: WarningType::UninitializedVariable,
                    name,
                    message,
                    line: 0,
                });
                proof {
                    assert(before.is_prefix_of(self.warnings@));
                    lemma_warns_push(before, w);
                }
            }
            i += 1;
        }
        let parent = match &self.scope_table[cs].parent {
            Some(ScopeId(id)) => *id as usize,
            None => 0,
        };
        self.current_scope_id = parent;
        proof {
            assert(syms_view(self.scope_table@[cs as int].symbols@).take(n as int) =~= syms_view(self.scope_table@[cs as int].symbols@));
            assert(self.scope_table@[cs as int].scope_id.0 == cs);
        }
    }

    /// Sets the state of variable `i` of scope `si`.
    fn set_variable_state(&mut self, si: usize, i: usize, state: State)
        requires
            old(self).wf(),
            si < old(self).scope_table@.len(),
            i < old(self).scope_table@[si as int].symbols@.len(),
        ensures
            final(self).wf(),
            same_shape(old(self).scope_table@, final(self).scope_table@),
            final(self).current_scope_id == old(self).current_scope_id,
            final(self).current_symbol_id == old(self).current_symbol_id,
            final(self).warnings@ == old(self).warnings@,
            final(self).statements == old(self).statements,
            final(self).state() == set_state(old(self).state(), si as int, i as int, state),
    {
        let ghost taken = self.scope_table@[si as int];
        let mut scope = self.take_scope(si);
        let mut syms: Vec<Symbol> = Vec::new();
        std::mem::swap(&mut syms, &mut scope.symbols);
        let ghost old_syms = syms@;
        let sym = syms.remove(i);
        let kind = match sym.kind {
            SymbolKind::Variable { var_type, .. } => SymbolKind::Variable { var_type, state },
            k => k,
        };
        let new_sym = Symbol { name: sym.name, id: sym.id, kind, declared_scope: sym.declared_scope, line: sym.line };
        syms.insert(i, new_sym);
        std::mem::swap(&mut syms, &mut scope.symbols);
        self.put_scope(si, scope);
        proof {
            let a = old(self).scope_table@;
            let b = self.scope_table@;
            assert(b[si as int].symbols@ == old_syms.update(i as int, new_sym));
            assert forall|j: int| #![trigger a[j], b[j]] 0 <= j < a.len() implies {
                &&& a[j].scope_id == b[j].scope_id
                &&& a[j].parent == b[j].parent
                &&& a[j].symbols@.len() == b[j].symbols@.len()
                &&& forall|k: int| 0 <= k < a[j].symbols@.len() ==> same_sym_shape(#[trigger] a[j].symbols@[k], b[j].symbols@[k])
            } by {
                assert forall|k: int| 0 <= k < a[j].symbols@.len() implies same_sym_shape(#[trigger] a[j].symbols@[k], b[j].symbols@[k]) by {
                    let x = a[j].symbols@[k];
                    match x.kind {
                        SymbolKind::Function { .. } => {},
                        SymbolKind::Variable { .. } => {},
                    }
                }
            }
            assert forall|j: int, k: int|
                0 <= j < b.len() && 0 <= k < b[j].symbols@.len()
                    implies (#[trigger] b[j].symbols@[k]).id.0 < self.current_symbol_id by {
                assert(same_sym_shape(a[j].symbols@[k], b[j].symbols@[k]));
            }
            assert(b =~= a.update(si as int, scope));
            lemma_table_update(a, si as int, scope);
            lemma_syms_update(old_syms, i as int, new_sym);
            assert(old_syms == taken.symbols@);
            let st = set_state(old(self).state(), si as int, i as int, state);
            assert(scope_view(scope) == st.table[si as int]);
            assert(table_view(b) =~= st.table);
        }
    }

    /// Analyzes each argument expression.
    fn analyze_args(&mut self, args: &mut Vec<Expression>, line: usize)
        requires
            old(self).wf(),
        ensures
            final(self).wf(),
            same_shape(old(self).scope_table@, final(self).scope_table@),
            final(self).current_scope_id == old(self).current_scope_id,
            final(self).current_symbol_id == old(self).current_symbol_id,
            final(self).statements == old(self).statements,
            old(self).warnings@.is_prefix_of(final(self).warnings@),
            final(self).state() == args_step(old(self).state(), exprs_view(old(args)@), line).0,
            exprs_view(final(args)@) == args_step(old(self).state(), exprs_view(old(args)@), line).1,
        decreases old(args)@, 0nat,
    {
        let ghost t0 = self.scope_table@;
        let ghost cs = self.current_scope_id as int;
        let ghost v0 = exprs_view(args@);
        proof {
            lemma_exprs_view_index(args@);
            lemma_same_shape_refl(t0);
        }
        let mut i: usize = 0;
        while i < args.len()
            invariant
                self.wf(),
                same_shape(t0, self.scope_table@),
                self.current_scope_id == cs,
                self.current_symbol_id == old(self).current_symbol_id,
                self.statements == old(self).statements,
                old(self).warnings@.is_prefix_of(self.warnings@),
                t0 == old(self).scope_table@,
                cs == old(self).current_scope_id,
                v0 == exprs_view(old(args)@),
                v0.len() == old(args)@.len(),
                args@.len() == old(args)@.len(),
                i <= args@.len(),
                forall|k: int| 0 <= k < old(args)@.len() ==> v0[k] == expr_view(#[trigger] old(args)@[k]),
                forall|k: int| i <= k < args@.len() ==> #[trigger] args@[k] == old(args)@[k],
                args_step(old(self).state(), v0.take(i as int), line) == (self.state(), exprs_view(args@.take(i as int))),
            decreases args@.len() - i,
        {
            let ghost t1 = self.scope_table@;
            let ghost before = args@;
            proof {
                assert(decreases_to!(old(args)@ => old(args)@[i as int]));
            }
            self.analyze_expression(&mut args[i], line);
            proof {
                lemma_same_shape_trans(t0, t1, self.scope_table@);
                assert forall|k: int| i + 1 <= k < args@.len() implies #[trigger] args@[k] == old(args)@[k] by {
                    assert(args@[k] == before[k]);
                }
                assert(v0.take(i + 1).drop_last() =~= v0.take(i as int));
                assert(v0.take(i + 1).last() == v0[i as int]);
                assert(args@.take(i + 1).drop_last() =~= before.take(i as int));
                assert(exprs_view(args@.take(i + 1)) == exprs_view(before.take(i as int)).push(expr_view(args@[i as int])));
            }
            i += 1;
        }
        proof {
            assert(v0.take(args@.len() as int) =~= v0);
            assert(args@.take(args@.len() as int) =~= args@);
        }
    }

    /// Analyzes an expression: checks names and calls, warns about
    /// uninitialized variables, unknown functions, argument counts and
    /// operand types, marks read variables as used, and records each known
    /// callee's return type on its call.
    #[verifier::spinoff_prover]
    #[verifier::rlimit(40)]
    fn analyze_expression(&mut self, expr: &mut Expression, line: usize)
        requires
            old(self).wf(),
        ensures
            final(self).wf(),
            same_shape(old(self).scope_table@, final(self).scope_table@),
            final(self).current_scope_id == old(self).current_scope_id,
            final(self).current_symbol_id == old(self).current_symbol_id,
            final(self).statements == old(self).statements,
            old(self).warnings@.is_prefix_of(final(self).warnings@),
            final(self).state() == expr_step(old(self).state(), old(expr)@, line).0,
            final(expr)@ == expr_step(old(self).state(), old(expr)@, line).1,
        decreases *old(expr), 1nat,
    {
        let ghost t0 = self.scope_table@;
        let ghost cs = self.current_scope_id as int;
        proof {
            lemma_same_shape_refl(t0);
        }
        match expr {
            Expression::Identifier(name) => {
                proof {
                    assert(old(expr)@ == ExprV::Identifier(name@));
                }
                match self.find_symbol(name) {
                    None => {},
                    Some((si, i)) => {
                        proof {
                            lemma_lookup_found(self.scope_table@, cs, name@);
                            assert(self.state().table[si as int].symbols[i as int] == sym_view(self.scope_table@[si as int].symbols@[i as int]));
                        }
                        let (is_var, is_uninit) = match &self.scope_table[si].symbols[i].kind {
                            SymbolKind::Variable { state, .. } => (true, *state == State::Uninitialized),
                            _ => (false, false),
                        };
                        if is_var {
                            if is_uninit {
                                let msg = WarningType::UninitializedVariable.get_message(copy_string(name));
                                self.push_warning(WarningType::UninitializedVariable, copy_string(name), msg, line);
                            } else {
                                self.set_variable_state(si, i, State::Used);
                            }
                        }
                    },
                }
            },
            Expression::FunctionCall { return_type, name, args } => {
                proof {
                    assert(old(expr)@ == ExprV::FunctionCall { return_type: *return_type, name: name@, args: exprs_view(args@) });
                }
                let found = self.find_symbol(name);
                match found {
                    None => {
                        let mut m = string_of("call to undeclared function '");
                        push_str(&mut m, name.as_str());
                        push_str(&mut m, "'");
                        self.push_warning(WarningType::UndeclaredFunction, copy_string(name), m, line);
                        return;
                    },
                    Some((si, i)) => {
                        proof {
                            lemma_lookup_found(self.scope_table@, cs, name@);
                            assert(self.state().table[si as int].symbols[i as int] == sym_view(self.scope_table@[si as int].symbols@[i as int]));
                        }
                        let (is_fn, expected, resolved) = match &self.scope_table[si].symbols[i].kind {
                            SymbolKind::Function { params, return_type } => (true, params.len(), copy_type(return_type)),
                            _ => (false, 0, Type::Void),
                        };
                        if !is_fn {
                            let mut m = string_of("'");
                            push_str(&mut m, name.as_str());
                            push_str(&mut m, "' is not a function");
                            self.push_warning(WarningType::TypeMismatch, copy_string(name), m, line);
                            return;
                        }
                        if args.len() != expected {
                            let mut m = string_of("'");
                            push_str(&mut m, name.as_str());
                            push_str(&mut m, "' expects ");
                            push_decimal(&mut m, expected);
                            push_str(&mut m, " args, got ");
                            push_decimal(&mut m, args.len());
                            self.push_warning(WarningType::TypeMismatch, copy_string(name), m, line);
                        }
                        proof {
                            assert(decreases_to!(*old(expr) => *args));
                            assert(exprs_view(args@) == exprs_view(old(expr)->FunctionCall_args@));
                            lemma_exprs_view_index(args@);
                            let st0 = old(self).state();
                            assert(st0.table[si as int].symbols[i as int].kind matches crate::semantic::model::KindV::Function { params, .. } && params.len() == expected);
                            let m = crate::semantic::model::arg_count_message(name@, expected as nat, args@.len());
                            assert(self.state() == (if args@.len() != expected { warn(st0, WarningType::TypeMismatch, name@, m, line) } else { st0 }));
                        }
                        let ghost t1 = self.scope_table@;
                        self.analyze_args(args, line);

                        *return_type = Some(resolved);
                    },
                }
            },
            Expression::BinaryOperation { op, left, right } => {
                self.analyze_expression(left, line);
                let ghost t2 = self.scope_table@;
                self.analyze_expression(right, line);
                proof {
                    lemma_same_shape_trans(t0, t2, self.scope_table@);
                }
                let left_type = self.resolve_type(left);
                let right_type = self.resolve_type(right);
                let o = *op;
                let comparison = o == BinaryOperator::Eq || o == BinaryOperator::NotEq || o == BinaryOperator::Lt
                    || o == BinaryOperator::Gt || o == BinaryOperator::LtEq || o == BinaryOperator::GtEq;
                let logical = o == BinaryOperator::And || o == BinaryOperator::Or;
                let arithmetic = o == BinaryOperator::Add || o == BinaryOperator::Sub || o == BinaryOperator::Mul
                    || o == BinaryOperator::Div;
                if logical {
                    if !is_bool(&left_type) || !is_bool(&right_type) {
                        self.push_warning(
                            WarningType::TypeMismatch,
                            string_of("logical operators require bool operands"),
                            string_of("logical operators require bool operands"),
                            line,
                        );
                    }
                } else if arithmetic {
                    if is_bool(&left_type) || is_bool(&right_type) {
                        let msg = WarningType::TypeMismatch.get_message(string_of("bool cannot be used in arithmetic expression"));
                        self.push_warning(
                            WarningType::TypeMismatch,
                            string_of("bool cannot be used in arithmetic expression"),
                            msg,
                            line,
                        );
                    }
                    if let (Some(lt), Some(rt)) = (&left_type, &right_type) {
                        if !type_eq(lt, rt) {
                            let mut m = string_of("type mismatch in expression: ");
                            let a = lt.debug_text();
                            push_str(&mut m, a.as_str());
                            push_str(&mut m, " and ");
                            let b = rt.debug_text();
                            push_str(&mut m, b.as_str());
                            self.push_warning(WarningType::TypeMismatch, copy_string(&m), m, line);
                        }
                    }
                }
                if comparison {
                    if let (Some(lt), Some(rt)) = (&left_type, &right_type) {
                        if !type_eq(lt, rt) {
                            let mut m = string_of("cannot compare ");
                            let a = lt.debug_text();
                            push_str(&mut m, a.as_str());
                            push_str(&mut m, " and ");
                            let b = rt.debug_text();
                            push_str(&mut m, b.as_str());
                            self.push_warning(WarningType::TypeMismatch, copy_string(&m), m, line);
                        }
                    }
                }
            },
            Expression::UnaryOperation { op, operand } => {
                self.analyze_expression(operand, line);
                let operand_type = self.resolve_type(operand);
                if *op == UnaryOperator::Not {
                    if !is_bool(&operand_type) {
                        self.push_warning(
                            WarningType::TypeMismatch,
                            string_of("not operator requires bool operand"),
                            string_of("not operator requires bool operand"),
                            line,
                        );
                    }
                }
            },
            _ => {},
        }
    }

    /// Records a warning.
    fn push_warning(&mut self, warning_type: WarningType, name: String, message: String, line: usize)
        ensures
            final(self).state() == warn(old(self).state(), warning_type, name@, message@, line),
            final(self).warnings@ == old(self).warnings@.push(SemanticWarning { warning_type, name, message, line }),
            final(self).scope_table@ == old(self).scope_table@,
            final(self).current_scope_id == old(self).current_scope_id,
            final(self).current_symbol_id == old(self).current_symbol_id,
            final(self).statements == old(self).statements,
            final(self).body@ == old(self).body@,
    {
        let ghost w = SemanticWarning { warning_type, name, message, line };
        self.warnings.push(SemanticWarning { warning_type, name, message, line });
        proof {
            lemma_warns_push(old(self).warnings@, w);
        }
    }

    /// The type of an expression, as `resolve` describes it.
    fn resolve_type(&self, expr: &Expression) -> (r: Option<Type>)
        requires
            self.wf(),
        ensures
            r == type_of(self.state().table, self.state().cur, expr@),
        decreases expr,
    {
        match expr {
            Expression::Integer(_) => Some(Type::Int32),
            Expression::Bool(_) => Some(Type::Bool),
            Expression::Identifier(name) => {
                match self.find_symbol(name) {
                    Some((si, i)) => {
                        proof {
                            lemma_lookup_found(self.scope_table@, self.current_scope_id as int, name@);
                            assert(self.state().table[si as int].symbols[i as int] == sym_view(self.scope_table@[si as int].symbols@[i as int]));
                        }
                        match &self.scope_table[si].symbols[i].kind {
                            SymbolKind::Variable { var_type, .. } => Some(copy_type(var_type)),
                            SymbolKind::Function { return_type, .. } => Some(copy_type(return_type)),
                        }
                    },
                    None => None,
                }
            },
            Expression::UnaryOperation { op, .. } => {
                if *op == UnaryOperator::Not {
                    Some(Type::Bool)
                } else {
                    None
                }
            },
            Expression::BinaryOperation { op, left, .. } => {
                let o = *op;
                if o == BinaryOperator::Eq || o == BinaryOperator::NotEq || o == BinaryOperator::Lt
                    || o == BinaryOperator::Gt || o == BinaryOperator::LtEq || o == BinaryOperator::GtEq
                    || o == BinaryOperator::And || o == BinaryOperator::Or {
                    Some(Type::Bool)
                } else {
                    self.resolve_type(left)
                }
            },
            Expression::FunctionCall { return_type, .. } => match return_type {
                Some(t) => Some(copy_type(t)),
                None => None,
            },
            _ => None,
        }
    }
}

} // verus!
