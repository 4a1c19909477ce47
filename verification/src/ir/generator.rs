//! A first, simple translation to intermediate representation: every value
//! goes through temporary 0, the left operand of a binary operation is kept
//! in temporary 1, and every function of the program is translated.
use vstd::prelude::*;
use crate::ir::instruction::{spec_ir_type, IrFunction, IrInstruction, IrReg, IrType, IrValue};
use crate::ir::ir_generator::fn_view;
use crate::ir::program::IrProgram;
use crate::parser::expression::Expression;
use crate::semantic::program::SemanticProgram;
use crate::semantic::scope::{find_by_id, find_symbol_by_id, lemma_find_id_from, Scope};
use crate::semantic::statement::SemanticStatement;
use crate::semantic::symbol::{Symbol, SymbolKind};
use crate::util::error::CompileError;
use crate::util::text::{copy_string, string_of};

verus! {

// ---------------------------------------------------------------------------
// Meaning

/// The index of the first symbol named `name` in `syms`.
pub open spec fn first_named(syms: Seq<Symbol>, name: Seq<char>) -> Option<int>
    decreases syms.len(),
{
    if syms.len() == 0 {
        None
    } else if syms[0].name@ == name {
        Some(0)
    } else {
        match first_named(syms.skip(1), name) {
            Some(i) => Some(i + 1),
            None => None,
        }
    }
}

/// The scope and index of the first symbol named `name`, scanning scopes
/// from `from` on in table order, whatever scope it belongs to.
pub open spec fn find_name_from(t: Seq<Scope>, name: Seq<char>, from: int) -> Option<(int, int)>
    decreases t.len() - from,
{
    if from < 0 || from >= t.len() {
        None
    } else {
        match first_named(t[from].symbols@, name) {
            Some(i) => Some((from, i)),
            None => find_name_from(t, name, from + 1),
        }
    }
}

/// The code of an expression, whose value ends in temporary 0: literals,
/// variables (the first symbol of that name in the whole table), and binary
/// operations, whose left value is copied to temporary 1 before the right
/// one is computed. `None` for other forms and for names that are not
/// variables.
pub open spec fn simple_expr(t: Seq<Scope>, e: Expression) -> Option<Seq<IrInstruction>>
    decreases e,
{
    match e {
        Expression::Integer(n) => Some(seq![IrInstruction::StoreImm { dest: IrReg::Temp(0), value: IrValue::Immediate(n) }]),
        Expression::Bool(b) => Some(seq![IrInstruction::StoreImm {
            dest: IrReg::Temp(0),
            value: IrValue::Immediate(if b { 1 } else { 0 }),
        }]),
        Expression::Identifier(name) => match find_name_from(t, name@, 0) {
            Some((si, i)) => match t[si].symbols@[i].kind {
                SymbolKind::Variable { var_type, .. } => Some(seq![IrInstruction::LoadStack {
                    ir_type: spec_ir_type(var_type),
                    dest: IrReg::Temp(0),
                    symbol: t[si].symbols@[i].id,
                }]),
                _ => None,
            },
            None => None,
        },
        Expression::BinaryOperation { left, right, .. } => match (simple_expr(t, *left), simple_expr(t, *right)) {
            (Some(l), Some(r)) => Some(l + seq![IrInstruction::StoreImm {
                dest: IrReg::Temp(1),
                value: IrValue::Reg(IrReg::Temp(0)),
            }] + r),
            _ => None,
        },
        _ => None,
    }
}

/// The code of a statement: the stack allocations it adds and its
/// instructions. Declarations and assignments of variables store the value
/// from temporary 0, returns move it to the return register; other
/// statements produce nothing.
pub open spec fn simple_stmt(t: Seq<Scope>, stmt: SemanticStatement) -> Option<(Seq<IrInstruction>, Seq<IrInstruction>)> {
    match stmt {
        SemanticStatement::SemanticVarDecl { symbol, initializer } => match find_by_id(t, symbol.0) {
            Some((si, i)) => match t[si].symbols@[i].kind {
                SymbolKind::Variable { var_type, .. } => {
                    let alloc = seq![IrInstruction::Alloc { ir_type: spec_ir_type(var_type), symbol }];
                    match initializer {
                        Some(e) => match simple_expr(t, e) {
                            Some(code) => Some((alloc, code.push(IrInstruction::StoreStack {
                                ir_type: spec_ir_type(var_type),
                                symbol,
                                src: IrReg::Temp(0),
                            }))),
                            None => None,
                        },
                        None => Some((alloc, Seq::empty())),
                    }
                },
                _ => Some((Seq::empty(), Seq::empty())),
            },
            None => None,
        },
        SemanticStatement::SemanticAssign { symbol, value } => match find_by_id(t, symbol.0) {
            Some((si, i)) => match t[si].symbols@[i].kind {
                SymbolKind::Variable { var_type, .. } => match simple_expr(t, value) {
                    Some(code) => Some((Seq::empty(), code.push(IrInstruction::StoreStack {
                        ir_type: spec_ir_type(var_type),
                        symbol,
                        src: IrReg::Temp(0),
                    }))),
                    None => None,
                },
                _ => Some((Seq::empty(), Seq::empty())),
            },
            None => None,
        },
        SemanticStatement::SemanticReturn { value } => match value {
            Some(e) => match simple_expr(t, e) {
                Some(code) => Some((Seq::empty(), code + seq![
                    IrInstruction::StoreImm { dest: IrReg::RetVal, value: IrValue::Reg(IrReg::Temp(0)) },
                    IrInstruction::Ret,
                ])),
                None => None,
            },
            None => Some((Seq::empty(), seq![IrInstruction::Ret])),
        },
        _ => Some((Seq::empty(), Seq::empty())),
    }
}

/// The code of the first `n` statements of a body.
pub open spec fn simple_block(t: Seq<Scope>, stmts: Seq<SemanticStatement>, n: nat) -> Option<(Seq<IrInstruction>, Seq<IrInstruction>)>
    decreases n,
{
    if n == 0 || n > stmts.len() {
        if n == 0 { Some((Seq::empty(), Seq::empty())) } else { None }
    } else {
        match simple_block(t, stmts, (n - 1) as nat) {
            Some((a1, r1)) => match simple_stmt(t, stmts[n - 1]) {
                Some((a2, r2)) => Some((a1 + a2, r1 + r2)),
                None => None,
            },
            None => None,
        }
    }
}

/// Whether some instruction is a call.
pub open spec fn calls_somewhere(code: Seq<IrInstruction>) -> bool {
    exists|i: int| 0 <= i < code.len() && (#[trigger] code[i]) is Call
}

/// The translation of a function: its name as its symbol records it, its
/// return type, and the allocations, a save of the return address if the
/// body calls, and the body's code.
pub open spec fn simple_function(t: Seq<Scope>, stmt: SemanticStatement) -> Option<(String, IrType, Seq<IrInstruction>)> {
    match stmt {
        SemanticStatement::SemanticFunction { symbol, return_type, body, .. } => match find_by_id(t, symbol.0) {
            Some((si, i)) => match simple_block(t, body@, body@.len()) {
                Some((a, r)) => Some((
                    t[si].symbols@[i].name,
                    spec_ir_type(return_type),
                    a + if calls_somewhere(r) { seq![IrInstruction::SaveRa] } else { Seq::empty() } + r,
                )),
                None => None,
            },
            None => None,
        },
        _ => None,
    }
}

/// The translations of the functions among the first `n` top-level
/// statements, in order.
pub open spec fn simple_functions(t: Seq<Scope>, stmts: Seq<SemanticStatement>, n: nat) -> Option<Seq<(String, IrType, Seq<IrInstruction>)>>
    decreases n,
{
    if n == 0 || n > stmts.len() {
        if n == 0 { Some(Seq::empty()) } else { None }
    } else {
        match simple_functions(t, stmts, (n - 1) as nat) {
            Some(fs) => if stmts[n - 1] is SemanticFunction {
                match simple_function(t, stmts[n - 1]) {
                    Some(f) => Some(fs.push(f)),
                    None => None,
                }
            } else {
                Some(fs)
            },
            None => None,
        }
    }
}

// ---------------------------------------------------------------------------
// Translation

/// The error for a program this translation cannot handle.
fn unsupported(what: &str) -> (e: CompileError)
    ensures
        e is CompilerError,
{
    CompileError::CompilerError { message: string_of(what), line: 0 }
}

/// Translates an analyzed program with the simple scheme.
pub struct IrGenerator {
    program: SemanticProgram,
}

impl IrGenerator {
    /// The program being translated.
    pub closed spec fn source(&self) -> SemanticProgram {
        self.program
    }

    /// A generator over `program`.
    pub fn new(program: SemanticProgram) -> (r: Self)
        ensures
            r.source() == program,
    {
        IrGenerator { program }
    }

    /// The first symbol named `name` in the whole table (see `find_name_from`).
    fn find_named(&self, name: &String) -> (r: Option<(usize, usize)>)
        ensures
            r matches Some((a, b)) ==> find_name_from(self.program.scope_table@, name@, 0) == Some((a as int, b as int))
                && a < self.program.scope_table@.len() && b < self.program.scope_table@[a as int].symbols@.len(),
            r is None ==> find_name_from(self.program.scope_table@, name@, 0) is None,
    {
        let ghost t = self.program.scope_table@;
        let mut si: usize = 0;
        while si < self.program.scope_table.len()
            invariant
                t == self.program.scope_table@,
                si <= t.len(),
                find_name_from(t, name@, 0) == find_name_from(t, name@, si as int),
            decreases t.len() - si,
        {
            let scope = &self.program.scope_table[si];
            let mut i: usize = 0;
            while i < scope.symbols.len()
                invariant
                    t == self.program.scope_table@,
                    si < t.len(),
                    *scope == t[si as int],
                    find_name_from(t, name@, 0) == find_name_from(t, name@, si as int),
                    i <= scope.symbols@.len(),
                    forall|k: int| 0 <= k < i ==> (#[trigger] scope.symbols@[k]).name@ != name@,
                decreases scope.symbols@.len() - i,
            {
                if scope.symbols[i].name.eq(name) {
                    proof {
                        lemma_first_named(scope.symbols@, name@, i as int);
                    }
                    return Some((si, i));
                }
                i += 1;
            }
            proof {
                lemma_first_named(scope.symbols@, name@, i as int);
            }
            si += 1;
        }
        None
    }

    /// The code of an expression (see `simple_expr`).
    fn emit_expression(&self, expr: &Expression) -> (r: Result<(IrReg, Vec<IrInstruction>), CompileError>)
        ensures
            match simple_expr(self.program.scope_table@, *expr) {
                Some(code) => r matches Ok((reg, v)) && reg == IrReg::Temp(0) && v@ =~= code,
                None => r is Err,
            },
        decreases expr,
    {
        let mut code = Vec::new();
        match expr {
            Expression::Integer(n) => {
                code.push(IrInstruction::StoreImm { dest: IrReg::Temp(0), value: IrValue::Immediate(*n) });
            },
            Expression::Bool(b) => {
                code.push(IrInstruction::StoreImm { dest: IrReg::Temp(0), value: IrValue::Immediate(if *b { 1 } else { 0 }) });
            },
            Expression::Identifier(name) => {
                let (si, i) = match self.find_named(name) {
                    Some(p) => p,
                    None => {
                        return Err(unsupported("unknown name"));
                    },
                };
                let sym = &self.program.scope_table[si].symbols[i];
                match &sym.kind {
                    SymbolKind::Variable { var_type, .. } => {
                        code.push(IrInstruction::LoadStack { ir_type: IrType::from(var_type), dest: IrReg::Temp(0), symbol: sym.id });
                    },
                    _ => {
                        return Err(unsupported("expected a variable"));
                    },
                }
            },
            Expression::BinaryOperation { left, right, .. } => {
                let (_, mut lcode) = self.emit_expression(left)?;
                let (_, mut rcode) = self.emit_expression(right)?;
                code.append(&mut lcode);
                code.push(IrInstruction::StoreImm { dest: IrReg::Temp(1), value: IrValue::Reg(IrReg::Temp(0)) });
                code.append(&mut rcode);
            },
            _ => {
                return Err(unsupported("expression form"));
            },
        }
        Ok((IrReg::Temp(0), code))
    }

    /// The type and symbol of variable `id` if it is a variable, `None` if
    /// it names a function, an error if it is unknown.
    fn variable_type(&self, id: usize) -> (r: Result<Option<IrType>, CompileError>)
        ensures
            match find_by_id(self.program.scope_table@, id) {
                Some((si, i)) => r matches Ok(o) && match self.program.scope_table@[si].symbols@[i].kind {
                    SymbolKind::Variable { var_type, .. } => o == Some(spec_ir_type(var_type)),
                    _ => o is None,
                },
                None => r is Err,
            },
    {
        match find_symbol_by_id(&self.program.scope_table, id) {
            None => Err(unsupported("unknown symbol")),
            Some((si, i)) => {
                proof {
                    lemma_find_id_from(self.program.scope_table@, id, 0);
                }
                match &self.program.scope_table[si].symbols[i].kind {
                    SymbolKind::Variable { var_type, .. } => Ok(Some(IrType::from(var_type))),
                    _ => Ok(None),
                }
            },
        }
    }

    /// Appends the code of a statement (see `simple_stmt`).
    fn emit_statement(&mut self, stmt: &SemanticStatement, allocs: &mut Vec<IrInstruction>, rest: &mut Vec<IrInstruction>) -> (r: Result<(), CompileError>)
        ensures
            final(self).program == old(self).program,
            match simple_stmt(old(self).program.scope_table@, *stmt) {
                Some((a, c)) => r is Ok && final(allocs)@ =~= old(allocs)@ + a && final(rest)@ =~= old(rest)@ + c,
                None => r is Err,
            },
    {
        match stmt {
            SemanticStatement::SemanticVarDecl { symbol, initializer } => {
                if let Some(irt) = self.variable_type(symbol.0)? {
                    allocs.push(IrInstruction::Alloc { ir_type: irt, symbol: *symbol });
                    if let Some(e) = initializer {
                        let (reg, mut code) = self.emit_expression(e)?;
                        rest.append(&mut code);
                        rest.push(IrInstruction::StoreStack { ir_type: irt, symbol: *symbol, src: reg });
                    }
                }
                Ok(())
            },
            SemanticStatement::SemanticAssign { symbol, value } => {
                if let Some(irt) = self.variable_type(symbol.0)? {
                    let (reg, mut code) = self.emit_expression(value)?;
                    rest.append(&mut code);
                    rest.push(IrInstruction::StoreStack { ir_type: irt, symbol: *symbol, src: reg });
                }
                Ok(())
            },
            SemanticStatement::SemanticReturn { value } => {
                if let Some(e) = value {
                    let (reg, mut code) = self.emit_expression(e)?;
                    rest.append(&mut code);
                    rest.push(IrInstruction::StoreImm { dest: IrReg::RetVal, value: IrValue::Reg(reg) });
                }
                rest.push(IrInstruction::Ret);
                Ok(())
            },
            _ => Ok(()),
        }
    }

    /// The translation of a function (see `simple_function`).
    #[verifier::loop_isolation(false)]
    fn emit_function(&mut self, stmt: &SemanticStatement) -> (r: Result<IrFunction, CompileError>)
        ensures
            final(self).program == old(self).program,
            match simple_function(old(self).program.scope_table@, *stmt) {
                Some(f) => r matches Ok(x) && fn_view(x) == f,
                None => r is Err,
            },
    {
        match stmt {
            SemanticStatement::SemanticFunction { symbol, return_type, body, .. } => {
                let name = match find_symbol_by_id(&self.program.scope_table, symbol.0) {
                    Some((si, i)) => {
                        proof {
                            lemma_find_id_from(self.program.scope_table@, symbol.0, 0);
                        }
                        copy_string(&self.program.scope_table[si].symbols[i].name)
                    },
                    None => {
                        return Err(unsupported("function without a symbol"));
                    },
                };
                let ir_return_type = IrType::from(return_type);
                let ghost t = self.program.scope_table@;
                let mut allocs: Vec<IrInstruction> = Vec::new();
                let mut rest: Vec<IrInstruction> = Vec::new();
                let mut k: usize = 0;
                while k < body.len()
                    invariant
                        self.program == old(self).program,
                        t == self.program.scope_table@,
                        k <= body@.len(),
                        simple_block(t, body@, k as nat) matches Some((a, c)) && allocs@ =~= a && rest@ =~= c,
                    decreases body@.len() - k,
                {
                    let res = self.emit_statement(&body[k], &mut allocs, &mut rest);
                    if res.is_err() {
                        proof {
                            lemma_simple_block_fail(t, body@, (k + 1) as nat, body@.len());
                        }
                        return Err(unsupported("statement that cannot be translated"));
                    }
                    k += 1;
                }
                let mut needs_ra = false;
                let mut j: usize = 0;
                while j < rest.len()
                    invariant
                        j <= rest@.len(),
                        needs_ra == exists|m: int| 0 <= m < j && (#[trigger] rest@[m]) is Call,
                    decreases rest@.len() - j,
                {
                    if let IrInstruction::Call { .. } = &rest[j] {
                        needs_ra = true;
                    }
                    j += 1;
                }
                let mut instructions = allocs;
                if needs_ra {
                    instructions.push(IrInstruction::SaveRa);
                }
                instructions.append(&mut rest);
                Ok(IrFunction { name, return_type: ir_return_type, instructions })
            },
            _ => Err(unsupported("not a function")),
        }
    }

    /// Translates every function of the program, in order (see
    /// `simple_functions`).
    pub fn generate(&mut self) -> (r: Result<IrProgram, CompileError>)
        ensures
            final(self).source() == old(self).source(),
            match simple_functions(old(self).source().scope_table@, old(self).source().body@, old(self).source().body@.len()) {
                Some(fs) => r matches Ok(p) && p.functions@.len() == fs.len() && p.strings@.len() == 0
                    && forall|k: int| 0 <= k < fs.len() ==> fn_view(#[trigger] p.functions@[k]) == fs[k],
                None => r is Err,
            },
    {
        let ghost prog = self.program;
        let ghost t = self.program.scope_table@;
        let mut body = Vec::new();
        std::mem::swap(&mut body, &mut self.program.body);
        let mut functions: Vec<IrFunction> = Vec::new();
        let mut i: usize = 0;
        while i < body.len()
            invariant
                prog == old(self).program,
                t == prog.scope_table@,
                body == prog.body,
                self.program == (SemanticProgram { body: self.program.body, ..prog }),
                i <= body@.len(),
                simple_functions(t, body@, i as nat) matches Some(fs) && functions@.len() == fs.len()
                    && forall|k: int| 0 <= k < fs.len() ==> fn_view(#[trigger] functions@[k]) == fs[k],
            decreases body@.len() - i,
        {
            if let SemanticStatement::SemanticFunction { .. } = &body[i] {
                let res = self.emit_function(&body[i]);
                match res {
                    Ok(f) => {
                        functions.push(f);
                    },
                    Err(e) => {
                        proof {
                            lemma_simple_functions_fail(t, body@, (i + 1) as nat, body@.len());
                        }
                        std::mem::swap(&mut body, &mut self.program.body);
                        return Err(e);
                    },
                }
            }
            i += 1;
        }
        std::mem::swap(&mut body, &mut self.program.body);
        Ok(IrProgram { functions, strings: Vec::new() })
    }
}

/// `first_named` is the first match.
proof fn lemma_first_named(syms: Seq<Symbol>, name: Seq<char>, i: int)
    requires
        0 <= i <= syms.len(),
        forall|k: int| 0 <= k < i ==> (#[trigger] syms[k]).name@ != name,
    ensures
        i < syms.len() && syms[i].name@ == name ==> first_named(syms, name) == Some(i),
        i == syms.len() ==> first_named(syms, name) is None,
    decreases i,
{
    if i > 0 {
        assert forall|k: int| 0 <= k < i - 1 implies (#[trigger] syms.skip(1)[k]).name@ != name by {
            assert(syms.skip(1)[k] == syms[k + 1]);
        }
        lemma_first_named(syms.skip(1), name, i - 1);
    }
}

/// Once a prefix of a body cannot be translated, no longer prefix can.
proof fn lemma_simple_block_fail(t: Seq<Scope>, stmts: Seq<SemanticStatement>, n: nat, m: nat)
    requires
        n <= m <= stmts.len(),
        simple_block(t, stmts, n) is None,
    ensures
        simple_block(t, stmts, m) is None,
    decreases m - n,
{
    if m > n {
        lemma_simple_block_fail(t, stmts, n, (m - 1) as nat);
    }
}

/// Once a prefix of a program cannot be translated, no longer prefix can.
proof fn lemma_simple_functions_fail(t: Seq<Scope>, stmts: Seq<SemanticStatement>, n: nat, m: nat)
    requires
        n <= m <= stmts.len(),
        simple_functions(t, stmts, n) is None,
    ensures
        simple_functions(t, stmts, m) is None,
    decreases m - n,
{
    if m > n {
        lemma_simple_functions_fail(t, stmts, n, (m - 1) as nat);
    }
}

} // verus!
