//! Translation of an analyzed program to intermediate representation, with
//! register reuse and spilling around calls.
use vstd::prelude::*;
use crate::ir::instruction::{BranchType, IrFunction, IrInstruction, IrReg, IrType, IrValue};
use crate::ir::program::IrProgram;
use crate::ir::translate::{
    contains_call, emit_address, emit_args, emit_expr, emit_values, expr_type, pointee, release,
    scaled_address, spill_left, store_element, take_reg, take_slot, Counters, block_in_child, child_from,
    emit_block, emit_function, emit_functions, emit_stmt, emit_if_stmt, emit_while_stmt, emit_simple_stmt,
    fresh_statement, else_part, expr_calls, args_calls, stmt_calls, stmts_calls,
    function_scope, function_scope_from, has_call_instruction, kept, last_is_return, param_code, GenState,
};
use crate::parser::expression::{BinaryOperator, Expression, UnaryOperator};
use crate::parser::types::{copy_type, Type};
use crate::semantic::program::SemanticProgram;
use crate::semantic::scope::{
    find_symbol_by_id, lemma_find_id_from, lemma_lookup_found, lookup, resolve_name, scope_table_wf,
    Scope, ScopeId, ScopeType,
};
use crate::semantic::statement::{SemanticParam, SemanticStatement};
use crate::semantic::symbol::{SymbolId, SymbolKind};
use crate::util::error::CompileError;
use crate::util::text::{copy_string, str_equal, string_of};

verus! {

/// The error for a program the generator cannot translate.
fn unsupported(what: &str) -> (e: CompileError)
    ensures
        e is CompilerError,
{
    CompileError::CompilerError { message: string_of(what), line: 0 }
}

/// Translates an analyzed program, function by function.
pub struct IrGenerator {
    program: SemanticProgram,
    reg_counter: usize,
    free_regs: Vec<usize>,
    current_scope_id: usize,
    spill_counter: usize,
    scope_cursor: usize,
}

impl IrGenerator {
    /// The program being translated.
    pub closed spec fn source(&self) -> SemanticProgram {
        self.program
    }

    /// The register and spill-slot bookkeeping.
    pub closed spec fn counters(&self) -> Counters {
        Counters { next_reg: self.reg_counter, free: self.free_regs@, spill: self.spill_counter }
    }

    /// The scope names are resolved from.
    pub closed spec fn scope(&self) -> usize {
        self.current_scope_id
    }

    /// Where the search for the next block's scope starts.
    pub closed spec fn cursor(&self) -> usize {
        self.scope_cursor
    }

    /// The scope table.
    pub closed spec fn table(&self) -> Seq<Scope> {
        self.program.scope_table@
    }

    /// The state of translation inside a function.
    pub closed spec fn gen_state(&self) -> GenState {
        GenState { regs: self.counters(), scope: self.current_scope_id, cursor: self.scope_cursor }
    }

    /// A generator over `program`, with no registers or slots handed out.
    pub fn new(program: SemanticProgram) -> (r: Self)
        ensures
            r.source() == program,
            r.counters() == (Counters { next_reg: 0, free: Seq::empty(), spill: 0 }),
            r.scope() == 0,
            r.cursor() == 0,
    {
        IrGenerator {
            program,
            reg_counter: 0,
            free_regs: Vec::new(),
            current_scope_id: 0,
            spill_counter: 0,
            scope_cursor: 0,
        }
    }

    /// Gives the program back.
    pub fn into_source(self) -> (r: SemanticProgram)
        ensures
            r == self.source(),
    {
        self.program
    }

    /// A fresh temporary (see `take_reg`).
    pub fn fresh_reg(&mut self) -> (r: Result<IrReg, CompileError>)
        ensures
            final(self).source() == old(self).source(),
            final(self).scope() == old(self).scope(),
            final(self).gen_state().cursor == old(self).gen_state().cursor,
            take_reg(old(self).counters()) matches Some((c, reg)) ==> r == Ok::<IrReg, CompileError>(reg)
                && final(self).counters() == c,
            take_reg(old(self).counters()) is None ==> r is Err,
    {
        if let Some(n) = self.free_regs.pop() {
            Ok(IrReg::Temp(n))
        } else if self.reg_counter < usize::MAX {
            let n = self.reg_counter;
            self.reg_counter += 1;
            Ok(IrReg::Temp(n))
        } else {
            Err(unsupported("out of temporary registers"))
        }
    }

    /// Gives a temporary back for reuse (see `release`).
    pub fn free_reg(&mut self, reg: IrReg)
        ensures
            final(self).source() == old(self).source(),
            final(self).scope() == old(self).scope(),
            final(self).gen_state().cursor == old(self).gen_state().cursor,
            final(self).counters() == release(old(self).counters(), reg),
    {
        if let IrReg::Temp(n) = reg {
            self.free_regs.push(n);
        }
    }

    /// A fresh spill slot (see `take_slot`).
    fn fresh_slot(&mut self) -> (r: Result<usize, CompileError>)
        ensures
            final(self).program == old(self).program,
            final(self).current_scope_id == old(self).current_scope_id,
            final(self).scope_cursor == old(self).scope_cursor,
            take_slot(old(self).counters()) matches Some((c, slot)) ==> r == Ok::<usize, CompileError>(slot)
                && final(self).counters() == c,
            take_slot(old(self).counters()) is None ==> r is Err,
    {
        if self.spill_counter < usize::MAX {
            let slot = self.spill_counter;
            self.spill_counter += 1;
            Ok(slot)
        } else {
            Err(unsupported("out of spill slots"))
        }
    }
}


/// A translation result agrees with its meaning `o`, `c` being the
/// bookkeeping afterwards: the same register, code and bookkeeping, or an
/// error where the meaning is `None`.
pub open spec fn expr_outcome(
    o: Option<(Counters, IrReg, Seq<IrInstruction>)>,
    r: Result<(IrReg, Vec<IrInstruction>), CompileError>,
    c: Counters,
) -> bool {
    match o {
        Some((c1, reg, code)) => r matches Ok((rg, v)) && rg == reg && v@ =~= code && c == c1,
        None => r is Err,
    }
}

/// Once the first `n` arguments cannot be translated, no longer prefix can.
proof fn lemma_args_fail(c: Counters, t: Seq<Scope>, s: int, args: Seq<Expression>, n: nat, m: nat)
    requires
        n <= m <= args.len(),
        emit_args(c, t, s, args, n) is None,
    ensures
        emit_args(c, t, s, args, m) is None,
    decreases m - n,
{
    if m > n {
        lemma_args_fail(c, t, s, args, n, (m - 1) as nat);
    }
}

/// Once the first `n` values cannot be translated, no longer prefix can.
proof fn lemma_values_fail(
    c: Counters,
    t: Seq<Scope>,
    s: int,
    vals: Seq<Box<Expression>>,
    n: nat,
    m: nat,
    base: IrReg,
    et: IrType,
)
    requires
        n <= m <= vals.len(),
        emit_values(c, t, s, vals, n, base, et) is None,
    ensures
        emit_values(c, t, s, vals, m, base, et) is None,
    decreases m - n,
{
    if m > n {
        lemma_values_fail(c, t, s, vals, n, (m - 1) as nat, base, et);
    }
}

/// Whether evaluating `e` makes a call (see `contains_call`).
fn has_call(e: &Expression) -> (r: bool)
    ensures
        r == contains_call(*e),
    decreases e,
{
    match e {
        Expression::FunctionCall { .. } => true,
        Expression::BinaryOperation { left, right, .. } => has_call(left) || has_call(right),
        Expression::UnaryOperation { operand, .. } => has_call(operand),
        _ => false,
    }
}

impl IrGenerator {
    /// The symbol `name` refers to from the current scope.
    fn find_named(&self, name: &String) -> (r: Option<(usize, usize)>)
        requires
            scope_table_wf(self.table()),
        ensures
            r matches Some((a, b)) ==> lookup(self.table(), self.current_scope_id as int, name@) == Some((a as int, b as int))
                && a < self.table().len() && b < self.table()[a as int].symbols@.len(),
            r is None ==> lookup(self.table(), self.current_scope_id as int, name@) is None,
    {
        let r = resolve_name(&self.program.scope_table, self.current_scope_id, name);
        proof {
            lemma_lookup_found(self.table(), self.current_scope_id as int, name@);
        }
        r
    }

    /// The type of an expression (see `expr_type`).
    pub fn resolve_expr_type(&self, e: &Expression) -> (r: Result<Type, CompileError>)
        requires
            scope_table_wf(self.table()),
        ensures
            r matches Ok(ty) ==> expr_type(self.table(), self.scope() as int, *e) == Some(ty),
            r is Err ==> expr_type(self.table(), self.scope() as int, *e) is None,
        decreases e,
    {
        match e {
            Expression::Integer(_) => Ok(Type::Int32),
            Expression::Bool(_) => Ok(Type::Bool),
            Expression::Identifier(name) => {
                match self.find_named(name) {
                    None => Err(unsupported("unknown name")),
                    Some((si, i)) => {
                        let id = self.program.scope_table[si].symbols[i].id.0;
                        match find_symbol_by_id(&self.program.scope_table, id) {
                            None => Err(unsupported("unknown symbol")),
                            Some((sj, j)) => {
                                proof {
                                    lemma_find_id_from(self.table(), id, 0);
                                }
                                match &self.program.scope_table[sj].symbols[j].kind {
                                    SymbolKind::Variable { var_type, .. } => Ok(copy_type(var_type)),
                                    SymbolKind::Function { return_type, .. } => Ok(copy_type(return_type)),
                                }
                            },
                        }
                    },
                }
            },
            Expression::UnaryOperation { op, operand } => match op {
                UnaryOperator::AddressOf => {
                    let inner = self.resolve_expr_type(operand)?;
                    Ok(Type::Pointer(Box::new(inner)))
                },
                UnaryOperator::Deref => match self.resolve_expr_type(operand)? {
                    Type::Pointer(inner) => Ok(*inner),
                    _ => Err(unsupported("dereference of a value that is not a pointer")),
                },
                UnaryOperator::Not => Ok(Type::Bool),
                UnaryOperator::Neg => self.resolve_expr_type(operand),
            },
            Expression::BinaryOperation { left, .. } => self.resolve_expr_type(left),
            Expression::Array { values, .. } => {
                if values.len() == 0 {
                    Ok(Type::Pointer(Box::new(Type::Void)))
                } else {
                    proof {
                        assert(decreases_to!(*e => *values));
                        assert(decreases_to!(*values => values@));
                        assert(decreases_to!(values@ => values@[0]));
                    }
                    let inner = self.resolve_expr_type(&values[0])?;
                    Ok(Type::Pointer(Box::new(inner)))
                }
            },
            Expression::Index { base, .. } => match self.resolve_expr_type(base)? {
                Type::Pointer(inner) => Ok(*inner),
                _ => Err(unsupported("index into a value that is not a pointer")),
            },
            Expression::FunctionCall { .. } => Err(unsupported("type of a call result")),
            _ => Err(unsupported("type of this expression")),
        }
    }

    /// The type a pointer expression points to (see `pointee`).
    fn resolve_pointee_type(&self, e: &Expression) -> (r: Result<Type, CompileError>)
        requires
            scope_table_wf(self.table()),
        ensures
            r matches Ok(ty) ==> pointee(self.table(), self.current_scope_id as int, *e) == Some(ty),
            r is Err ==> pointee(self.table(), self.current_scope_id as int, *e) is None,
    {
        match self.resolve_expr_type(e)? {
            Type::Pointer(inner) => Ok(*inner),
            _ => Err(unsupported("expected a pointer")),
        }
    }

    /// The code of an expression (see `emit_expr`).
    fn emit_expression(&mut self, expr: &Expression) -> (r: Result<(IrReg, Vec<IrInstruction>), CompileError>)
        requires
            scope_table_wf(old(self).table()),
        ensures
            final(self).program == old(self).program,
            final(self).current_scope_id == old(self).current_scope_id,
            final(self).scope_cursor == old(self).scope_cursor,
            expr_outcome(
                emit_expr(old(self).counters(), old(self).table(), old(self).current_scope_id as int, *expr),
                r,
                final(self).counters(),
            ),
        decreases *expr, 2nat,
    {
        match expr {
            Expression::Integer(n) => {
                let d = self.fresh_reg()?;
                let mut code = Vec::new();
                code.push(IrInstruction::StoreImm { dest: d, value: IrValue::Immediate(*n) });
                Ok((d, code))
            },
            Expression::Bool(b) => {
                let d = self.fresh_reg()?;
                let mut code = Vec::new();
                code.push(IrInstruction::StoreImm { dest: d, value: IrValue::Immediate(if *b { 1 } else { 0 }) });
                Ok((d, code))
            },
            Expression::Identifier(name) => {
                let found = self.find_named(name);
                match found {
                    None => Err(unsupported("unknown name")),
                    Some((si, i)) => {
                        let sym = &self.program.scope_table[si].symbols[i];
                        let info = match &sym.kind {
                            SymbolKind::Variable { var_type, .. } => Some((IrType::from(var_type), sym.id)),
                            _ => None,
                        };
                        match info {
                            None => Err(unsupported("a name that is not a variable used as a value")),
                            Some((ty, id)) => {
                                let d = self.fresh_reg()?;
                                let mut code = Vec::new();
                                code.push(IrInstruction::LoadStack { ir_type: ty, dest: d, symbol: id });
                                Ok((d, code))
                            },
                        }
                    },
                }
            },
            Expression::UnaryOperation { op, operand } => match op {
                UnaryOperator::AddressOf => self.emit_address_of(operand),
                UnaryOperator::Deref => {
                    let (a, mut code) = self.emit_expression(operand)?;
                    let pt = self.resolve_pointee_type(operand)?;
                    let d = self.fresh_reg()?;
                    code.push(IrInstruction::LoadIndirect { ir_type: IrType::from(&pt), dest: d, addr: a });
                    self.free_reg(a);
                    Ok((d, code))
                },
                _ => {
                    let (x, mut code) = self.emit_expression(operand)?;
                    let d = self.fresh_reg()?;
                    code.push(IrInstruction::UnaryOp { op: *op, dest: d, operand: x });
                    Ok((d, code))
                },
            },
            Expression::BinaryOperation { .. } => self.emit_binary(expr),
            Expression::Array { .. } => self.emit_array(expr),
            Expression::Index { .. } => self.emit_index(expr),
            Expression::FunctionCall { .. } => self.emit_call(expr),
            _ => Err(unsupported("expression form")),
        }
    }

    /// The code of `&e` (see `emit_address`).
    fn emit_address_of(&mut self, e: &Expression) -> (r: Result<(IrReg, Vec<IrInstruction>), CompileError>)
        requires
            scope_table_wf(old(self).table()),
        ensures
            final(self).program == old(self).program,
            final(self).current_scope_id == old(self).current_scope_id,
            final(self).scope_cursor == old(self).scope_cursor,
            expr_outcome(
                emit_address(old(self).counters(), old(self).table(), old(self).current_scope_id as int, *e),
                r,
                final(self).counters(),
            ),
        decreases *e, 1nat,
    {
        match e {
            Expression::Identifier(name) => {
                match self.find_named(name) {
                    None => Err(unsupported("address of an unknown name")),
                    Some((si, i)) => {
                        let id = self.program.scope_table[si].symbols[i].id;
                        let d = self.fresh_reg()?;
                        let mut code = Vec::new();
                        code.push(IrInstruction::LoadAddr { dest: d, symbol: id });
                        Ok((d, code))
                    },
                }
            },
            Expression::Index { .. } => self.emit_element_address(e),
            _ => Err(unsupported("address of something that is neither a variable nor an element")),
        }
    }

    /// The code of `&b[x]`: base plus index times the element size.
    fn emit_element_address(&mut self, e: &Expression) -> (r: Result<(IrReg, Vec<IrInstruction>), CompileError>)
        requires
            scope_table_wf(old(self).table()),
            *e is Index,
        ensures
            final(self).program == old(self).program,
            final(self).current_scope_id == old(self).current_scope_id,
            final(self).scope_cursor == old(self).scope_cursor,
            expr_outcome(
                emit_address(old(self).counters(), old(self).table(), old(self).current_scope_id as int, *e),
                r,
                final(self).counters(),
            ),
        decreases *e, 0nat,
    {
        match e {
            Expression::Index { base, index } => {
                let et = self.resolve_pointee_type(base)?;
                let irt = IrType::from(&et);
                let size = irt.size_bytes();
                let (b, mut code) = self.emit_expression(base)?;
                let (x, mut xcode) = self.emit_expression(index)?;
                let a = self.fresh_reg()?;
                let sc = self.fresh_reg()?;
                let sz = self.fresh_reg()?;
                code.append(&mut xcode);
                code.push(IrInstruction::StoreImm { dest: sz, value: IrValue::Immediate(size as i32) });
                code.push(IrInstruction::BinaryOp { op: BinaryOperator::Mul, dest: sc, left: x, right: sz });
                code.push(IrInstruction::BinaryOp { op: BinaryOperator::Add, dest: a, left: b, right: sc });
                self.free_reg(b);
                self.free_reg(x);
                self.free_reg(sc);
                self.free_reg(sz);
                Ok((a, code))
            },
            _ => Err(unsupported("element address")),
        }
    }

    /// The code of a binary operation, spilling the left value around a
    /// call in the right operand.
    fn emit_binary(&mut self, expr: &Expression) -> (r: Result<(IrReg, Vec<IrInstruction>), CompileError>)
        requires
            scope_table_wf(old(self).table()),
            *expr is BinaryOperation,
        ensures
            final(self).program == old(self).program,
            final(self).current_scope_id == old(self).current_scope_id,
            final(self).scope_cursor == old(self).scope_cursor,
            expr_outcome(
                emit_expr(old(self).counters(), old(self).table(), old(self).current_scope_id as int, *expr),
                r,
                final(self).counters(),
            ),
        decreases *expr, 1nat,
    {
        match expr {
            Expression::BinaryOperation { op, left, right } => {
                let (l, mut code) = self.emit_expression(left)?;
                let ghost c1 = self.counters();
                let calls = has_call(right);
                let (lf, mut spill, mut reload) = if calls {
                    let slot = self.fresh_slot()?;
                    let rl = self.fresh_reg()?;
                    let mut sv = Vec::new();
                    sv.push(IrInstruction::SpillTemp { slot, src: l });
                    let mut rv = Vec::new();
                    rv.push(IrInstruction::LoadTemp { slot, dest: rl });
                    (rl, sv, rv)
                } else {
                    (l, Vec::new(), Vec::new())
                };
                assert(spill_left(c1, l, calls) == Some((self.counters(), lf, spill@, reload@)));
                let (x, mut rcode) = self.emit_expression(right)?;
                let d = self.fresh_reg()?;
                code.append(&mut spill);
                code.append(&mut rcode);
                code.append(&mut reload);
                code.push(IrInstruction::BinaryOp { op: *op, dest: d, left: lf, right: x });
                self.free_reg(l);
                self.free_reg(x);
                Ok((d, code))
            },
            _ => Err(unsupported("binary operation")),
        }
    }

    /// The code of an element read `b[x]`.
    fn emit_index(&mut self, expr: &Expression) -> (r: Result<(IrReg, Vec<IrInstruction>), CompileError>)
        requires
            scope_table_wf(old(self).table()),
            *expr is Index,
        ensures
            final(self).program == old(self).program,
            final(self).current_scope_id == old(self).current_scope_id,
            final(self).scope_cursor == old(self).scope_cursor,
            expr_outcome(
                emit_expr(old(self).counters(), old(self).table(), old(self).current_scope_id as int, *expr),
                r,
                final(self).counters(),
            ),
        decreases *expr, 1nat,
    {
        match expr {
            Expression::Index { base, index } => {
                let et = self.resolve_pointee_type(base)?;
                let irt = IrType::from(&et);
                let size = irt.size_bytes();
                let (b, mut code) = self.emit_expression(base)?;
                let (x, mut xcode) = self.emit_expression(index)?;
                let a = self.fresh_reg()?;
                let mut mid = self.emit_scaled_address(a, b, x, size)?;
                let d = self.fresh_reg()?;
                code.append(&mut xcode);
                code.append(&mut mid);
                code.push(IrInstruction::LoadIndirect { ir_type: irt, dest: d, addr: a });
                self.free_reg(b);
                self.free_reg(x);
                self.free_reg(a);
                Ok((d, code))
            },
            _ => Err(unsupported("index")),
        }
    }

    /// The address of element `x` of `b` into `a` (see `scaled_address`).
    fn emit_scaled_address(&mut self, a: IrReg, b: IrReg, x: IrReg, size: usize) -> (r: Result<Vec<IrInstruction>, CompileError>)
        requires
            size <= 4,
        ensures
            final(self).program == old(self).program,
            final(self).current_scope_id == old(self).current_scope_id,
            final(self).scope_cursor == old(self).scope_cursor,
            match scaled_address(old(self).counters(), a, b, x, size) {
                Some((c, code)) => r matches Ok(v) && v@ =~= code && final(self).counters() == c,
                None => r is Err,
            },
    {
        let mut code = Vec::new();
        if size == 1 {
            code.push(IrInstruction::BinaryOp { op: BinaryOperator::Add, dest: a, left: b, right: x });
        } else {
            let sc = self.fresh_reg()?;
            let sz = self.fresh_reg()?;
            code.push(IrInstruction::StoreImm { dest: sz, value: IrValue::Immediate(size as i32) });
            code.push(IrInstruction::BinaryOp { op: BinaryOperator::Mul, dest: sc, left: x, right: sz });
            code.push(IrInstruction::BinaryOp { op: BinaryOperator::Add, dest: a, left: b, right: sc });
            self.free_reg(sc);
            self.free_reg(sz);
        }
        Ok(code)
    }

    /// The code of an array literal: a stack array, its base address, and a
    /// store of each value.
    fn emit_array(&mut self, expr: &Expression) -> (r: Result<(IrReg, Vec<IrInstruction>), CompileError>)
        requires
            scope_table_wf(old(self).table()),
            *expr is Array,
        ensures
            final(self).program == old(self).program,
            final(self).current_scope_id == old(self).current_scope_id,
            final(self).scope_cursor == old(self).scope_cursor,
            expr_outcome(
                emit_expr(old(self).counters(), old(self).table(), old(self).current_scope_id as int, *expr),
                r,
                final(self).counters(),
            ),
        decreases *expr, 1nat,
    {
        match expr {
            Expression::Array { values, .. } => {
                if values.len() == 0 {
                    let d = self.fresh_reg()?;
                    let mut code = Vec::new();
                    code.push(IrInstruction::StoreImm { dest: d, value: IrValue::Immediate(0) });
                    return Ok((d, code));
                }
                let et = self.resolve_expr_type(&values[0])?;
                let irt = IrType::from(&et);
                let slot = self.fresh_slot()?;
                let base = self.fresh_reg()?;
                let mut code = Vec::new();
                code.push(IrInstruction::AllocArray { slot, elem_type: irt, count: values.len() });
                code.push(IrInstruction::LoadArrayBase { dest: base, slot });
                let mut vcode = self.emit_array_values(expr, base, irt)?;
                code.append(&mut vcode);
                Ok((base, code))
            },
            _ => Err(unsupported("array")),
        }
    }

    /// The code that evaluates and stores the values of an array literal at
    /// `base` (see `emit_values`).
    fn emit_array_values(&mut self, expr: &Expression, base: IrReg, irt: IrType) -> (r: Result<Vec<IrInstruction>, CompileError>)
        requires
            scope_table_wf(old(self).table()),
            *expr is Array,
        ensures
            final(self).program == old(self).program,
            final(self).current_scope_id == old(self).current_scope_id,
            final(self).scope_cursor == old(self).scope_cursor,
            match emit_values(
                old(self).counters(),
                old(self).table(),
                old(self).current_scope_id as int,
                expr->Array_values@,
                expr->Array_values@.len(),
                base,
                irt,
            ) {
                Some((c, code)) => r matches Ok(v) && v@ =~= code && final(self).counters() == c,
                None => r is Err,
            },
        decreases *expr, 0nat,
    {
        let ghost c0 = self.counters();
        let ghost t = self.table();
        let ghost s = self.current_scope_id as int;
        match expr {
            Expression::Array { values, .. } => {
                let mut code = Vec::new();
                let mut i: usize = 0;
                while i < values.len()
                    invariant
                        scope_table_wf(self.table()),
                        self.program == old(self).program,
                        self.current_scope_id == old(self).current_scope_id,
                        self.scope_cursor == old(self).scope_cursor,
                        t == self.table(),
                        s == self.current_scope_id as int,
                        c0 == old(self).counters(),
                        *expr is Array,
                        *values == expr->Array_values,
                        i <= values@.len(),
                        emit_values(c0, t, s, values@, i as nat, base, irt) matches Some((ci, vc))
                            && ci == self.counters() && code@ =~= vc,
                    decreases values@.len() - i,
                {
                    proof {
                        assert(decreases_to!(*expr => *values));
                        assert(decreases_to!(*values => values@));
                        assert(decreases_to!(values@ => values@[i as int]));
                    }
                    let res = self.emit_expression(&values[i]);
                    let (v, mut vcode) = match res {
                        Ok(p) => p,
                        Err(e) => {
                            proof {
                                lemma_values_fail(c0, t, s, values@, (i + 1) as nat, values@.len(), base, irt);
                            }
                            return Err(e);
                        },
                    };
                    let stored = self.emit_element_store(i, base, v, irt);
                    let mut scode = match stored {
                        Ok(sc) => sc,
                        Err(e) => {
                            proof {
                                lemma_values_fail(c0, t, s, values@, (i + 1) as nat, values@.len(), base, irt);
                            }
                            return Err(e);
                        },
                    };
                    code.append(&mut vcode);
                    code.append(&mut scode);
                    self.free_reg(v);
                    i += 1;
                }
                Ok(code)
            },
            _ => Err(unsupported("array")),
        }
    }

    /// The store of element `i` held in `v` (see `store_element`).
    fn emit_element_store(&mut self, i: usize, base: IrReg, v: IrReg, irt: IrType) -> (r: Result<Vec<IrInstruction>, CompileError>)
        ensures
            final(self).program == old(self).program,
            final(self).current_scope_id == old(self).current_scope_id,
            final(self).scope_cursor == old(self).scope_cursor,
            match store_element(old(self).counters(), i, base, v, irt) {
                Some((c, code)) => r matches Ok(x) && x@ =~= code && final(self).counters() == c,
                None => r is Err,
            },
    {
        let mut code = Vec::new();
        if i == 0 {
            code.push(IrInstruction::StoreIndirect { ir_type: irt, addr: base, src: v });
            return Ok(code);
        }
        let size = irt.size_bytes();
        let off_val: i32 = match i.checked_mul(size) {
            Some(p) => {
                if p <= 2147483647 {
                    p as i32
                } else {
                    return Err(unsupported("array literal too large"));
                }
            },
            None => {
                return Err(unsupported("array literal too large"));
            },
        };
        let off = self.fresh_reg()?;
        let a = self.fresh_reg()?;
        code.push(IrInstruction::StoreImm { dest: off, value: IrValue::Immediate(off_val) });
        code.push(IrInstruction::BinaryOp { op: BinaryOperator::Add, dest: a, left: base, right: off });
        code.push(IrInstruction::StoreIndirect { ir_type: irt, addr: a, src: v });
        self.free_reg(off);
        self.free_reg(a);
        Ok(code)
    }

    /// The code of a call in an expression: the arguments into the argument
    /// registers, the call, and the returned value into a fresh register.
    fn emit_call(&mut self, expr: &Expression) -> (r: Result<(IrReg, Vec<IrInstruction>), CompileError>)
        requires
            scope_table_wf(old(self).table()),
            *expr is FunctionCall,
        ensures
            final(self).program == old(self).program,
            final(self).current_scope_id == old(self).current_scope_id,
            final(self).scope_cursor == old(self).scope_cursor,
            expr_outcome(
                emit_expr(old(self).counters(), old(self).table(), old(self).current_scope_id as int, *expr),
                r,
                final(self).counters(),
            ),
        decreases *expr, 1nat,
    {
        match expr {
            Expression::FunctionCall { name, args, .. } => {
                proof {
                    assert(decreases_to!(*expr => *args));
                    assert(decreases_to!(*args => args@));
                }
                let mut code = self.emit_arguments(args)?;
                code.push(IrInstruction::Call { function_name: copy_string(name) });
                let d = self.fresh_reg()?;
                code.push(IrInstruction::StoreImm { dest: d, value: IrValue::Reg(IrReg::RetVal) });
                Ok((d, code))
            },
            _ => Err(unsupported("call")),
        }
    }

    /// The code that evaluates call arguments into the argument registers
    /// (see `emit_args`).
    fn emit_arguments(&mut self, args: &Vec<Expression>) -> (r: Result<Vec<IrInstruction>, CompileError>)
        requires
            scope_table_wf(old(self).table()),
        ensures
            final(self).program == old(self).program,
            final(self).current_scope_id == old(self).current_scope_id,
            final(self).scope_cursor == old(self).scope_cursor,
            match emit_args(old(self).counters(), old(self).table(), old(self).current_scope_id as int, args@, args@.len()) {
                Some((c, code)) => r matches Ok(v) && v@ =~= code && final(self).counters() == c,
                None => r is Err,
            },
        decreases args@, 3nat,
    {
        let ghost c0 = self.counters();
        let ghost t = self.table();
        let ghost s = self.current_scope_id as int;
        let mut code = Vec::new();
        let mut i: usize = 0;
        while i < args.len()
            invariant
                scope_table_wf(self.table()),
                self.program == old(self).program,
                self.current_scope_id == old(self).current_scope_id,
                self.scope_cursor == old(self).scope_cursor,
                t == self.table(),
                s == self.current_scope_id as int,
                c0 == old(self).counters(),
                i <= args@.len(),
                emit_args(c0, t, s, args@, i as nat) matches Some((ci, ac)) && ci == self.counters() && code@ == ac,
            decreases args@.len() - i,
        {
            proof {
                assert(decreases_to!(args@ => args@[i as int]));
            }
            let res = self.emit_expression(&args[i]);
            let (x, mut acode) = match res {
                Ok(p) => p,
                Err(e) => {
                    proof {
                        lemma_args_fail(c0, t, s, args@, (i + 1) as nat, args@.len());
                    }
                    return Err(e);
                },
            };
            code.append(&mut acode);
            code.push(IrInstruction::StoreImm { dest: IrReg::Arg(i), value: IrValue::Reg(x) });
            i += 1;
        }
        Ok(code)
    }
}


/// A statement's translation agrees with its meaning `o`: the same state
/// afterwards and the same code appended, or an error where the meaning is
/// `None`.
pub open spec fn stmt_outcome(
    o: Option<(GenState, Seq<IrInstruction>, Seq<IrInstruction>)>,
    r: Result<(), CompileError>,
    g: GenState,
    allocs0: Seq<IrInstruction>,
    allocs1: Seq<IrInstruction>,
    rest0: Seq<IrInstruction>,
    rest1: Seq<IrInstruction>,
) -> bool {
    match o {
        Some((g1, a, rs)) => r is Ok && g == g1 && allocs1 =~= allocs0 + a && rest1 =~= rest0 + rs,
        None => r is Err,
    }
}

/// Once the first `n` statements of a block cannot be translated, no longer
/// prefix can.
proof fn lemma_block_fail(g: GenState, t: Seq<Scope>, stmts: Seq<SemanticStatement>, n: nat, m: nat)
    requires
        n <= m <= stmts.len(),
        emit_block(g, t, stmts, n) is None,
    ensures
        emit_block(g, t, stmts, m) is None,
    decreases m - n,
{
    if m > n {
        lemma_block_fail(g, t, stmts, n, (m - 1) as nat);
    }
}

impl IrGenerator {
    /// Makes the next child scope of the current one current, searching
    /// from the cursor (see `child_from`); returns the scope to restore.
    fn enter_block_scope(&mut self) -> (r: Result<usize, CompileError>)
        ensures
            final(self).program == old(self).program,
            final(self).counters() == old(self).counters(),
            match child_from(old(self).table(), old(self).current_scope_id, old(self).scope_cursor as int) {
                Some(i) => r == Ok::<usize, CompileError>(old(self).current_scope_id) && final(self).current_scope_id == i
                    && final(self).scope_cursor == i + 1,
                None => r is Err,
            },
    {
        let parent_id = self.current_scope_id;
        let saved = self.current_scope_id;
        if self.scope_cursor >= self.program.scope_table.len() {
            return Err(unsupported("block without a scope"));
        }
        let mut i = self.scope_cursor;
        while i < self.program.scope_table.len()
            invariant
                self.program == old(self).program,
                self.counters() == old(self).counters(),
                self.current_scope_id == old(self).current_scope_id,
                self.scope_cursor == old(self).scope_cursor,
                parent_id == old(self).current_scope_id,
                saved == old(self).current_scope_id,
                old(self).scope_cursor <= i <= self.table().len(),
                child_from(self.table(), parent_id, old(self).scope_cursor as int)
                    == child_from(self.table(), parent_id, i as int),
            decreases self.table().len() - i,
        {
            if let Some(ScopeId(p)) = self.program.scope_table[i].parent {
                if p >= 0 && p as usize == parent_id {
                    self.scope_cursor = i + 1;
                    self.current_scope_id = i;
                    return Ok(saved);
                }
            }
            i += 1;
        }
        Err(unsupported("block without a scope"))
    }

    /// Restores the scope saved on entering a block.
    fn exit_block_scope(&mut self, saved: usize)
        ensures
            final(self).program == old(self).program,
            final(self).counters() == old(self).counters(),
            final(self).scope_cursor == old(self).scope_cursor,
            final(self).current_scope_id == saved,
    {
        self.current_scope_id = saved;
    }

    /// Gives each parameter a stack slot and stores it there from its
    /// argument register (see `param_code`).
    fn emit_store_params(params: &Vec<SemanticParam>, allocs: &mut Vec<IrInstruction>, rest: &mut Vec<IrInstruction>)
        ensures
            final(allocs)@ =~= old(allocs)@ + param_code(params@).0,
            final(rest)@ =~= old(rest)@ + param_code(params@).1,
    {
        let mut i: usize = 0;
        while i < params.len()
            invariant
                i <= params@.len(),
                allocs@ =~= old(allocs)@ + param_code(params@).0.subrange(0, i as int),
                rest@ =~= old(rest)@ + param_code(params@).1.subrange(0, i as int),
            decreases params@.len() - i,
        {
            let ir_type = IrType::from(&params[i].param_type);
            let symbol = params[i].symbol;
            allocs.push(IrInstruction::Alloc { ir_type, symbol });
            rest.push(IrInstruction::StoreStack { ir_type, symbol, src: IrReg::Arg(i) });
            i += 1;
        }
    }

    /// Appends the code of a statement (see `emit_stmt`).
    fn emit_statement(
        &mut self,
        stmt: &SemanticStatement,
        allocs: &mut Vec<IrInstruction>,
        rest: &mut Vec<IrInstruction>,
    ) -> (r: Result<(), CompileError>)
        requires
            scope_table_wf(old(self).table()),
        ensures
            final(self).program == old(self).program,
            stmt_outcome(
                emit_stmt(old(self).gen_state(), old(self).table(), *stmt),
                r,
                final(self).gen_state(),
                old(allocs)@,
                final(allocs)@,
                old(rest)@,
                final(rest)@,
            ),
        decreases *stmt, 2nat,
    {
        self.reg_counter = 0;
        self.free_regs.clear();
        assert(self.gen_state() == fresh_statement(old(self).gen_state()));
        match stmt {
            SemanticStatement::SemanticIf { .. } => self.emit_if(stmt, allocs, rest),
            SemanticStatement::SemanticWhile { .. } => self.emit_while(stmt, allocs, rest),
            _ => self.emit_simple(stmt, allocs, rest),
        }
    }

    /// Appends the code of a statement without blocks (see
    /// `emit_simple_stmt`).
    fn emit_simple(
        &mut self,
        stmt: &SemanticStatement,
        allocs: &mut Vec<IrInstruction>,
        rest: &mut Vec<IrInstruction>,
    ) -> (r: Result<(), CompileError>)
        requires
            scope_table_wf(old(self).table()),
        ensures
            final(self).program == old(self).program,
            stmt_outcome(
                emit_simple_stmt(old(self).gen_state(), old(self).table(), *stmt),
                r,
                final(self).gen_state(),
                old(allocs)@,
                final(allocs)@,
                old(rest)@,
                final(rest)@,
            ),
    {
        match stmt {
            SemanticStatement::SemanticVarDecl { symbol, initializer } => {
                match find_symbol_by_id(&self.program.scope_table, symbol.0) {
                    None => Err(unsupported("unknown symbol")),
                    Some((si, i)) => {
                        proof {
                            lemma_find_id_from(self.table(), symbol.0, 0);
                        }
                        let ty = match &self.program.scope_table[si].symbols[i].kind {
                            SymbolKind::Variable { var_type, .. } => Some(IrType::from(var_type)),
                            _ => None,
                        };
                        match ty {
                            None => Ok(()),
                            Some(irt) => {
                                allocs.push(IrInstruction::Alloc { ir_type: irt, symbol: *symbol });
                                match initializer {
                                    Some(e) => {
                                        let (reg, mut code) = self.emit_expression(e)?;
                                        rest.append(&mut code);
                                        rest.push(IrInstruction::StoreStack { ir_type: irt, symbol: *symbol, src: reg });
                                        Ok(())
                                    },
                                    None => Ok(()),
                                }
                            },
                        }
                    },
                }
            },
            SemanticStatement::SemanticFunctionCall { name, args, .. } => {
                let mut code = self.emit_arguments(args)?;
                rest.append(&mut code);
                rest.push(IrInstruction::Call { function_name: copy_string(name) });
                Ok(())
            },
            SemanticStatement::SemanticAssign { symbol, value } => {
                match find_symbol_by_id(&self.program.scope_table, symbol.0) {
                    None => Err(unsupported("unknown symbol")),
                    Some((si, i)) => {
                        proof {
                            lemma_find_id_from(self.table(), symbol.0, 0);
                        }
                        let ty = match &self.program.scope_table[si].symbols[i].kind {
                            SymbolKind::Variable { var_type, .. } => Some(IrType::from(var_type)),
                            _ => None,
                        };
                        match ty {
                            None => Ok(()),
                            Some(irt) => {
                                let (reg, mut code) = self.emit_expression(value)?;
                                rest.append(&mut code);
                                rest.push(IrInstruction::StoreStack { ir_type: irt, symbol: *symbol, src: reg });
                                Ok(())
                            },
                        }
                    },
                }
            },
            SemanticStatement::SemanticDerefAssign { target, value, .. } => {
                match target {
                    Expression::UnaryOperation { op: UnaryOperator::Deref, operand } => {
                        let (a, mut acode) = self.emit_expression(operand)?;
                        let (v, mut vcode) = self.emit_expression(value)?;
                        let pt = self.resolve_pointee_type(operand)?;
                        rest.append(&mut acode);
                        rest.append(&mut vcode);
                        rest.push(IrInstruction::StoreIndirect { ir_type: IrType::from(&pt), addr: a, src: v });
                        self.free_reg(a);
                        self.free_reg(v);
                        Ok(())
                    },
                    _ => Err(unsupported("assignment through something that is not a dereference")),
                }
            },
            SemanticStatement::SemanticAssembly { body } => {
                let mut i: usize = 0;
                while i < body.len()
                    invariant
                        i <= body@.len(),
                        rest@ =~= old(rest)@ + body@.subrange(0, i as int).map_values(|line: String| IrInstruction::Assembly { line }),
                    decreases body@.len() - i,
                {
                    rest.push(IrInstruction::Assembly { line: copy_string(&body[i]) });
                    i += 1;
                }
                proof {
                    assert(body@.subrange(0, body@.len() as int) =~= body@);
                }
                Ok(())
            },
            SemanticStatement::SemanticReturn { value } => {
                match value {
                    Some(e) => {
                        let (reg, mut code) = self.emit_expression(e)?;
                        rest.append(&mut code);
                        rest.push(IrInstruction::StoreImm { dest: IrReg::RetVal, value: IrValue::Reg(reg) });
                    },
                    None => {},
                }
                rest.push(IrInstruction::Ret);
                Ok(())
            },
            SemanticStatement::SemanticFunction { .. } => Err(unsupported("nested functions")),
            _ => Err(unsupported("statement with a block")),
        }
    }

    /// Appends the code of a block in its own scope (see `block_in_child`).
    fn emit_child_block(
        &mut self,
        body: &Vec<SemanticStatement>,
        allocs: &mut Vec<IrInstruction>,
        rest: &mut Vec<IrInstruction>,
    ) -> (r: Result<(), CompileError>)
        requires
            scope_table_wf(old(self).table()),
        ensures
            final(self).program == old(self).program,
            stmt_outcome(
                block_in_child(old(self).gen_state(), old(self).table(), body@),
                r,
                final(self).gen_state(),
                old(allocs)@,
                final(allocs)@,
                old(rest)@,
                final(rest)@,
            ),
        decreases *body, 1nat,
    {
        let saved = self.enter_block_scope()?;
        proof {
            assert(decreases_to!(*body => body@));
        }
        self.emit_body(body, allocs, rest)?;
        self.exit_block_scope(saved);
        Ok(())
    }

    /// Appends the code of the statements of a block, in order (see
    /// `emit_block`).
    #[verifier::spinoff_prover]
    #[verifier::rlimit(40)]
    fn emit_body(
        &mut self,
        body: &Vec<SemanticStatement>,
        allocs: &mut Vec<IrInstruction>,
        rest: &mut Vec<IrInstruction>,
    ) -> (r: Result<(), CompileError>)
        requires
            scope_table_wf(old(self).table()),
        ensures
            final(self).program == old(self).program,
            stmt_outcome(
                emit_block(old(self).gen_state(), old(self).table(), body@, body@.len()),
                r,
                final(self).gen_state(),
                old(allocs)@,
                final(allocs)@,
                old(rest)@,
                final(rest)@,
            ),
        decreases *body, 0nat,
    {
        let ghost g0 = self.gen_state();
        let ghost t = self.table();
        let mut i: usize = 0;
        while i < body.len()
            invariant
                scope_table_wf(self.table()),
                self.program == old(self).program,
                t == self.table(),
                g0 == old(self).gen_state(),
                i <= body@.len(),
                emit_block(g0, t, body@, i as nat) matches Some((gi, a, r))
                    && gi == self.gen_state() && allocs@ =~= old(allocs)@ + a && rest@ =~= old(rest)@ + r,
            decreases body@.len() - i,
        {
            proof {
                assert(decreases_to!(*body => body@));
                assert(decreases_to!(body@ => body@[i as int]));
            }
            let res = self.emit_statement(&body[i], allocs, rest);
            if res.is_err() {
                proof {
                    lemma_block_fail(g0, t, body@, (i + 1) as nat, body@.len());
                }
                return res;
            }
            i += 1;
        }
        Ok(())
    }

    /// Appends the code of an `if`: the condition, a branch to the `else`
    /// part (or past the statement) when it is false, each part in its own
    /// scope followed by a jump past the statement unless it ends with a
    /// return, and the labels.
    #[verifier::spinoff_prover]
    #[verifier::rlimit(80)]
    fn emit_if(
        &mut self,
        stmt: &SemanticStatement,
        allocs: &mut Vec<IrInstruction>,
        rest: &mut Vec<IrInstruction>,
    ) -> (r: Result<(), CompileError>)
        requires
            scope_table_wf(old(self).table()),
            *stmt is SemanticIf,
        ensures
            final(self).program == old(self).program,
            stmt_outcome(
                emit_if_stmt(old(self).gen_state(), old(self).table(), *stmt),
                r,
                final(self).gen_state(),
                old(allocs)@,
                final(allocs)@,
                old(rest)@,
                final(rest)@,
            ),
        decreases *stmt, 1nat,
    {
        match stmt {
            SemanticStatement::SemanticIf { label, condition, body, else_label, else_body } => {
                let ghost t = self.table();
                let ghost rest0 = rest@;
                let ghost allocs0 = allocs@;
                let ghost g0 = self.gen_state();
                let (reg, mut code) = match self.emit_expression(condition) {
                    Ok(p) => p,
                    Err(e) => {
                        proof {
                            lemma_if_parts(g0, t, *stmt);
                        }
                        return Err(e);
                    },
                };
                let ghost g1 = self.gen_state();
                let ghost cc = code@;
                rest.append(&mut code);
                let target = match else_label {
                    Some(l) => copy_string(l),
                    None => copy_string(label),
                };
                let br = IrInstruction::Branch { reg, label: target, branch_type: BranchType::EqZero };
                rest.push(br);
                let ghost head = cc.push(br);
                assert(rest@ =~= rest0 + head);
                proof {
                    assert(decreases_to!(*stmt => *body));
                }
                match self.emit_child_block(body, allocs, rest) {
                    Ok(()) => {},
                    Err(e) => {
                        proof {
                            lemma_if_parts(g0, t, *stmt);
                        }
                        return Err(e);
                    },
                }
                let ghost r1 = block_in_child(g1, t, body@)->Some_0.2;
                let ghost a1 = block_in_child(g1, t, body@)->Some_0.1;
                let body_returns = body.len() > 0 && matches!(body[body.len() - 1], SemanticStatement::SemanticReturn { .. });
                if !body_returns {
                    rest.push(IrInstruction::Jump { label: copy_string(label) });
                }
                let ghost then_code = head + r1 + if last_is_return(body@) {
                    Seq::empty()
                } else {
                    seq![IrInstruction::Jump { label: *label }]
                };
                assert(rest@ =~= rest0 + then_code);
                assert(allocs@ =~= allocs0 + a1);
                match else_label {
                    Some(_) => {
                        let ghost g2 = self.gen_state();
                        let res = self.emit_else(stmt, allocs, rest);
                        proof {
                            lemma_if_parts(g0, t, *stmt);
                            if let Some((g3, a2, code2)) = else_part(g2, t, *stmt) {
                                assert(rest@ =~= rest0 + (then_code + code2));
                                assert(allocs@ =~= allocs0 + (a1 + a2));
                            }
                        }
                        res
                    },
                    None => {
                        let end = IrInstruction::Label { label_name: copy_string(label) };
                        rest.push(end);
                        assert(rest@ =~= rest0 + then_code.push(end));
                        proof {
                            lemma_if_parts(g0, t, *stmt);
                        }
                        Ok(())
                    },
                }
            },
            _ => Err(unsupported("if")),
        }
    }

    /// Appends the `else` part of an `if` (see `else_part`).
    fn emit_else(
        &mut self,
        stmt: &SemanticStatement,
        allocs: &mut Vec<IrInstruction>,
        rest: &mut Vec<IrInstruction>,
    ) -> (r: Result<(), CompileError>)
        requires
            scope_table_wf(old(self).table()),
        ensures
            final(self).program == old(self).program,
            stmt_outcome(
                else_part(old(self).gen_state(), old(self).table(), *stmt),
                r,
                final(self).gen_state(),
                old(allocs)@,
                final(allocs)@,
                old(rest)@,
                final(rest)@,
            ),
        decreases *stmt, 0nat,
    {
        match stmt {
            SemanticStatement::SemanticIf { label, else_label: Some(el), else_body: Some(eb), .. } => {
                rest.push(IrInstruction::Label { label_name: copy_string(el) });
                proof {
                    assert(decreases_to!(*stmt => *eb));
                }
                self.emit_child_block(eb, allocs, rest)?;
                let else_returns = eb.len() > 0 && matches!(eb[eb.len() - 1], SemanticStatement::SemanticReturn { .. });
                if !else_returns {
                    rest.push(IrInstruction::Jump { label: copy_string(label) });
                }
                rest.push(IrInstruction::Label { label_name: copy_string(label) });
                Ok(())
            },
            _ => Err(unsupported("else label without an else part")),
        }
    }

    /// Appends the code of a `while`: a jump to the condition, the body in
    /// its own scope, then the condition and a branch back to the body while
    /// it holds.
    #[verifier::spinoff_prover]
    #[verifier::rlimit(80)]
    fn emit_while(
        &mut self,
        stmt: &SemanticStatement,
        allocs: &mut Vec<IrInstruction>,
        rest: &mut Vec<IrInstruction>,
    ) -> (r: Result<(), CompileError>)
        requires
            scope_table_wf(old(self).table()),
            *stmt is SemanticWhile,
        ensures
            final(self).program == old(self).program,
            stmt_outcome(
                emit_while_stmt(old(self).gen_state(), old(self).table(), *stmt),
                r,
                final(self).gen_state(),
                old(allocs)@,
                final(allocs)@,
                old(rest)@,
                final(rest)@,
            ),
        decreases *stmt, 1nat,
    {
        match stmt {
            SemanticStatement::SemanticWhile { body_label, body, cond_label, condition } => {
                let ghost t = self.table();
                let ghost rest0 = rest@;
                let ghost allocs0 = allocs@;
                let ghost g0 = self.gen_state();
                let er = self.emit_expression(condition);
                let (reg, mut ccode) = match er {
                    Ok(p) => p,
                    Err(e) => {
                        proof {
                            lemma_while_parts(g0, t, *stmt);
                        }
                        return Err(e);
                    },
                };
                let ghost g1 = self.gen_state();
                let ghost cc = ccode@;
                let jump = IrInstruction::Jump { label: copy_string(cond_label) };
                let start = IrInstruction::Label { label_name: copy_string(body_label) };
                let ghost head = seq![jump, start];
                rest.push(jump);
                rest.push(start);
                assert(rest@ =~= rest0 + head);
                proof {
                    assert(decreases_to!(*stmt => *body));
                }
                let br = self.emit_child_block(body, allocs, rest);
                match br {
                    Ok(()) => {},
                    Err(e) => {
                        proof {
                            lemma_while_parts(g0, t, *stmt);
                        }
                        return Err(e);
                    },
                }
                let ghost r1 = block_in_child(g1, t, body@)->Some_0.2;
                let cond = IrInstruction::Label { label_name: copy_string(cond_label) };
                let back = IrInstruction::Branch { reg, label: copy_string(body_label), branch_type: BranchType::NeqZero };
                rest.push(cond);
                rest.append(&mut ccode);
                rest.push(back);
                assert(rest@ =~= rest0 + (head + r1 + seq![cond] + cc + seq![back]));
                proof {
                    lemma_while_parts(g0, t, *stmt);
                    let a1 = block_in_child(g1, t, body@)->Some_0.1;
                    assert(allocs@ =~= allocs0 + a1);
                }
                Ok(())
            },
            _ => Err(unsupported("while")),
        }
    }
}

/// The code of an `if` from the code of its condition, of its body and of
/// its `else` part.
proof fn lemma_if_parts(g0: GenState, t: Seq<Scope>, stmt: SemanticStatement)
    requires
        stmt is SemanticIf,
    ensures
        ({
            let label = stmt->SemanticIf_label;
            let else_label = stmt->SemanticIf_else_label;
            let body = stmt->SemanticIf_body;
            emit_if_stmt(g0, t, stmt) == match emit_expr(g0.regs, t, g0.scope as int, stmt->SemanticIf_condition) {
                Some((c1, r, ccode)) => {
                    let target = match else_label {
                        Some(l) => l,
                        None => label,
                    };
                    let head = ccode.push(IrInstruction::Branch { reg: r, label: target, branch_type: BranchType::EqZero });
                    match block_in_child(GenState { regs: c1, ..g0 }, t, body@) {
                        Some((g1, a1, r1)) => {
                            let then_code = head + r1 + if last_is_return(body@) {
                                Seq::empty()
                            } else {
                                seq![IrInstruction::Jump { label }]
                            };
                            match else_label {
                                None => Some((g1, a1, then_code.push(IrInstruction::Label { label_name: label }))),
                                Some(_) => match else_part(g1, t, stmt) {
                                    Some((g2, a2, code2)) => Some((g2, a1 + a2, then_code + code2)),
                                    None => None,
                                },
                            }
                        },
                        None => None,
                    }
                },
                None => None,
            }
        }),
{
}

/// The code of a `while` from the code of its condition and of its body.
proof fn lemma_while_parts(g0: GenState, t: Seq<Scope>, stmt: SemanticStatement)
    requires
        stmt is SemanticWhile,
    ensures
        ({
            let body_label = stmt->SemanticWhile_body_label;
            let cond_label = stmt->SemanticWhile_cond_label;
            emit_while_stmt(g0, t, stmt) == match emit_expr(g0.regs, t, g0.scope as int, stmt->SemanticWhile_condition) {
                Some((c1, r, ccode)) => match block_in_child(GenState { regs: c1, ..g0 }, t, stmt->SemanticWhile_body@) {
                    Some((g1, a1, r1)) => Some((
                        g1,
                        a1,
                        seq![IrInstruction::Jump { label: cond_label }, IrInstruction::Label { label_name: body_label }] + r1
                            + seq![IrInstruction::Label { label_name: cond_label }] + ccode
                            + seq![IrInstruction::Branch { reg: r, label: body_label, branch_type: BranchType::NeqZero }],
                    )),
                    None => None,
                },
                None => None,
            }
        }),
{
}


// ---------------------------------------------------------------------------
// Which functions are translated

/// The names held by a list of strings.
pub open spec fn names_of(v: Seq<String>) -> Set<Seq<char>> {
    Set::new(|x: Seq<char>| exists|k: int| 0 <= k < v.len() && v[k]@ == x)
}

/// Adding a string adds its name.
proof fn lemma_names_push(v: Seq<String>, s: String)
    ensures
        names_of(v.push(s)) =~= names_of(v).insert(s@),
{
    assert forall|x: Seq<char>| #[trigger] names_of(v.push(s)).contains(x) implies names_of(v).insert(s@).contains(x) by {
        let k = choose|k: int| 0 <= k < v.push(s).len() && v.push(s)[k]@ == x;
        if k < v.len() {
            assert(v[k]@ == x);
        }
    }
    assert forall|x: Seq<char>| #[trigger] names_of(v).insert(s@).contains(x) implies names_of(v.push(s)).contains(x) by {
        if x == s@ {
            assert(v.push(s)[v.len() as int]@ == x);
        } else {
            let k = choose|k: int| 0 <= k < v.len() && v[k]@ == x;
            assert(v.push(s)[k]@ == x);
        }
    }
}

/// Collects the names of the functions called in an expression (see
/// `expr_calls`).
fn collect_called_in_expr(e: &Expression, called: &mut Vec<String>)
    ensures
        names_of(final(called)@) =~= names_of(old(called)@).union(expr_calls(*e)),
    decreases *e,
{
    match e {
        Expression::FunctionCall { name, args, .. } => {
            proof {
                assert(decreases_to!(*e => *args));
            }
            collect_called_in_args(args, called);
            let ghost before = called@;
            called.push(copy_string(name));
            proof {
                lemma_names_push(before, *name);
            }
        },
        Expression::BinaryOperation { left, right, .. } => {
            collect_called_in_expr(left, called);
            collect_called_in_expr(right, called);
        },
        _ => {},
    }
}

/// Collects the names of the functions called in call arguments.
fn collect_called_in_args(args: &Vec<Expression>, called: &mut Vec<String>)
    ensures
        names_of(final(called)@) =~= names_of(old(called)@).union(args_calls(args@, args@.len())),
    decreases *args,
{
    let mut i: usize = 0;
    while i < args.len()
        invariant
            i <= args@.len(),
            names_of(called@) =~= names_of(old(called)@).union(args_calls(args@, i as nat)),
        decreases args@.len() - i,
    {
        proof {
            assert(decreases_to!(*args => args@));
            assert(decreases_to!(args@ => args@[i as int]));
        }
        collect_called_in_expr(&args[i], called);
        i += 1;
    }
}

/// Collects the names of the functions a statement calls (see `stmt_calls`).
fn collect_called_in_stmt(stmt: &SemanticStatement, called: &mut Vec<String>)
    ensures
        names_of(final(called)@) =~= names_of(old(called)@).union(stmt_calls(*stmt)),
    decreases *stmt,
{
    match stmt {
        SemanticStatement::SemanticFunctionCall { name, args, .. } => {
            collect_called_in_args(args, called);
            let ghost before = called@;
            called.push(copy_string(name));
            proof {
                lemma_names_push(before, *name);
            }
        },
        SemanticStatement::SemanticFunction { body, .. } => {
            proof {
                assert(decreases_to!(*stmt => *body));
            }
            collect_called_in_stmts(body, called);
        },
        SemanticStatement::SemanticVarDecl { initializer, .. } => {
            if let Some(e) = initializer {
                collect_called_in_expr(e, called);
            }
        },
        SemanticStatement::SemanticAssign { value, .. } => {
            collect_called_in_expr(value, called);
        },
        SemanticStatement::SemanticReturn { value } => {
            if let Some(e) = value {
                collect_called_in_expr(e, called);
            }
        },
        SemanticStatement::SemanticIf { condition, body, else_body, .. } => {
            collect_called_in_expr(condition, called);
            proof {
                assert(decreases_to!(*stmt => *body));
            }
            collect_called_in_stmts(body, called);
            if let Some(eb) = else_body {
                proof {
                    assert(decreases_to!(*stmt => *eb));
                }
                collect_called_in_stmts(eb, called);
            }
        },
        SemanticStatement::SemanticWhile { condition, body, .. } => {
            collect_called_in_expr(condition, called);
            proof {
                assert(decreases_to!(*stmt => *body));
            }
            collect_called_in_stmts(body, called);
        },
        _ => {},
    }
}

/// Collects the names of the functions a list of statements calls.
fn collect_called_in_stmts(stmts: &Vec<SemanticStatement>, called: &mut Vec<String>)
    ensures
        names_of(final(called)@) =~= names_of(old(called)@).union(stmts_calls(stmts@, stmts@.len())),
    decreases *stmts,
{
    let mut i: usize = 0;
    while i < stmts.len()
        invariant
            i <= stmts@.len(),
            names_of(called@) =~= names_of(old(called)@).union(stmts_calls(stmts@, i as nat)),
        decreases stmts@.len() - i,
    {
        proof {
            assert(decreases_to!(*stmts => stmts@));
            assert(decreases_to!(stmts@ => stmts@[i as int]));
        }
        collect_called_in_stmt(&stmts[i], called);
        i += 1;
    }
}

/// The names of the functions called anywhere in a program's statements.
fn collect_called_functions(body: &Vec<SemanticStatement>) -> (r: Vec<String>)
    ensures
        names_of(r@) =~= stmts_calls(body@, body@.len()),
{
    let mut called = Vec::new();
    collect_called_in_stmts(body, &mut called);
    called
}

/// Whether `name` is among the names of `v`.
fn name_in(v: &Vec<String>, name: &String) -> (r: bool)
    ensures
        r == names_of(v@).contains(name@),
{
    let mut i: usize = 0;
    while i < v.len()
        invariant
            i <= v@.len(),
            forall|k: int| 0 <= k < i ==> v@[k]@ != name@,
        decreases v@.len() - i,
    {
        if v[i].eq(name) {
            return true;
        }
        i += 1;
    }
    false
}

/// Whether some instruction of `v` is a call.
fn has_call_in(v: &Vec<IrInstruction>) -> (r: bool)
    ensures
        r == has_call_instruction(v@),
{
    let mut i: usize = 0;
    while i < v.len()
        invariant
            i <= v@.len(),
            forall|k: int| 0 <= k < i ==> !(v@[k] is Call),
        decreases v@.len() - i,
    {
        if let IrInstruction::Call { .. } = &v[i] {
            return true;
        }
        i += 1;
    }
    false
}

/// A translated function as (name, return type, instructions).
pub open spec fn fn_view(f: IrFunction) -> (String, IrType, Seq<IrInstruction>) {
    (f.name, f.return_type, f.instructions@)
}

impl IrGenerator {
    /// The scope of function `sym`'s body (see `function_scope`).
    fn find_function_scope(&self, sym: SymbolId) -> (r: usize)
        ensures
            r == function_scope(self.table(), sym),
            r == 0 || r < self.table().len(),
    {
        let mut i: usize = 0;
        while i < self.program.scope_table.len()
            invariant
                i <= self.table().len(),
                function_scope_from(self.table(), sym, 0) == function_scope_from(self.table(), sym, i as int),
            decreases self.table().len() - i,
        {
            if let ScopeType::FunctionBody { parent, .. } = &self.program.scope_table[i].kind {
                if *parent == sym {
                    return i;
                }
            }
            i += 1;
        }
        0
    }

    /// The translation of one function declaration (see `emit_function`).
    fn emit_function_ir(&mut self, stmt: &SemanticStatement) -> (r: Result<IrFunction, CompileError>)
        requires
            scope_table_wf(old(self).table()),
        ensures
            final(self).program == old(self).program,
            match emit_function(old(self).table(), *stmt) {
                Some(f) => r matches Ok(x) && fn_view(x) == f,
                None => r is Err,
            },
    {
        match stmt {
            SemanticStatement::SemanticFunction { symbol, return_type, body, params, .. } => {
                let s0 = self.find_function_scope(*symbol);
                let n = self.program.scope_table.len();
                assert(s0 == 0 || s0 < n);
                self.current_scope_id = s0;
                self.reg_counter = 0;
                self.spill_counter = 0;
                self.free_regs.clear();
                self.scope_cursor = s0 + 1;
                let name = match find_symbol_by_id(&self.program.scope_table, symbol.0) {
                    Some((si, i)) => {
                        proof {
                            lemma_find_id_from(self.table(), symbol.0, 0);
                        }
                        copy_string(&self.program.scope_table[si].symbols[i].name)
                    },
                    None => {
                        return Err(unsupported("function without a symbol"));
                    },
                };
                let ir_return_type = IrType::from(return_type);
                let mut allocs = Vec::new();
                let mut rest = Vec::new();
                Self::emit_store_params(params, &mut allocs, &mut rest);
                self.emit_body(body, &mut allocs, &mut rest)?;
                let needs_ra = has_call_in(&rest);
                let mut instructions = allocs;
                if needs_ra {
                    instructions.push(IrInstruction::SaveRa);
                }
                instructions.append(&mut rest);
                Ok(IrFunction { name, return_type: ir_return_type, instructions })
            },
            _ => Err(unsupported("not a function")),
        }
    }

    /// Translates the program: `main` and every function called somewhere,
    /// in program order (see `emit_functions`); other functions are left
    /// out. Fails where a kept function cannot be translated.
    pub fn generate(&mut self) -> (r: Result<IrProgram, CompileError>)
        requires
            scope_table_wf(old(self).source().scope_table@),
        ensures
            final(self).source() == old(self).source(),
            match emit_functions(
                old(self).source().scope_table@,
                old(self).source().body@,
                stmts_calls(old(self).source().body@, old(self).source().body@.len()),
                old(self).source().body@.len(),
            ) {
                Some(fs) => r matches Ok(p) && p.functions@.len() == fs.len() && p.strings@.len() == 0
                    && forall|k: int| 0 <= k < fs.len() ==> fn_view(#[trigger] p.functions@[k]) == fs[k],
                None => r is Err,
            },
    {
        let ghost t = self.table();
        let ghost prog = self.program;
        let called = collect_called_functions(&self.program.body);
        let ghost cs = stmts_calls(prog.body@, prog.body@.len());
        let mut body = Vec::new();
        std::mem::swap(&mut body, &mut self.program.body);
        let mut functions: Vec<IrFunction> = Vec::new();
        let mut i: usize = 0;
        while i < body.len()
            invariant
                scope_table_wf(self.table()),
                t == self.table(),
                body == prog.body,
                prog == old(self).program,
                cs == stmts_calls(prog.body@, prog.body@.len()),
                self.program == (SemanticProgram { body: self.program.body, ..prog }),
                names_of(called@) == cs,
                i <= body@.len(),
                emit_functions(t, body@, cs, i as nat) matches Some(fs) && functions@.len() == fs.len()
                    && forall|k: int| 0 <= k < fs.len() ==> fn_view(#[trigger] functions@[k]) == fs[k],
            decreases body@.len() - i,
        {
            let keep = match &body[i] {
                SemanticStatement::SemanticFunction { name, .. } => str_equal(name.as_str(), "main") || name_in(&called, name),
                _ => false,
            };
            if keep {
                let res = self.emit_function_ir(&body[i]);
                match res {
                    Ok(f) => {
                        functions.push(f);
                    },
                    Err(e) => {
                        proof {
                            lemma_functions_fail(t, body@, cs, (i + 1) as nat, body@.len());
                        }
                        std::mem::swap(&mut body, &mut self.program.body);
                        return Err(e);
                    },
                }
            }
            i += 1;
        }
        std::mem::swap(&mut body, &mut self.program.body);
        Ok(IrProgram { functions, strings: Vec::new() })
    }
}

/// Once the first `n` statements cannot be translated, no longer prefix can.
proof fn lemma_functions_fail(t: Seq<Scope>, stmts: Seq<SemanticStatement>, called: Set<Seq<char>>, n: nat, m: nat)
    requires
        n <= m <= stmts.len(),
        emit_functions(t, stmts, called, n) is None,
    ensures
        emit_functions(t, stmts, called, m) is None,
    decreases m - n,
{
    if m > n {
        lemma_functions_fail(t, stmts, called, n, (m - 1) as nat);
    }
}

} // verus!
