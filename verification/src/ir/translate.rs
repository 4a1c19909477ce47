//! The meaning of translation to intermediate representation: what the
//! generator emits for each expression and statement, as functions of the
//! scope table and of the register and spill-slot bookkeeping.
use vstd::prelude::*;
use crate::ir::instruction::{spec_ir_type, spec_size_bytes, BranchType, IrInstruction, IrReg, IrType, IrValue};
use crate::parser::expression::{BinaryOperator, Expression, UnaryOperator};
use crate::parser::types::Type;
use crate::semantic::scope::{find_by_id, lookup, Scope, ScopeType};
use crate::semantic::statement::{SemanticParam, SemanticStatement};
use crate::semantic::symbol::{SymbolId, SymbolKind};

verus! {

// ---------------------------------------------------------------------------
// Registers and spill slots

/// The temporaries handed out so far (`next_reg`), those given back and free
/// for reuse (`free`, the last one given back is reused first), and the spill
/// slots used so far (`spill`).
pub struct Counters {
    pub next_reg: usize,
    pub free: Seq<usize>,
    pub spill: usize,
}

/// A fresh temporary: the last one given back, else the next unused one;
/// `None` when the numbering is exhausted.
pub open spec fn take_reg(c: Counters) -> Option<(Counters, IrReg)> {
    if c.free.len() > 0 {
        Some((Counters { free: c.free.drop_last(), ..c }, IrReg::Temp(c.free.last())))
    } else if c.next_reg < usize::MAX {
        Some((Counters { next_reg: (c.next_reg + 1) as usize, ..c }, IrReg::Temp(c.next_reg)))
    } else {
        None
    }
}

/// Gives a temporary back for reuse; other registers are not tracked.
pub open spec fn release(c: Counters, r: IrReg) -> Counters {
    match r {
        IrReg::Temp(n) => Counters { free: c.free.push(n), ..c },
        _ => c,
    }
}

/// A fresh spill slot; `None` when the numbering is exhausted.
pub open spec fn take_slot(c: Counters) -> Option<(Counters, usize)> {
    if c.spill < usize::MAX {
        Some((Counters { spill: (c.spill + 1) as usize, ..c }, c.spill))
    } else {
        None
    }
}

// ---------------------------------------------------------------------------
// Types of expressions

/// The type of what a symbol names: a variable's type, a function's return type.
pub open spec fn kind_type(k: SymbolKind) -> Type {
    match k {
        SymbolKind::Variable { var_type, .. } => var_type,
        SymbolKind::Function { return_type, .. } => return_type,
    }
}

/// The type of an expression seen from scope `s`, as the generator needs it
/// to size loads and stores: `None` where it cannot be told (a call, a
/// dereference or index of a non-pointer, an unknown name).
pub open spec fn expr_type(t: Seq<Scope>, s: int, e: Expression) -> Option<Type>
    decreases e,
{
    match e {
        Expression::Integer(_) => Some(Type::Int32),
        Expression::Bool(_) => Some(Type::Bool),
        Expression::Identifier(name) => match lookup(t, s, name@) {
            Some((si, i)) => match find_by_id(t, t[si].symbols@[i].id.0) {
                Some((sj, j)) => Some(kind_type(t[sj].symbols@[j].kind)),
                None => None,
            },
            None => None,
        },
        Expression::UnaryOperation { op, operand } => match op {
            UnaryOperator::AddressOf => match expr_type(t, s, *operand) {
                Some(ty) => Some(Type::Pointer(Box::new(ty))),
                None => None,
            },
            UnaryOperator::Deref => match expr_type(t, s, *operand) {
                Some(Type::Pointer(inner)) => Some(*inner),
                _ => None,
            },
            UnaryOperator::Not => Some(Type::Bool),
            UnaryOperator::Neg => expr_type(t, s, *operand),
        },
        Expression::BinaryOperation { left, .. } => expr_type(t, s, *left),
        Expression::Array { values, .. } => if values@.len() == 0 {
            Some(Type::Pointer(Box::new(Type::Void)))
        } else {
            match expr_type(t, s, *values@[0]) {
                Some(ty) => Some(Type::Pointer(Box::new(ty))),
                None => None,
            }
        },
        Expression::Index { base, .. } => match expr_type(t, s, *base) {
            Some(Type::Pointer(inner)) => Some(*inner),
            _ => None,
        },
        _ => None,
    }
}

/// The type an expression of pointer type points to.
pub open spec fn pointee(t: Seq<Scope>, s: int, e: Expression) -> Option<Type> {
    match expr_type(t, s, e) {
        Some(Type::Pointer(inner)) => Some(*inner),
        _ => None,
    }
}

/// Whether evaluating an expression makes a call.
pub open spec fn contains_call(e: Expression) -> bool
    decreases e,
{
    match e {
        Expression::FunctionCall { .. } => true,
        Expression::BinaryOperation { left, right, .. } => contains_call(*left) || contains_call(*right),
        Expression::UnaryOperation { operand, .. } => contains_call(*operand),
        _ => false,
    }
}

// ---------------------------------------------------------------------------
// Expressions

/// The code of an expression evaluated from scope `s`: the bookkeeping after
/// it, the register holding the value, and the instructions. `None` where the
/// expression cannot be translated (an unknown name, a name that is not a
/// variable where a value is read, a dereference of a non-pointer, the
/// address of something that is not a name or an element, a form the
/// generator does not handle) or the numbering of registers or slots runs out.
pub open spec fn emit_expr(c: Counters, t: Seq<Scope>, s: int, e: Expression) -> Option<(Counters, IrReg, Seq<IrInstruction>)>
    decreases e, 0nat,
{
    match e {
        Expression::Integer(n) => match take_reg(c) {
            Some((c1, d)) => Some((c1, d, seq![IrInstruction::StoreImm { dest: d, value: IrValue::Immediate(n) }])),
            None => None,
        },
        Expression::Bool(b) => match take_reg(c) {
            Some((c1, d)) => Some((c1, d, seq![IrInstruction::StoreImm { dest: d, value: IrValue::Immediate(if b { 1 } else { 0 }) }])),
            None => None,
        },
        Expression::Identifier(name) => match lookup(t, s, name@) {
            Some((si, i)) => match t[si].symbols@[i].kind {
                SymbolKind::Variable { var_type, .. } => match take_reg(c) {
                    Some((c1, d)) => Some((c1, d, seq![IrInstruction::LoadStack {
                        ir_type: spec_ir_type(var_type),
                        dest: d,
                        symbol: t[si].symbols@[i].id,
                    }])),
                    None => None,
                },
                _ => None,
            },
            None => None,
        },
        Expression::UnaryOperation { op, operand } => match op {
            UnaryOperator::AddressOf => emit_address(c, t, s, *operand),
            UnaryOperator::Deref => match emit_expr(c, t, s, *operand) {
                Some((c1, a, code)) => match pointee(t, s, *operand) {
                    Some(pt) => match take_reg(c1) {
                        Some((c2, d)) => Some((release(c2, a), d, code.push(IrInstruction::LoadIndirect {
                            ir_type: spec_ir_type(pt),
                            dest: d,
                            addr: a,
                        }))),
                        None => None,
                    },
                    None => None,
                },
                None => None,
            },
            _ => match emit_expr(c, t, s, *operand) {
                Some((c1, r, code)) => match take_reg(c1) {
                    Some((c2, d)) => Some((c2, d, code.push(IrInstruction::UnaryOp { op, dest: d, operand: r }))),
                    None => None,
                },
                None => None,
            },
        },
        Expression::BinaryOperation { op, left, right } => match emit_expr(c, t, s, *left) {
            Some((c1, l, lcode)) => match spill_left(c1, l, contains_call(*right)) {
                Some((c2, lf, spill, reload)) => match emit_expr(c2, t, s, *right) {
                    Some((c3, r, rcode)) => match take_reg(c3) {
                        Some((c4, d)) => Some((
                            release(release(c4, l), r),
                            d,
                            lcode + spill + rcode + reload + seq![IrInstruction::BinaryOp { op, dest: d, left: lf, right: r }],
                        )),
                        None => None,
                    },
                    None => None,
                },
                None => None,
            },
            None => None,
        },
        Expression::Array { values, .. } => if values@.len() == 0 {
            match take_reg(c) {
                Some((c1, d)) => Some((c1, d, seq![IrInstruction::StoreImm { dest: d, value: IrValue::Immediate(0) }])),
                None => None,
            }
        } else {
            match expr_type(t, s, *values@[0]) {
                Some(et) => match take_slot(c) {
                    Some((c1, slot)) => match take_reg(c1) {
                        Some((c2, base)) => match emit_values(c2, t, s, values@, values@.len(), base, spec_ir_type(et)) {
                            Some((c3, vcode)) => Some((c3, base, seq![
                                IrInstruction::AllocArray { slot, elem_type: spec_ir_type(et), count: values@.len() as usize },
                                IrInstruction::LoadArrayBase { dest: base, slot },
                            ] + vcode)),
                            None => None,
                        },
                        None => None,
                    },
                    None => None,
                },
                None => None,
            }
        },
        Expression::Index { base, index } => match pointee(t, s, *base) {
            Some(et) => match emit_expr(c, t, s, *base) {
                Some((c1, b, bcode)) => match emit_expr(c1, t, s, *index) {
                    Some((c2, x, xcode)) => match take_reg(c2) {
                        Some((c3, a)) => match scaled_address(c3, a, b, x, spec_size_bytes(spec_ir_type(et))) {
                            Some((c4, mid)) => match take_reg(c4) {
                                Some((c5, d)) => Some((
                                    release(release(release(c5, b), x), a),
                                    d,
                                    bcode + xcode + mid + seq![IrInstruction::LoadIndirect { ir_type: spec_ir_type(et), dest: d, addr: a }],
                                )),
                                None => None,
                            },
                            None => None,
                        },
                        None => None,
                    },
                    None => None,
                },
                None => None,
            },
            None => None,
        },
        Expression::FunctionCall { name, args, .. } => match emit_args(c, t, s, args@, args@.len()) {
            Some((c1, acode)) => match take_reg(c1) {
                Some((c2, d)) => Some((c2, d, acode + seq![
                    IrInstruction::Call { function_name: name },
                    IrInstruction::StoreImm { dest: d, value: IrValue::Reg(IrReg::RetVal) },
                ])),
                None => None,
            },
            None => None,
        },
        _ => None,
    }
}

/// The code of `&e`: the address of a variable, or of an element `b[x]`
/// (base plus index times the element size).
pub open spec fn emit_address(c: Counters, t: Seq<Scope>, s: int, e: Expression) -> Option<(Counters, IrReg, Seq<IrInstruction>)>
    decreases e, 1nat,
{
    match e {
        Expression::Identifier(name) => match lookup(t, s, name@) {
            Some((si, i)) => match take_reg(c) {
                Some((c1, d)) => Some((c1, d, seq![IrInstruction::LoadAddr { dest: d, symbol: t[si].symbols@[i].id }])),
                None => None,
            },
            None => None,
        },
        Expression::Index { base, index } => match pointee(t, s, *base) {
            Some(et) => match emit_expr(c, t, s, *base) {
                Some((c1, b, bcode)) => match emit_expr(c1, t, s, *index) {
                    Some((c2, x, xcode)) => match take_reg(c2) {
                        Some((c3, a)) => match take_reg(c3) {
                            Some((c4, sc)) => match take_reg(c4) {
                                Some((c5, sz)) => Some((
                                    release(release(release(release(c5, b), x), sc), sz),
                                    a,
                                    bcode + xcode + seq![
                                        IrInstruction::StoreImm {
                                            dest: sz,
                                            value: IrValue::Immediate(spec_size_bytes(spec_ir_type(et)) as i32),
                                        },
                                        IrInstruction::BinaryOp { op: BinaryOperator::Mul, dest: sc, left: x, right: sz },
                                        IrInstruction::BinaryOp { op: BinaryOperator::Add, dest: a, left: b, right: sc },
                                    ],
                                )),
                                None => None,
                            },
                            None => None,
                        },
                        None => None,
                    },
                    None => None,
                },
                None => None,
            },
            None => None,
        },
        _ => None,
    }
}

/// Before the right operand is evaluated, a left operand that a call in the
/// right one would clobber is saved to a fresh spill slot and reloaded into a
/// fresh register afterwards: the bookkeeping, the register the left value is
/// read from, and the save and reload code.
pub open spec fn spill_left(c: Counters, l: IrReg, right_calls: bool) -> Option<(Counters, IrReg, Seq<IrInstruction>, Seq<IrInstruction>)> {
    if right_calls {
        match take_slot(c) {
            Some((c1, slot)) => match take_reg(c1) {
                Some((c2, rl)) => Some((
                    c2,
                    rl,
                    seq![IrInstruction::SpillTemp { slot, src: l }],
                    seq![IrInstruction::LoadTemp { slot, dest: rl }],
                )),
                None => None,
            },
            None => None,
        }
    } else {
        Some((c, l, Seq::empty(), Seq::empty()))
    }
}

/// Into `a`, the address of element `x` of `b` for elements of `size` bytes:
/// a plain sum for bytes, else the index scaled through two more
/// temporaries, which are then given back.
pub open spec fn scaled_address(c: Counters, a: IrReg, b: IrReg, x: IrReg, size: usize) -> Option<(Counters, Seq<IrInstruction>)> {
    if size == 1 {
        Some((c, seq![IrInstruction::BinaryOp { op: BinaryOperator::Add, dest: a, left: b, right: x }]))
    } else {
        match take_reg(c) {
            Some((c1, sc)) => match take_reg(c1) {
                Some((c2, sz)) => Some((
                    release(release(c2, sc), sz),
                    seq![
                        IrInstruction::StoreImm { dest: sz, value: IrValue::Immediate(size as i32) },
                        IrInstruction::BinaryOp { op: BinaryOperator::Mul, dest: sc, left: x, right: sz },
                        IrInstruction::BinaryOp { op: BinaryOperator::Add, dest: a, left: b, right: sc },
                    ],
                )),
                None => None,
            },
            None => None,
        }
    }
}

/// The code that evaluates the first `n` call arguments and moves the k-th
/// into argument register k.
pub open spec fn emit_args(c: Counters, t: Seq<Scope>, s: int, args: Seq<Expression>, n: nat) -> Option<(Counters, Seq<IrInstruction>)>
    decreases args, n,
{
    if n == 0 || n > args.len() {
        if n == 0 { Some((c, Seq::empty())) } else { None }
    } else {
        match emit_args(c, t, s, args, (n - 1) as nat) {
            Some((c1, code1)) => match emit_expr(c1, t, s, args[n - 1]) {
                Some((c2, r, code2)) => Some((c2, code1 + code2 + seq![IrInstruction::StoreImm {
                    dest: IrReg::Arg((n - 1) as usize),
                    value: IrValue::Reg(r),
                }])),
                None => None,
            },
            None => None,
        }
    }
}

/// The store of element `i` of an array literal, held in `v`, at `i * size`
/// bytes past `base` (through two more temporaries, given back afterwards);
/// `None` where the offset does not fit an immediate.
pub open spec fn store_element(c: Counters, i: usize, base: IrReg, v: IrReg, et: IrType) -> Option<(Counters, Seq<IrInstruction>)> {
    if i == 0 {
        Some((c, seq![IrInstruction::StoreIndirect { ir_type: et, addr: base, src: v }]))
    } else if i * spec_size_bytes(et) > i32::MAX {
        None
    } else {
        match take_reg(c) {
            Some((c1, off)) => match take_reg(c1) {
                Some((c2, a)) => Some((
                    release(release(c2, off), a),
                    seq![
                        IrInstruction::StoreImm { dest: off, value: IrValue::Immediate((i * spec_size_bytes(et)) as i32) },
                        IrInstruction::BinaryOp { op: BinaryOperator::Add, dest: a, left: base, right: off },
                        IrInstruction::StoreIndirect { ir_type: et, addr: a, src: v },
                    ],
                )),
                None => None,
            },
            None => None,
        }
    }
}

/// The code that evaluates and stores the first `n` values of an array
/// literal at `base`.
pub open spec fn emit_values(
    c: Counters,
    t: Seq<Scope>,
    s: int,
    vals: Seq<Box<Expression>>,
    n: nat,
    base: IrReg,
    et: IrType,
) -> Option<(Counters, Seq<IrInstruction>)>
    decreases vals, n,
{
    if n == 0 || n > vals.len() {
        if n == 0 { Some((c, Seq::empty())) } else { None }
    } else {
        match emit_values(c, t, s, vals, (n - 1) as nat, base, et) {
            Some((c1, code1)) => match emit_expr(c1, t, s, *vals[n - 1]) {
                Some((c2, v, vcode)) => match store_element(c2, (n - 1) as usize, base, v, et) {
                    Some((c3, scode)) => Some((release(c3, v), code1 + vcode + scode)),
                    None => None,
                },
                None => None,
            },
            None => None,
        }
    }
}


// ---------------------------------------------------------------------------
// Statements

/// The state of translation inside a function: the bookkeeping, the scope
/// names are resolved from, and where the search for the next block's scope
/// starts (blocks' scopes follow their parents in table order).
pub struct GenState {
    pub regs: Counters,
    pub scope: usize,
    pub cursor: usize,
}

/// The first scope from `from` on whose parent is scope `parent`.
pub open spec fn child_from(t: Seq<Scope>, parent: usize, from: int) -> Option<int>
    decreases t.len() - from,
{
    if from < 0 || from >= t.len() {
        None
    } else if t[from].parent matches Some(p) && p.0 as int == parent as int {
        Some(from)
    } else {
        child_from(t, parent, from + 1)
    }
}

/// Whether a block ends with a return.
pub open spec fn last_is_return(body: Seq<SemanticStatement>) -> bool {
    body.len() > 0 && body.last() is SemanticReturn
}

/// The code of a block translated in its own scope, the next child of the
/// current one; the current scope is restored afterwards.
pub open spec fn block_in_child(g: GenState, t: Seq<Scope>, body: Seq<SemanticStatement>) -> Option<(GenState, Seq<IrInstruction>, Seq<IrInstruction>)>
    decreases body, body.len() + 1,
{
    match child_from(t, g.scope, g.cursor as int) {
        Some(i) => match emit_block(GenState { scope: i as usize, cursor: (i + 1) as usize, ..g }, t, body, body.len()) {
            Some((g1, a, r)) => Some((GenState { scope: g.scope, ..g1 }, a, r)),
            None => None,
        },
        None => None,
    }
}

/// The state at the start of a statement: temporaries are numbered afresh
/// for each statement.
pub open spec fn fresh_statement(g: GenState) -> GenState {
    GenState { regs: Counters { next_reg: 0, free: Seq::empty(), ..g.regs }, ..g }
}

/// The code of a statement: the state after it, the stack allocations it
/// adds to the function's prologue, and its instructions. `None` where the
/// statement cannot be translated (a nested function, an unknown symbol, an
/// expression that cannot be translated, a block whose scope is missing).
pub open spec fn emit_stmt(g: GenState, t: Seq<Scope>, stmt: SemanticStatement) -> Option<(GenState, Seq<IrInstruction>, Seq<IrInstruction>)>
    decreases stmt, 2nat,
{
    let g0 = fresh_statement(g);
    match stmt {
        SemanticStatement::SemanticIf { .. } => emit_if_stmt(g0, t, stmt),
        SemanticStatement::SemanticWhile { .. } => emit_while_stmt(g0, t, stmt),
        _ => emit_simple_stmt(g0, t, stmt),
    }
}

/// The code of a statement without blocks, from state `g0`.
pub open spec fn emit_simple_stmt(g0: GenState, t: Seq<Scope>, stmt: SemanticStatement) -> Option<(GenState, Seq<IrInstruction>, Seq<IrInstruction>)> {
    let s = g0.scope as int;
    match stmt {
        SemanticStatement::SemanticVarDecl { symbol, initializer } => match find_by_id(t, symbol.0) {
            Some((si, i)) => match t[si].symbols@[i].kind {
                SymbolKind::Variable { var_type, .. } => match initializer {
                    Some(e) => match emit_expr(g0.regs, t, s, e) {
                        Some((c1, r, code)) => Some((
                            GenState { regs: c1, ..g0 },
                            seq![IrInstruction::Alloc { ir_type: spec_ir_type(var_type), symbol }],
                            code.push(IrInstruction::StoreStack { ir_type: spec_ir_type(var_type), symbol, src: r }),
                        )),
                        None => None,
                    },
                    None => Some((g0, seq![IrInstruction::Alloc { ir_type: spec_ir_type(var_type), symbol }], Seq::empty())),
                },
                _ => Some((g0, Seq::empty(), Seq::empty())),
            },
            None => None,
        },
        SemanticStatement::SemanticFunctionCall { name, args, .. } => match emit_args(g0.regs, t, s, args@, args@.len()) {
            Some((c1, code)) => Some((GenState { regs: c1, ..g0 }, Seq::empty(), code.push(IrInstruction::Call { function_name: name }))),
            None => None,
        },
        SemanticStatement::SemanticAssign { symbol, value } => match find_by_id(t, symbol.0) {
            Some((si, i)) => match t[si].symbols@[i].kind {
                SymbolKind::Variable { var_type, .. } => match emit_expr(g0.regs, t, s, value) {
                    Some((c1, r, code)) => Some((
                        GenState { regs: c1, ..g0 },
                        Seq::empty(),
                        code.push(IrInstruction::StoreStack { ir_type: spec_ir_type(var_type), symbol, src: r }),
                    )),
                    None => None,
                },
                _ => Some((g0, Seq::empty(), Seq::empty())),
            },
            None => None,
        },
        SemanticStatement::SemanticDerefAssign { target, value, .. } => match target {
            Expression::UnaryOperation { op, operand } => if op == UnaryOperator::Deref {
                match emit_expr(g0.regs, t, s, *operand) {
                    Some((c1, a, acode)) => match emit_expr(c1, t, s, value) {
                        Some((c2, v, vcode)) => match pointee(t, s, *operand) {
                            Some(pt) => Some((
                                GenState { regs: release(release(c2, a), v), ..g0 },
                                Seq::empty(),
                                acode + vcode + seq![IrInstruction::StoreIndirect { ir_type: spec_ir_type(pt), addr: a, src: v }],
                            )),
                            None => None,
                        },
                        None => None,
                    },
                    None => None,
                }
            } else {
                None
            },
            _ => None,
        },
        SemanticStatement::SemanticAssembly { body } => Some((
            g0,
            Seq::empty(),
            body@.map_values(|line: String| IrInstruction::Assembly { line }),
        )),
        SemanticStatement::SemanticReturn { value } => match value {
            Some(e) => match emit_expr(g0.regs, t, s, e) {
                Some((c1, r, code)) => Some((
                    GenState { regs: c1, ..g0 },
                    Seq::empty(),
                    code + seq![IrInstruction::StoreImm { dest: IrReg::RetVal, value: IrValue::Reg(r) }, IrInstruction::Ret],
                )),
                None => None,
            },
            None => Some((g0, Seq::empty(), seq![IrInstruction::Ret])),
        },
        _ => None,
    }
}

/// The code of an `if`, from state `g0`: the condition, a branch to the
/// `else` part (or past the statement) when it is false, each part in its
/// own scope followed by a jump past the statement unless it ends with a
/// return, and the labels.
pub open spec fn emit_if_stmt(g0: GenState, t: Seq<Scope>, stmt: SemanticStatement) -> Option<(GenState, Seq<IrInstruction>, Seq<IrInstruction>)>
    decreases stmt, 1nat,
{
    let s = g0.scope as int;
    match stmt {
        SemanticStatement::SemanticIf { label, condition, body, else_label, else_body } => match emit_expr(g0.regs, t, s, condition) {
            Some((c1, r, ccode)) => {
                let target = match else_label {
                    Some(l) => l,
                    None => label,
                };
                let head = ccode.push(IrInstruction::Branch { reg: r, label: target, branch_type: BranchType::EqZero });
                match block_in_child(GenState { regs: c1, ..g0 }, t, body@) {
                    Some((g1, a1, r1)) => {
                        let then_code = head + r1 + if last_is_return(body@) {
                            Seq::empty()
                        } else {
                            seq![IrInstruction::Jump { label }]
                        };
                        match else_label {
                            None => Some((g1, a1, then_code.push(IrInstruction::Label { label_name: label }))),
                            Some(_) => match else_part(g1, t, stmt) {
                                Some((g2, a2, code2)) => Some((g2, a1 + a2, then_code + code2)),
                                None => None,
                            },
                        }
                    },
                    None => None,
                }
            },
            None => None,
        },
        _ => None,
    }
}

/// The `else` part of an `if` with an `else` label, from state `g1`: the
/// label, the part in its own scope, a jump past the statement unless it
/// ends with a return, and the label that ends the statement.
pub open spec fn else_part(g1: GenState, t: Seq<Scope>, stmt: SemanticStatement) -> Option<(GenState, Seq<IrInstruction>, Seq<IrInstruction>)>
    decreases stmt, 0nat,
{
    match stmt {
        SemanticStatement::SemanticIf { label, else_label, else_body, .. } => match (else_label, else_body) {
            (Some(el), Some(eb)) => match block_in_child(g1, t, eb@) {
                Some((g2, a2, r2)) => Some((
                    g2,
                    a2,
                    seq![IrInstruction::Label { label_name: el }] + r2 + if last_is_return(eb@) {
                        Seq::empty()
                    } else {
                        seq![IrInstruction::Jump { label }]
                    } + seq![IrInstruction::Label { label_name: label }],
                )),
                None => None,
            },
            _ => None,
        },
        _ => None,
    }
}

/// The code of a `while`, from state `g0`: a jump to the condition, the
/// body in its own scope, then the condition and a branch back to the body
/// while it holds.
pub open spec fn emit_while_stmt(g0: GenState, t: Seq<Scope>, stmt: SemanticStatement) -> Option<(GenState, Seq<IrInstruction>, Seq<IrInstruction>)>
    decreases stmt, 1nat,
{
    let s = g0.scope as int;
    match stmt {
        SemanticStatement::SemanticWhile { body_label, body, cond_label, condition } => match emit_expr(g0.regs, t, s, condition) {
            Some((c1, r, ccode)) => match block_in_child(GenState { regs: c1, ..g0 }, t, body@) {
                Some((g1, a1, r1)) => Some((
                    g1,
                    a1,
                    seq![IrInstruction::Jump { label: cond_label }, IrInstruction::Label { label_name: body_label }] + r1
                        + seq![IrInstruction::Label { label_name: cond_label }] + ccode
                        + seq![IrInstruction::Branch { reg: r, label: body_label, branch_type: BranchType::NeqZero }],
                )),
                None => None,
            },
            None => None,
        },
        _ => None,
    }
}

/// The code of the first `n` statements of a block, in order.
pub open spec fn emit_block(g: GenState, t: Seq<Scope>, stmts: Seq<SemanticStatement>, n: nat) -> Option<(GenState, Seq<IrInstruction>, Seq<IrInstruction>)>
    decreases stmts, n,
{
    if n == 0 || n > stmts.len() {
        if n == 0 { Some((g, Seq::empty(), Seq::empty())) } else { None }
    } else {
        match emit_block(g, t, stmts, (n - 1) as nat) {
            Some((g1, a1, r1)) => match emit_stmt(g1, t, stmts[n - 1]) {
                Some((g2, a2, r2)) => Some((g2, a1 + a2, r1 + r2)),
                None => None,
            },
            None => None,
        }
    }
}

// ---------------------------------------------------------------------------
// Functions and programs

/// The first scope from `from` on that is the body of function `sym`.
pub open spec fn function_scope_from(t: Seq<Scope>, sym: SymbolId, from: int) -> Option<int>
    decreases t.len() - from,
{
    if from < 0 || from >= t.len() {
        None
    } else if t[from].kind matches ScopeType::FunctionBody { parent, .. } && parent == sym {
        Some(from)
    } else {
        function_scope_from(t, sym, from + 1)
    }
}

/// The scope of function `sym`'s body; the global scope if it has none.
pub open spec fn function_scope(t: Seq<Scope>, sym: SymbolId) -> usize {
    match function_scope_from(t, sym, 0) {
        Some(i) => i as usize,
        None => 0,
    }
}

/// A function's parameters are given stack slots and stored there from the
/// argument registers on entry: the allocations and the stores.
pub open spec fn param_code(params: Seq<SemanticParam>) -> (Seq<IrInstruction>, Seq<IrInstruction>) {
    (
        Seq::new(params.len(), |i: int| IrInstruction::Alloc { ir_type: spec_ir_type(params[i].param_type), symbol: params[i].symbol }),
        Seq::new(params.len(), |i: int| IrInstruction::StoreStack {
            ir_type: spec_ir_type(params[i].param_type),
            symbol: params[i].symbol,
            src: IrReg::Arg(i as usize),
        }),
    )
}

/// Whether some instruction is a call.
pub open spec fn has_call_instruction(code: Seq<IrInstruction>) -> bool {
    exists|i: int| 0 <= i < code.len() && (#[trigger] code[i]) is Call
}

/// The translation of a function declaration: its name (as its symbol
/// records it), its return type, and its instructions: the stack
/// allocations first, then the save of the return address if the body makes
/// a call, then the parameter stores and the body.
pub open spec fn emit_function(t: Seq<Scope>, stmt: SemanticStatement) -> Option<(String, IrType, Seq<IrInstruction>)> {
    match stmt {
        SemanticStatement::SemanticFunction { symbol, return_type, body, params, .. } => {
            let s0 = function_scope(t, symbol);
            let g = GenState { regs: Counters { next_reg: 0, free: Seq::empty(), spill: 0 }, scope: s0, cursor: (s0 + 1) as usize };
            match find_by_id(t, symbol.0) {
                Some((si, i)) => match emit_block(g, t, body@, body@.len()) {
                    Some((g1, a, r)) => {
                        let allocs = param_code(params@).0 + a;
                        let rest = param_code(params@).1 + r;
                        Some((
                            t[si].symbols@[i].name,
                            spec_ir_type(return_type),
                            allocs + if has_call_instruction(rest) { seq![IrInstruction::SaveRa] } else { Seq::empty() } + rest,
                        ))
                    },
                    None => None,
                },
                None => None,
            }
        },
        _ => None,
    }
}

// ---------------------------------------------------------------------------
// Which functions are translated

/// The names of the functions called in an expression, looking through
/// call arguments and binary operations.
pub open spec fn expr_calls(e: Expression) -> Set<Seq<char>>
    decreases e, 0nat,
{
    match e {
        Expression::FunctionCall { name, args, .. } => args_calls(args@, args@.len()).insert(name@),
        Expression::BinaryOperation { left, right, .. } => expr_calls(*left).union(expr_calls(*right)),
        _ => Set::empty(),
    }
}

/// The names of the functions called in the first `n` arguments.
pub open spec fn args_calls(args: Seq<Expression>, n: nat) -> Set<Seq<char>>
    decreases args, n,
{
    if n == 0 || n > args.len() {
        Set::empty()
    } else {
        args_calls(args, (n - 1) as nat).union(expr_calls(args[n - 1]))
    }
}

/// The names of the functions a statement calls, looking into nested
/// blocks, initializers, assigned values, returned values and conditions.
pub open spec fn stmt_calls(stmt: SemanticStatement) -> Set<Seq<char>>
    decreases stmt, 0nat,
{
    match stmt {
        SemanticStatement::SemanticFunctionCall { name, args, .. } => args_calls(args@, args@.len()).insert(name@),
        SemanticStatement::SemanticFunction { body, .. } => stmts_calls(body@, body@.len()),
        SemanticStatement::SemanticVarDecl { initializer, .. } => match initializer {
            Some(e) => expr_calls(e),
            None => Set::empty(),
        },
        SemanticStatement::SemanticAssign { value, .. } => expr_calls(value),
        SemanticStatement::SemanticReturn { value } => match value {
            Some(e) => expr_calls(e),
            None => Set::empty(),
        },
        SemanticStatement::SemanticIf { condition, body, else_body, .. } => expr_calls(condition).union(stmts_calls(body@, body@.len())).union(
            match else_body {
                Some(eb) => stmts_calls(eb@, eb@.len()),
                None => Set::empty(),
            },
        ),
        SemanticStatement::SemanticWhile { condition, body, .. } => expr_calls(condition).union(stmts_calls(body@, body@.len())),
        _ => Set::empty(),
    }
}

/// The names of the functions the first `n` statements call.
pub open spec fn stmts_calls(stmts: Seq<SemanticStatement>, n: nat) -> Set<Seq<char>>
    decreases stmts, n,
{
    if n == 0 || n > stmts.len() {
        Set::empty()
    } else {
        stmts_calls(stmts, (n - 1) as nat).union(stmt_calls(stmts[n - 1]))
    }
}

/// Whether a top-level statement is a function that is translated: `main`,
/// and every function called somewhere in the program.
pub open spec fn kept(stmt: SemanticStatement, called: Set<Seq<char>>) -> bool {
    stmt matches SemanticStatement::SemanticFunction { name, .. } && (name@ == "main"@ || called.contains(name@))
}

/// The translations of the kept functions among the first `n` top-level
/// statements, in order; `None` if one of them cannot be translated.
pub open spec fn emit_functions(
    t: Seq<Scope>,
    stmts: Seq<SemanticStatement>,
    called: Set<Seq<char>>,
    n: nat,
) -> Option<Seq<(String, IrType, Seq<IrInstruction>)>>
    decreases n,
{
    if n == 0 || n > stmts.len() {
        if n == 0 { Some(Seq::empty()) } else { None }
    } else {
        match emit_functions(t, stmts, called, (n - 1) as nat) {
            Some(fs) => if kept(stmts[n - 1], called) {
                match emit_function(t, stmts[n - 1]) {
                    Some(f) => Some(fs.push(f)),
                    None => None,
                }
            } else {
                Some(fs)
            },
            None => None,
        }
    }
}

// ---------------------------------------------------------------------------
// Laws

/// A temporary given back is the next one handed out, and handing it out
/// restores the bookkeeping as it was before it was given back; giving back
/// anything but a temporary changes nothing; with none given back, the next
/// unused number is handed out.
pub proof fn lemma_release_then_take(c: Counters, r: IrReg)
    ensures
        r matches IrReg::Temp(n) ==> take_reg(release(c, r)) == Some((c, r)),
        !(r is Temp) ==> release(c, r) == c,
        c.free.len() == 0 && c.next_reg < usize::MAX ==> take_reg(c) == Some(
            (Counters { next_reg: (c.next_reg + 1) as usize, ..c }, IrReg::Temp(c.next_reg)),
        ),
{
    if let IrReg::Temp(n) = r {
        assert(c.free.push(n).drop_last() =~= c.free);
    }
}

/// Taking the address of an expression gives a pointer to its type, and
/// dereferencing that address gives the expression's type back; literals
/// have their fixed types.
pub proof fn lemma_address_and_deref_types(t: Seq<Scope>, s: int, e: Expression)
    ensures
        expr_type(t, s, Expression::UnaryOperation { op: UnaryOperator::AddressOf, operand: Box::new(e) })
            == (match expr_type(t, s, e) {
                Some(ty) => Some(Type::Pointer(Box::new(ty))),
                None => None,
            }),
        expr_type(
            t,
            s,
            Expression::UnaryOperation {
                op: UnaryOperator::Deref,
                operand: Box::new(Expression::UnaryOperation { op: UnaryOperator::AddressOf, operand: Box::new(e) }),
            },
        ) == expr_type(t, s, e),
        forall|v: i32| #[trigger] expr_type(t, s, Expression::Integer(v)) == Some(Type::Int32),
        forall|b: bool| #[trigger] expr_type(t, s, Expression::Bool(b)) == Some(Type::Bool),
{
}

/// Law: in the code of an `if` with an `else` part, the branch taken when
/// the condition is false targets the `else` label, and that label comes
/// after the branch and is immediately followed by the code of the `else`
/// body, so the `else` body runs exactly when the branch is taken.
pub proof fn lemma_else_label_leads_to_else_body(g: GenState, t: Seq<Scope>, stmt: SemanticStatement)
    requires
        stmt matches SemanticStatement::SemanticIf { else_label: Some(_), else_body: Some(_), .. },
        emit_stmt(g, t, stmt) is Some,
    ensures
        stmt matches SemanticStatement::SemanticIf { else_label: Some(el), else_body: Some(eb), .. } ==> {
            let code = emit_stmt(g, t, stmt)->Some_0.2;
            exists|i: int, j: int, g1: GenState|
                #![trigger code[i], code[j], block_in_child(g1, t, eb@)]
                0 <= i < j < code.len()
                && code[i] is Branch && code[i]->Branch_label == el && code[i]->Branch_branch_type == BranchType::EqZero
                && code[j] == IrInstruction::Label { label_name: el }
                && block_in_child(g1, t, eb@) is Some
                && j + 1 + block_in_child(g1, t, eb@)->Some_0.2.len() <= code.len()
                && code.subrange(j + 1, j + 1 + block_in_child(g1, t, eb@)->Some_0.2.len()) == block_in_child(g1, t, eb@)->Some_0.2
        },
{
    if let SemanticStatement::SemanticIf { label, condition, body, else_label: Some(el), else_body: Some(eb) } = stmt {
        let g0 = fresh_statement(g);
        let code = emit_stmt(g, t, stmt)->Some_0.2;
        let (c1, r, ccode) = emit_expr(g0.regs, t, g0.scope as int, condition)->Some_0;
        let head = ccode.push(IrInstruction::Branch { reg: r, label: el, branch_type: BranchType::EqZero });
        let (g1, a1, r1) = block_in_child(GenState { regs: c1, ..g0 }, t, body@)->Some_0;
        let then_code = head + r1 + if last_is_return(body@) {
            Seq::<IrInstruction>::empty()
        } else {
            seq![IrInstruction::Jump { label }]
        };
        let (g2, a2, r2) = block_in_child(g1, t, eb@)->Some_0;
        let code2 = seq![IrInstruction::Label { label_name: el }] + r2 + if last_is_return(eb@) {
            Seq::<IrInstruction>::empty()
        } else {
            seq![IrInstruction::Jump { label }]
        } + seq![IrInstruction::Label { label_name: label }];
        assert(code == then_code + code2);
        let i = ccode.len() as int;
        let j = then_code.len() as int;
        assert(code[i] == head[i]);
        assert(code[j] == code2[0]);
        assert(code.subrange(j + 1, j + 1 + r2.len()) =~= r2) by {
            assert forall|k: int| 0 <= k < r2.len() implies code.subrange(j + 1, j + 1 + r2.len())[k] == r2[k] by {
                assert(code[j + 1 + k] == code2[1 + k]);
            }
        }
        assert(code[i] is Branch && code[i]->Branch_label == el);
    }
}

/// Whether every call in an expression can be seen through the forms the
/// search for called functions looks into: literals, names, calls whose
/// arguments are such expressions, and binary operations of them.
pub open spec fn calls_visible(e: Expression) -> bool
    decreases e, 0nat,
{
    match e {
        Expression::Integer(_) => true,
        Expression::Bool(_) => true,
        Expression::Identifier(_) => true,
        Expression::FunctionCall { args, .. } => args_visible(args@, args@.len()),
        Expression::BinaryOperation { left, right, .. } => calls_visible(*left) && calls_visible(*right),
        _ => false,
    }
}

/// Whether the first `n` call arguments satisfy `calls_visible`.
pub open spec fn args_visible(args: Seq<Expression>, n: nat) -> bool
    decreases args, n,
{
    if n == 0 || n > args.len() {
        true
    } else {
        args_visible(args, (n - 1) as nat) && calls_visible(args[n - 1])
    }
}

/// Every call instruction of `code` calls one of `names`.
#[verifier::opaque]
pub open spec fn calls_among(code: Seq<IrInstruction>, names: Set<Seq<char>>) -> bool {
    forall|k: int| 0 <= k < code.len() && (#[trigger] code[k]) is Call ==> names.contains(code[k]->Call_function_name@)
}

proof fn lemma_calls_among_concat(a: Seq<IrInstruction>, b: Seq<IrInstruction>, names: Set<Seq<char>>)
    requires
        calls_among(a, names),
        calls_among(b, names),
    ensures
        calls_among(a + b, names),
{
    reveal(calls_among);
    assert forall|k: int| 0 <= k < (a + b).len() && (#[trigger] (a + b)[k]) is Call implies names.contains((a + b)[k]->Call_function_name@) by {
        if k >= a.len() {
            assert((a + b)[k] == b[k - a.len()]);
        }
    }
}

proof fn lemma_calls_among_wider(a: Seq<IrInstruction>, names: Set<Seq<char>>, more: Set<Seq<char>>)
    requires
        calls_among(a, names),
        names.subset_of(more),
    ensures
        calls_among(a, more),
{
    reveal(calls_among);
}

/// Law: every function the code of an expression calls is among the
/// functions the expression is found to call, so a function called there
/// is kept for translation. This holds wherever the expression's calls can
/// be seen (`calls_visible`): calls nested in both operands of a binary
/// operation and in call arguments count.
pub proof fn lemma_expr_calls_cover_code(c: Counters, t: Seq<Scope>, s: int, e: Expression)
    requires
        calls_visible(e),
        emit_expr(c, t, s, e) is Some,
    ensures
        calls_among(emit_expr(c, t, s, e)->Some_0.2, expr_calls(e)),
    decreases e, 0nat,
{
    match e {
        Expression::BinaryOperation { op, left, right } => {
            let (c1, l, lcode) = emit_expr(c, t, s, *left)->Some_0;
            let (c2, lf, spill, reload) = spill_left(c1, l, contains_call(*right))->Some_0;
            let (c3, r, rcode) = emit_expr(c2, t, s, *right)->Some_0;
            lemma_expr_calls_cover_code(c, t, s, *left);
            lemma_expr_calls_cover_code(c2, t, s, *right);
            lemma_calls_among_wider(lcode, expr_calls(*left), expr_calls(e));
            lemma_calls_among_wider(rcode, expr_calls(*right), expr_calls(e));
            assert(calls_among(spill, expr_calls(e))) by {
                reveal(calls_among);
            }
            assert(calls_among(reload, expr_calls(e))) by {
                reveal(calls_among);
            }
            let (c4, d) = take_reg(c3)->Some_0;
            let last = seq![IrInstruction::BinaryOp { op, dest: d, left: lf, right: r }];
            assert(calls_among(last, expr_calls(e))) by {
                reveal(calls_among);
            }
            lemma_calls_among_concat(lcode, spill, expr_calls(e));
            lemma_calls_among_concat(lcode + spill, rcode, expr_calls(e));
            lemma_calls_among_concat(lcode + spill + rcode, reload, expr_calls(e));
            lemma_calls_among_concat(lcode + spill + rcode + reload, last, expr_calls(e));
        },
        Expression::FunctionCall { name, args, .. } => {
            let (c1, acode) = emit_args(c, t, s, args@, args@.len())->Some_0;
            lemma_args_calls_cover_code(c, t, s, args@, args@.len());
            lemma_calls_among_wider(acode, args_calls(args@, args@.len()), expr_calls(e));
            let (c2, d) = take_reg(c1)->Some_0;
            let tail = seq![
                IrInstruction::Call { function_name: name },
                IrInstruction::StoreImm { dest: d, value: IrValue::Reg(IrReg::RetVal) },
            ];
            assert(calls_among(tail, expr_calls(e))) by {
                reveal(calls_among);
                assert forall|k: int| 0 <= k < tail.len() && (#[trigger] tail[k]) is Call implies expr_calls(e).contains(tail[k]->Call_function_name@) by {
                    assert(k == 0);
                }
            }
            lemma_calls_among_concat(acode, tail, expr_calls(e));
        },
        _ => {
            reveal(calls_among);
        },
    }
}

/// The call arguments' part of `lemma_expr_calls_cover_code`.
pub proof fn lemma_args_calls_cover_code(c: Counters, t: Seq<Scope>, s: int, args: Seq<Expression>, n: nat)
    requires
        args_visible(args, n),
        emit_args(c, t, s, args, n) is Some,
    ensures
        calls_among(emit_args(c, t, s, args, n)->Some_0.1, args_calls(args, n)),
    decreases args, n,
{
    if n > 0 && n <= args.len() {
        let (c1, code1) = emit_args(c, t, s, args, (n - 1) as nat)->Some_0;
        let (c2, r, code2) = emit_expr(c1, t, s, args[n - 1])->Some_0;
        lemma_args_calls_cover_code(c, t, s, args, (n - 1) as nat);
        lemma_expr_calls_cover_code(c1, t, s, args[n - 1]);
        lemma_calls_among_wider(code1, args_calls(args, (n - 1) as nat), args_calls(args, n));
        lemma_calls_among_wider(code2, expr_calls(args[n - 1]), args_calls(args, n));
        let last = seq![IrInstruction::StoreImm { dest: IrReg::Arg((n - 1) as usize), value: IrValue::Reg(r) }];
        assert(calls_among(last, args_calls(args, n))) by {
                reveal(calls_among);
            }
        lemma_calls_among_concat(code1, code2, args_calls(args, n));
        lemma_calls_among_concat(code1 + code2, last, args_calls(args, n));
    } else {
        reveal(calls_among);
    }
}

/// Whether every call in a statement can be seen by the search for called
/// functions: its expressions satisfy `calls_visible`, its blocks this
/// predicate, and it is no store through a pointer.
pub open spec fn stmt_calls_visible(stmt: SemanticStatement) -> bool
    decreases stmt, 0nat,
{
    match stmt {
        SemanticStatement::SemanticFunctionCall { args, .. } => args_visible(args@, args@.len()),
        SemanticStatement::SemanticFunction { body, .. } => stmts_calls_visible(body@, body@.len()),
        SemanticStatement::SemanticVarDecl { initializer, .. } => match initializer {
            Some(e) => calls_visible(e),
            None => true,
        },
        SemanticStatement::SemanticAssign { value, .. } => calls_visible(value),
        SemanticStatement::SemanticReturn { value } => match value {
            Some(e) => calls_visible(e),
            None => true,
        },
        SemanticStatement::SemanticIf { condition, body, else_body, .. } => calls_visible(condition)
            && stmts_calls_visible(body@, body@.len()) && match else_body {
                Some(eb) => stmts_calls_visible(eb@, eb@.len()),
                None => true,
            },
        SemanticStatement::SemanticWhile { condition, body, .. } => calls_visible(condition)
            && stmts_calls_visible(body@, body@.len()),
        SemanticStatement::SemanticAssembly { .. } => true,
        SemanticStatement::SemanticDerefAssign { .. } => false,
    }
}

/// Whether the first `n` statements satisfy `stmt_calls_visible`.
pub open spec fn stmts_calls_visible(stmts: Seq<SemanticStatement>, n: nat) -> bool
    decreases stmts, n,
{
    if n == 0 || n > stmts.len() {
        true
    } else {
        stmts_calls_visible(stmts, (n - 1) as nat) && stmt_calls_visible(stmts[n - 1])
    }
}

/// The statement part of `lemma_function_calls_are_kept`: the code and the
/// allocations of a statement call only functions the statement is found
/// to call.
/// The statement part of `lemma_function_calls_are_kept`: the code and the
/// allocations of a statement call only functions the statement is found
/// to call.
pub proof fn lemma_stmt_calls_cover_code(g: GenState, t: Seq<Scope>, stmt: SemanticStatement)
    requires
        stmt_calls_visible(stmt),
        emit_stmt(g, t, stmt) is Some,
    ensures
        calls_among(emit_stmt(g, t, stmt)->Some_0.1, stmt_calls(stmt)),
        calls_among(emit_stmt(g, t, stmt)->Some_0.2, stmt_calls(stmt)),
    decreases stmt, 2nat,
{
    let g0 = fresh_statement(g);
    match stmt {
        SemanticStatement::SemanticIf { .. } => lemma_if_calls_cover_code(g0, t, stmt),
        SemanticStatement::SemanticWhile { .. } => lemma_while_calls_cover_code(g0, t, stmt),
        _ => lemma_simple_calls_cover_code(g0, t, stmt),
    }
}

/// The `while` part of `lemma_stmt_calls_cover_code`.
#[verifier::spinoff_prover]
#[verifier::rlimit(50)]
pub proof fn lemma_while_calls_cover_code(g0: GenState, t: Seq<Scope>, stmt: SemanticStatement)
    requires
        stmt is SemanticWhile,
        stmt_calls_visible(stmt),
        emit_while_stmt(g0, t, stmt) is Some,
    ensures
        calls_among(emit_while_stmt(g0, t, stmt)->Some_0.1, stmt_calls(stmt)),
        calls_among(emit_while_stmt(g0, t, stmt)->Some_0.2, stmt_calls(stmt)),
    decreases stmt, 1nat,
{
    let s = g0.scope as int;
    let sc = stmt_calls(stmt);
    match stmt {
        SemanticStatement::SemanticWhile { body, condition, body_label, cond_label } => {
            let (c1, r, ccode) = emit_expr(g0.regs, t, s, condition)->Some_0;
            let (g1, a1, r1) = block_in_child(GenState { regs: c1, ..g0 }, t, body@)->Some_0;
            lemma_expr_calls_cover_code(g0.regs, t, s, condition);
            lemma_block_in_child_calls_cover_code(GenState { regs: c1, ..g0 }, t, body@);
            lemma_calls_among_wider(ccode, expr_calls(condition), sc);
            lemma_calls_among_wider(r1, stmts_calls(body@, body@.len()), sc);
            lemma_calls_among_wider(a1, stmts_calls(body@, body@.len()), sc);
            let p1 = seq![IrInstruction::Jump { label: cond_label }, IrInstruction::Label { label_name: body_label }];
            let p2 = seq![IrInstruction::Label { label_name: cond_label }];
            let p3 = seq![IrInstruction::Branch { reg: r, label: body_label, branch_type: BranchType::NeqZero }];
            assert(calls_among(p1, sc)) by {
                reveal(calls_among);
            }
            assert(calls_among(p2, sc)) by {
                reveal(calls_among);
            }
            assert(calls_among(p3, sc)) by {
                reveal(calls_among);
            }
            lemma_calls_among_concat(p1, r1, sc);
            lemma_calls_among_concat(p1 + r1, p2, sc);
            lemma_calls_among_concat(p1 + r1 + p2, ccode, sc);
            lemma_calls_among_concat(p1 + r1 + p2 + ccode, p3, sc);
        },
        _ => {},
    }
}

/// The part of `lemma_stmt_calls_cover_code` for statements without blocks.
#[verifier::spinoff_prover]
pub proof fn lemma_simple_calls_cover_code(g0: GenState, t: Seq<Scope>, stmt: SemanticStatement)
    requires
        !(stmt is SemanticIf),
        !(stmt is SemanticWhile),
        stmt_calls_visible(stmt),
        emit_simple_stmt(g0, t, stmt) is Some,
    ensures
        calls_among(emit_simple_stmt(g0, t, stmt)->Some_0.1, stmt_calls(stmt)),
        calls_among(emit_simple_stmt(g0, t, stmt)->Some_0.2, stmt_calls(stmt)),
{
    reveal(calls_among);
    let s = g0.scope as int;
    let sc = stmt_calls(stmt);
    match stmt {
        SemanticStatement::SemanticVarDecl { symbol, initializer } => {
            if let Some(e) = initializer {
                let (si, i) = find_by_id(t, symbol.0)->Some_0;
                if t[si].symbols@[i].kind is Variable {
                    let (c1, r, code) = emit_expr(g0.regs, t, s, e)->Some_0;
                    lemma_expr_calls_cover_code(g0.regs, t, s, e);
                    assert forall|k: int| 0 <= k < code.len() + 1 && (#[trigger] code.push(IrInstruction::StoreStack { ir_type: spec_ir_type(t[si].symbols@[i].kind->Variable_var_type), symbol, src: r })[k]) is Call
                        implies sc.contains(code.push(IrInstruction::StoreStack { ir_type: spec_ir_type(t[si].symbols@[i].kind->Variable_var_type), symbol, src: r })[k]->Call_function_name@) by {
                        assert(k < code.len());
                        assert(code.push(IrInstruction::StoreStack { ir_type: spec_ir_type(t[si].symbols@[i].kind->Variable_var_type), symbol, src: r })[k] == code[k]);
                    }
                }
            }
        },
        SemanticStatement::SemanticAssign { symbol, value } => {
            let (si, i) = find_by_id(t, symbol.0)->Some_0;
            if t[si].symbols@[i].kind is Variable {
                let (c1, r, code) = emit_expr(g0.regs, t, s, value)->Some_0;
                lemma_expr_calls_cover_code(g0.regs, t, s, value);
                let st = IrInstruction::StoreStack { ir_type: spec_ir_type(t[si].symbols@[i].kind->Variable_var_type), symbol, src: r };
                assert(calls_among(seq![st], sc)) by {
                reveal(calls_among);
            }
                lemma_calls_among_concat(code, seq![st], sc);
                assert(code.push(st) =~= code + seq![st]);
            }
        },
        SemanticStatement::SemanticFunctionCall { name, args, .. } => {
            let (c1, code) = emit_args(g0.regs, t, s, args@, args@.len())->Some_0;
            lemma_args_calls_cover_code(g0.regs, t, s, args@, args@.len());
            lemma_calls_among_wider(code, args_calls(args@, args@.len()), sc);
            let call = IrInstruction::Call { function_name: name };
            assert(calls_among(seq![call], sc)) by {
                reveal(calls_among);
            }
            lemma_calls_among_concat(code, seq![call], sc);
            assert(code.push(call) =~= code + seq![call]);
        },
        SemanticStatement::SemanticReturn { value } => {
            if let Some(e) = value {
                let (c1, r, code) = emit_expr(g0.regs, t, s, e)->Some_0;
                lemma_expr_calls_cover_code(g0.regs, t, s, e);
                let tail = seq![IrInstruction::StoreImm { dest: IrReg::RetVal, value: IrValue::Reg(r) }, IrInstruction::Ret];
                assert(calls_among(tail, sc)) by {
                reveal(calls_among);
            }
                lemma_calls_among_concat(code, tail, sc);
            }
        },
        SemanticStatement::SemanticAssembly { body } => {
            let code = body@.map_values(|line: String| IrInstruction::Assembly { line });
            assert(calls_among(code, sc)) by {
                reveal(calls_among);
            }
        },
        _ => {},
    }
}

/// The `if` part of `lemma_stmt_calls_cover_code`.
#[verifier::spinoff_prover]
#[verifier::rlimit(50)]
pub proof fn lemma_if_calls_cover_code(g0: GenState, t: Seq<Scope>, stmt: SemanticStatement)
    requires
        stmt is SemanticIf,
        stmt_calls_visible(stmt),
        emit_if_stmt(g0, t, stmt) is Some,
    ensures
        calls_among(emit_if_stmt(g0, t, stmt)->Some_0.1, stmt_calls(stmt)),
        calls_among(emit_if_stmt(g0, t, stmt)->Some_0.2, stmt_calls(stmt)),
    decreases stmt, 1nat,
{
    let s = g0.scope as int;
    let sc = stmt_calls(stmt);
    if let SemanticStatement::SemanticIf { label, condition, body, else_label, else_body } = stmt {
        let (c1, r, ccode) = emit_expr(g0.regs, t, s, condition)->Some_0;
        let target = match else_label {
            Some(l) => l,
            None => label,
        };
        let head = ccode.push(IrInstruction::Branch { reg: r, label: target, branch_type: BranchType::EqZero });
        let (g1, a1, r1) = block_in_child(GenState { regs: c1, ..g0 }, t, body@)->Some_0;
        lemma_expr_calls_cover_code(g0.regs, t, s, condition);
        lemma_block_in_child_calls_cover_code(GenState { regs: c1, ..g0 }, t, body@);
        lemma_calls_among_wider(ccode, expr_calls(condition), sc);
        lemma_calls_among_wider(r1, stmts_calls(body@, body@.len()), sc);
        lemma_calls_among_wider(a1, stmts_calls(body@, body@.len()), sc);
        let br = seq![IrInstruction::Branch { reg: r, label: target, branch_type: BranchType::EqZero }];
        assert(calls_among(br, sc)) by {
                reveal(calls_among);
            }
        lemma_calls_among_concat(ccode, br, sc);
        assert(head =~= ccode + br);
        let jmp = if last_is_return(body@) {
            Seq::<IrInstruction>::empty()
        } else {
            seq![IrInstruction::Jump { label }]
        };
        assert(calls_among(jmp, sc)) by {
                reveal(calls_among);
            }
        lemma_calls_among_concat(head, r1, sc);
        lemma_calls_among_concat(head + r1, jmp, sc);
        let then_code = head + r1 + jmp;
        match else_label {
            None => {
                let lab = seq![IrInstruction::Label { label_name: label }];
                assert(calls_among(lab, sc)) by {
                reveal(calls_among);
            }
                lemma_calls_among_concat(then_code, lab, sc);
                assert(then_code.push(IrInstruction::Label { label_name: label }) =~= then_code + lab);
            },
            Some(el) => {
                let (g2, a2, code2) = else_part(g1, t, stmt)->Some_0;
                lemma_else_calls_cover_code(g1, t, stmt);
                lemma_calls_among_concat(then_code, code2, sc);
                lemma_calls_among_concat(a1, a2, sc);
            },
        }
    }
}

/// The `else` part of `lemma_if_calls_cover_code`.
#[verifier::spinoff_prover]
pub proof fn lemma_else_calls_cover_code(g1: GenState, t: Seq<Scope>, stmt: SemanticStatement)
    requires
        stmt is SemanticIf,
        stmt_calls_visible(stmt),
        else_part(g1, t, stmt) is Some,
    ensures
        calls_among(else_part(g1, t, stmt)->Some_0.1, stmt_calls(stmt)),
        calls_among(else_part(g1, t, stmt)->Some_0.2, stmt_calls(stmt)),
    decreases stmt, 0nat,
{
    let sc = stmt_calls(stmt);
    if let SemanticStatement::SemanticIf { label, else_label: Some(el), else_body: Some(eb), .. } = stmt {
        let (g2, a2, r2) = block_in_child(g1, t, eb@)->Some_0;
        lemma_block_in_child_calls_cover_code(g1, t, eb@);
        lemma_calls_among_wider(r2, stmts_calls(eb@, eb@.len()), sc);
        lemma_calls_among_wider(a2, stmts_calls(eb@, eb@.len()), sc);
        let l1 = seq![IrInstruction::Label { label_name: el }];
        let jmp2 = if last_is_return(eb@) {
            Seq::<IrInstruction>::empty()
        } else {
            seq![IrInstruction::Jump { label }]
        };
        let l2 = seq![IrInstruction::Label { label_name: label }];
        assert(calls_among(l1, sc)) by {
            reveal(calls_among);
        }
        assert(calls_among(jmp2, sc)) by {
            reveal(calls_among);
        }
        assert(calls_among(l2, sc)) by {
            reveal(calls_among);
        }
        lemma_calls_among_concat(l1, r2, sc);
        lemma_calls_among_concat(l1 + r2, jmp2, sc);
        lemma_calls_among_concat(l1 + r2 + jmp2, l2, sc);
    }
}

/// The block part of `lemma_stmt_calls_cover_code`, for a block in its own
/// scope.
pub proof fn lemma_block_in_child_calls_cover_code(g: GenState, t: Seq<Scope>, body: Seq<SemanticStatement>)
    requires
        stmts_calls_visible(body, body.len()),
        block_in_child(g, t, body) is Some,
    ensures
        calls_among(block_in_child(g, t, body)->Some_0.1, stmts_calls(body, body.len())),
        calls_among(block_in_child(g, t, body)->Some_0.2, stmts_calls(body, body.len())),
    decreases body, body.len() + 1,
{
    let i = child_from(t, g.scope, g.cursor as int)->Some_0;
    lemma_block_calls_cover_code(GenState { scope: i as usize, cursor: (i + 1) as usize, ..g }, t, body, body.len());
}

/// The block part of `lemma_stmt_calls_cover_code`: the first `n`
/// statements of a block.
pub proof fn lemma_block_calls_cover_code(g: GenState, t: Seq<Scope>, stmts: Seq<SemanticStatement>, n: nat)
    requires
        stmts_calls_visible(stmts, n),
        emit_block(g, t, stmts, n) is Some,
    ensures
        calls_among(emit_block(g, t, stmts, n)->Some_0.1, stmts_calls(stmts, n)),
        calls_among(emit_block(g, t, stmts, n)->Some_0.2, stmts_calls(stmts, n)),
    decreases stmts, n,
{
    if n > 0 && n <= stmts.len() {
        let (g1, a1, r1) = emit_block(g, t, stmts, (n - 1) as nat)->Some_0;
        let (g2, a2, r2) = emit_stmt(g1, t, stmts[n - 1])->Some_0;
        lemma_block_calls_cover_code(g, t, stmts, (n - 1) as nat);
        lemma_stmt_calls_cover_code(g1, t, stmts[n - 1]);
        let sc = stmts_calls(stmts, n);
        lemma_calls_among_wider(a1, stmts_calls(stmts, (n - 1) as nat), sc);
        lemma_calls_among_wider(r1, stmts_calls(stmts, (n - 1) as nat), sc);
        lemma_calls_among_wider(a2, stmt_calls(stmts[n - 1]), sc);
        lemma_calls_among_wider(r2, stmt_calls(stmts[n - 1]), sc);
        lemma_calls_among_concat(a1, a2, sc);
        lemma_calls_among_concat(r1, r2, sc);
    } else {
        reveal(calls_among);
    }
}

/// A statement's calls are among those of any list of statements it is in.
proof fn lemma_stmt_calls_in_list(stmts: Seq<SemanticStatement>, n: nat, k: int)
    requires
        0 <= k < n <= stmts.len(),
    ensures
        stmt_calls(stmts[k]).subset_of(stmts_calls(stmts, n)),
    decreases n,
{
    if k < n - 1 {
        lemma_stmt_calls_in_list(stmts, (n - 1) as nat, k);
    }
}

/// Law: every function the translated code of a function calls is among
/// the functions the program is found to call, so each such function that
/// the program declares is itself translated (`kept`). This holds for every
/// function whose calls can be seen (`stmt_calls_visible`): calls in both
/// operands of binary operations, in call arguments, conditions, returned
/// and assigned values and nested blocks all count.
pub proof fn lemma_function_calls_are_kept(t: Seq<Scope>, stmts: Seq<SemanticStatement>, k: int)
    requires
        0 <= k < stmts.len(),
        stmt_calls_visible(stmts[k]),
        emit_function(t, stmts[k]) is Some,
    ensures
        calls_among(emit_function(t, stmts[k])->Some_0.2, stmts_calls(stmts, stmts.len())),
        forall|j: int| 0 <= j < stmts.len() && stmts[j] is SemanticFunction
            && stmts_calls(stmts, stmts.len()).contains(stmts[j]->SemanticFunction_name@)
            ==> #[trigger] kept(stmts[j], stmts_calls(stmts, stmts.len())),
{
    let called = stmts_calls(stmts, stmts.len());
    lemma_stmt_calls_in_list(stmts, stmts.len(), k);
    if let SemanticStatement::SemanticFunction { symbol, return_type, body, params, .. } = stmts[k] {
        let s0 = function_scope(t, symbol);
        let g = GenState { regs: Counters { next_reg: 0, free: Seq::empty(), spill: 0 }, scope: s0, cursor: (s0 + 1) as usize };
        let (g1, a, r) = emit_block(g, t, body@, body@.len())->Some_0;
        lemma_block_calls_cover_code(g, t, body@, body@.len());
        lemma_calls_among_wider(a, stmts_calls(body@, body@.len()), called);
        lemma_calls_among_wider(r, stmts_calls(body@, body@.len()), called);
        let pa = param_code(params@).0;
        let ps = param_code(params@).1;
        assert(calls_among(pa, called)) by {
            reveal(calls_among);
        }
        assert(calls_among(ps, called)) by {
            reveal(calls_among);
        }
        let ra = if has_call_instruction(ps + r) { seq![IrInstruction::SaveRa] } else { Seq::<IrInstruction>::empty() };
        assert(calls_among(ra, called)) by {
            reveal(calls_among);
        }
        lemma_calls_among_concat(pa, a, called);
        lemma_calls_among_concat(ps, r, called);
        lemma_calls_among_concat(pa + a, ra, called);
        lemma_calls_among_concat(pa + a + ra, ps + r, called);
    }
}

/// Law: the code of a `while` loop first jumps to the condition; the body
/// label is immediately followed by the body's code and the condition label
/// by the condition's code, which ends by branching back to the body label
/// when the condition holds, the loop's last instruction.
pub proof fn lemma_while_layout(g: GenState, t: Seq<Scope>, stmt: SemanticStatement)
    requires
        stmt is SemanticWhile,
        emit_stmt(g, t, stmt) is Some,
    ensures
        stmt matches SemanticStatement::SemanticWhile { body_label, body, cond_label, condition } ==> {
            let code = emit_stmt(g, t, stmt)->Some_0.2;
            let g0 = fresh_statement(g);
            let cond = emit_expr(g0.regs, t, g0.scope as int, condition);
            &&& cond is Some
            &&& code[0] == IrInstruction::Jump { label: cond_label }
            &&& code[1] == IrInstruction::Label { label_name: body_label }
            &&& code.last() is Branch && code.last()->Branch_label == body_label
                && code.last()->Branch_branch_type == BranchType::NeqZero
                && code.last()->Branch_reg == cond->Some_0.1
            &&& exists|g1: GenState|
                #![trigger block_in_child(g1, t, body@)]
                block_in_child(g1, t, body@) is Some && {
                    let r1 = block_in_child(g1, t, body@)->Some_0.2;
                    let cc = cond->Some_0.2;
                    &&& code.len() == 3 + (r1.len() as int) + (cc.len() as int) + 1
                    &&& code.subrange(2, 2 + (r1.len() as int)) == r1
                    &&& code[2 + (r1.len() as int)] == IrInstruction::Label { label_name: cond_label }
                    &&& code.subrange(3 + (r1.len() as int), 3 + (r1.len() as int) + (cc.len() as int)) == cc
                }
        },
{
    if let SemanticStatement::SemanticWhile { body_label, body, cond_label, condition } = stmt {
        let g0 = fresh_statement(g);
        let (c1, r, ccode) = emit_expr(g0.regs, t, g0.scope as int, condition)->Some_0;
        let g1 = GenState { regs: c1, ..g0 };
        let (g2, a1, r1) = block_in_child(g1, t, body@)->Some_0;
        let p1 = seq![IrInstruction::Jump { label: cond_label }, IrInstruction::Label { label_name: body_label }];
        let p2 = seq![IrInstruction::Label { label_name: cond_label }];
        let p3 = seq![IrInstruction::Branch { reg: r, label: body_label, branch_type: BranchType::NeqZero }];
        let code = emit_stmt(g, t, stmt)->Some_0.2;
        assert(code == p1 + r1 + p2 + ccode + p3);
        assert(code.subrange(2, 2 + (r1.len() as int)) =~= r1);
        assert(code.subrange(3 + (r1.len() as int), 3 + (r1.len() as int) + (ccode.len() as int)) =~= ccode);
        assert(code[2 + (r1.len() as int)] == p2[0]);
        assert(code[0] == p1[0]);
        assert(code[1] == p1[1]);
        assert(code.last() == p3[0]);
    }
}

/// Law: in the code of an `if` without an `else` part, the condition's code
/// comes first and ends with the branch taken when it is false, which
/// targets the statement's label; the label is the code's last
/// instruction, and the branch is immediately followed by the body's code.
pub proof fn lemma_if_without_else_layout(g: GenState, t: Seq<Scope>, stmt: SemanticStatement)
    requires
        stmt matches SemanticStatement::SemanticIf { else_label: None, .. },
        emit_stmt(g, t, stmt) is Some,
    ensures
        stmt matches SemanticStatement::SemanticIf { label, condition, body, .. } ==> {
            let code = emit_stmt(g, t, stmt)->Some_0.2;
            let g0 = fresh_statement(g);
            let cond = emit_expr(g0.regs, t, g0.scope as int, condition);
            let cc = cond->Some_0.2;
            &&& cond is Some
            &&& (cc.len() as int) < code.len()
            &&& code.subrange(0, cc.len() as int) == cc
            &&& code[cc.len() as int] == IrInstruction::Branch { reg: cond->Some_0.1, label, branch_type: BranchType::EqZero }
            &&& code.last() == IrInstruction::Label { label_name: label }
            &&& block_in_child(GenState { regs: cond->Some_0.0, ..g0 }, t, body@) is Some
            &&& {
                let r1 = block_in_child(GenState { regs: cond->Some_0.0, ..g0 }, t, body@)->Some_0.2;
                &&& (cc.len() as int) + 1 + (r1.len() as int) < code.len()
                &&& code.subrange((cc.len() as int) + 1, (cc.len() as int) + 1 + (r1.len() as int)) == r1
            }
        },
{
    if let SemanticStatement::SemanticIf { label, condition, body, else_label: None, else_body } = stmt {
        let g0 = fresh_statement(g);
        let (c1, r, ccode) = emit_expr(g0.regs, t, g0.scope as int, condition)->Some_0;
        let (g1, a1, r1) = block_in_child(GenState { regs: c1, ..g0 }, t, body@)->Some_0;
        let br = IrInstruction::Branch { reg: r, label, branch_type: BranchType::EqZero };
        let jmp = if last_is_return(body@) {
            Seq::<IrInstruction>::empty()
        } else {
            seq![IrInstruction::Jump { label }]
        };
        let code = emit_stmt(g, t, stmt)->Some_0.2;
        assert(code == (ccode.push(br) + r1 + jmp).push(IrInstruction::Label { label_name: label }));
        assert(code.subrange(0, ccode.len() as int) =~= ccode);
        assert(code[ccode.len() as int] == br);
        assert(code.subrange((ccode.len() as int) + 1, (ccode.len() as int) + 1 + (r1.len() as int)) =~= r1);
    }
}

} // verus!
