use llang::compiler::Compiler;
use llang::ir::instruction::{BranchType, IrInstruction, IrReg, IrType, IrValue};
use llang::ir::ir_generator::IrGenerator;
use llang::ir::program::IrProgram;
use llang::lexer::lexer::Lexer;
use llang::lexer::token::Token;
use llang::parser::expression::{BinaryOperator, Expression, UnaryOperator};
use llang::parser::parser::Parser;
use llang::parser::types::Type;
use llang::semantic::analyzer::Analyzer;
use llang::semantic::program::SemanticProgram;
use llang::semantic::scope::{ScopeId, ScopeType};
use llang::semantic::symbol::{SymbolId, SymbolKind};
use llang::semantic::warning::WarningType;
use llang::util::error::CompileError;

fn analyze(src: &str) -> Result<SemanticProgram, CompileError> {
    let s = String::from(src);
    let mut lexer = Lexer::new(&s);
    let tokens = lexer.tokenize()?;
    let mut parser = Parser::new(tokens, 0);
    let program = parser.parse()?;
    let mut analyzer = Analyzer::new(program);
    analyzer.analyze()
}

fn lower(src: &str) -> Result<IrProgram, CompileError> {
    let program = analyze(src)?;
    let mut generator = IrGenerator::new(program);
    generator.generate()
}

#[test]
fn analyzer_puts_functions_in_the_global_scope() {
    let p = analyze("i32 add(i32 a, i32 b) { return a + b; } i32 main() { return add(1, 2); }").unwrap();
    let global = &p.scope_table[0];
    assert!(matches!(global.kind, ScopeType::Global));
    assert!(global.parent.is_none());
    assert_eq!(global.symbols.len(), 2);
    assert_eq!(global.symbols[0].name, "add");
    assert_eq!(global.symbols[0].id, SymbolId(0));
    assert_eq!(global.symbols[1].name, "main");
    assert_eq!(global.symbols[1].id, SymbolId(1));
    match &global.symbols[0].kind {
        SymbolKind::Function { return_type, params } => {
            assert_eq!(*return_type, Type::Int32);
            assert_eq!(params.len(), 2);
        }
        other => panic!("unexpected {:?}", other),
    }
}

#[test]
fn analyzer_scopes_point_to_earlier_parents() {
    let p = analyze("i32 main() { bool c = true; if (c) { i32 y = 1; } return 0; }").unwrap();
    for (i, scope) in p.scope_table.iter().enumerate() {
        assert_eq!(scope.scope_id, ScopeId(i as i32));
        if let Some(ScopeId(parent)) = scope.parent {
            assert!((parent as usize) < i);
        }
    }
    assert_eq!(p.scope_table.len(), 3);
}

#[test]
fn analyzer_rejects_duplicate_functions() {
    match analyze("void f() { return; } void f() { return; }") {
        Err(CompileError::SemanticError { message, .. }) => assert_eq!(message, "function 'f' already declared"),
        other => panic!("unexpected {:?}", other.map(|p| p.body.len())),
    }
}

#[test]
fn analyzer_requires_a_return() {
    match analyze("void f() { i32 x = 1; }") {
        Err(CompileError::SemanticError { message, .. }) => assert_eq!(message, "function `f` has no return statement"),
        other => panic!("unexpected {:?}", other.map(|p| p.body.len())),
    }
}

#[test]
fn analyzer_rejects_redeclared_variables() {
    match analyze("void f() { i32 x = 1; i32 x = 2; return; }") {
        Err(CompileError::SemanticError { message, .. }) => {
            assert_eq!(message, "variable 'x' already declared in this scope")
        }
        other => panic!("unexpected {:?}", other.map(|p| p.body.len())),
    }
}

#[test]
fn analyzer_rejects_assignment_to_undeclared_variable() {
    match analyze("void f() { y = 1; return; }") {
        Err(CompileError::SemanticError { message, .. }) => {
            assert_eq!(message, "assignment to undeclared variable 'y'")
        }
        other => panic!("unexpected {:?}", other.map(|p| p.body.len())),
    }
}

#[test]
fn analyzer_warns_about_uninitialized_use() {
    // once where it is read, once when its scope closes
    let p = analyze("i32 main() { i32 x; return x; }").unwrap();
    assert_eq!(p.diagnostics.len(), 2);
    for w in &p.diagnostics {
        assert_eq!(w.warning_type, WarningType::UninitializedVariable);
        assert_eq!(w.name, "x");
        assert_eq!(w.message, "variable `x` is declared but never initialized");
    }
}

fn warnings_of(src: &str) -> Vec<(WarningType, String, String)> {
    let p = analyze(src).unwrap();
    p.diagnostics.iter().map(|w| (w.warning_type, w.name.clone(), w.message.clone())).collect()
}

#[test]
fn analyzer_warns_about_initializer_types() {
    let w = warnings_of("i32 main() { bool b = 1; return 0; }");
    assert_eq!(
        w,
        vec![(
            WarningType::TypeMismatch,
            String::from("b"),
            String::from("variable 'b' declared as Bool but assigned Int32"),
        )]
    );
}

#[test]
fn analyzer_warns_about_literal_overflow() {
    let w = warnings_of("i32 main() { i8 x = 300; return x; }");
    assert_eq!(
        w,
        vec![
            (
                WarningType::TypeMismatch,
                String::from("x"),
                String::from("variable 'x' declared as Int8 but assigned Int32"),
            ),
            (
                WarningType::LiteralOverflow,
                String::from("x"),
                String::from("literal value overflows the declared type of `x`"),
            ),
        ]
    );
}

#[test]
fn analyzer_warns_about_operand_types() {
    let w = warnings_of("i32 main() { bool b = true; i32 x = 1; i32 y = x + b; return y; }");
    let m = String::from("type mismatch in expression: Int32 and Bool");
    assert_eq!(
        w,
        vec![
            (
                WarningType::TypeMismatch,
                String::from("bool cannot be used in arithmetic expression"),
                String::from("bool cannot be used in arithmetic expression"),
            ),
            (WarningType::TypeMismatch, m.clone(), m),
        ]
    );
}

#[test]
fn analyzer_warns_about_calls() {
    let w = warnings_of("i32 f(i32 a) { return a; } i32 main() { i32 y = f(1, 2); i32 z = g(1); return y; }");
    assert_eq!(
        w,
        vec![
            (WarningType::TypeMismatch, String::from("f"), String::from("'f' expects 1 args, got 2")),
            (WarningType::UndeclaredFunction, String::from("g"), String::from("call to undeclared function 'g'")),
        ]
    );
}

#[test]
fn analyzer_rejects_a_call_statement_with_wrong_arguments() {
    match analyze("void f(i32 a) { return; } i32 main() { f(); return 0; }") {
        Err(CompileError::SemanticError { message, .. }) => assert_eq!(message, "'f' expects 1 args, got 0"),
        other => panic!("unexpected {:?}", other.map(|p| p.body.len())),
    }
}

#[test]
fn warning_messages() {
    assert_eq!(
        WarningType::UninitializedVariable.get_message(String::from("v")),
        "variable `v` is declared but never initialized"
    );
    assert_eq!(
        WarningType::LiteralOverflow.get_message(String::from("v")),
        "literal value overflows the declared type of `v`"
    );
    assert_eq!(WarningType::TypeMismatch.get_message(String::from("as is")), "as is");
    assert_eq!(WarningType::UndeclaredFunction.get_message(String::from("as is")), "as is");
}

#[test]
fn ir_of_a_variable_and_a_return() {
    let ir = lower("i32 main() { i32 x = 5; return x; }").unwrap();
    assert_eq!(ir.functions.len(), 1);
    let f = &ir.functions[0];
    assert_eq!(f.name, "main");
    assert_eq!(f.return_type, IrType::I32);
    assert_eq!(
        f.instructions,
        vec![
            IrInstruction::Alloc { ir_type: IrType::I32, symbol: SymbolId(1) },
            IrInstruction::StoreImm { dest: IrReg::Temp(0), value: IrValue::Immediate(5) },
            IrInstruction::StoreStack { ir_type: IrType::I32, symbol: SymbolId(1), src: IrReg::Temp(0) },
            IrInstruction::LoadStack { ir_type: IrType::I32, dest: IrReg::Temp(0), symbol: SymbolId(1) },
            IrInstruction::StoreImm { dest: IrReg::RetVal, value: IrValue::Reg(IrReg::Temp(0)) },
            IrInstruction::Ret,
        ]
    );
    assert!(ir.strings.is_empty());
}

#[test]
fn ir_of_a_call_saves_the_return_address() {
    let ir = lower("i32 add(i32 a, i32 b) { return a + b; } i32 main() { return add(1, 2); }").unwrap();
    assert_eq!(ir.functions.len(), 2);
    let add = &ir.functions[0];
    assert_eq!(add.name, "add");
    assert_eq!(
        add.instructions,
        vec![
            IrInstruction::Alloc { ir_type: IrType::I32, symbol: SymbolId(2) },
            IrInstruction::Alloc { ir_type: IrType::I32, symbol: SymbolId(3) },
            IrInstruction::StoreStack { ir_type: IrType::I32, symbol: SymbolId(2), src: IrReg::Arg(0) },
            IrInstruction::StoreStack { ir_type: IrType::I32, symbol: SymbolId(3), src: IrReg::Arg(1) },
            IrInstruction::LoadStack { ir_type: IrType::I32, dest: IrReg::Temp(0), symbol: SymbolId(2) },
            IrInstruction::LoadStack { ir_type: IrType::I32, dest: IrReg::Temp(1), symbol: SymbolId(3) },
            IrInstruction::BinaryOp {
                op: BinaryOperator::Add,
                dest: IrReg::Temp(2),
                left: IrReg::Temp(0),
                right: IrReg::Temp(1),
            },
            IrInstruction::StoreImm { dest: IrReg::RetVal, value: IrValue::Reg(IrReg::Temp(2)) },
            IrInstruction::Ret,
        ]
    );
    let main = &ir.functions[1];
    assert_eq!(main.name, "main");
    assert_eq!(
        main.instructions,
        vec![
            IrInstruction::SaveRa,
            IrInstruction::StoreImm { dest: IrReg::Temp(0), value: IrValue::Immediate(1) },
            IrInstruction::StoreImm { dest: IrReg::Arg(0), value: IrValue::Reg(IrReg::Temp(0)) },
            IrInstruction::StoreImm { dest: IrReg::Temp(1), value: IrValue::Immediate(2) },
            IrInstruction::StoreImm { dest: IrReg::Arg(1), value: IrValue::Reg(IrReg::Temp(1)) },
            IrInstruction::Call { function_name: String::from("add") },
            IrInstruction::StoreImm { dest: IrReg::Temp(2), value: IrValue::Reg(IrReg::RetVal) },
            IrInstruction::StoreImm { dest: IrReg::RetVal, value: IrValue::Reg(IrReg::Temp(2)) },
            IrInstruction::Ret,
        ]
    );
}

#[test]
fn ir_leaves_out_functions_nobody_calls() {
    let ir = lower("void unused() { return; } i32 main() { return 0; }").unwrap();
    assert_eq!(ir.functions.len(), 1);
    assert_eq!(ir.functions[0].name, "main");
}

#[test]
fn ir_of_an_if_without_else() {
    let ir = lower("i32 main() { bool c = true; if (c) { return 1; } return 0; }").unwrap();
    assert_eq!(
        ir.functions[0].instructions,
        vec![
            IrInstruction::Alloc { ir_type: IrType::Bool, symbol: SymbolId(1) },
            IrInstruction::StoreImm { dest: IrReg::Temp(0), value: IrValue::Immediate(1) },
            IrInstruction::StoreStack { ir_type: IrType::Bool, symbol: SymbolId(1), src: IrReg::Temp(0) },
            IrInstruction::LoadStack { ir_type: IrType::Bool, dest: IrReg::Temp(0), symbol: SymbolId(1) },
            IrInstruction::Branch { reg: IrReg::Temp(0), label: String::from("L0"), branch_type: BranchType::EqZero },
            IrInstruction::StoreImm { dest: IrReg::Temp(0), value: IrValue::Immediate(1) },
            IrInstruction::StoreImm { dest: IrReg::RetVal, value: IrValue::Reg(IrReg::Temp(0)) },
            IrInstruction::Ret,
            IrInstruction::Label { label_name: String::from("L0") },
            IrInstruction::StoreImm { dest: IrReg::Temp(0), value: IrValue::Immediate(0) },
            IrInstruction::StoreImm { dest: IrReg::RetVal, value: IrValue::Reg(IrReg::Temp(0)) },
            IrInstruction::Ret,
        ]
    );
}

#[test]
fn ir_of_a_while_loop() {
    let ir = lower("i32 main() { bool c = false; while (c) { c = false; } return 0; }").unwrap();
    assert_eq!(
        ir.functions[0].instructions,
        vec![
            IrInstruction::Alloc { ir_type: IrType::Bool, symbol: SymbolId(1) },
            IrInstruction::StoreImm { dest: IrReg::Temp(0), value: IrValue::Immediate(0) },
            IrInstruction::StoreStack { ir_type: IrType::Bool, symbol: SymbolId(1), src: IrReg::Temp(0) },
            IrInstruction::Jump { label: String::from("L1") },
            IrInstruction::Label { label_name: String::from("L0") },
            IrInstruction::StoreImm { dest: IrReg::Temp(0), value: IrValue::Immediate(0) },
            IrInstruction::StoreStack { ir_type: IrType::Bool, symbol: SymbolId(1), src: IrReg::Temp(0) },
            IrInstruction::Label { label_name: String::from("L1") },
            IrInstruction::LoadStack { ir_type: IrType::Bool, dest: IrReg::Temp(0), symbol: SymbolId(1) },
            IrInstruction::Branch { reg: IrReg::Temp(0), label: String::from("L0"), branch_type: BranchType::NeqZero },
            IrInstruction::StoreImm { dest: IrReg::Temp(0), value: IrValue::Immediate(0) },
            IrInstruction::StoreImm { dest: IrReg::RetVal, value: IrValue::Reg(IrReg::Temp(0)) },
            IrInstruction::Ret,
        ]
    );
}

#[test]
fn ir_of_inline_assembly() {
    let ir = lower("void main() { __asm__ {\n li $v0, 10\n syscall\n}\n return; }").unwrap();
    assert_eq!(
        ir.functions[0].instructions,
        vec![
            IrInstruction::Assembly { line: String::from("li $v0, 10") },
            IrInstruction::Assembly { line: String::from("syscall") },
            IrInstruction::Ret,
        ]
    );
}

#[test]
fn simple_generator_translates_every_function() {
    let program = analyze("void unused() { return; } i32 main() { i32 x = 2 + 3; return x; }").unwrap();
    let mut generator = llang::ir::generator::IrGenerator::new(program);
    let ir = generator.generate().unwrap();
    assert_eq!(ir.functions.len(), 2);
    assert_eq!(ir.functions[0].name, "unused");
    assert_eq!(ir.functions[0].instructions, vec![IrInstruction::Ret]);
    assert_eq!(
        ir.functions[1].instructions,
        vec![
            IrInstruction::Alloc { ir_type: IrType::I32, symbol: SymbolId(2) },
            IrInstruction::StoreImm { dest: IrReg::Temp(0), value: IrValue::Immediate(2) },
            IrInstruction::StoreImm { dest: IrReg::Temp(1), value: IrValue::Reg(IrReg::Temp(0)) },
            IrInstruction::StoreImm { dest: IrReg::Temp(0), value: IrValue::Immediate(3) },
            IrInstruction::StoreStack { ir_type: IrType::I32, symbol: SymbolId(2), src: IrReg::Temp(0) },
            IrInstruction::LoadStack { ir_type: IrType::I32, dest: IrReg::Temp(0), symbol: SymbolId(2) },
            IrInstruction::StoreImm { dest: IrReg::RetVal, value: IrValue::Reg(IrReg::Temp(0)) },
            IrInstruction::Ret,
        ]
    );
}

#[test]
fn compiler_runs_library_and_program_together() {
    let stdlib = String::from("void exit() { __asm__ {\nli $v0, 10\nsyscall\n}\nreturn; }\n");
    let source = String::from("i32 main() { exit(); return 0; }");
    let c = Compiler::new(&stdlib, &source).unwrap();
    assert_eq!(c.ir.functions.len(), 2);
    assert_eq!(c.ir.functions[0].name, "exit");
    assert_eq!(c.ir.functions[1].name, "main");
    assert_eq!(c.ir.functions[1].instructions[0], IrInstruction::SaveRa);
    assert_eq!(c.semantic_program.scope_table[0].symbols.len(), 2);
}

#[test]
fn compiler_reports_library_lex_errors_first() {
    let stdlib = String::from("@");
    let source = String::from("#");
    match Compiler::new(&stdlib, &source) {
        Err(CompileError::LexError { message, .. }) => assert_eq!(message, "Unexpected character '@'"),
        _ => panic!("expected a lexical error"),
    }
}

#[test]
fn compiler_numbers_program_labels_after_the_library() {
    let stdlib = String::from("void f() { if (true) { return; } return; }");
    let source = String::from("i32 main() { f(); if (true) { return 1; } return 0; }");
    let c = Compiler::new(&stdlib, &source).unwrap();
    let main = &c.ir.functions[1];
    assert!(main.instructions.contains(&IrInstruction::Label { label_name: String::from("L1") }));
    assert!(!main.instructions.contains(&IrInstruction::Label { label_name: String::from("L0") }));
}

#[test]
fn compiler_reports_the_analysis_error() {
    let stdlib = String::from("void f() { return; }");
    let source = String::from("void f() { return; } i32 main() { return 0; }");
    match Compiler::new(&stdlib, &source) {
        Err(CompileError::SemanticError { message, .. }) => assert_eq!(message, "function 'f' already declared"),
        _ => panic!("expected a semantic error"),
    }
}

#[test]
fn compiler_reports_a_parse_error() {
    let stdlib = String::from("");
    let source = String::from("i32 main() { return 0 }");
    assert!(matches!(Compiler::new(&stdlib, &source), Err(CompileError::ParseError { .. })));
}

#[test]
fn analyzer_warns_about_comparisons_and_negation() {
    // i32 main() { bool b = true; i32 x = 1; if (x == b) { return 1; } if (!x) { return 2; } return 0; }
    let id = |s: &str| Token::Identifier(String::from(s));
    let tokens = vec![
        Token::I32, id("main"), Token::LeftParen, Token::RightParen, Token::LeftBrace,
        Token::Bool, id("b"), Token::Equal, Token::BoolLiteral(true), Token::Semicolon,
        Token::I32, id("x"), Token::Equal, Token::IntegerLiteral(1), Token::Semicolon,
        Token::If, Token::LeftParen, id("x"), Token::EqualEqual, id("b"), Token::RightParen,
        Token::LeftBrace, Token::Return, Token::IntegerLiteral(1), Token::Semicolon, Token::RightBrace,
        Token::If, Token::LeftParen, Token::Not, id("x"), Token::RightParen,
        Token::LeftBrace, Token::Return, Token::IntegerLiteral(2), Token::Semicolon, Token::RightBrace,
        Token::Return, Token::IntegerLiteral(0), Token::Semicolon, Token::RightBrace, Token::Eof,
    ];
    let mut parser = Parser::new(tokens, 0);
    let program = parser.parse().unwrap();
    let p = Analyzer::new(program).analyze().unwrap();
    let w: Vec<(WarningType, String, String)> =
        p.diagnostics.iter().map(|w| (w.warning_type, w.name.clone(), w.message.clone())).collect();
    let m = String::from("cannot compare Int32 and Bool");
    assert_eq!(
        w,
        vec![
            (WarningType::TypeMismatch, m.clone(), m),
            (
                WarningType::TypeMismatch,
                String::from("not operator requires bool operand"),
                String::from("not operator requires bool operand"),
            ),
        ]
    );
}

#[test]
fn analyzer_rejects_duplicate_parameters() {
    match analyze("i32 f(i32 a, i32 a) { return a; }") {
        Err(CompileError::SemanticError { message, .. }) => assert_eq!(message, "duplicate parameter name 'a'"),
        other => panic!("unexpected {:?}", other.map(|p| p.body.len())),
    }
}

#[test]
fn analyzer_warns_when_a_scope_closes_with_an_uninitialized_variable() {
    let w = warnings_of("i32 main() { bool c = true; if (c) { i32 y; } return 0; }");
    assert_eq!(
        w,
        vec![(
            WarningType::UninitializedVariable,
            String::from("y"),
            String::from("variable `y` is declared but never initialized"),
        )]
    );
}

#[test]
fn a_freed_temporary_is_handed_out_next() {
    let mut g = IrGenerator::new(analyze("").unwrap());
    let t0 = g.fresh_reg().unwrap();
    let t1 = g.fresh_reg().unwrap();
    assert_eq!(t0, IrReg::Temp(0));
    assert_eq!(t1, IrReg::Temp(1));
    g.free_reg(t0);
    assert_eq!(g.fresh_reg().unwrap(), IrReg::Temp(0));
    assert_eq!(g.fresh_reg().unwrap(), IrReg::Temp(2));
    g.free_reg(IrReg::RetVal);
    assert_eq!(g.fresh_reg().unwrap(), IrReg::Temp(3));
}

#[test]
fn address_of_and_deref_types_follow_the_operand() {
    let g = IrGenerator::new(analyze("i16 x = 1;").unwrap());
    let x = || Expression::Identifier(String::from("x"));
    assert_eq!(g.resolve_expr_type(&x()).unwrap(), Type::Int16);
    let addr = Expression::UnaryOperation { op: UnaryOperator::AddressOf, operand: Box::new(x()) };
    assert_eq!(g.resolve_expr_type(&addr).unwrap(), Type::Pointer(Box::new(Type::Int16)));
    let back = Expression::UnaryOperation { op: UnaryOperator::Deref, operand: Box::new(addr) };
    assert_eq!(g.resolve_expr_type(&back).unwrap(), Type::Int16);
    assert_eq!(g.resolve_expr_type(&Expression::Integer(7)).unwrap(), Type::Int32);
    assert_eq!(g.resolve_expr_type(&Expression::Bool(true)).unwrap(), Type::Bool);
    assert!(g.resolve_expr_type(&Expression::Identifier(String::from("y"))).is_err());
}
