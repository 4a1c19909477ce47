use llang::lexer::lexer::Lexer;
use llang::lexer::token::Token;
use llang::parser::expression::{BinaryOperator, Expression};
use llang::parser::parser::Parser;
use llang::parser::statement::Statement;
use llang::parser::types::{Type, TypeSize};
use llang::util::error::CompileError;

fn lex(src: &str) -> Result<Vec<Token>, CompileError> {
    let s = String::from(src);
    let mut lexer = Lexer::new(&s);
    lexer.tokenize()
}

fn parse(src: &str) -> Result<Vec<Statement>, CompileError> {
    let tokens = lex(src).expect("lexes");
    let mut parser = Parser::new(tokens, 0);
    parser.parse().map(|p| p.body)
}

#[test]
fn keyword_recognizes_every_keyword() {
    assert_eq!(Token::keyword("void"), Some(Token::Void));
    assert_eq!(Token::keyword("i32"), Some(Token::I32));
    assert_eq!(Token::keyword("i16"), Some(Token::I16));
    assert_eq!(Token::keyword("i8"), Some(Token::I8));
    assert_eq!(Token::keyword("bool"), Some(Token::Bool));
    assert_eq!(Token::keyword("if"), Some(Token::If));
    assert_eq!(Token::keyword("else"), Some(Token::Else));
    assert_eq!(Token::keyword("while"), Some(Token::While));
    assert_eq!(Token::keyword("return"), Some(Token::Return));
    assert_eq!(Token::keyword("true"), Some(Token::BoolLiteral(true)));
    assert_eq!(Token::keyword("false"), Some(Token::BoolLiteral(false)));
    assert_eq!(Token::keyword("__asm__"), Some(Token::ASMKeyword));
}

#[test]
fn keyword_rejects_other_words() {
    assert_eq!(Token::keyword("main"), None);
    assert_eq!(Token::keyword("I32"), None);
    assert_eq!(Token::keyword(""), None);
}

#[test]
fn lexer_tokenizes_a_declaration() {
    let tokens = lex("i32 x = 5;").unwrap();
    assert_eq!(
        tokens,
        vec![
            Token::I32,
            Token::Identifier(String::from("x")),
            Token::Equal,
            Token::IntegerLiteral(5),
            Token::Semicolon,
            Token::Eof,
        ]
    );
}

#[test]
fn lexer_emits_newline_tokens() {
    let tokens = lex("a\n\nb").unwrap();
    assert_eq!(
        tokens,
        vec![
            Token::Identifier(String::from("a")),
            Token::Newline,
            Token::Newline,
            Token::Identifier(String::from("b")),
            Token::Eof,
        ]
    );
}

#[test]
fn lexer_empty_source_is_just_eof() {
    assert_eq!(lex("").unwrap(), vec![Token::Eof]);
    assert_eq!(lex("   \t ").unwrap(), vec![Token::Eof]);
}

#[test]
fn lexer_punctuation() {
    let tokens = lex("(){};,+-*/").unwrap();
    assert_eq!(
        tokens,
        vec![
            Token::LeftParen,
            Token::RightParen,
            Token::LeftBrace,
            Token::RightBrace,
            Token::Semicolon,
            Token::Comma,
            Token::Plus,
            Token::Minus,
            Token::Star,
            Token::Slash,
            Token::Eof,
        ]
    );
}

#[test]
fn lexer_strips_line_comments() {
    let tokens = lex("x // a comment ( ) \ny").unwrap();
    assert_eq!(
        tokens,
        vec![
            Token::Identifier(String::from("x")),
            Token::Newline,
            Token::Identifier(String::from("y")),
            Token::Eof,
        ]
    );
}

#[test]
fn lexer_reads_hex_numbers() {
    assert_eq!(lex("0x1F").unwrap(), vec![Token::IntegerLiteral(31), Token::Eof]);
    assert_eq!(lex("0XfF").unwrap(), vec![Token::IntegerLiteral(255), Token::Eof]);
}

#[test]
fn lexer_reads_largest_number() {
    assert_eq!(lex("2147483647").unwrap(), vec![Token::IntegerLiteral(2147483647), Token::Eof]);
}

#[test]
fn lexer_rejects_too_large_number() {
    match lex("2147483648") {
        Err(CompileError::LexError { message, line }) => {
            assert_eq!(message, "Invalid number: 2147483648");
            assert_eq!(line, 1);
        }
        other => panic!("unexpected {:?}", other),
    }
}

#[test]
fn lexer_rejects_bad_hex_number() {
    match lex("0x") {
        Err(CompileError::LexError { message, .. }) => assert_eq!(message, "Invalid hex number: 0x"),
        other => panic!("unexpected {:?}", other),
    }
}

#[test]
fn lexer_rejects_unexpected_character_with_its_line() {
    match lex("a\nb\n<") {
        Err(CompileError::LexError { message, line }) => {
            assert_eq!(message, "Unexpected character '<'");
            assert_eq!(line, 3);
        }
        other => panic!("unexpected {:?}", other),
    }
}

#[test]
fn lexer_double_equal_is_two_tokens() {
    assert_eq!(lex("==").unwrap(), vec![Token::Equal, Token::Equal, Token::Eof]);
}

#[test]
fn lexer_reads_asm_block_lines_trimmed() {
    let tokens = lex("__asm__ {\n   li $v0, 10  \n\n  syscall\n}").unwrap();
    assert_eq!(
        tokens,
        vec![
            Token::AsmBlock(vec![String::from("li $v0, 10"), String::from("syscall")]),
            Token::Eof,
        ]
    );
}

#[test]
fn lexer_asm_block_lines_count() {
    match lex("__asm__ {\nnop\n}\n@") {
        Err(CompileError::LexError { line, .. }) => assert_eq!(line, 4),
        other => panic!("unexpected {:?}", other),
    }
}

#[test]
fn lexer_rejects_asm_without_brace() {
    match lex("__asm__ x") {
        Err(CompileError::LexError { message, line }) => {
            assert_eq!(message, "expected '{' after __asm__");
            assert_eq!(line, 1);
        }
        other => panic!("unexpected {:?}", other),
    }
}

#[test]
fn lexer_rejects_unterminated_asm() {
    match lex("__asm__ { nop") {
        Err(CompileError::LexError { message, .. }) => assert_eq!(message, "unterminated __asm__ block"),
        other => panic!("unexpected {:?}", other),
    }
}

#[test]
fn lexer_identifiers_take_underscores_and_digits() {
    assert_eq!(
        lex("_a1 b_2").unwrap(),
        vec![Token::Identifier(String::from("_a1")), Token::Identifier(String::from("b_2")), Token::Eof]
    );
}

#[test]
fn parser_reads_a_function() {
    let body = parse("i32 main() { i32 x = 5; return x; }").unwrap();
    assert_eq!(body.len(), 1);
    match &body[0] {
        Statement::FunctionDecleration { name, return_type, params, body, .. } => {
            assert_eq!(name, "main");
            assert_eq!(*return_type, Type::Int32);
            assert!(params.is_empty());
            assert_eq!(body.len(), 2);
            match &body[0] {
                Statement::VariableDeclaration { var_name, var_type, operation, .. } => {
                    assert_eq!(var_name, "x");
                    assert_eq!(*var_type, Type::Int32);
                    assert_eq!(*operation, Some(Expression::Integer(5)));
                }
                other => panic!("unexpected {:?}", other),
            }
            match &body[1] {
                Statement::Return { return_value } => {
                    assert_eq!(*return_value, Some(Expression::Identifier(String::from("x"))));
                }
                other => panic!("unexpected {:?}", other),
            }
        }
        other => panic!("unexpected {:?}", other),
    }
}

#[test]
fn parser_reads_binary_operations_left_to_right() {
    let body = parse("i32 y = 1 + 2 * 3;").unwrap();
    match &body[0] {
        Statement::VariableDeclaration { operation, .. } => {
            assert_eq!(
                *operation,
                Some(Expression::BinaryOperation {
                    op: BinaryOperator::Add,
                    left: Box::new(Expression::Integer(1)),
                    right: Box::new(Expression::BinaryOperation {
                        op: BinaryOperator::Mul,
                        left: Box::new(Expression::Integer(2)),
                        right: Box::new(Expression::Integer(3)),
                    }),
                })
            );
        }
        other => panic!("unexpected {:?}", other),
    }
}

#[test]
fn parser_numbers_labels_from_the_starting_count() {
    let tokens = lex("void f() { if (true) { return; } }").unwrap();
    let mut parser = Parser::new(tokens, 7);
    let program = parser.parse().unwrap();
    match &program.body[0] {
        Statement::FunctionDecleration { body, .. } => match &body[0] {
            Statement::If { label, .. } => assert_eq!(label, "L7"),
            other => panic!("unexpected {:?}", other),
        },
        other => panic!("unexpected {:?}", other),
    }
    assert!(parser.get_label_count() > 7);
}

#[test]
fn parser_reports_missing_semicolon() {
    match parse("i32 x = 5") {
        Err(CompileError::ParseError { .. }) => {}
        other => panic!("unexpected {:?}", other),
    }
}

fn parse_error_of(src: &str) -> (String, usize) {
    match parse(src) {
        Err(CompileError::ParseError { message, line }) => (message, line),
        other => panic!("unexpected {:?}", other),
    }
}

#[test]
fn parse_error_messages() {
    assert_eq!(parse_error_of("i32 x = 5"), (String::from("Expected Semicolon, found Eof"), 1));
    assert_eq!(
        parse_error_of("i32 main() {\n return 0\n}"),
        (String::from("Expected Semicolon, found RightBrace"), 3)
    );
    assert_eq!(parse_error_of(")"), (String::from("RightParen is not a statement"), 1));
    assert_eq!(parse_error_of("void 5"), (String::from("Expected identifier, found IntegerLiteral(5)"), 1));
}

#[test]
fn parse_error_for_an_unknown_function_flag() {
    let tokens = vec![
        Token::I32,
        Token::Identifier(String::from("main")),
        Token::LeftParen,
        Token::RightParen,
        Token::Pound,
        Token::LeftBracket,
        Token::Identifier(String::from("fast")),
        Token::RightBracket,
        Token::LeftBrace,
        Token::Return,
        Token::IntegerLiteral(0),
        Token::Semicolon,
        Token::RightBrace,
        Token::Eof,
    ];
    let mut parser = Parser::new(tokens, 0);
    match parser.parse() {
        Err(CompileError::ParseError { message, line }) => {
            assert_eq!(message, "fast is not a valid function flag");
            assert_eq!(line, 1);
        }
        other => panic!("unexpected {:?}", other.map(|p| p.body.len())),
    }
}

#[test]
fn parse_error_for_an_array_size_that_is_not_a_literal() {
    let tokens = vec![
        Token::I32,
        Token::Identifier(String::from("x")),
        Token::LeftBracket,
        Token::Identifier(String::from("y")),
        Token::RightBracket,
        Token::Semicolon,
        Token::Eof,
    ];
    let mut parser = Parser::new(tokens, 0);
    match parser.parse() {
        Err(CompileError::ParseError { message, line }) => {
            assert_eq!(message, "Expected integer literal in array size initializer");
            assert_eq!(line, 1);
        }
        other => panic!("unexpected {:?}", other.map(|p| p.body.len())),
    }
}

#[test]
fn type_sizes() {
    assert_eq!(Type::Void.size(), TypeSize::Void);
    assert_eq!(Type::Bool.size(), TypeSize::Byte);
    assert_eq!(Type::Int8.size(), TypeSize::Byte);
    assert_eq!(Type::Int16.size(), TypeSize::HalfWord);
    assert_eq!(Type::Int32.size(), TypeSize::Word);
    assert_eq!(Type::Int8.pointer_to().size(), TypeSize::Word);
}

#[test]
fn type_pointer_and_deref() {
    let p = Type::Int16.pointer_to();
    assert_eq!(p, Type::Pointer(Box::new(Type::Int16)));
    assert_eq!(p.deref(), Some(&Type::Int16));
    assert_eq!(Type::Int16.deref(), None);
}

#[test]
fn describe_formats_errors() {
    let e = CompileError::LexError { message: String::from("bad"), line: 3 };
    assert_eq!(e.describe(), "Lexical error at line 3: bad");
    let e = CompileError::ParseError { message: String::from("oops"), line: 12 };
    assert_eq!(e.describe(), "Parse error at line 12: oops");
    let e = CompileError::SemanticError { message: String::from("dup"), line: 0 };
    assert_eq!(e.describe(), "Semantic error at line 0: dup");
    let e = CompileError::CodeGenError { message: String::from("gen"), line: 100 };
    assert_eq!(e.describe(), "Code generation error at line 100: gen");
}

#[test]
fn debug_text_of_tokens_matches_debug_formatting() {
    let tokens = vec![
        Token::Identifier(String::from("main")),
        Token::IntegerLiteral(-5),
        Token::IntegerLiteral(42),
        Token::BoolLiteral(true),
        Token::StringLiteral(String::from("a \"quoted\"\n line")),
        Token::AsmBlock(vec![String::from("li $v0, 10"), String::from("syscall")]),
        Token::AsmBlock(vec![]),
        Token::LeftBrace,
        Token::Eof,
    ];
    for t in &tokens {
        assert_eq!(t.debug_text(), format!("{:?}", t));
    }
}

#[test]
fn debug_text_of_types_matches_debug_formatting() {
    let types = vec![
        Type::Void,
        Type::Int32,
        Type::Pointer(Box::new(Type::Pointer(Box::new(Type::Int8)))),
        Type::Struct(String::from("point")),
    ];
    for t in &types {
        assert_eq!(t.debug_text(), format!("{:?}", t));
    }
}

#[test]
fn trailing_comment_leaves_tokens_unchanged() {
    let plain = lex("i32 x = 1;\nx = x + 2;").expect("lexes");
    let commented = lex("i32 x = 1;\nx = x + 2; // add two").expect("lexes");
    assert_eq!(plain, commented);
    let bare = lex("while (x) { x = x - 1; }").expect("lexes");
    let with_empty_comment = lex("while (x) { x = x - 1; }//").expect("lexes");
    assert_eq!(bare, with_empty_comment);
}

#[test]
fn parser_numbers_labels_up_to_the_largest_count() {
    let tokens = lex("i32 x = 1;\nx = x + 2;").expect("lexes");
    let mut parser = Parser::new(tokens, usize::MAX);
    assert!(parser.parse().is_ok());
    assert_eq!(parser.get_label_count(), usize::MAX);

    let tokens = lex("if (x) { x = 1; }").expect("lexes");
    let mut parser = Parser::new(tokens, usize::MAX - 1);
    let body = parser.parse().expect("parses").body;
    assert_eq!(parser.get_label_count(), usize::MAX);
    match &body[0] {
        Statement::If { label, else_label, .. } => {
            assert_eq!(label, &format!("L{}", usize::MAX - 1));
            assert!(else_label.is_none());
        }
        other => panic!("expected an if statement, got {:?}", other),
    }
}

#[test]
fn parsed_labels_are_numbered_consecutively() {
    let tokens = lex("if (x) { while (x) { x = 1; } } else { x = 2; }").expect("lexes");
    let mut parser = Parser::new(tokens, 5);
    let body = parser.parse().expect("parses").body;
    assert_eq!(parser.get_label_count(), 9);
    let mut labels: Vec<String> = Vec::new();
    match &body[0] {
        Statement::If { label, body, else_label, .. } => {
            labels.push(label.clone());
            labels.push(else_label.clone().expect("has an else label"));
            match &body[0] {
                Statement::While { body_label, cond_label, .. } => {
                    labels.push(body_label.clone());
                    labels.push(cond_label.clone());
                }
                other => panic!("expected a while loop, got {:?}", other),
            }
        }
        other => panic!("expected an if statement, got {:?}", other),
    }
    labels.sort();
    assert_eq!(labels, vec!["L5", "L6", "L7", "L8"]);
}

#[test]
fn asm_lines_are_trimmed_of_unicode_whitespace() {
    let tokens = lex("__asm__ {\n\u{3000}nop\u{a0}\n}").expect("lexes");
    assert_eq!(tokens[0], Token::AsmBlock(vec![String::from("nop")]));
}
