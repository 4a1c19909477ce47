//! Tokens of the source language.
use vstd::prelude::*;
use crate::util::text::{int_text, push_i32, push_str, push_strings_debug, str_debug, str_debug_text, str_equal, string_of, strings_debug};

verus! {

/// A token. The lexer produces the keyword, literal, identifier, operator and
/// punctuation tokens of the language; `For`, `Struct`, `SizeOf`, `Percent`,
/// `Period`, the brackets, `Pound`, `PlusPlus`, `MinusMinus` and
/// `StringLiteral` are understood by the parser for token streams built by
/// other front ends.
#[derive(Debug, PartialEq, Clone)]
pub enum Token {
    Void,
    I32,
    I16,
    I8,
    Bool,
    If,
    Else,
    While,
    Return,
    ASMKeyword,
    For,
    Struct,
    SizeOf,
    IntegerLiteral(i32),
    BoolLiteral(bool),
    StringLiteral(String),
    AsmBlock(Vec<String>),
    Identifier(String),
    Equal,
    Plus,
    Minus,
    Star,
    Slash,
    Percent,
    PlusEqual,
    MinusEqual,
    PlusPlus,
    MinusMinus,
    Not,
    And,
    Or,
    EqualEqual,
    NotEqual,
    LessThan,
    GreaterThan,
    LessEqual,
    GreaterEqual,
    AndAnd,
    OrOr,
    LeftParen,
    RightParen,
    LeftBrace,
    RightBrace,
    LeftBracket,
    RightBracket,
    Semicolon,
    Comma,
    Period,
    Pound,
    Eof,
    Newline,
}

/// The mathematical value of a token: its text payloads as character sequences.
pub enum TokenV {
    Void,
    I32,
    I16,
    I8,
    Bool,
    If,
    Else,
    While,
    Return,
    ASMKeyword,
    For,
    Struct,
    SizeOf,
    IntegerLiteral(i32),
    BoolLiteral(bool),
    StringLiteral(Seq<char>),
    AsmBlock(Seq<Seq<char>>),
    Identifier(Seq<char>),
    Equal,
    Plus,
    Minus,
    Star,
    Slash,
    Percent,
    PlusEqual,
    MinusEqual,
    PlusPlus,
    MinusMinus,
    Not,
    And,
    Or,
    EqualEqual,
    NotEqual,
    LessThan,
    GreaterThan,
    LessEqual,
    GreaterEqual,
    AndAnd,
    OrOr,
    LeftParen,
    RightParen,
    LeftBrace,
    RightBrace,
    LeftBracket,
    RightBracket,
    Semicolon,
    Comma,
    Period,
    Pound,
    Eof,
    Newline,
}

/// The views of a list of strings.
pub open spec fn strings_view(v: Seq<String>) -> Seq<Seq<char>> {
    v.map_values(|s: String| s@)
}

impl View for Token {
    type V = TokenV;

    open spec fn view(&self) -> TokenV {
        match self {
            Token::Void => TokenV::Void,
            Token::I32 => TokenV::I32,
            Token::I16 => TokenV::I16,
            Token::I8 => TokenV::I8,
            Token::Bool => TokenV::Bool,
            Token::If => TokenV::If,
            Token::Else => TokenV::Else,
            Token::While => TokenV::While,
            Token::Return => TokenV::Return,
            Token::ASMKeyword => TokenV::ASMKeyword,
            Token::For => TokenV::For,
            Token::Struct => TokenV::Struct,
            Token::SizeOf => TokenV::SizeOf,
            Token::IntegerLiteral(n) => TokenV::IntegerLiteral(*n),
            Token::BoolLiteral(b) => TokenV::BoolLiteral(*b),
            Token::StringLiteral(s) => TokenV::StringLiteral(s@),
            Token::AsmBlock(v) => TokenV::AsmBlock(strings_view(v@)),
            Token::Identifier(s) => TokenV::Identifier(s@),
            Token::Equal => TokenV::Equal,
            Token::Plus => TokenV::Plus,
            Token::Minus => TokenV::Minus,
            Token::Star => TokenV::Star,
            Token::Slash => TokenV::Slash,
            Token::Percent => TokenV::Percent,
            Token::PlusEqual => TokenV::PlusEqual,
            Token::MinusEqual => TokenV::MinusEqual,
            Token::PlusPlus => TokenV::PlusPlus,
            Token::MinusMinus => TokenV::MinusMinus,
            Token::Not => TokenV::Not,
            Token::And => TokenV::And,
            Token::Or => TokenV::Or,
            Token::EqualEqual => TokenV::EqualEqual,
            Token::NotEqual => TokenV::NotEqual,
            Token::LessThan => TokenV::LessThan,
            Token::GreaterThan => TokenV::GreaterThan,
            Token::LessEqual => TokenV::LessEqual,
            Token::GreaterEqual => TokenV::GreaterEqual,
            Token::AndAnd => TokenV::AndAnd,
            Token::OrOr => TokenV::OrOr,
            Token::LeftParen => TokenV::LeftParen,
            Token::RightParen => TokenV::RightParen,
            Token::LeftBrace => TokenV::LeftBrace,
            Token::RightBrace => TokenV::RightBrace,
            Token::LeftBracket => TokenV::LeftBracket,
            Token::RightBracket => TokenV::RightBracket,
            Token::Semicolon => TokenV::Semicolon,
            Token::Comma => TokenV::Comma,
            Token::Period => TokenV::Period,
            Token::Pound => TokenV::Pound,
            Token::Eof => TokenV::Eof,
            Token::Newline => TokenV::Newline,
        }
    }
}

/// The keyword token spelled by `s`, if `s` is a keyword.
pub open spec fn spec_keyword(s: Seq<char>) -> Option<Token> {
    if s == "void"@ {
        Some(Token::Void)
    } else if s == "i32"@ {
        Some(Token::I32)
    } else if s == "i16"@ {
        Some(Token::I16)
    } else if s == "i8"@ {
        Some(Token::I8)
    } else if s == "bool"@ {
        Some(Token::Bool)
    } else if s == "if"@ {
        Some(Token::If)
    } else if s == "else"@ {
        Some(Token::Else)
    } else if s == "while"@ {
        Some(Token::While)
    } else if s == "return"@ {
        Some(Token::Return)
    } else if s == "true"@ {
        Some(Token::BoolLiteral(true))
    } else if s == "false"@ {
        Some(Token::BoolLiteral(false))
    } else if s == "__asm__"@ {
        Some(Token::ASMKeyword)
    } else {
        None
    }
}

impl Token {
    /// The keyword token spelled by `s`, or `None` for any other word.
    pub fn keyword(s: &str) -> (r: Option<Token>)
        ensures
            r == spec_keyword(s@),
    {
        if str_equal(s, "void") {
            Some(Token::Void)
        } else if str_equal(s, "i32") {
            Some(Token::I32)
        } else if str_equal(s, "i16") {
            Some(Token::I16)
        } else if str_equal(s, "i8") {
            Some(Token::I8)
        } else if str_equal(s, "bool") {
            Some(Token::Bool)
        } else if str_equal(s, "if") {
            Some(Token::If)
        } else if str_equal(s, "else") {
            Some(Token::Else)
        } else if str_equal(s, "while") {
            Some(Token::While)
        } else if str_equal(s, "return") {
            Some(Token::Return)
        } else if str_equal(s, "true") {
            Some(Token::BoolLiteral(true))
        } else if str_equal(s, "false") {
            Some(Token::BoolLiteral(false))
        } else if str_equal(s, "__asm__") {
            Some(Token::ASMKeyword)
        } else {
            None
        }
    }
}


/// The text `{:?}` gives for a token: the variant's name, then its payload
/// in parentheses as `{:?}` gives it (a number's digits, `true`/`false`, a
/// quoted string, a bracketed list of quoted strings).
pub open spec fn token_debug(t: Token) -> Seq<char> {
    match t {
        Token::Void => "Void"@,
        Token::I32 => "I32"@,
        Token::I16 => "I16"@,
        Token::I8 => "I8"@,
        Token::Bool => "Bool"@,
        Token::If => "If"@,
        Token::Else => "Else"@,
        Token::While => "While"@,
        Token::Return => "Return"@,
        Token::ASMKeyword => "ASMKeyword"@,
        Token::For => "For"@,
        Token::Struct => "Struct"@,
        Token::SizeOf => "SizeOf"@,
        Token::IntegerLiteral(n) => "IntegerLiteral("@ + int_text(n as int) + ")"@,
        Token::BoolLiteral(b) => "BoolLiteral("@ + (if b { "true"@ } else { "false"@ }) + ")"@,
        Token::StringLiteral(x) => "StringLiteral("@ + str_debug(x@) + ")"@,
        Token::AsmBlock(v) => "AsmBlock("@ + strings_debug(v@) + ")"@,
        Token::Identifier(x) => "Identifier("@ + str_debug(x@) + ")"@,
        Token::Equal => "Equal"@,
        Token::Plus => "Plus"@,
        Token::Minus => "Minus"@,
        Token::Star => "Star"@,
        Token::Slash => "Slash"@,
        Token::Percent => "Percent"@,
        Token::PlusEqual => "PlusEqual"@,
        Token::MinusEqual => "MinusEqual"@,
        Token::PlusPlus => "PlusPlus"@,
        Token::MinusMinus => "MinusMinus"@,
        Token::Not => "Not"@,
        Token::And => "And"@,
        Token::Or => "Or"@,
        Token::EqualEqual => "EqualEqual"@,
        Token::NotEqual => "NotEqual"@,
        Token::LessThan => "LessThan"@,
        Token::GreaterThan => "GreaterThan"@,
        Token::LessEqual => "LessEqual"@,
        Token::GreaterEqual => "GreaterEqual"@,
        Token::AndAnd => "AndAnd"@,
        Token::OrOr => "OrOr"@,
        Token::LeftParen => "LeftParen"@,
        Token::RightParen => "RightParen"@,
        Token::LeftBrace => "LeftBrace"@,
        Token::RightBrace => "RightBrace"@,
        Token::LeftBracket => "LeftBracket"@,
        Token::RightBracket => "RightBracket"@,
        Token::Semicolon => "Semicolon"@,
        Token::Comma => "Comma"@,
        Token::Period => "Period"@,
        Token::Pound => "Pound"@,
        Token::Eof => "Eof"@,
        Token::Newline => "Newline"@,
    }
}

impl Token {
    /// The text `{:?}` gives for this token (see `token_debug`).
    pub fn debug_text(&self) -> (r: String)
        ensures
            r@ == token_debug(*self),
    {
        match self {
            Token::Void => string_of("Void"),
            Token::I32 => string_of("I32"),
            Token::I16 => string_of("I16"),
            Token::I8 => string_of("I8"),
            Token::Bool => string_of("Bool"),
            Token::If => string_of("If"),
            Token::Else => string_of("Else"),
            Token::While => string_of("While"),
            Token::Return => string_of("Return"),
            Token::ASMKeyword => string_of("ASMKeyword"),
            Token::For => string_of("For"),
            Token::Struct => string_of("Struct"),
            Token::SizeOf => string_of("SizeOf"),
            Token::IntegerLiteral(n) => {
                let mut r = string_of("IntegerLiteral(");
                push_i32(&mut r, *n);
                push_str(&mut r, ")");
                r
            },
            Token::BoolLiteral(b) => {
                let mut r = string_of("BoolLiteral(");
                if *b {
                    push_str(&mut r, "true");
                } else {
                    push_str(&mut r, "false");
                }
                push_str(&mut r, ")");
                r
            },
            Token::StringLiteral(x) => {
                let mut r = string_of("StringLiteral(");
                let d = str_debug_text(x);
                push_str(&mut r, d.as_str());
                push_str(&mut r, ")");
                r
            },
            Token::AsmBlock(v) => {
                let mut r = string_of("AsmBlock(");
                push_strings_debug(&mut r, v);
                push_str(&mut r, ")");
                r
            },
            Token::Identifier(x) => {
                let mut r = string_of("Identifier(");
                let d = str_debug_text(x);
                push_str(&mut r, d.as_str());
                push_str(&mut r, ")");
                r
            },
            Token::Equal => string_of("Equal"),
            Token::Plus => string_of("Plus"),
            Token::Minus => string_of("Minus"),
            Token::Star => string_of("Star"),
            Token::Slash => string_of("Slash"),
            Token::Percent => string_of("Percent"),
            Token::PlusEqual => string_of("PlusEqual"),
            Token::MinusEqual => string_of("MinusEqual"),
            Token::PlusPlus => string_of("PlusPlus"),
            Token::MinusMinus => string_of("MinusMinus"),
            Token::Not => string_of("Not"),
            Token::And => string_of("And"),
            Token::Or => string_of("Or"),
            Token::EqualEqual => string_of("EqualEqual"),
            Token::NotEqual => string_of("NotEqual"),
            Token::LessThan => string_of("LessThan"),
            Token::GreaterThan => string_of("GreaterThan"),
            Token::LessEqual => string_of("LessEqual"),
            Token::GreaterEqual => string_of("GreaterEqual"),
            Token::AndAnd => string_of("AndAnd"),
            Token::OrOr => string_of("OrOr"),
            Token::LeftParen => string_of("LeftParen"),
            Token::RightParen => string_of("RightParen"),
            Token::LeftBrace => string_of("LeftBrace"),
            Token::RightBrace => string_of("RightBrace"),
            Token::LeftBracket => string_of("LeftBracket"),
            Token::RightBracket => string_of("RightBracket"),
            Token::Semicolon => string_of("Semicolon"),
            Token::Comma => string_of("Comma"),
            Token::Period => string_of("Period"),
            Token::Pound => string_of("Pound"),
            Token::Eof => string_of("Eof"),
            Token::Newline => string_of("Newline"),
        }
    }
}

} // verus!
