//! Errors that stop compilation, each tied to the source line it arose on.
use vstd::prelude::*;
use crate::util::text::{decimal, push_decimal, push_str, string_of};

verus! {

/// A compilation error: the stage it arose in, a message and a line.
#[derive(Debug, Clone)]
pub enum CompileError {
    LexError { message: String, line: usize },
    ParseError { message: String, line: usize },
    SemanticError { message: String, line: usize },
    CodeGenError { message: String, line: usize },
    CompilerError { message: String, line: usize },
}

/// The value of a compilation error: its stage, message text and line.
pub enum ErrV {
    Lex(Seq<char>, usize),
    Parse(Seq<char>, usize),
    Semantic(Seq<char>, usize),
    CodeGen(Seq<char>, usize),
    Compiler(Seq<char>, usize),
}

impl View for CompileError {
    type V = ErrV;

    open spec fn view(&self) -> ErrV {
        match self {
            CompileError::LexError { message, line } => ErrV::Lex(message@, *line),
            CompileError::ParseError { message, line } => ErrV::Parse(message@, *line),
            CompileError::SemanticError { message, line } => ErrV::Semantic(message@, *line),
            CompileError::CodeGenError { message, line } => ErrV::CodeGen(message@, *line),
            CompileError::CompilerError { message, line } => ErrV::Compiler(message@, *line),
        }
    }
}

/// The result of a compiler stage.
pub type CompileResult<T> = core::result::Result<T, CompileError>;

impl CompileError {
    /// The line the error refers to.
    pub open spec fn spec_line(&self) -> usize {
        match self {
            CompileError::LexError { line, .. } => *line,
            CompileError::ParseError { line, .. } => *line,
            CompileError::SemanticError { line, .. } => *line,
            CompileError::CodeGenError { line, .. } => *line,
            CompileError::CompilerError { line, .. } => *line,
        }
    }

    /// The message the error carries.
    pub open spec fn spec_message(&self) -> Seq<char> {
        match self {
            CompileError::LexError { message, .. } => message@,
            CompileError::ParseError { message, .. } => message@,
            CompileError::SemanticError { message, .. } => message@,
            CompileError::CodeGenError { message, .. } => message@,
            CompileError::CompilerError { message, .. } => message@,
        }
    }

    /// The text that introduces a message of this kind of error.
    pub open spec fn spec_heading(&self) -> Seq<char> {
        match self {
            CompileError::LexError { .. } => "Lexical error at line "@,
            CompileError::ParseError { .. } => "Parse error at line "@,
            CompileError::SemanticError { .. } => "Semantic error at line "@,
            CompileError::CodeGenError { .. } => "Code generation error at line "@,
            CompileError::CompilerError { .. } => "Critical Compiler Error at line "@,
        }
    }

    /// The report shown to the user: heading, line, a colon and the message.
    /// An internal compiler error is reported by the caller as a crash, as the
    /// command-line tool does.
    pub fn describe(&self) -> (r: String)
        requires
            !(self is CompilerError),
        ensures
            r@ == self.spec_heading() + decimal(self.spec_line() as nat) + ": "@
                + self.spec_message(),
    {
        let (mut s, line, message) = match self {
            CompileError::LexError { message, line } => (
                string_of("Lexical error at line "),
                *line,
                message,
            ),
            CompileError::ParseError { message, line } => (
                string_of("Parse error at line "),
                *line,
                message,
            ),
            CompileError::SemanticError { message, line } => (
                string_of("Semantic error at line "),
                *line,
                message,
            ),
            CompileError::CodeGenError { message, line } => (
                string_of("Code generation error at line "),
                *line,
                message,
            ),
            CompileError::CompilerError { message, line } => (
                string_of("Critical Compiler Error at line "),
                *line,
                message,
            ),
        };
        push_decimal(&mut s, line);
        push_str(&mut s, ": ");
        push_str(&mut s, message.as_str());
        s
    }
}

} // verus!
