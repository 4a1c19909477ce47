//! Warnings reported by semantic analysis; they do not stop compilation.
use vstd::prelude::*;
use crate::util::text::{push_str, string_of};

verus! {

/// A warning: its kind, the name or subject it concerns, its message and line.
#[derive(Debug)]
pub struct SemanticWarning {
    pub warning_type: WarningType,
    pub name: String,
    pub message: String,
    pub line: usize,
}

/// The kinds of warning.
#[derive(Debug, Clone, Copy, PartialEq, Eq, Structural)]
pub enum WarningType {
    UninitializedVariable,
    LiteralOverflow,
    TypeMismatch,
    UndeclaredFunction,
}

/// The message of a warning of kind `w` about `msg`.
pub open spec fn spec_warning_message(w: WarningType, msg: Seq<char>) -> Seq<char> {
    match w {
        WarningType::UninitializedVariable => "variable `"@ + msg
            + "` is declared but never initialized"@,
        WarningType::LiteralOverflow => "literal value overflows the declared type of `"@ + msg
            + "`"@,
        WarningType::TypeMismatch => msg,
        WarningType::UndeclaredFunction => msg,
    }
}

impl WarningType {
    /// The message of a warning of this kind about `msg` (a variable's name
    /// for the first two kinds, the whole text for the others).
    pub fn get_message(&self, msg: String) -> (r: String)
        ensures
            r@ == spec_warning_message(*self, msg@),
    {
        match self {
            WarningType::UninitializedVariable => {
                let mut s = string_of("variable `");
                push_str(&mut s, msg.as_str());
                push_str(&mut s, "` is declared but never initialized");
                s
            },
            WarningType::LiteralOverflow => {
                let mut s = string_of("literal value overflows the declared type of `");
                push_str(&mut s, msg.as_str());
                push_str(&mut s, "`");
                s
            },
            WarningType::TypeMismatch => msg,
            WarningType::UndeclaredFunction => msg,
        }
    }
}

impl Clone for SemanticWarning {
    fn clone(&self) -> (r: SemanticWarning)
        ensures
            r == *self,
    {
        SemanticWarning {
            warning_type: self.warning_type,
            name: self.name.clone(),
            message: self.message.clone(),
            line: self.line,
        }
    }
}

} // verus!
