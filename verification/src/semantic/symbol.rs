//! Symbols: the functions and variables that names refer to.
use vstd::prelude::*;
use crate::parser::statement::{copy_params, Parameter};
use crate::parser::types::{copy_type, Type};
use crate::semantic::scope::ScopeId;
use crate::util::text::copy_string;

verus! {

/// The initialization state of a variable.
#[derive(Debug, Clone, Copy, PartialEq, Eq, Structural)]
pub enum State {
    Uninitialized,
    Initialized,
    Used,
}

/// What a symbol names.
#[derive(Debug)]
pub enum SymbolKind {
    Function { return_type: Type, params: Vec<Parameter> },
    Variable { var_type: Type, state: State },
}

/// The identity of a symbol, unique within a program.
#[derive(Debug, Clone, Copy, PartialEq, Eq, Hash, Structural)]
pub struct SymbolId(pub usize);

impl SymbolId {
    /// The number of this identity.
    pub fn value(&self) -> (r: usize)
        ensures
            r == self.0,
    {
        self.0
    }
}

/// A declared name.
#[derive(Debug)]
pub struct Symbol {
    pub name: String,
    pub id: SymbolId,
    pub kind: SymbolKind,
    pub declared_scope: ScopeId,
    pub line: usize,
}

/// Two symbol kinds have equal content.
pub open spec fn same_kind(a: SymbolKind, b: SymbolKind) -> bool {
    match (a, b) {
        (
            SymbolKind::Function { return_type: r1, params: p1 },
            SymbolKind::Function { return_type: r2, params: p2 },
        ) => r1 == r2 && p1@ == p2@,
        (
            SymbolKind::Variable { var_type: t1, state: s1 },
            SymbolKind::Variable { var_type: t2, state: s2 },
        ) => t1 == t2 && s1 == s2,
        _ => false,
    }
}

/// Two symbols have equal content.
pub open spec fn same_symbol(a: Symbol, b: Symbol) -> bool {
    a.name == b.name && a.id == b.id && same_kind(a.kind, b.kind) && a.declared_scope
        == b.declared_scope && a.line == b.line
}

/// A copy of a symbol kind.
pub fn copy_kind(k: &SymbolKind) -> (r: SymbolKind)
    ensures
        same_kind(r, *k),
{
    match k {
        SymbolKind::Function { return_type, params } => SymbolKind::Function {
            return_type: copy_type(return_type),
            params: copy_params(params),
        },
        SymbolKind::Variable { var_type, state } => SymbolKind::Variable {
            var_type: copy_type(var_type),
            state: *state,
        },
    }
}

/// A copy of a symbol.
pub fn copy_symbol(s: &Symbol) -> (r: Symbol)
    ensures
        same_symbol(r, *s),
{
    Symbol {
        name: copy_string(&s.name),
        id: s.id,
        kind: copy_kind(&s.kind),
        declared_scope: s.declared_scope,
        line: s.line,
    }
}

impl Clone for SymbolKind {
    fn clone(&self) -> (r: SymbolKind)
        ensures
            same_kind(r, *self),
    {
        copy_kind(self)
    }
}

impl Clone for Symbol {
    fn clone(&self) -> (r: Symbol)
        ensures
            same_symbol(r, *self),
    {
        copy_symbol(self)
    }
}

} // verus!
