//! Statements after semantic analysis, with names resolved to symbols.
use vstd::prelude::*;
use crate::parser::expression::Expression;
use crate::parser::types::Type;
use crate::semantic::symbol::SymbolId;

verus! {

/// A function parameter bound to its symbol.
#[derive(Debug)]
pub struct SemanticParam {
    pub name: String,
    pub param_type: Type,
    pub symbol: SymbolId,
}

/// An analyzed statement.
#[derive(Debug)]
pub enum SemanticStatement {
    SemanticFunction {
        name: String,
        symbol: SymbolId,
        return_type: Type,
        params: Vec<SemanticParam>,
        body: Vec<SemanticStatement>,
        line: usize,
    },
    SemanticFunctionCall { name: String, args: Vec<Expression>, line: usize },
    SemanticVarDecl { symbol: SymbolId, initializer: Option<Expression> },
    SemanticAssign { symbol: SymbolId, value: Expression },
    SemanticDerefAssign { target: Expression, value: Expression, line: usize },
    SemanticIf {
        label: String,
        condition: Expression,
        body: Vec<SemanticStatement>,
        else_label: Option<String>,
        else_body: Option<Vec<SemanticStatement>>,
    },
    SemanticWhile {
        body_label: String,
        body: Vec<SemanticStatement>,
        cond_label: String,
        condition: Expression,
    },
    SemanticAssembly { body: Vec<String> },
    SemanticReturn { value: Option<Expression> },
}

} // verus!
