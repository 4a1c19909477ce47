//! The compiler's front end as one step: the standard library and the
//! user's program are lexed and parsed, analyzed together (the library's
//! declarations first) and translated to intermediate representation.
use vstd::prelude::*;
use crate::ir::ir_generator::{fn_view, IrGenerator};
use crate::ir::program::IrProgram;
use crate::ir::translate::{emit_functions, stmts_calls};
use crate::lexer::lexer::{outcome_matches, spec_tokenize, LexErr, LexOutcome, Lexer};
use crate::lexer::token::{Token, TokenV};
use crate::parser::grammar::{program_tail, stmts_view, PState, StmtV};
use crate::parser::statement::Statement;
use crate::semantic::model::{analysis, sems_view, table_view, warns_view, AState, SemV, WarnV};
use crate::parser::labels::{block_labels, lemma_labels_of_parses_in_turn};
use crate::parser::parser::{label_demand, parsable, Parser};
use crate::parser::program::Program;
use crate::semantic::analyzer::Analyzer;
use crate::semantic::program::SemanticProgram;
use crate::semantic::scope::{ids_distinct, scope_table_wf};
use crate::util::error::{CompileError, ErrV};
use crate::util::text::string_of;

verus! {

/// Reading back towards the start of a token list only adds label demand.
proof fn lemma_label_demand_grows(ts: Seq<Token>, j: int, i: int)
    requires
        0 <= j <= i,
    ensures
        label_demand(ts, j) >= label_demand(ts, i),
    decreases i - j,
{
    if j < i {
        lemma_label_demand_grows(ts, j + 1, i);
    }
}

/// Whether a token list can be handed to a parser that numbers labels from
/// `label_count` (see `parsable`).
fn fits_parser(tokens: &Vec<Token>, label_count: usize) -> (r: bool)
    ensures
        r == parsable(tokens@, label_count),
{
    let n = tokens.len();
    if n == 0 || n == usize::MAX {
        return false;
    }
    if !matches!(tokens[n - 1], Token::Eof) {
        return false;
    }
    let mut demand: usize = 0;
    let mut i: usize = n;
    while i > 0
        invariant
            i <= n == tokens@.len(),
            demand == label_demand(tokens@, i as int),
            demand <= 2 * (n - i),
            demand <= usize::MAX - label_count,
        decreases i,
    {
        i -= 1;
        let w: usize = match tokens[i] {
            Token::If | Token::Else => 1,
            Token::While | Token::For => 2,
            _ => 0,
        };
        if w > usize::MAX - label_count - demand {
            proof {
                lemma_label_demand_grows(tokens@, 0, i as int);
            }
            return false;
        }
        demand += w;
    }
    true
}

/// A lexing error as the lexer specifies it: its message and line.
pub open spec fn lex_failure<T>(o: LexOutcome, r: Result<T, CompileError>) -> bool {
    match o {
        Err((m, l)) => r matches Err(e) && e is LexError && e->LexError_message@ == m && e->LexError_line == l,
        Ok(_) => true,
    }
}

/// Lexes the standard library and then the program. The library's
/// lexical errors are reported first.
pub fn lex_sources(stdlib: &String, source: &String) -> (r: Result<(Vec<Token>, Vec<Token>), CompileError>)
    requires
        stdlib@.len() < usize::MAX,
        source@.len() < usize::MAX,
    ensures
        lex_failure(spec_tokenize(stdlib@), r),
        spec_tokenize(stdlib@) is Ok ==> lex_failure(spec_tokenize(source@), r),
        r is Ok <==> spec_tokenize(stdlib@) is Ok && spec_tokenize(source@) is Ok,
        r matches Ok((a, b)) ==> outcome_matches(Ok(a), spec_tokenize(stdlib@)) && outcome_matches(Ok(b), spec_tokenize(source@)),
{
    let mut stdlib_lexer = Lexer::new(stdlib);
    let stdlib_tokens = match stdlib_lexer.tokenize() {
        Ok(t) => t,
        Err(e) => {
            return Err(e);
        },
    };
    let mut user_lexer = Lexer::new(source);
    let user_tokens = match user_lexer.tokenize() {
        Ok(t) => t,
        Err(e) => {
            return Err(e);
        },
    };
    Ok((stdlib_tokens, user_tokens))
}

/// What parsing `ts` with labels numbered from `labels` gives: the values of
/// the statements and the label count reached, or the parse error.
pub open spec fn parse_outcome(ts: Seq<Token>, labels: int) -> Result<(Seq<StmtV>, int), ErrV> {
    match program_tail(ts, PState { pos: 0, line: 1, labels }, Seq::empty()) {
        Ok((v, st)) => Ok((v, st.labels)),
        Err(e) => Err(e),
    }
}

/// Both sources lex: the library to the tokens `ta`, the program to `tb`.
pub open spec fn lexed(stdlib: Seq<char>, source: Seq<char>, ta: Seq<Token>, tb: Seq<Token>) -> bool {
    &&& spec_tokenize(stdlib) == Ok::<Seq<TokenV>, LexErr>(ta.map_values(|t: Token| t@))
    &&& spec_tokenize(source) == Ok::<Seq<TokenV>, LexErr>(tb.map_values(|t: Token| t@))
}

/// The library's tokens `ta` parse to the statements `a` and then the
/// program's tokens `tb`, with labels numbered on, to `b`.
pub open spec fn parsed(ta: Seq<Token>, tb: Seq<Token>, a: Seq<Statement>, b: Seq<Statement>) -> bool {
    match parse_outcome(ta, 0) {
        Ok((va, la)) => stmts_view(a) == va && match parse_outcome(tb, la) {
            Ok((vb, _)) => stmts_view(b) == vb,
            Err(_) => false,
        },
        Err(_) => false,
    }
}

/// The error of parsing the library's tokens `ta`, or after them the
/// program's tokens `tb`; `None` when both parse.
pub open spec fn parse_error_of(ta: Seq<Token>, tb: Seq<Token>) -> Option<ErrV> {
    match parse_outcome(ta, 0) {
        Ok((_, la)) => match parse_outcome(tb, la) {
            Ok(_) => None,
            Err(e) => Some(e),
        },
        Err(e) => Some(e),
    }
}

/// `p` is what the front end makes of the library `stdlib` and the program
/// `source` by way of the token lists `ta` and `tb` and the statement lists
/// `a` and `b`: both sources lex to those tokens, the library's tokens parse
/// to `a` and then the program's to `b` (labels numbered on), and `p` is the
/// analysis of `a` followed by `b`.
pub open spec fn derivation(
    stdlib: Seq<char>,
    source: Seq<char>,
    ta: Seq<Token>,
    tb: Seq<Token>,
    a: Seq<Statement>,
    b: Seq<Statement>,
    p: SemanticProgram,
) -> bool {
    &&& lexed(stdlib, source, ta, tb)
    &&& parsed(ta, tb, a, b)
    &&& match analysis(a + b, 0, Seq::<WarnV>::empty()) {
        Ok((st, out)) => table_view(p.scope_table@) == st.table && sems_view(p.body@) == out
            && warns_view(p.diagnostics@) == st.warnings,
        Err(_) => false,
    }
}

/// `p` is what the front end makes of `stdlib` and `source` (see `derivation`).
pub open spec fn compiled_from(stdlib: Seq<char>, source: Seq<char>, p: SemanticProgram) -> bool {
    exists|ta: Seq<Token>, tb: Seq<Token>, a: Seq<Statement>, b: Seq<Statement>|
        #[trigger] derivation(stdlib, source, ta, tb, a, b, p)
}

/// The token lists `ta` (the library's) and `tb` (the program's) cannot be
/// handed to the parser (see `parsable`), most often because the labels
/// their `if`, `else`, `while` and `for` tokens may need do not fit in a
/// `usize`: the library's numbered from zero, or the program's numbered on
/// from where the library's parse stopped.
pub open spec fn size_failure(ta: Seq<Token>, tb: Seq<Token>) -> bool {
    ||| !parsable(ta, 0)
    ||| match parse_outcome(ta, 0) {
        Ok((_, la)) => !parsable(tb, la as usize),
        Err(_) => false,
    }
}

/// Where compiling `stdlib` and `source` can fail with the error `x`: in
/// lexing; with an internal error when a token list cannot be handed to
/// the parser; in parsing or in the analysis, which then give `x`; or in
/// the translation of an analyzed program.
pub open spec fn failure(stdlib: Seq<char>, source: Seq<char>, x: CompileError) -> bool {
    ||| spec_tokenize(stdlib) is Err || spec_tokenize(source) is Err
    ||| x is CompilerError && exists|ta: Seq<Token>, tb: Seq<Token>| #[trigger] lexed(stdlib, source, ta, tb) && size_failure(ta, tb)
    ||| exists|ta: Seq<Token>, tb: Seq<Token>| #[trigger] lexed(stdlib, source, ta, tb) && parse_error_of(ta, tb) == Some(x@)
    ||| exists|ta: Seq<Token>, tb: Seq<Token>, a: Seq<Statement>, b: Seq<Statement>|
        #[trigger] lexed(stdlib, source, ta, tb) && #[trigger] parsed(ta, tb, a, b)
            && analysis(a + b, 0, Seq::<WarnV>::empty()) == Err::<(AState, Seq<SemV>), ErrV>(x@)
    ||| exists|ta: Seq<Token>, tb: Seq<Token>, a: Seq<Statement>, b: Seq<Statement>, p: SemanticProgram|
        #[trigger] derivation(stdlib, source, ta, tb, a, b, p) && emit_functions(
            p.scope_table@,
            p.body@,
            stmts_calls(p.body@, p.body@.len()),
            p.body@.len(),
        ) is None
}

/// Every stage succeeds on `stdlib` and `source`: both lex, and for the
/// token lists they lex to, the lists fit their label numbering and parse,
/// the parsed statements analyze, and the analyzed program translates.
pub open spec fn succeeds(stdlib: Seq<char>, source: Seq<char>) -> bool {
    &&& spec_tokenize(stdlib) is Ok
    &&& spec_tokenize(source) is Ok
    &&& forall|ta: Seq<Token>, tb: Seq<Token>| #[trigger] lexed(stdlib, source, ta, tb) ==> {
        &&& !size_failure(ta, tb)
        &&& parse_error_of(ta, tb) is None
        &&& forall|a: Seq<Statement>, b: Seq<Statement>| #[trigger] parsed(ta, tb, a, b) ==> {
            &&& analysis(a + b, 0, Seq::<WarnV>::empty()) is Ok
            &&& forall|p: SemanticProgram| #[trigger] derivation(stdlib, source, ta, tb, a, b, p)
                ==> emit_functions(p.scope_table@, p.body@, stmts_calls(p.body@, p.body@.len()), p.body@.len()) is Some
        }
    }
}

/// Parses the library's tokens and then the program's, numbering the
/// program's labels on from where the library's stopped, so that no label
/// of the two repeats.
pub fn parse_sources(stdlib_tokens: Vec<Token>, user_tokens: Vec<Token>) -> (r: Result<(Program, Program), CompileError>)
    ensures
        r matches Ok((a, b)) ==> block_labels(a.body@ + b.body@, a.body@.len() + b.body@.len()).no_duplicates(),
        r matches Ok((a, b)) ==> parsed(stdlib_tokens@, user_tokens@, a.body@, b.body@),
        parse_error_of(stdlib_tokens@, user_tokens@) is Some ==> r is Err,
        size_failure(stdlib_tokens@, user_tokens@) ==> r is Err,
        !size_failure(stdlib_tokens@, user_tokens@) && parse_error_of(stdlib_tokens@, user_tokens@) is None ==> r is Ok,
        r matches Err(e) ==> parse_error_of(stdlib_tokens@, user_tokens@) == Some(e@)
            || (e is CompilerError && size_failure(stdlib_tokens@, user_tokens@)),
{
    if !fits_parser(&stdlib_tokens, 0) {
        return Err(CompileError::CompilerError { message: string_of("standard library too large"), line: 0 });
    }
    let mut stdlib_parser = Parser::new(stdlib_tokens, 0);
    let stdlib_ast = stdlib_parser.parse()?;
    let labels = stdlib_parser.get_label_count();
    if !fits_parser(&user_tokens, labels) {
        return Err(CompileError::CompilerError { message: string_of("program too large"), line: 0 });
    }
    let mut user_parser = Parser::new(user_tokens, labels);
    let user_ast = user_parser.parse()?;
    proof {
        lemma_labels_of_parses_in_turn(
            stdlib_ast.body@,
            user_ast.body@,
            0,
            labels as nat,
            user_parser.labels() as nat,
        );
    }
    Ok((stdlib_ast, user_ast))
}

/// The library's statements followed by the program's.
pub fn combine(stdlib_ast: Program, user_ast: Program) -> (r: Program)
    ensures
        r.body@ == stdlib_ast.body@ + user_ast.body@,
{
    let mut body = stdlib_ast.body;
    let mut user_body = user_ast.body;
    body.append(&mut user_body);
    Program { body }
}

/// The result of compiling a program: the analyzed program and its
/// intermediate representation.
pub struct Compiler {
    pub semantic_program: SemanticProgram,
    pub ir: IrProgram,
}

impl Compiler {
    /// Compiles `source` together with the standard library `stdlib`:
    /// lexing (the library's errors first), parsing with labels numbered on
    /// from the library's, analysis of the joined program, translation.
    pub fn new(stdlib: &String, source: &String) -> (r: Result<Compiler, CompileError>)
        requires
            stdlib@.len() < usize::MAX,
            source@.len() < usize::MAX,
        ensures
            lex_failure(spec_tokenize(stdlib@), r),
            spec_tokenize(stdlib@) is Ok ==> lex_failure(spec_tokenize(source@), r),
            r matches Err(x) ==> failure(stdlib@, source@, x),
            succeeds(stdlib@, source@) ==> r is Ok,
            r matches Ok(c) ==> {
                let p = c.semantic_program;
                &&& compiled_from(stdlib@, source@, p)
                &&& spec_tokenize(stdlib@) is Ok
                &&& spec_tokenize(source@) is Ok
                &&& scope_table_wf(p.scope_table@)
                &&& ids_distinct(p.scope_table@)
                &&& emit_functions(p.scope_table@, p.body@, stmts_calls(p.body@, p.body@.len()), p.body@.len()) matches Some(fs)
                    && c.ir.functions@.len() == fs.len()
                    && forall|k: int| 0 <= k < fs.len() ==> fn_view(#[trigger] c.ir.functions@[k]) == fs[k]
            },
    {
        let (stdlib_tokens, user_tokens) = match lex_sources(stdlib, source) {
            Ok(p) => p,
            Err(e) => {
                return Err(e);
            },
        };
        let ghost ta = stdlib_tokens@;
        let ghost tb = user_tokens@;
        proof {
            assert(lexed(stdlib@, source@, ta, tb));
        }
        let (stdlib_ast, user_ast) = match parse_sources(stdlib_tokens, user_tokens) {
            Ok(p) => p,
            Err(e) => {
                return Err(e);
            },
        };
        let ghost a = stdlib_ast.body@;
        let ghost b = user_ast.body@;
        proof {
            assert(parsed(ta, tb, a, b));
        }
        let combined = combine(stdlib_ast, user_ast);
        let mut analyzer = Analyzer::new(combined);
        let semantic_program = match analyzer.analyze() {
            Ok(p) => p,
            Err(e) => {
                return Err(e);
            },
        };
        let ghost sp = semantic_program;
        proof {
            assert(derivation(stdlib@, source@, ta, tb, a, b, sp));
        }
        let mut generator = IrGenerator::new(semantic_program);
        let ir = match generator.generate() {
            Ok(ir) => ir,
            Err(e) => {
                return Err(e);
            },
        };
        let semantic_program = generator.into_source();
        proof {
            assert(derivation(stdlib@, source@, ta, tb, a, b, semantic_program));
        }
        Ok(Compiler { semantic_program, ir })
    }
}

} // verus!
