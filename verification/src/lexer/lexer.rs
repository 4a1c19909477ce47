//! The lexer: source text to tokens.
use vstd::prelude::*;
use crate::lexer::token::{spec_keyword, Token, TokenV};
use crate::util::error::CompileError;
use crate::util::text::{push_char, push_str, string_from_chars, string_of, chars_of};

verus! {

// ---------------------------------------------------------------------------
// Comments

/// The source with every `//` comment removed, up to (not including) the
/// newline that ends it.
pub open spec fn strip_comments(s: Seq<char>) -> Seq<char>
    decreases s.len(), 0int,
{
    if s.len() == 0 {
        Seq::empty()
    } else if s.len() >= 2 && s[0] == '/' && s[1] == '/' {
        strip_in_comment(s.skip(2))
    } else {
        seq![s[0]] + strip_comments(s.skip(1))
    }
}

/// Comment stripping inside a comment: drop characters up to the newline.
pub open spec fn strip_in_comment(s: Seq<char>) -> Seq<char>
    decreases s.len(), 1int,
{
    if s.len() == 0 {
        Seq::empty()
    } else if s[0] == '\n' {
        strip_comments(s)
    } else {
        strip_in_comment(s.skip(1))
    }
}

/// No `//` pair occurs in `s`.
pub open spec fn comment_free(s: Seq<char>) -> bool {
    forall|i: int| 0 <= i < s.len() - 1 ==> !(#[trigger] s[i] == '/' && s[i + 1] == '/')
}

proof fn lemma_strip_head(s: Seq<char>)
    ensures
        strip_comments(s).len() > 0 && strip_comments(s)[0] == '/' ==> s.len() > 0 && s[0] == '/'
            && !(s.len() >= 2 && s[1] == '/'),
        strip_in_comment(s).len() > 0 ==> strip_in_comment(s)[0] == '\n',
    decreases s.len(),
{
    if s.len() > 0 {
        lemma_strip_head(s.skip(1));
        if s.len() >= 2 && s[0] == '/' && s[1] == '/' {
            lemma_strip_head(s.skip(2));
        }
    }
}

proof fn lemma_strip_comment_free(s: Seq<char>)
    ensures
        comment_free(strip_comments(s)),
        comment_free(strip_in_comment(s)),
    decreases s.len(),
{
    if s.len() > 0 {
        lemma_strip_comment_free(s.skip(1));
        lemma_strip_head(s.skip(1));
        if s.len() >= 2 && s[0] == '/' && s[1] == '/' {
            lemma_strip_comment_free(s.skip(2));
        } else {
            let t = strip_comments(s.skip(1));
            let r = seq![s[0]] + t;
            assert(r == strip_comments(s));
            assert forall|i: int| 0 <= i < r.len() - 1 implies !(#[trigger] r[i] == '/' && r[i + 1] == '/') by {
                if i > 0 {
                    assert(r[i] == t[i - 1]);
                    assert(r[i + 1] == t[i]);
                } else if r[0] == '/' && r[1] == '/' {
                    assert(t[0] == '/');
                    assert(s.skip(1)[0] == '/');
                }
            }
        }
    }
}

proof fn lemma_strip_comment_free_id(s: Seq<char>)
    requires
        comment_free(s),
    ensures
        strip_comments(s) == s,
    decreases s.len(),
{
    if s.len() > 0 {
        if s.len() >= 2 {
            assert(!(s[0] == '/' && s[1] == '/'));
        }
        assert forall|i: int| 0 <= i < s.skip(1).len() - 1 implies !(#[trigger] s.skip(1)[i] == '/'
            && s.skip(1)[i + 1] == '/') by {
            assert(s.skip(1)[i] == s[i + 1]);
            assert(s.skip(1)[i + 1] == s[i + 2]);
        }
        lemma_strip_comment_free_id(s.skip(1));
        assert(seq![s[0]] + s.skip(1) =~= s);
    }
}

/// Stripping comments twice is stripping them once: no `//` survives a pass.
pub proof fn lemma_strip_comments_idempotent(s: Seq<char>)
    ensures
        strip_comments(strip_comments(s)) == strip_comments(s),
{
    lemma_strip_comment_free(s);
    lemma_strip_comment_free_id(strip_comments(s));
}

// ---------------------------------------------------------------------------
// Character classes

/// `char::is_alphanumeric` (Unicode letters and numbers).
pub uninterp spec fn char_is_alphanumeric(c: char) -> bool;

/// `char::is_whitespace`: the characters with Unicode's White_Space
/// property, as std documents them.
pub open spec fn char_is_whitespace(c: char) -> bool {
    let n = c as u32;
    ||| 0x09 <= n <= 0x0d
    ||| n == 0x20 || n == 0x85 || n == 0xa0 || n == 0x1680
    ||| 0x2000 <= n <= 0x200a
    ||| n == 0x2028 || n == 0x2029 || n == 0x202f || n == 0x205f || n == 0x3000
}

/// `char::is_alphanumeric`.
#[verifier::external_body]
fn is_alphanumeric(c: char) -> (r: bool)
    ensures
        r == char_is_alphanumeric(c),
{
    c.is_alphanumeric()
}

/// Whether `c` is whitespace in the sense of `char::is_whitespace`, whose
/// documented list of characters `char_is_whitespace` gives.
fn is_whitespace(c: char) -> (r: bool)
    ensures
        r == char_is_whitespace(c),
{
    let n = c as u32;
    (0x09 <= n && n <= 0x0d) || n == 0x20 || n == 0x85 || n == 0xa0 || n == 0x1680
        || (0x2000 <= n && n <= 0x200a) || n == 0x2028 || n == 0x2029 || n == 0x202f
        || n == 0x205f || n == 0x3000
}

pub open spec fn is_digit(c: char) -> bool {
    '0' <= c <= '9'
}

pub open spec fn is_hex_digit(c: char) -> bool {
    ('0' <= c <= '9') || ('a' <= c <= 'f') || ('A' <= c <= 'F')
}

pub open spec fn is_word_start(c: char) -> bool {
    ('a' <= c <= 'z') || ('A' <= c <= 'Z') || c == '_'
}

pub open spec fn is_word_char(c: char) -> bool {
    char_is_alphanumeric(c) || c == '_'
}

pub open spec fn digit_value(c: char) -> nat {
    if '0' <= c <= '9' {
        (c as nat - '0' as nat) as nat
    } else if 'a' <= c <= 'f' {
        (c as nat - 'a' as nat + 10) as nat
    } else {
        (c as nat - 'A' as nat + 10) as nat
    }
}

/// The value of a string of digits in the given base, most significant first.
pub open spec fn digits_value(s: Seq<char>, base: nat) -> nat
    decreases s.len(),
{
    if s.len() == 0 {
        0
    } else {
        digits_value(s.drop_last(), base) * base + digit_value(s.last())
    }
}

// ---------------------------------------------------------------------------
// Scanning positions

/// The first position at or after `i` that does not hold a character in `class`.
pub open spec fn end_of_run(s: Seq<char>, i: int, class: spec_fn(char) -> bool) -> int
    decreases s.len() - i,
{
    if 0 <= i < s.len() && class(s[i]) {
        end_of_run(s, i + 1, class)
    } else {
        i
    }
}

/// A run ends at or after its start, within the text, past only characters
/// of its class.
pub proof fn lemma_end_of_run_ge(s: Seq<char>, i: int, class: spec_fn(char) -> bool)
    ensures
        end_of_run(s, i, class) >= i,
        i <= s.len() ==> end_of_run(s, i, class) <= s.len(),
        forall|k: int| i <= k < end_of_run(s, i, class) ==> class(#[trigger] s[k]),
        0 <= i && end_of_run(s, i, class) < s.len() ==> !class(s[end_of_run(s, i, class)]),
    decreases s.len() - i,
{
    if 0 <= i < s.len() && class(s[i]) {
        lemma_end_of_run_ge(s, i + 1, class);
    }
}

/// The number of newlines in `s[i..j]`.
pub open spec fn newlines(s: Seq<char>, i: int, j: int) -> nat
    decreases j - i,
{
    if i < j && 0 <= i < s.len() {
        (if s[i] == '\n' { 1nat } else { 0nat }) + newlines(s, i + 1, j)
    } else {
        0
    }
}

pub open spec fn is_blank(c: char) -> bool {
    c == ' ' || c == '\t' || c == '\r' || c == '\n'
}

/// `n` newline tokens.
pub open spec fn newline_tokens(n: nat) -> Seq<TokenV> {
    Seq::new(n, |i: int| TokenV::Newline)
}

// ---------------------------------------------------------------------------
// Trimming

/// `s` without its leading whitespace.
pub open spec fn trim_start(s: Seq<char>) -> Seq<char>
    decreases s.len(),
{
    if s.len() > 0 && char_is_whitespace(s[0]) {
        trim_start(s.skip(1))
    } else {
        s
    }
}

/// `s` without its trailing whitespace.
pub open spec fn trim_end(s: Seq<char>) -> Seq<char>
    decreases s.len(),
{
    if s.len() > 0 && char_is_whitespace(s.last()) {
        trim_end(s.drop_last())
    } else {
        s
    }
}

/// `s` without leading and trailing whitespace, as `str::trim` gives it.
pub open spec fn trim(s: Seq<char>) -> Seq<char> {
    trim_end(trim_start(s))
}

// ---------------------------------------------------------------------------
// Tokens

/// A lexical error: its message and line.
pub type LexErr = (Seq<char>, int);

/// What one scan yields: a token, the position after it and the line there.
pub type Scan = Result<(TokenV, int, int), LexErr>;

/// What lexing yields: the tokens, or the first error.
pub type LexOutcome = Result<Seq<TokenV>, LexErr>;

/// The token for a single punctuation or operator character.
pub open spec fn punct_token(c: char) -> Option<TokenV> {
    if c == '(' {
        Some(TokenV::LeftParen)
    } else if c == ')' {
        Some(TokenV::RightParen)
    } else if c == '{' {
        Some(TokenV::LeftBrace)
    } else if c == '}' {
        Some(TokenV::RightBrace)
    } else if c == ';' {
        Some(TokenV::Semicolon)
    } else if c == ',' {
        Some(TokenV::Comma)
    } else if c == '+' {
        Some(TokenV::Plus)
    } else if c == '-' {
        Some(TokenV::Minus)
    } else if c == '*' {
        Some(TokenV::Star)
    } else if c == '/' {
        Some(TokenV::Slash)
    } else if c == '=' {
        Some(TokenV::Equal)
    } else {
        None
    }
}

/// Appends the trimmed line to `lines` unless it is blank.
pub open spec fn push_line(lines: Seq<Seq<char>>, cur: Seq<char>) -> Seq<Seq<char>> {
    if trim(cur).len() == 0 {
        lines
    } else {
        lines.push(trim(cur))
    }
}

/// The body of an `__asm__` block from position `i`: each line trimmed,
/// blank lines dropped, up to the closing brace.
pub open spec fn scan_asm_body(
    s: Seq<char>,
    i: int,
    line: int,
    cur: Seq<char>,
    lines: Seq<Seq<char>>,
) -> Scan
    decreases s.len() - i,
{
    if i < 0 || i >= s.len() {
        Err(("unterminated __asm__ block"@, line))
    } else if s[i] == '}' {
        Ok((TokenV::AsmBlock(push_line(lines, cur)), i + 1, line))
    } else if s[i] == '\n' {
        scan_asm_body(s, i + 1, line + 1, Seq::empty(), push_line(lines, cur))
    } else {
        scan_asm_body(s, i + 1, line, cur.push(s[i]), lines)
    }
}

/// The lines collected so far with one more line of text `text`: its
/// trimmed text appended, unless the line is blank.
pub open spec fn lines_with(lines: Seq<Seq<char>>, text: Seq<char>) -> Seq<Seq<char>> {
    if trim(text).len() == 0 { lines } else { lines.push(trim(text)) }
}

/// Law: the last line of an `__asm__` block, the text between the last line
/// break (or the brace that opens the block) and the closing brace, is kept
/// trimmed as the block's last line unless it is blank, and the block ends
/// after the closing brace, on the same line.
pub proof fn lemma_asm_closing_line_kept(
    s: Seq<char>,
    i: int,
    j: int,
    line: int,
    cur: Seq<char>,
    lines: Seq<Seq<char>>,
)
    requires
        0 <= i <= j < s.len(),
        s[j] == '}',
        forall|k: int| i <= k < j ==> s[k] != '}' && s[k] != '\n',
    ensures
        scan_asm_body(s, i, line, cur, lines) == Ok::<(TokenV, int, int), LexErr>(
            (TokenV::AsmBlock(lines_with(lines, cur + s.subrange(i, j))), j + 1, line),
        ),
    decreases j - i,
{
    if i == j {
        assert(cur + s.subrange(i, j) =~= cur);
    } else {
        assert(s[i] != '}' && s[i] != '\n');
        lemma_asm_closing_line_kept(s, i + 1, j, line, cur.push(s[i]), lines);
        assert(cur.push(s[i]) + s.subrange(i + 1, j) =~= cur + s.subrange(i, j));
    }
}

/// Law: a line of an `__asm__` block ended by a line break is kept trimmed,
/// after the lines before it, unless it is blank; the block goes on with
/// the next line, one line further down.
pub proof fn lemma_asm_broken_line_kept(
    s: Seq<char>,
    i: int,
    j: int,
    line: int,
    cur: Seq<char>,
    lines: Seq<Seq<char>>,
)
    requires
        0 <= i <= j < s.len(),
        s[j] == '\n',
        forall|k: int| i <= k < j ==> s[k] != '}' && s[k] != '\n',
    ensures
        scan_asm_body(s, i, line, cur, lines) == scan_asm_body(
            s,
            j + 1,
            line + 1,
            Seq::empty(),
            lines_with(lines, cur + s.subrange(i, j)),
        ),
    decreases j - i,
{
    if i == j {
        assert(cur + s.subrange(i, j) =~= cur);
    } else {
        assert(s[i] != '}' && s[i] != '\n');
        lemma_asm_broken_line_kept(s, i + 1, j, line, cur.push(s[i]), lines);
        assert(cur.push(s[i]) + s.subrange(i + 1, j) =~= cur + s.subrange(i, j));
    }
}

/// An `__asm__` block whose keyword ends at `i`.
pub open spec fn scan_asm(s: Seq<char>, i: int, line: int) -> Scan {
    let j = end_of_run(s, i, |c: char| is_blank(c));
    let line2 = line + newlines(s, i, j);
    if j >= s.len() || s[j] != '{' {
        Err(("expected '{' after __asm__"@, line2))
    } else {
        scan_asm_body(s, j + 1, line2, Seq::empty(), Seq::empty())
    }
}

/// A word starting at `i`: a keyword, an `__asm__` block or an identifier.
pub open spec fn scan_word(s: Seq<char>, i: int, line: int) -> Scan {
    let j = end_of_run(s, i + 1, |c: char| is_word_char(c));
    let text = s.subrange(i, j);
    if text == "__asm__"@ {
        scan_asm(s, j, line)
    } else {
        match spec_keyword(text) {
            Some(t) => Ok((t@, j, line)),
            None => Ok((TokenV::Identifier(text), j, line)),
        }
    }
}

/// The largest `i32`.
pub open spec fn i32_max() -> nat {
    0x7fff_ffff
}

/// A number starting at `i`: decimal, or hexadecimal after a lone `0x`/`0X`.
pub open spec fn scan_num(s: Seq<char>, i: int, line: int) -> Scan {
    let j = end_of_run(s, i, |c: char| is_digit(c));
    let is_hex = j == i + 1 && s[i] == '0' && j < s.len() && (s[j] == 'x' || s[j] == 'X');
    if is_hex {
        let k = end_of_run(s, j + 1, |c: char| is_hex_digit(c));
        let text = s.subrange(i, k);
        let digits = s.subrange(j + 1, k);
        if digits.len() == 0 || digits_value(digits, 16) > i32_max() {
            Err(("Invalid hex number: "@ + text, line))
        } else {
            Ok((TokenV::IntegerLiteral(digits_value(digits, 16) as i32), k, line))
        }
    } else {
        let text = s.subrange(i, j);
        if digits_value(text, 10) > i32_max() {
            Err(("Invalid number: "@ + text, line))
        } else {
            Ok((TokenV::IntegerLiteral(digits_value(text, 10) as i32), j, line))
        }
    }
}

/// The token that starts at position `i` (which holds a character).
pub open spec fn scan_token(s: Seq<char>, i: int, line: int) -> Scan {
    let c = s[i];
    if punct_token(c) is Some {
        Ok((punct_token(c)->0, i + 1, line))
    } else if is_digit(c) {
        scan_num(s, i, line)
    } else if is_word_start(c) {
        scan_word(s, i, line)
    } else {
        Err(("Unexpected character '"@ + seq![c] + "'"@, line))
    }
}

/// Prefixes the tokens of an outcome.
pub open spec fn prefixed(p: Seq<TokenV>, r: LexOutcome) -> LexOutcome {
    match r {
        Ok(ts) => Ok(p + ts),
        Err(e) => Err(e),
    }
}

/// The tokens of `s` from position `i`, on line `line`: newline tokens for
/// the line breaks between tokens, and `Eof` at the end.
pub open spec fn lex_from(s: Seq<char>, i: int, line: int) -> LexOutcome
    decreases s.len() - i,
{
    let j = end_of_run(s, i, |c: char| is_blank(c));
    let nl = newlines(s, i, j);
    if i < 0 || j >= s.len() {
        Ok(newline_tokens(nl).push(TokenV::Eof))
    } else {
        match scan_token(s, j, line + nl) {
            Err(e) => Err(e),
            Ok((tok, k, line3)) => if j < k <= s.len() {
                proof {
                    lemma_end_of_run_ge(s, i, |c: char| is_blank(c));
                }
                prefixed(newline_tokens(nl).push(tok), lex_from(s, k, line3))
            } else {
                Err(("Unexpected character '"@ + seq![s[j]] + "'"@, line + nl))
            },
        }
    }
}

/// The tokens of a whole source text, starting on line 1.
pub open spec fn spec_tokenize(source: Seq<char>) -> LexOutcome {
    lex_from(strip_comments(source), 0, 1)
}

/// Inside a comment that no newline ends, nothing is kept.
proof fn lemma_strip_unterminated(c: Seq<char>)
    requires
        !c.contains('\n'),
    ensures
        strip_in_comment(c) == Seq::<char>::empty(),
    decreases c.len(),
{
    if c.len() > 0 {
        assert(c[0] != '\n');
        assert forall|k: int| 0 <= k < c.skip(1).len() implies c.skip(1)[k] != '\n' by {
            assert(c.skip(1)[k] == c[k + 1]);
        }
        lemma_strip_unterminated(c.skip(1));
    }
}

/// Comment stripping of `s` followed by a comment `tail` that no newline
/// ends, where `s` does not end in `/`.
proof fn lemma_strip_trailing(s: Seq<char>, tail: Seq<char>)
    requires
        tail.len() >= 2,
        tail[0] == '/',
        tail[1] == '/',
        !tail.contains('\n'),
        s.len() > 0 ==> s[s.len() - 1] != '/',
    ensures
        strip_comments(s + tail) == strip_comments(s),
        strip_in_comment(s + tail) == strip_in_comment(s),
    decreases s.len(),
{
    let t = s + tail;
    if s.len() == 0 {
        assert(t =~= tail);
        assert forall|k: int| 0 <= k < tail.skip(2).len() implies tail.skip(2)[k] != '\n' by {
            assert(tail.skip(2)[k] == tail[k + 2]);
        }
        lemma_strip_unterminated(tail.skip(2));
        lemma_strip_unterminated(tail);
    } else {
        assert(t.skip(1) =~= s.skip(1) + tail);
        assert(t[0] == s[0]);
        if s.skip(1).len() > 0 {
            assert(s.skip(1)[s.skip(1).len() - 1] == s[s.len() - 1]);
        }
        lemma_strip_trailing(s.skip(1), tail);
        if s.len() >= 2 {
            assert(t[1] == s[1]);
            assert(t.skip(2) =~= s.skip(2) + tail);
            if s.skip(2).len() > 0 {
                assert(s.skip(2)[s.skip(2).len() - 1] == s[s.len() - 1]);
            }
            lemma_strip_trailing(s.skip(2), tail);
        } else {
            assert(t[1] == '/');
            assert(s[0] != '/');
        }
    }
}

/// Law: a `//` comment at the end of a text, with no newline after it, is
/// stripped away whole and changes none of the text's tokens (nor its
/// lexing error), where the text does not itself end in `/`. `Lexer::tokenize`
/// returns exactly `spec_tokenize`'s outcome, so it lexes both texts alike.
pub proof fn lemma_trailing_comment_ignored(s: Seq<char>, comment: Seq<char>)
    requires
        !comment.contains('\n'),
        s.len() > 0 ==> s[s.len() - 1] != '/',
    ensures
        strip_comments(s + seq!['/', '/'] + comment) == strip_comments(s),
        spec_tokenize(s + seq!['/', '/'] + comment) == spec_tokenize(s),
{
    let tail = seq!['/', '/'] + comment;
    assert(s + seq!['/', '/'] + comment =~= s + tail);
    assert forall|k: int| 0 <= k < tail.len() implies tail[k] != '\n' by {
        if k >= 2 {
            assert(tail[k] == comment[k - 2]);
        }
    }
    lemma_strip_trailing(s, tail);
}

// ---------------------------------------------------------------------------
// Facts about the scanning functions

/// Counting newlines one more character to the right.
pub proof fn lemma_newlines_extend(s: Seq<char>, i: int, j: int)
    requires
        0 <= i <= j < s.len(),
    ensures
        newlines(s, i, j + 1) == newlines(s, i, j) + (if s[j] == '\n' { 1nat } else { 0nat }),
    decreases j - i,
{
    if i < j {
        lemma_newlines_extend(s, i + 1, j);
    } else {
        assert(newlines(s, j + 1, j + 1) == 0);
    }
}

/// Stripping comments never lengthens the text.
pub proof fn lemma_strip_len(s: Seq<char>)
    ensures
        strip_comments(s).len() <= s.len(),
        strip_in_comment(s).len() <= s.len(),
    decreases s.len(),
{
    if s.len() > 0 {
        lemma_strip_len(s.skip(1));
        if s.len() >= 2 {
            lemma_strip_len(s.skip(2));
        }
    }
}

/// A scan result relates to an exec token, position and line.
pub open spec fn scan_matches(r: Result<Token, CompileError>, sc: Scan, pos: int, line: int) -> bool {
    match (r, sc) {
        (Ok(t), Ok((tv, k, l))) => t@ == tv && pos == k && line == l,
        (Err(e), Err((m, l))) => e is LexError && e->LexError_message@ == m && e->LexError_line == l,
        _ => false,
    }
}

/// A lexing outcome relates to an exec result.
pub open spec fn outcome_matches(r: Result<Vec<Token>, CompileError>, o: LexOutcome) -> bool {
    match (r, o) {
        (Ok(ts), Ok(vs)) => ts@.map_values(|t: Token| t@) == vs,
        (Err(e), Err((m, l))) => e is LexError && e->LexError_message@ == m && e->LexError_line == l,
        _ => false,
    }
}

fn lex_error(message: String, line: usize) -> (e: CompileError)
    ensures
        e == (CompileError::LexError { message, line }),
{
    CompileError::LexError { message, line }
}

/// A character-by-character scanner over a source text.
pub struct Lexer {
    source: Vec<char>,
    line: usize,
    current: usize,
}

impl Lexer {
    /// The text being scanned.
    pub closed spec fn src(&self) -> Seq<char> {
        self.source@
    }

    /// The scanning position.
    pub closed spec fn pos(&self) -> int {
        self.current as int
    }

    /// The current line number.
    pub closed spec fn cur_line(&self) -> int {
        self.line as int
    }

    /// Line numbers stay below the position plus one, so they cannot overflow.
    pub closed spec fn wf(&self) -> bool {
        &&& self.source@.len() < usize::MAX
        &&& self.line <= self.current + 1
    }

    /// A scanner at the start of `source`, on line 1.
    pub fn new(source: &String) -> (r: Self)
        requires
            source@.len() < usize::MAX,
        ensures
            r.src() == source@,
            r.pos() == 0,
            r.cur_line() == 1,
            r.wf(),
    {
        Lexer { source: chars_of(source.as_str()), line: 1, current: 0 }
    }

    /// All tokens from the current position to the end, ending with `Eof`,
    /// or the first lexical error. Comments are removed from the text first.
    /// On a fresh scanner this is `spec_tokenize` of its source.
    pub fn tokenize(&mut self) -> (r: Result<Vec<Token>, CompileError>)
        requires
            old(self).wf(),
        ensures
            outcome_matches(r, lex_from(strip_comments(old(self).src()), old(self).pos(), old(self).cur_line())),
    {
        let ghost s0 = self.source@;
        let ghost t = strip_comments(s0);
        let ghost p0 = self.current as int;
        let ghost l0 = self.line as int;
        proof {
            lemma_strip_comments_idempotent(s0);
            lemma_strip_len(s0);
        }
        let mut tokens: Vec<Token> = Vec::new();
        let mut first = true;
        assert(tokens@.map_values(|x: Token| x@) =~= Seq::<TokenV>::empty());
        assert(prefixed(Seq::<TokenV>::empty(), lex_from(t, p0, l0)) == lex_from(t, p0, l0)) by {
            match lex_from(t, p0, l0) {
                Ok(ts) => { assert(Seq::<TokenV>::empty() + ts =~= ts); },
                Err(_) => {},
            }
        }
        while !self.is_at_end()
            invariant_except_break
                s0 == old(self).source@,
                t == strip_comments(s0),
                p0 == old(self).current,
                l0 == old(self).line,
                self.wf(),
                strip_comments(self.source@) == t,
                strip_comments(t) == t,
                t.len() <= s0.len(),
                first ==> (self.source@ == s0 && self.current == p0 && self.line == l0 && tokens@.len() == 0),
                !first ==> self.source@ == t,
                self.current >= p0,
                lex_from(t, p0, l0) == prefixed(tokens@.map_values(|x: Token| x@), lex_from(t, self.current as int, self.line as int)),
            ensures
                lex_from(t, p0, l0) == prefixed(tokens@.map_values(|x: Token| x@), lex_from(t, self.current as int, self.line as int)),
                self.current >= t.len(),
            decreases t.len() + 1 - self.current, (if first { 1int } else { 0int }),
        {
            self.skip_comments();
            first = false;
            let ghost c1 = self.current as int;
            let ghost l1 = self.line as int;
            let ghost a = tokens@.map_values(|x: Token| x@);
            self.skip_whitespace(&mut tokens);
            let ghost j = end_of_run(t, c1, |c: char| is_blank(c));
            let ghost nl = newlines(t, c1, self.current as int);
            proof {
                lemma_end_of_run_ge(t, c1, |c: char| is_blank(c));
            }
            if self.is_at_end() {
                proof {
                    assert(j == self.current);
                    assert(newlines(t, j, j) == 0);
                    assert(newline_tokens(0) =~= Seq::<TokenV>::empty());
                    assert(lex_from(t, self.current as int, self.line as int) == Ok::<Seq<TokenV>, LexErr>(seq![TokenV::Eof]));
                    assert(lex_from(t, c1, l1) == Ok::<Seq<TokenV>, LexErr>(newline_tokens(nl).push(TokenV::Eof)));
                    assert(a + newline_tokens(nl).push(TokenV::Eof) =~= (a + newline_tokens(nl)) + seq![TokenV::Eof]);
                }
                break;
            }
            let ghost b = tokens@.map_values(|x: Token| x@);
            let ghost j2 = self.current as int;
            let ghost l2 = self.line as int;
            assert(j2 == j && l2 == l1 + nl && j < t.len());
            let tok = self.next_token();
            match tok {
                Ok(tk) => {
                    tokens.push(tk);
                    proof {
                        assert(tokens@.map_values(|x: Token| x@) =~= b.push(tk@));
                        let rest = lex_from(t, self.current as int, self.line as int);
                        assert(lex_from(t, c1, l1) == prefixed(newline_tokens(nl).push(tk@), rest));
                        match rest {
                            Ok(ts) => {
                                assert(a + (newline_tokens(nl).push(tk@) + ts) =~= b.push(tk@) + ts);
                            },
                            Err(_) => {},
                        }
                    }
                },
                Err(e) => {
                    proof {
                        assert(scan_token(t, j, l1 + nl) is Err);
                        assert(lex_from(t, c1, l1) == Err::<Seq<TokenV>, LexErr>(scan_token(t, j, l1 + nl)->Err_0));
                    }
                    return Err(e);
                },
            }
        }
        let ghost a = tokens@.map_values(|x: Token| x@);
        proof {
            assert(end_of_run(t, self.current as int, |c: char| is_blank(c)) == self.current);
            assert(newlines(t, self.current as int, self.current as int) == 0);
            assert(newline_tokens(0) =~= Seq::<TokenV>::empty());
        }
        tokens.push(Token::Eof);
        assert(tokens@.map_values(|x: Token| x@) =~= a + newline_tokens(0).push(TokenV::Eof));
        Ok(tokens)
    }

    /// Scans the token at the current position, which holds a character.
    fn next_token(&mut self) -> (r: Result<Token, CompileError>)
        requires
            old(self).wf(),
            old(self).current < old(self).source@.len(),
        ensures
            final(self).source@ == old(self).source@,
            final(self).wf(),
            scan_matches(r, scan_token(old(self).source@, old(self).current as int, old(self).line as int), final(self).current as int, final(self).line as int),
            r is Ok ==> old(self).current < final(self).current <= old(self).source@.len(),
            ({
                let c = old(self).source@[old(self).current as int];
                punct_token(c) is None && c != '=' && !is_digit(c) && !(('a' <= c && c <= 'z') || ('A' <= c && c <= 'Z') || c == '_')
                    ==> r is Err && final(self).current == old(self).current && final(self).line == old(self).line
            }),
    {
        let ch = self.peek();
        if ch == '(' {
            self.advance();
            Ok(Token::LeftParen)
        } else if ch == ')' {
            self.advance();
            Ok(Token::RightParen)
        } else if ch == '{' {
            self.advance();
            Ok(Token::LeftBrace)
        } else if ch == '}' {
            self.advance();
            Ok(Token::RightBrace)
        } else if ch == ';' {
            self.advance();
            Ok(Token::Semicolon)
        } else if ch == ',' {
            self.advance();
            Ok(Token::Comma)
        } else if ch == '+' {
            self.advance();
            Ok(Token::Plus)
        } else if ch == '-' {
            self.advance();
            Ok(Token::Minus)
        } else if ch == '*' {
            self.advance();
            Ok(Token::Star)
        } else if ch == '/' {
            self.advance();
            Ok(Token::Slash)
        } else if ch == '=' {
            self.scan_equal()
        } else if '0' <= ch && ch <= '9' {
            self.scan_number()
        } else if ('a' <= ch && ch <= 'z') || ('A' <= ch && ch <= 'Z') || ch == '_' {
            self.scan_identifier()
        } else {
            let mut m = string_of("Unexpected character '");
            push_char(&mut m, ch);
            push_str(&mut m, "'");
            assert(m@ =~= "Unexpected character '"@ + seq![ch] + "'"@);
            Err(lex_error(m, self.line))
        }
    }

    /// Scans an identifier, keyword or `__asm__` block.
    fn scan_identifier(&mut self) -> (r: Result<Token, CompileError>)
        requires
            old(self).wf(),
            old(self).current < old(self).source@.len(),
        ensures
            final(self).source@ == old(self).source@,
            final(self).wf(),
            scan_matches(r, scan_word(old(self).source@, old(self).current as int, old(self).line as int), final(self).current as int, final(self).line as int),
            r is Ok ==> old(self).current < final(self).current <= old(self).source@.len(),
    {
        let ghost s = self.source@;
        let start = self.current;
        self.advance();
        while !self.is_at_end()
            invariant_except_break
                self.source@ == s,
                s == old(self).source@,
                start == old(self).current,
                self.line == old(self).line,
                self.wf(),
                start < self.current <= s.len(),
                end_of_run(s, start + 1, |c: char| is_word_char(c)) == end_of_run(s, self.current as int, |c: char| is_word_char(c)),
            ensures
                self.source@ == s,
                s == old(self).source@,
                start == old(self).current,
                self.line == old(self).line,
                self.wf(),
                start < self.current <= s.len(),
                end_of_run(s, start + 1, |c: char| is_word_char(c)) == self.current,
            decreases s.len() - self.current,
        {
            let ch = self.peek();
            if is_alphanumeric(ch) || ch == '_' {
                self.advance();
            } else {
                break;
            }
        }
        let text = self.slice_string(start, self.current);
        let asm_name = string_of("__asm__");
        if text.eq(&asm_name) {
            return self.scan_asm_block();
        }
        let token = match Token::keyword(text.as_str()) {
            Some(t) => t,
            None => Token::Identifier(text),
        };
        Ok(token)
    }

    /// The text of `source[start..end]`.
    fn slice_string(&self, start: usize, end: usize) -> (r: String)
        requires
            start <= end <= self.source@.len(),
        ensures
            r@ == self.source@.subrange(start as int, end as int),
    {
        let mut s = String::new();
        let mut i = start;
        while i < end
            invariant
                start <= i <= end <= self.source@.len(),
                s@ == self.source@.subrange(start as int, i as int),
            decreases end - i,
        {
            push_char(&mut s, self.source[i]);
            i += 1;
            assert(s@ =~= self.source@.subrange(start as int, i as int));
        }
        s
    }

    /// Scans the body of an `__asm__` block after its keyword.
    fn scan_asm_block(&mut self) -> (r: Result<Token, CompileError>)
        requires
            old(self).wf(),
            old(self).current <= old(self).source@.len(),
        ensures
            final(self).source@ == old(self).source@,
            final(self).wf(),
            scan_matches(r, scan_asm(old(self).source@, old(self).current as int, old(self).line as int), final(self).current as int, final(self).line as int),
            r is Ok ==> old(self).current < final(self).current <= old(self).source@.len(),
    {
        let ghost s = self.source@;
        let ghost c0 = self.current as int;
        let ghost l0 = self.line as int;
        while !self.is_at_end()
            && (self.peek() == ' ' || self.peek() == '\t' || self.peek() == '\n' || self.peek() == '\r')
            invariant
                self.source@ == s,
                self.wf(),
                0 <= c0 <= self.current <= s.len(),
                end_of_run(s, c0, |c: char| is_blank(c)) == end_of_run(s, self.current as int, |c: char| is_blank(c)),
                self.line == l0 + newlines(s, c0, self.current as int),
            decreases s.len() - self.current,
        {
            proof {
                lemma_newlines_extend(s, c0, self.current as int);
            }
            if self.peek() == '\n' {
                self.line += 1;
            }
            self.advance();
        }
        proof {
            lemma_end_of_run_ge(s, c0, |c: char| is_blank(c));
        }
        assert(end_of_run(s, self.current as int, |c: char| is_blank(c)) == self.current);
        if self.peek() != '{' {
            return Err(lex_error(string_of("expected '{' after __asm__"), self.line));
        }
        self.advance();
        let mut lines: Vec<String> = Vec::new();
        let mut current_line: Vec<char> = Vec::new();
        assert(lines@.map_values(|x: String| x@) =~= Seq::<Seq<char>>::empty());
        assert(current_line@ =~= Seq::<char>::empty());
        while !self.is_at_end()
            invariant
                s == old(self).source@,
                c0 == old(self).current,
                l0 == old(self).line,
                self.source@ == s,
                self.wf(),
                c0 < self.current <= s.len(),
                scan_asm(s, c0, l0) == scan_asm_body(s, self.current as int, self.line as int, current_line@, lines@.map_values(|x: String| x@)),
            decreases s.len() - self.current,
        {
            let ch = self.peek();
            if ch == '}' {
                self.advance();
                let ghost before = lines@;
                self.push_trimmed(&mut lines, &current_line);
                return Ok(Token::AsmBlock(lines));
            }
            if ch == '\n' {
                self.line += 1;
                self.push_trimmed(&mut lines, &current_line);
                current_line = Vec::new();
            } else {
                current_line.push(ch);
            }
            self.advance();
        }
        Err(lex_error(string_of("unterminated __asm__ block"), self.line))
    }

    /// Appends the trimmed text of `cur` to `lines` unless it is blank.
    fn push_trimmed(&self, lines: &mut Vec<String>, cur: &Vec<char>)
        ensures
            final(lines)@.map_values(|x: String| x@) == push_line(old(lines)@.map_values(|x: String| x@), cur@),
    {
        let t = trim_chars(cur);
        if t.len() > 0 {
            let ghost before = lines@;
            lines.push(string_from_chars(t.as_slice()));
            assert(lines@.map_values(|x: String| x@) =~= before.map_values(|x: String| x@).push(t@));
        }
    }

    /// Scans a number literal.
    fn scan_number(&mut self) -> (r: Result<Token, CompileError>)
        requires
            old(self).wf(),
            old(self).current < old(self).source@.len(),
            is_digit(old(self).source@[old(self).current as int]),
        ensures
            final(self).source@ == old(self).source@,
            final(self).wf(),
            scan_matches(r, scan_num(old(self).source@, old(self).current as int, old(self).line as int), final(self).current as int, final(self).line as int),
            r is Ok ==> old(self).current < final(self).current <= old(self).source@.len(),
    {
        let ghost s = self.source@;
        let start = self.current;
        while !self.is_at_end() && '0' <= self.peek() && self.peek() <= '9'
            invariant
                self.source@ == s,
                self.wf(),
                start <= self.current <= s.len(),
                end_of_run(s, start as int, |c: char| is_digit(c)) == end_of_run(s, self.current as int, |c: char| is_digit(c)),
                self.line == old(self).line,
            decreases s.len() - self.current,
        {
            self.advance();
        }
        let digits_end = self.current;
        proof {
            lemma_end_of_run_ge(s, start as int, |c: char| is_digit(c));
        }
        let is_hex = digits_end == start + 1 && self.source[start] == '0' && !self.is_at_end()
            && (self.peek() == 'x' || self.peek() == 'X');
        if is_hex {
            self.advance();
            while !self.is_at_end() && is_hex_char(self.peek())
                invariant
                    self.source@ == s,
                    self.wf(),
                    digits_end < self.current <= s.len(),
                    end_of_run(s, digits_end + 1, |c: char| is_hex_digit(c)) == end_of_run(s, self.current as int, |c: char| is_hex_digit(c)),
                    self.line == old(self).line,
                decreases s.len() - self.current,
            {
                self.advance();
            }
            proof {
                lemma_end_of_run_ge(s, digits_end + 1, |c: char| is_hex_digit(c));
            }
            let end = self.current;
            match self.digits_to_i32(digits_end + 1, end, 16) {
                Some(v) => Ok(Token::IntegerLiteral(v)),
                None => {
                    let mut m = string_of("Invalid hex number: ");
                    let text = self.slice_string(start, end);
                    push_str(&mut m, text.as_str());
                    Err(lex_error(m, self.line))
                },
            }
        } else {
            match self.digits_to_i32(start, digits_end, 10) {
                Some(v) => Ok(Token::IntegerLiteral(v)),
                None => {
                    let mut m = string_of("Invalid number: ");
                    let text = self.slice_string(start, digits_end);
                    push_str(&mut m, text.as_str());
                    Err(lex_error(m, self.line))
                },
            }
        }
    }

    /// The value of the digits `source[start..end]` in `base`, or `None` when
    /// there are none or the value does not fit in an `i32`.
    fn digits_to_i32(&self, start: usize, end: usize, base: u32) -> (r: Option<i32>)
        requires
            start <= end <= self.source@.len(),
            base == 10 || base == 16,
            forall|k: int| start <= k < end ==> (if base == 10 { is_digit(self.source@[k]) } else { is_hex_digit(self.source@[k]) }),
            base == 10 ==> start < end,
        ensures
            ({
                let d = self.source@.subrange(start as int, end as int);
                if d.len() == 0 || digits_value(d, base as nat) > i32_max() {
                    r is None
                } else {
                    r == Some(digits_value(d, base as nat) as i32)
                }
            }),
    {
        if start == end {
            return None;
        }
        let mut value: u64 = 0;
        let mut i = start;
        while i < end
            invariant
                start <= i <= end <= self.source@.len(),
                base == 10 || base == 16,
                forall|k: int| start <= k < end ==> (if base == 10 { is_digit(self.source@[k]) } else { is_hex_digit(self.source@[k]) }),
                value == digits_value(self.source@.subrange(start as int, i as int), base as nat),
                value <= i32_max(),
            decreases end - i,
        {
            let c = self.source[i];
            let d: u64 = digit_of(c);
            proof {
                assert(value * (base as u64) <= 0x7fff_ffff * 16) by (nonlinear_arith)
                    requires
                        value <= 0x7fff_ffff,
                        base <= 16,
                ;
            }
            let next = value * (base as u64) + d;
            proof {
                assert(self.source@.subrange(start as int, i + 1).drop_last() =~= self.source@.subrange(start as int, i as int));
            }
            if next > 0x7fff_ffff {
                proof {
                    lemma_digits_value_grows(self.source@.subrange(start as int, end as int), (i + 1 - start) as int, base as nat);
                    assert(self.source@.subrange(start as int, end as int).subrange(0, (i + 1 - start) as int) =~= self.source@.subrange(start as int, i + 1));
                }
                return None;
            }
            value = next;
            i += 1;
        }
        Some(value as i32)
    }

    /// Moves the position past `=`.
    fn scan_equal(&mut self) -> (r: Result<Token, CompileError>)
        requires
            old(self).wf(),
            old(self).current < old(self).source@.len(),
        ensures
            final(self).source@ == old(self).source@,
            final(self).line == old(self).line,
            final(self).current == old(self).current + 1,
            final(self).wf(),
            r == Ok::<Token, CompileError>(Token::Equal),
    {
        self.advance();
        let _ch = self.peek();
        Ok(Token::Equal)
    }

    /// Skips blanks, adding a newline token for each line break.
    fn skip_whitespace(&mut self, tokens: &mut Vec<Token>)
        requires
            old(self).wf(),
        ensures
            final(self).source@ == old(self).source@,
            final(self).wf(),
            final(self).current as int == (if old(self).current < old(self).source@.len() {
                end_of_run(old(self).source@, old(self).current as int, |c: char| is_blank(c))
            } else {
                old(self).current as int
            }),
            final(self).line == old(self).line + newlines(old(self).source@, old(self).current as int, final(self).current as int),
            final(tokens)@.map_values(|x: Token| x@) == old(tokens)@.map_values(|x: Token| x@)
                + newline_tokens(newlines(old(self).source@, old(self).current as int, final(self).current as int)),
    {
        let ghost s = self.source@;
        let ghost c0 = self.current as int;
        let ghost l0 = self.line as int;
        let ghost t0 = tokens@.map_values(|x: Token| x@);
        while !self.is_at_end()
            invariant_except_break
                self.source@ == s,
                self.wf(),
                0 <= c0 <= self.current,
                c0 < s.len() ==> end_of_run(s, c0, |c: char| is_blank(c)) == end_of_run(s, self.current as int, |c: char| is_blank(c)),
                c0 >= s.len() ==> self.current == c0,
                self.line == l0 + newlines(s, c0, self.current as int),
                tokens@.map_values(|x: Token| x@) == t0 + newline_tokens(newlines(s, c0, self.current as int)),
            ensures
                self.source@ == s,
                self.wf(),
                c0 < s.len() ==> end_of_run(s, c0, |c: char| is_blank(c)) == self.current,
                c0 >= s.len() ==> self.current == c0,
                self.line == l0 + newlines(s, c0, self.current as int),
                tokens@.map_values(|x: Token| x@) == t0 + newline_tokens(newlines(s, c0, self.current as int)),
            decreases s.len() - self.current,
        {
            let ch = self.peek();
            proof {
                lemma_newlines_extend(s, c0, self.current as int);
            }
            if ch == ' ' || ch == '\t' || ch == '\r' {
                self.advance();
            } else if ch == '\n' {
                self.line += 1;
                let ghost before = tokens@;
                tokens.push(Token::Newline);
                proof {
                    assert(tokens@.map_values(|x: Token| x@) =~= before.map_values(|x: Token| x@).push(TokenV::Newline));
                    assert(newline_tokens(newlines(s, c0, self.current as int)).push(TokenV::Newline) =~= newline_tokens(newlines(s, c0, self.current + 1)));
                }
                self.advance();
            } else {
                break;
            }
        }
    }

    /// Removes every `//` comment from the source.
    fn skip_comments(&mut self)
        ensures
            final(self).source@ == strip_comments(old(self).source@),
            final(self).current == old(self).current,
            final(self).line == old(self).line,
    {
        let ghost s = self.source@;
        let mut new_source: Vec<char> = Vec::with_capacity(self.source.len());
        let mut i: usize = 0;
        assert(s.skip(0) =~= s);
        assert(new_source@ =~= Seq::<char>::empty());
        while i < self.source.len()
            invariant
                self.source@ == s,
                i <= s.len(),
                new_source@ + strip_comments(s.skip(i as int)) == strip_comments(s),
            decreases s.len() - i,
        {
            if i + 1 < self.source.len() && self.source[i] == '/' && self.source[i + 1] == '/' {
                let mut j = i + 2;
                assert(s.skip(i as int).skip(2) =~= s.skip(i + 2));
                while j < self.source.len() && self.source[j] != '\n'
                    invariant
                        self.source@ == s,
                        i + 2 <= j <= s.len(),
                        strip_comments(s.skip(i as int)) == strip_in_comment(s.skip(j as int)),
                    decreases s.len() - j,
                {
                    assert(s.skip(j as int).skip(1) =~= s.skip(j + 1));
                    j += 1;
                }
                i = j;
            } else {
                let ghost before = new_source@;
                new_source.push(self.source[i]);
                assert(s.skip(i as int).skip(1) =~= s.skip(i + 1));
                assert(new_source@ + strip_comments(s.skip(i + 1)) =~= before + strip_comments(s.skip(i as int)));
                i += 1;
            }
        }
        assert(s.skip(s.len() as int) =~= Seq::<char>::empty());
        self.source = new_source;
    }

    /// The character at the position, or `'\0'` at the end.
    fn peek(&self) -> (c: char)
        ensures
            self.current < self.source@.len() ==> c == self.source@[self.current as int],
            self.current >= self.source@.len() ==> c == '\0',
    {
        if self.is_at_end() {
            '\0'
        } else {
            self.source[self.current]
        }
    }

    /// Moves past the current character and returns it.
    fn advance(&mut self) -> (c: char)
        requires
            old(self).current < old(self).source@.len(),
            old(self).source@.len() < usize::MAX,
        ensures
            c == old(self).source@[old(self).current as int],
            final(self).current == old(self).current + 1,
            final(self).source@ == old(self).source@,
            final(self).line == old(self).line,
    {
        let ch = self.peek();
        self.current += 1;
        ch
    }

    /// Whether the position is past the last character.
    fn is_at_end(&self) -> (r: bool)
        ensures
            r == (self.current >= self.source@.len()),
    {
        self.current >= self.source.len()
    }
}

/// Whether `c` is an ASCII hexadecimal digit.
fn is_hex_char(c: char) -> (r: bool)
    ensures
        r == is_hex_digit(c),
{
    ('0' <= c && c <= '9') || ('a' <= c && c <= 'f') || ('A' <= c && c <= 'F')
}

/// The value of an ASCII (hexadecimal) digit.
fn digit_of(c: char) -> (r: u64)
    requires
        is_hex_digit(c),
    ensures
        r == digit_value(c),
        r < 16,
{
    if '0' <= c && c <= '9' {
        (c as u64) - ('0' as u64)
    } else if 'a' <= c && c <= 'f' {
        (c as u64) - ('a' as u64) + 10
    } else {
        (c as u64) - ('A' as u64) + 10
    }
}

/// A digit string's value is at least that of any of its prefixes.
proof fn lemma_digits_value_grows(d: Seq<char>, n: int, base: nat)
    requires
        0 <= n <= d.len(),
        base >= 1,
    ensures
        digits_value(d.subrange(0, n), base) <= digits_value(d, base),
    decreases d.len() - n,
{
    if n < d.len() {
        lemma_digits_value_grows(d, n + 1, base);
        assert(d.subrange(0, n + 1).drop_last() =~= d.subrange(0, n));
        assert(digits_value(d.subrange(0, n), base) <= digits_value(d.subrange(0, n), base) * base) by (nonlinear_arith)
            requires base >= 1;
    } else {
        assert(d.subrange(0, n) =~= d);
    }
}

/// The characters of `v` without leading and trailing whitespace.
fn trim_chars(v: &Vec<char>) -> (r: Vec<char>)
    ensures
        r@ == trim(v@),
{
    let mut a: usize = 0;
    assert(v@.skip(0) =~= v@);
    while a < v.len() && is_whitespace(v[a])
        invariant
            a <= v@.len(),
            trim_start(v@) == trim_start(v@.skip(a as int)),
        decreases v@.len() - a,
    {
        assert(v@.skip(a as int).skip(1) =~= v@.skip(a + 1));
        a += 1;
    }
    let mut b: usize = v.len();
    assert(v@.skip(a as int) =~= v@.subrange(a as int, b as int));
    while b > a && is_whitespace(v[b - 1])
        invariant
            a <= b <= v@.len(),
            trim(v@) == trim_end(v@.subrange(a as int, b as int)),
        decreases b - a,
    {
        assert(v@.subrange(a as int, b as int).drop_last() =~= v@.subrange(a as int, b - 1));
        b -= 1;
    }
    let mut r: Vec<char> = Vec::new();
    let mut i = a;
    while i < b
        invariant
            a <= i <= b <= v@.len(),
            r@ == v@.subrange(a as int, i as int),
        decreases b - i,
    {
        r.push(v[i]);
        i += 1;
        assert(r@ =~= v@.subrange(a as int, i as int));
    }
    r
}

} // verus!
