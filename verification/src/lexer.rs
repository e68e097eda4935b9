//! The lexer: scans a character sequence into an ordered token sequence, or
//! into the ordered list of lexical errors met along the way.
//!
//! The scan is specified by the recursive functions `lex_step` (what one loop
//! turn emits and where it resumes) and `lex_from` (the whole tail of the
//! scan); `tokenize` is proved to return exactly `spec_tokenize` of its input.

use vstd::prelude::*;

use crate::results::{DiagV, Loc, PhyResult};

verus! {

// ----------------
// Error management
// ----------------
/// The lexical error kinds. Each carries the offending character where one
/// exists; the span it points at travels beside it in a `PhyResult`.
#[derive(Debug, Clone, PartialEq)]
pub enum LexerErr {
    UnexpectedToken(char),
    StringNeverClosed,
    NoSpaceAfterNumber(char),
    NonNumericDecimal(char),
}

impl View for LexerErr {
    type V = LexerErr;

    open spec fn view(&self) -> LexerErr {
        *self
    }
}

// --------
//  Tokens
// --------
/// The closed token vocabulary.
#[derive(Debug, Clone, Copy, PartialEq, Eq, Structural)]
pub enum TokenKind {
    // Single character
    OpenParen,
    CloseParen,
    OpenBrace,
    CloseBrace,
    Comma,
    Dot,
    Minus,
    Plus,
    Slash,
    Star,
    Modulo,
    // One or two characters
    Bang,
    BangEqual,
    Equal,
    EqualEqual,
    Greater,
    GreaterEqual,
    Less,
    LessEqual,
    DotDot,
    // Literals
    Identifier,
    String,
    Int,
    Real,
    // Keywords
    Struct,
    Fn,
    SelfKw,
    Var,
    Const,
    Return,
    If,
    Else,
    And,
    Or,
    Null,
    Print,
    For,
    While,
    In,
    True,
    False,
    NewLine,
    Eof,
}

/// A classified lexeme: its kind, its text (for string literals the text
/// excludes the surrounding quotes), and the span it came from.
#[derive(Debug, Clone, PartialEq)]
pub struct Token {
    pub kind: TokenKind,
    pub value: String,
    pub loc: Loc,
}

/// Spec-level twin of `Token`: the text as a character sequence and the span
/// endpoints as unbounded integers.
pub ghost struct TokenV {
    pub kind: TokenKind,
    pub text: Seq<char>,
    pub start: int,
    pub end: int,
}

impl View for Token {
    type V = TokenV;

    open spec fn view(&self) -> TokenV {
        TokenV {
            kind: self.kind,
            text: self.value@,
            start: self.loc.start as int,
            end: self.loc.end as int,
        }
    }
}

impl DeepView for Token {
    type V = TokenV;

    open spec fn deep_view(&self) -> TokenV {
        self.view()
    }
}

// ------------------------------
//  Character classes (trusted)
// ------------------------------
/// Whether `char::is_numeric` holds of the character.
pub uninterp spec fn is_numeric_char(c: char) -> bool;

/// Whether `char::is_alphabetic` holds of the character.
pub uninterp spec fn is_alphabetic_char(c: char) -> bool;

/// Whether `char::is_alphanumeric` holds of the character.
pub uninterp spec fn is_alphanumeric_char(c: char) -> bool;

/// Relies on char::is_numeric: whether the character lies in a Unicode
/// numeric general category; the result depends on the character alone.
#[verifier::external_body]
fn char_is_numeric(c: char) -> (r: bool)
    ensures
        r == is_numeric_char(c),
{
    c.is_numeric()
}

/// Relies on char::is_alphabetic: whether the character is a Unicode letter;
/// the result depends on the character alone.
#[verifier::external_body]
fn char_is_alphabetic(c: char) -> (r: bool)
    ensures
        r == is_alphabetic_char(c),
{
    c.is_alphabetic()
}

/// Relies on char::is_alphanumeric: whether the character is a Unicode letter
/// or number; the result depends on the character alone.
#[verifier::external_body]
fn char_is_alphanumeric(c: char) -> (r: bool)
    ensures
        r == is_alphanumeric_char(c),
{
    c.is_alphanumeric()
}

/// Relies on String::push: appends the given character at the end of the
/// string.
#[verifier::external_body]
fn push_char(s: &mut String, c: char)
    ensures
        final(s)@ == old(s)@.push(c),
{
    s.push(c)
}

/// The whitespace the scanner discards without emitting a token. A newline is
/// not among them: it becomes an explicit token.
pub open spec fn is_skip_char(c: char) -> bool {
    c == ' ' || c == '\t' || c == '\r'
}

// -----------------------
//  Spec: scan boundaries
// -----------------------
/// First index at or after `i` that ends a digit run.
pub open spec fn scan_digits(code: Seq<char>, i: int) -> int
    decreases code.len() - i,
{
    if i < 0 || i >= code.len() || !is_numeric_char(code[i]) {
        i
    } else {
        scan_digits(code, i + 1)
    }
}

/// First index at or after `i` that ends an identifier run
/// (alphanumerics and underscores).
pub open spec fn scan_ident(code: Seq<char>, i: int) -> int
    decreases code.len() - i,
{
    if i < 0 || i >= code.len() || !(is_alphanumeric_char(code[i]) || code[i] == '_') {
        i
    } else {
        scan_ident(code, i + 1)
    }
}

/// First index at or after `i` holding a newline, or the input's end: where a
/// line comment stops.
pub open spec fn scan_comment(code: Seq<char>, i: int) -> int
    decreases code.len() - i,
{
    if i < 0 || i >= code.len() || code[i] == '\n' {
        i
    } else {
        scan_comment(code, i + 1)
    }
}

/// Error synchronization boundary: first index at or after `i` holding
/// whitespace or a newline, or the input's end. After an error the scan
/// resumes there.
pub open spec fn scan_sync(code: Seq<char>, i: int) -> int
    decreases code.len() - i,
{
    if i < 0 || i >= code.len() || is_skip_char(code[i]) || code[i] == '\n' {
        i
    } else {
        scan_sync(code, i + 1)
    }
}

/// First index at or after `i` holding a closing quote, or the input's end.
pub open spec fn scan_string(code: Seq<char>, i: int) -> int
    decreases code.len() - i,
{
    if i < 0 || i >= code.len() || code[i] == '"' {
        i
    } else {
        scan_string(code, i + 1)
    }
}

// -------------------------
//  Spec: one scanning step
// -------------------------
/// A token whose text is the source slice it spans.
pub open spec fn slice_tok(kind: TokenKind, code: Seq<char>, s: int, e: int) -> TokenV {
    TokenV { kind, text: code.subrange(s, e), start: s, end: e }
}

pub open spec fn lex_diag(err: LexerErr, s: int, e: int) -> DiagV<LexerErr> {
    DiagV { err, start: s, end: e }
}

/// What one turn of the scanning loop emits, and the index where the next
/// turn starts.
pub ghost struct LexStep {
    pub toks: Seq<TokenV>,
    pub errs: Seq<DiagV<LexerErr>>,
    pub next: int,
}

/// The newline tokens emitted while scanning a string literal that began with
/// the quote at `qi`: an embedded newline at `j` becomes a `NewLine` token
/// spanning from the opening quote through the newline itself.
pub open spec fn string_nls(code: Seq<char>, qi: int, j: int) -> Seq<TokenV>
    decreases code.len() - j,
{
    if j < 0 || j >= code.len() || code[j] == '"' {
        seq![]
    } else if code[j] == '\n' {
        seq![slice_tok(TokenKind::NewLine, code, qi, j + 1)] + string_nls(code, qi, j + 1)
    } else {
        string_nls(code, qi, j + 1)
    }
}

/// Scanning a string literal whose opening quote stands at `i`: consume up to
/// the closing quote, emitting a `NewLine` token for every embedded newline.
/// Reaching the input's end first is `StringNeverClosed`, its span running
/// from the quote to the input's end; the scan then rewinds to the quote and
/// synchronizes before resuming.
pub open spec fn string_step(code: Seq<char>, i: int) -> LexStep {
    let close = scan_string(code, i + 1);
    let nls = string_nls(code, i, i + 1);
    if close >= code.len() {
        LexStep {
            toks: nls,
            errs: seq![lex_diag(LexerErr::StringNeverClosed, i, code.len() as int)],
            next: scan_sync(code, i),
        }
    } else {
        LexStep {
            toks: nls.push(
                TokenV {
                    kind: TokenKind::String,
                    text: code.subrange(i + 1, close),
                    start: i,
                    end: close + 1,
                },
            ),
            errs: seq![],
            next: close + 1,
        }
    }
}

/// Scanning a numeric literal whose first digit stands at `i`. Digits make an
/// `Int`; a dot is inspected: a second dot finalizes the digits as `Int` and
/// the two dots as a `DotDot` whose text is exactly `".."` (its span still
/// reaches back to the digits' start, span being diagnostic only); otherwise
/// the literal becomes a `Real`, which must be followed by whitespace, a
/// newline or the input's end, or an error is raised and the scan
/// synchronizes from the literal's start.
pub open spec fn number_step(code: Seq<char>, i: int) -> LexStep {
    let d = scan_digits(code, i + 1);
    if d < code.len() && code[d] == '.' {
        if d < code.len() - 1 && code[d + 1] == '.' {
            LexStep {
                toks: seq![
                    slice_tok(TokenKind::Int, code, i, d),
                    TokenV {
                        kind: TokenKind::DotDot,
                        text: code.subrange(d, d + 2),
                        start: i,
                        end: d + 2,
                    },
                ],
                errs: seq![],
                next: d + 2,
            }
        } else {
            if d + 1 >= code.len() || is_skip_char(code[d + 1]) || code[d + 1] == '\n' {
                LexStep {
                    toks: seq![slice_tok(TokenKind::Real, code, i, d + 1)],
                    errs: seq![],
                    next: d + 1,
                }
            } else if !is_numeric_char(code[d + 1]) {
                let sy = scan_sync(code, i);
                LexStep {
                    toks: seq![],
                    errs: seq![lex_diag(LexerErr::NonNumericDecimal(code[d + 1]), i, sy)],
                    next: sy,
                }
            } else {
                let e = scan_digits(code, d + 1);
                if e < code.len() && !is_skip_char(code[e]) && code[e] != '\n' {
                    let sy = scan_sync(code, i);
                    LexStep {
                        toks: seq![],
                        errs: seq![lex_diag(LexerErr::NoSpaceAfterNumber(code[e]), i, sy)],
                        next: sy,
                    }
                } else {
                    LexStep {
                        toks: seq![slice_tok(TokenKind::Real, code, i, e)],
                        errs: seq![],
                        next: e,
                    }
                }
            }
        }
    } else {
        LexStep { toks: seq![slice_tok(TokenKind::Int, code, i, d)], errs: seq![], next: d }
    }
}

/// The keyword table: the exact, case-sensitive, closed set of words that lex
/// to their own kind instead of `Identifier`.
pub open spec fn keyword_kind(text: Seq<char>) -> Option<TokenKind> {
    if text == "var"@ {
        Some(TokenKind::Var)
    } else if text == "const"@ {
        Some(TokenKind::Const)
    } else if text == "true"@ {
        Some(TokenKind::True)
    } else if text == "false"@ {
        Some(TokenKind::False)
    } else if text == "struct"@ {
        Some(TokenKind::Struct)
    } else if text == "self"@ {
        Some(TokenKind::SelfKw)
    } else if text == "fn"@ {
        Some(TokenKind::Fn)
    } else if text == "return"@ {
        Some(TokenKind::Return)
    } else if text == "if"@ {
        Some(TokenKind::If)
    } else if text == "else"@ {
        Some(TokenKind::Else)
    } else if text == "and"@ {
        Some(TokenKind::And)
    } else if text == "or"@ {
        Some(TokenKind::Or)
    } else if text == "for"@ {
        Some(TokenKind::For)
    } else if text == "while"@ {
        Some(TokenKind::While)
    } else if text == "in"@ {
        Some(TokenKind::In)
    } else if text == "null"@ {
        Some(TokenKind::Null)
    } else if text == "print"@ {
        Some(TokenKind::Print)
    } else {
        None
    }
}

/// Scanning an identifier or keyword whose first letter stands at `i`.
pub open spec fn ident_step(code: Seq<char>, i: int) -> LexStep {
    let e = scan_ident(code, i + 1);
    let kind = match keyword_kind(code.subrange(i, e)) {
        Some(k) => k,
        None => TokenKind::Identifier,
    };
    LexStep { toks: seq![slice_tok(kind, code, i, e)], errs: seq![], next: e }
}

/// One step with a single token spanning `[i, e)` and nothing else.
pub open spec fn single_step(kind: TokenKind, code: Seq<char>, i: int, e: int) -> LexStep {
    LexStep { toks: seq![slice_tok(kind, code, i, e)], errs: seq![], next: e }
}

/// One turn of the scanning loop at index `i`: dispatch on the character
/// there.
pub open spec fn lex_step(code: Seq<char>, i: int) -> LexStep
    recommends
        0 <= i < code.len(),
{
    let c = code[i];
    if is_skip_char(c) {
        LexStep { toks: seq![], errs: seq![], next: i + 1 }
    } else if c == '\n' {
        single_step(TokenKind::NewLine, code, i, i + 1)
    } else if c == '(' {
        single_step(TokenKind::OpenParen, code, i, i + 1)
    } else if c == ')' {
        single_step(TokenKind::CloseParen, code, i, i + 1)
    } else if c == '{' {
        single_step(TokenKind::OpenBrace, code, i, i + 1)
    } else if c == '}' {
        single_step(TokenKind::CloseBrace, code, i, i + 1)
    } else if c == ',' {
        single_step(TokenKind::Comma, code, i, i + 1)
    } else if c == '.' {
        if i + 1 < code.len() && code[i + 1] == '.' {
            single_step(TokenKind::DotDot, code, i, i + 2)
        } else {
            single_step(TokenKind::Dot, code, i, i + 1)
        }
    } else if c == '-' {
        single_step(TokenKind::Minus, code, i, i + 1)
    } else if c == '+' {
        single_step(TokenKind::Plus, code, i, i + 1)
    } else if c == '*' {
        single_step(TokenKind::Star, code, i, i + 1)
    } else if c == '%' {
        single_step(TokenKind::Modulo, code, i, i + 1)
    } else if c == '!' {
        if i + 1 < code.len() && code[i + 1] == '=' {
            single_step(TokenKind::BangEqual, code, i, i + 2)
        } else {
            single_step(TokenKind::Bang, code, i, i + 1)
        }
    } else if c == '=' {
        if i + 1 < code.len() && code[i + 1] == '=' {
            single_step(TokenKind::EqualEqual, code, i, i + 2)
        } else {
            single_step(TokenKind::Equal, code, i, i + 1)
        }
    } else if c == '<' {
        if i + 1 < code.len() && code[i + 1] == '=' {
            single_step(TokenKind::LessEqual, code, i, i + 2)
        } else {
            single_step(TokenKind::Less, code, i, i + 1)
        }
    } else if c == '>' {
        if i + 1 < code.len() && code[i + 1] == '=' {
            single_step(TokenKind::GreaterEqual, code, i, i + 2)
        } else {
            single_step(TokenKind::Greater, code, i, i + 1)
        }
    } else if c == '/' {
        if i + 1 < code.len() && code[i + 1] == '/' {
            LexStep { toks: seq![], errs: seq![], next: scan_comment(code, i + 2) }
        } else {
            single_step(TokenKind::Slash, code, i, i + 1)
        }
    } else if c == '"' {
        string_step(code, i)
    } else if is_numeric_char(c) {
        number_step(code, i)
    } else if is_alphabetic_char(c) {
        ident_step(code, i)
    } else {
        let sy = scan_sync(code, i);
        LexStep {
            toks: seq![],
            errs: seq![lex_diag(LexerErr::UnexpectedToken(c), i, sy)],
            next: sy,
        }
    }
}

// ---------------------------
//  Spec: the whole scan
// ---------------------------
/// Everything the scan emits from index `i` to the input's end.
pub ghost struct LexOut {
    pub toks: Seq<TokenV>,
    pub errs: Seq<DiagV<LexerErr>>,
}

/// The tail of the scan from index `i`: one step, then the rest from where it
/// resumes. The resumption index is clamped into `(i, len]`; every step in
/// fact resumes inside that range, so the clamp changes nothing.
pub open spec fn lex_from(code: Seq<char>, i: int) -> LexOut
    decreases code.len() - i,
{
    if i < 0 || i >= code.len() {
        LexOut { toks: seq![], errs: seq![] }
    } else {
        let st = lex_step(code, i);
        let nx = if st.next < i + 1 {
            i + 1
        } else if st.next > code.len() {
            code.len() as int
        } else {
            st.next
        };
        let rest = lex_from(code, nx);
        LexOut { toks: st.toks + rest.toks, errs: st.errs + rest.errs }
    }
}

/// The synthetic end-of-input token, located one past the final character.
pub open spec fn eof_token(n: int) -> TokenV {
    TokenV { kind: TokenKind::Eof, text: "eof"@, start: n, end: n + 1 }
}

/// The whole scan: everything `lex_from` the start emits, with the `Eof`
/// token appended whether or not errors occurred.
pub open spec fn spec_tokenize(code: Seq<char>) -> LexOut {
    let lf = lex_from(code, 0);
    LexOut { toks: lf.toks.push(eof_token(code.len() as int)), errs: lf.errs }
}

// ----------------------
//  Executable scanning
// ----------------------
/// The characters of a source text, one Unicode scalar value per slot.
fn str_chars(code: &str) -> (r: Vec<char>)
    ensures
        r@ == code@,
{
    let n = code.unicode_len();
    let mut r: Vec<char> = Vec::new();
    let mut i: usize = 0;
    while i < n
        invariant
            n == code@.len(),
            i <= n,
            r@ == code@.take(i as int),
        decreases n - i,
    {
        let c = code.get_char(i);
        r.push(c);
        proof {
            assert(r@ =~= code@.take(i + 1));
        }
        i += 1;
    }
    proof {
        assert(code@.take(n as int) =~= code@);
    }
    r
}

/// The source slice `[s, e)` gathered into an owned string.
fn collect_chars(code: &Vec<char>, s: usize, e: usize) -> (r: String)
    requires
        s <= e <= code@.len(),
    ensures
        r@ == code@.subrange(s as int, e as int),
{
    let mut r = String::new();
    let mut i: usize = s;
    while i < e
        invariant
            s <= i <= e <= code@.len(),
            r@ == code@.subrange(s as int, i as int),
        decreases e - i,
    {
        push_char(&mut r, code[i]);
        proof {
            assert(r@ =~= code@.subrange(s as int, i + 1));
        }
        i += 1;
    }
    r
}

fn is_skippable_char(c: char) -> (r: bool)
    ensures
        r == is_skip_char(c),
{
    c == ' ' || c == '\t' || c == '\r'
}

fn scan_digits_exec(code: &Vec<char>, i: usize) -> (j: usize)
    requires
        i <= code@.len(),
    ensures
        i <= j <= code@.len(),
        j as int == scan_digits(code@, i as int),
{
    let mut j = i;
    while j < code.len()
        invariant
            i <= j <= code@.len(),
            scan_digits(code@, i as int) == scan_digits(code@, j as int),
        decreases code@.len() - j,
    {
        if !char_is_numeric(code[j]) {
            return j;
        }
        j += 1;
    }
    j
}

fn scan_ident_exec(code: &Vec<char>, i: usize) -> (j: usize)
    requires
        i <= code@.len(),
    ensures
        i <= j <= code@.len(),
        j as int == scan_ident(code@, i as int),
{
    let mut j = i;
    while j < code.len()
        invariant
            i <= j <= code@.len(),
            scan_ident(code@, i as int) == scan_ident(code@, j as int),
        decreases code@.len() - j,
    {
        let c = code[j];
        if !(char_is_alphanumeric(c) || c == '_') {
            return j;
        }
        j += 1;
    }
    j
}

fn scan_comment_exec(code: &Vec<char>, i: usize) -> (j: usize)
    requires
        i <= code@.len(),
    ensures
        i <= j <= code@.len(),
        j as int == scan_comment(code@, i as int),
{
    let mut j = i;
    while j < code.len()
        invariant
            i <= j <= code@.len(),
            scan_comment(code@, i as int) == scan_comment(code@, j as int),
        decreases code@.len() - j,
    {
        if code[j] == '\n' {
            return j;
        }
        j += 1;
    }
    j
}

fn scan_sync_exec(code: &Vec<char>, i: usize) -> (j: usize)
    requires
        i <= code@.len(),
    ensures
        i <= j <= code@.len(),
        j as int == scan_sync(code@, i as int),
{
    let mut j = i;
    while j < code.len()
        invariant
            i <= j <= code@.len(),
            scan_sync(code@, i as int) == scan_sync(code@, j as int),
        decreases code@.len() - j,
    {
        let c = code[j];
        if is_skippable_char(c) || c == '\n' {
            return j;
        }
        j += 1;
    }
    j
}

/// Whether the source slice `[s, e)` spells exactly the pattern.
fn range_eq_str(code: &Vec<char>, s: usize, e: usize, pat: &str) -> (r: bool)
    requires
        s <= e <= code@.len(),
    ensures
        r == (code@.subrange(s as int, e as int) == pat@),
{
    let n = pat.unicode_len();
    if n != e - s {
        proof {
            assert(code@.subrange(s as int, e as int).len() == e - s);
        }
        return false;
    }
    let mut i: usize = 0;
    while i < n
        invariant
            n == pat@.len(),
            n == e - s,
            s <= e <= code@.len(),
            i <= n,
            forall|k: int| 0 <= k < i ==> code@.subrange(s as int, e as int)[k] == pat@[k],
        decreases n - i,
    {
        if code[s + i] != pat.get_char(i) {
            proof {
                assert(code@.subrange(s as int, e as int)[i as int] != pat@[i as int]);
            }
            return false;
        }
        i += 1;
    }
    proof {
        assert(code@.subrange(s as int, e as int) =~= pat@);
    }
    true
}

/// Looks the slice `[s, e)` up in the keyword table.
fn keyword_lookup(code: &Vec<char>, s: usize, e: usize) -> (r: Option<TokenKind>)
    requires
        s <= e <= code@.len(),
    ensures
        r == keyword_kind(code@.subrange(s as int, e as int)),
{
    if range_eq_str(code, s, e, "var") {
        Some(TokenKind::Var)
    } else if range_eq_str(code, s, e, "const") {
        Some(TokenKind::Const)
    } else if range_eq_str(code, s, e, "true") {
        Some(TokenKind::True)
    } else if range_eq_str(code, s, e, "false") {
        Some(TokenKind::False)
    } else if range_eq_str(code, s, e, "struct") {
        Some(TokenKind::Struct)
    } else if range_eq_str(code, s, e, "self") {
        Some(TokenKind::SelfKw)
    } else if range_eq_str(code, s, e, "fn") {
        Some(TokenKind::Fn)
    } else if range_eq_str(code, s, e, "return") {
        Some(TokenKind::Return)
    } else if range_eq_str(code, s, e, "if") {
        Some(TokenKind::If)
    } else if range_eq_str(code, s, e, "else") {
        Some(TokenKind::Else)
    } else if range_eq_str(code, s, e, "and") {
        Some(TokenKind::And)
    } else if range_eq_str(code, s, e, "or") {
        Some(TokenKind::Or)
    } else if range_eq_str(code, s, e, "for") {
        Some(TokenKind::For)
    } else if range_eq_str(code, s, e, "while") {
        Some(TokenKind::While)
    } else if range_eq_str(code, s, e, "in") {
        Some(TokenKind::In)
    } else if range_eq_str(code, s, e, "null") {
        Some(TokenKind::Null)
    } else if range_eq_str(code, s, e, "print") {
        Some(TokenKind::Print)
    } else {
        None
    }
}

proof fn lemma_scan_digits_bounds(code: Seq<char>, i: int)
    requires
        0 <= i <= code.len(),
    ensures
        i <= scan_digits(code, i) <= code.len(),
    decreases code.len() - i,
{
    if i < code.len() && is_numeric_char(code[i]) {
        lemma_scan_digits_bounds(code, i + 1);
    }
}

proof fn lemma_scan_ident_bounds(code: Seq<char>, i: int)
    requires
        0 <= i <= code.len(),
    ensures
        i <= scan_ident(code, i) <= code.len(),
    decreases code.len() - i,
{
    if i < code.len() && (is_alphanumeric_char(code[i]) || code[i] == '_') {
        lemma_scan_ident_bounds(code, i + 1);
    }
}

proof fn lemma_scan_comment_bounds(code: Seq<char>, i: int)
    requires
        0 <= i <= code.len(),
    ensures
        i <= scan_comment(code, i) <= code.len(),
    decreases code.len() - i,
{
    if i < code.len() && code[i] != '\n' {
        lemma_scan_comment_bounds(code, i + 1);
    }
}

proof fn lemma_scan_sync_bounds(code: Seq<char>, i: int)
    requires
        0 <= i <= code.len(),
    ensures
        i <= scan_sync(code, i) <= code.len(),
    decreases code.len() - i,
{
    if i < code.len() && !(is_skip_char(code[i]) || code[i] == '\n') {
        lemma_scan_sync_bounds(code, i + 1);
    }
}

proof fn lemma_scan_string_bounds(code: Seq<char>, i: int)
    requires
        0 <= i <= code.len(),
    ensures
        i <= scan_string(code, i) <= code.len(),
    decreases code.len() - i,
{
    if i < code.len() && code[i] != '"' {
        lemma_scan_string_bounds(code, i + 1);
    }
}

/// Every scanning step consumes at least one character and never passes the
/// input's end.
proof fn lemma_lex_step_next(code: Seq<char>, i: int)
    requires
        0 <= i < code.len(),
    ensures
        i + 1 <= lex_step(code, i).next <= code.len(),
{
    let c = code[i];
    lemma_scan_sync_bounds(code, i + 1);
    lemma_scan_digits_bounds(code, i + 1);
    lemma_scan_ident_bounds(code, i + 1);
    lemma_scan_string_bounds(code, i + 1);
    if i + 2 <= code.len() {
        lemma_scan_comment_bounds(code, i + 2);
    }
    if !(is_skip_char(c) || c == '\n') {
        assert(scan_sync(code, i) == scan_sync(code, i + 1));
    }
    let d = scan_digits(code, i + 1);
    if 0 <= d + 1 <= code.len() {
        lemma_scan_digits_bounds(code, d + 1);
    }
}

/// Every token the string scan's newline pass emits is a `NewLine` token.
pub proof fn lemma_string_nls_newline(code: Seq<char>, qi: int, j: int)
    ensures
        forall|k: int|
            0 <= k < string_nls(code, qi, j).len() ==> (#[trigger] string_nls(
                code,
                qi,
                j,
            )[k]).kind == TokenKind::NewLine,
    decreases code.len() - j,
{
    if !(j < 0 || j >= code.len() || code[j] == '"') {
        lemma_string_nls_newline(code, qi, j + 1);
    }
}

/// No scanning step ever emits an `Eof` token: that token is appended once,
/// at the very end.
pub proof fn lemma_lex_step_no_eof(code: Seq<char>, i: int)
    requires
        0 <= i < code.len(),
    ensures
        forall|k: int|
            0 <= k < lex_step(code, i).toks.len() ==> (#[trigger] lex_step(
                code,
                i,
            ).toks[k]).kind != TokenKind::Eof,
{
    lemma_string_nls_newline(code, i, i + 1);
}

/// No token of the scan proper is an `Eof` token.
pub proof fn lemma_lex_from_no_eof(code: Seq<char>, i: int)
    ensures
        forall|k: int|
            0 <= k < lex_from(code, i).toks.len() ==> (#[trigger] lex_from(
                code,
                i,
            ).toks[k]).kind != TokenKind::Eof,
    decreases code.len() - i,
{
    if !(i < 0 || i >= code.len()) {
        lemma_lex_step_no_eof(code, i);
        let st = lex_step(code, i);
        let nx = if st.next < i + 1 {
            i + 1
        } else if st.next > code.len() {
            code.len() as int
        } else {
            st.next
        };
        lemma_lex_from_no_eof(code, nx);
    }
}

/// One loop turn's bookkeeping: folding the step at `i` into the scan
/// emitted so far keeps the whole scan's decomposition intact.
proof fn lemma_lex_loop_inv(
    code: Seq<char>,
    i: int,
    t0: Seq<TokenV>,
    e0: Seq<DiagV<LexerErr>>,
    t1: Seq<TokenV>,
    e1: Seq<DiagV<LexerErr>>,
    cur: int,
)
    requires
        0 <= i < code.len(),
        lex_from(code, 0).toks == t0 + lex_from(code, i).toks,
        lex_from(code, 0).errs == e0 + lex_from(code, i).errs,
        t1 == t0 + lex_step(code, i).toks,
        e1 == e0 + lex_step(code, i).errs,
        cur == ({
            let nx = lex_step(code, i).next;
            if nx < i + 1 {
                i + 1
            } else if nx > code.len() {
                code.len() as int
            } else {
                nx
            }
        }),
    ensures
        lex_from(code, 0).toks == t1 + lex_from(code, cur).toks,
        lex_from(code, 0).errs == e1 + lex_from(code, cur).errs,
{
    let st = lex_step(code, i);
    assert(lex_from(code, i).toks == st.toks + lex_from(code, cur).toks);
    assert(lex_from(code, i).errs == st.errs + lex_from(code, cur).errs);
    assert((t0 + st.toks) + lex_from(code, cur).toks =~= t0 + (st.toks + lex_from(code, cur).toks));
    assert((e0 + st.errs) + lex_from(code, cur).errs =~= e0 + (st.errs + lex_from(code, cur).errs));
}

// -----------
//  The lexer
// -----------
/// Character-stream scanner with error synchronization. One instance performs
/// one pass over one in-memory character buffer.
pub struct Lexer {
    code: Vec<char>,
    start: usize,
    current: usize,
}

impl Lexer {
    pub fn new() -> (r: Lexer) {
        Lexer { code: Vec::new(), start: 0, current: 0 }
    }

    fn get_loc(&self) -> (r: Loc)
        ensures
            r.start == self.start,
            r.end == self.current,
    {
        Loc::new(self.start, self.current)
    }

    /// Rewinds to the start of the failed lexeme and advances to the next
    /// whitespace, newline or end of input, so that scanning resumes cleanly.
    fn synchronize(&mut self)
        requires
            old(self).start <= old(self).code@.len(),
        ensures
            final(self).code == old(self).code,
            final(self).start == old(self).start,
            final(self).start <= final(self).current <= final(self).code@.len(),
            final(self).current as int == scan_sync(final(self).code@, final(self).start as int),
    {
        self.current = scan_sync_exec(&self.code, self.start);
    }

    /// Synchronizes, then wraps the error with the span from the lexeme's
    /// start to the resumption point.
    fn trigger_error(&mut self, err: LexerErr) -> (r: PhyResult<LexerErr>)
        requires
            old(self).start <= old(self).code@.len(),
        ensures
            final(self).code == old(self).code,
            final(self).start == old(self).start,
            final(self).start <= final(self).current <= final(self).code@.len(),
            final(self).current as int == scan_sync(final(self).code@, final(self).start as int),
            r@ == lex_diag(err, final(self).start as int, final(self).current as int),
    {
        self.synchronize();
        PhyResult::new(err, self.get_loc())
    }

    /// Emits a token whose text is the source slice from the lexeme's start
    /// to the cursor.
    fn add_token(&mut self, tokens: &mut Vec<Token>, kind: TokenKind)
        requires
            old(self).start <= old(self).current <= old(self).code@.len(),
        ensures
            *final(self) == *old(self),
            final(tokens)@.len() == old(tokens)@.len() + 1,
            final(tokens).deep_view() == old(tokens).deep_view().push(
                slice_tok(kind, final(self).code@, final(self).start as int, final(self).current as int),
            ),
    {
        let value = collect_chars(&self.code, self.start, self.current);
        let loc = Loc::new(self.start, self.current);
        let t = Token { kind, value, loc };
        proof {
            assert(t@ == slice_tok(kind, self.code@, self.start as int, self.current as int));
        }
        tokens.push(t);
        proof {
            assert(tokens.deep_view() =~= old(tokens).deep_view().push(
                slice_tok(kind, self.code@, self.start as int, self.current as int),
            ));
        }
    }

    /// A line comment: consumed to the end of the line and discarded.
    fn lex_comment(&mut self)
        requires
            old(self).current <= old(self).code@.len(),
        ensures
            final(self).code == old(self).code,
            final(self).start == old(self).start,
            old(self).current <= final(self).current <= final(self).code@.len(),
            final(self).current as int == scan_comment(final(self).code@, old(self).current as int),
    {
        self.current = scan_comment_exec(&self.code, self.current);
    }

    /// A string literal: behaves as `string_step` of the opening quote's
    /// index says.
    fn lex_string(&mut self, tokens: &mut Vec<Token>) -> (r: Result<(), PhyResult<LexerErr>>)
        requires
            old(self).current == old(self).start + 1,
            old(self).start < old(self).code@.len(),
        ensures
            final(self).code == old(self).code,
            final(self).start == old(self).start,
            final(self).current <= final(self).code@.len(),
            ({
                let st = string_step(old(self).code@, old(self).start as int);
                &&& final(tokens).deep_view() == old(tokens).deep_view() + st.toks
                &&& final(self).current as int == st.next
                &&& match r {
                    Ok(()) => st.errs.len() == 0,
                    Err(e) => st.errs == seq![e@],
                }
            }),
    {
        let ghost qi = self.start as int;
        let n = self.code.len();
        while self.current < n && self.code[self.current] != '"'
            invariant
                n == self.code@.len(),
                self.code == old(self).code,
                self.start == old(self).start,
                qi == self.start as int,
                qi + 1 <= self.current <= n,
                scan_string(self.code@, qi + 1) == scan_string(self.code@, self.current as int),
                old(tokens).deep_view() + string_nls(self.code@, qi, qi + 1) =~= tokens.deep_view()
                    + string_nls(self.code@, qi, self.current as int),
            decreases n - self.current,
        {
            let ghost cur = self.current as int;
            if self.code[self.current] == '\n' {
                self.current += 1;
                self.add_token(tokens, TokenKind::NewLine);
                proof {
                    assert(string_nls(self.code@, qi, cur) == seq![
                        slice_tok(TokenKind::NewLine, self.code@, qi, cur + 1),
                    ] + string_nls(self.code@, qi, cur + 1));
                    assert(tokens.deep_view() + string_nls(self.code@, qi, self.current as int)
                        =~= old(tokens).deep_view() + string_nls(self.code@, qi, qi + 1));
                }
            } else {
                self.current += 1;
                proof {
                    assert(string_nls(self.code@, qi, cur) == string_nls(self.code@, qi, cur + 1));
                }
            }
        }
        let ghost st = string_step(old(self).code@, qi);
        if self.current >= n {
            proof {
                assert(scan_string(self.code@, self.current as int) == self.current as int);
                assert(string_nls(self.code@, qi, self.current as int) =~= Seq::<TokenV>::empty());
                assert(tokens.deep_view() =~= old(tokens).deep_view() + st.toks);
            }
            let loc = Loc::new(self.start, n);
            self.synchronize();
            return Err(PhyResult::new(LexerErr::StringNeverClosed, loc));
        }
        proof {
            assert(scan_string(self.code@, self.current as int) == self.current as int);
            assert(string_nls(self.code@, qi, self.current as int) =~= Seq::<TokenV>::empty());
        }
        let value = collect_chars(&self.code, self.start + 1, self.current);
        self.current += 1;
        let loc = Loc::new(self.start, self.current);
        let t = Token { kind: TokenKind::String, value, loc };
        proof {
            let close = scan_string(self.code@, qi + 1);
            assert(t@ == TokenV {
                kind: TokenKind::String,
                text: self.code@.subrange(qi + 1, close),
                start: qi,
                end: close + 1,
            });
        }
        let ghost prevt = tokens.deep_view();
        tokens.push(t);
        proof {
            assert(tokens.deep_view() =~= prevt.push(t@));
            assert(tokens.deep_view() =~= old(tokens).deep_view() + st.toks);
        }
        Ok(())
    }

    /// A numeric literal: behaves as `number_step` of the first digit's index
    /// says.
    fn lex_number(&mut self, tokens: &mut Vec<Token>) -> (r: Result<(), PhyResult<LexerErr>>)
        requires
            old(self).current == old(self).start + 1,
            old(self).start < old(self).code@.len(),
        ensures
            final(self).code == old(self).code,
            final(self).start == old(self).start,
            final(self).current <= final(self).code@.len(),
            ({
                let st = number_step(old(self).code@, old(self).start as int);
                &&& final(tokens).deep_view() == old(tokens).deep_view() + st.toks
                &&& final(self).current as int == st.next
                &&& match r {
                    Ok(()) => st.errs.len() == 0,
                    Err(e) => st.errs == seq![e@],
                }
            }),
    {
        let ghost i = self.start as int;
        let ghost st = number_step(old(self).code@, i);
        let n = self.code.len();
        let d = scan_digits_exec(&self.code, self.current);
        self.current = d;
        if d < n && self.code[d] == '.' {
            if d + 1 < n && self.code[d + 1] == '.' {
                self.add_token(tokens, TokenKind::Int);
                self.current = d + 2;
                let value = collect_chars(&self.code, d, d + 2);
                let t = Token { kind: TokenKind::DotDot, value, loc: Loc::new(self.start, d + 2) };
                let ghost prevt = tokens.deep_view();
                tokens.push(t);
                proof {
                    assert(tokens.deep_view() =~= prevt.push(t@));
                    assert(tokens.deep_view() =~= old(tokens).deep_view() + st.toks);
                }
                Ok(())
            } else {
                self.current = d + 1;
                let after_ok = if self.current >= n {
                    true
                } else {
                    let c2 = self.code[self.current];
                    is_skippable_char(c2) || c2 == '\n'
                };
                if after_ok {
                    self.add_token(tokens, TokenKind::Real);
                    proof {
                        assert(tokens.deep_view() =~= old(tokens).deep_view() + st.toks);
                    }
                    Ok(())
                } else {
                    let c2 = self.code[self.current];
                    if !char_is_numeric(c2) {
                        let e = self.trigger_error(LexerErr::NonNumericDecimal(c2));
                        proof {
                            assert(tokens.deep_view() =~= old(tokens).deep_view() + st.toks);
                        }
                        Err(e)
                    } else {
                        let e2 = scan_digits_exec(&self.code, self.current);
                        self.current = e2;
                        let tail_bad = if e2 < n {
                            let ce = self.code[e2];
                            !is_skippable_char(ce) && ce != '\n'
                        } else {
                            false
                        };
                        if tail_bad {
                            let ce = self.code[e2];
                            let e = self.trigger_error(LexerErr::NoSpaceAfterNumber(ce));
                            proof {
                                assert(tokens.deep_view() =~= old(tokens).deep_view() + st.toks);
                            }
                            Err(e)
                        } else {
                            self.add_token(tokens, TokenKind::Real);
                            proof {
                                assert(tokens.deep_view() =~= old(tokens).deep_view() + st.toks);
                            }
                            Ok(())
                        }
                    }
                }
            }
        } else {
            self.add_token(tokens, TokenKind::Int);
            proof {
                assert(tokens.deep_view() =~= old(tokens).deep_view() + st.toks);
            }
            Ok(())
        }
    }

    /// An identifier run, looked up against the keyword table: behaves as
    /// `ident_step` of the first letter's index says.
    fn lex_identifier(&mut self, tokens: &mut Vec<Token>)
        requires
            old(self).current == old(self).start + 1,
            old(self).start < old(self).code@.len(),
        ensures
            final(self).code == old(self).code,
            final(self).start == old(self).start,
            final(self).current <= final(self).code@.len(),
            ({
                let st = ident_step(old(self).code@, old(self).start as int);
                &&& final(tokens).deep_view() == old(tokens).deep_view() + st.toks
                &&& final(self).current as int == st.next
            }),
    {
        let ghost st = ident_step(old(self).code@, old(self).start as int);
        let e = scan_ident_exec(&self.code, self.current);
        self.current = e;
        let kind = match keyword_lookup(&self.code, self.start, e) {
            Some(k) => k,
            None => TokenKind::Identifier,
        };
        self.add_token(tokens, kind);
        proof {
            assert(tokens.deep_view() =~= old(tokens).deep_view() + st.toks);
        }
    }

    /// Scans the whole source. Returns the ordered token sequence, always
    /// terminated by `Eof`, when no lexical error occurred, and the ordered
    /// list of all lexical errors met otherwise — never both. The result is
    /// exactly `spec_tokenize` of the input's characters.
    pub fn tokenize(&mut self, code: &str) -> (r: Result<Vec<Token>, Vec<PhyResult<LexerErr>>>)
        requires
            code@.len() < usize::MAX,
        ensures
            ({
                let out = spec_tokenize(code@);
                match r {
                    Ok(toks) => out.errs.len() == 0 && toks.deep_view() == out.toks,
                    Err(errs) => out.errs.len() > 0 && errs.deep_view() == out.errs,
                }
            }),
    {
        self.code = str_chars(code);
        self.start = 0;
        self.current = 0;
        let mut tokens: Vec<Token> = Vec::new();
        let mut errors: Vec<PhyResult<LexerErr>> = Vec::new();
        let n = self.code.len();
        while self.current < n
            invariant
                self.code@ == code@,
                n == code@.len(),
                n < usize::MAX,
                self.current <= n,
                lex_from(code@, 0).toks == tokens.deep_view() + lex_from(
                    code@,
                    self.current as int,
                ).toks,
                lex_from(code@, 0).errs == errors.deep_view() + lex_from(
                    code@,
                    self.current as int,
                ).errs,
            decreases n - self.current,
        {
            self.start = self.current;
            let ghost i = self.current as int;
            let ghost t0 = tokens.deep_view();
            let ghost e0 = errors.deep_view();
            let c = self.code[self.current];
            self.current += 1;
            match c {
                '\r' | '\t' | ' ' => {},
                '\n' => self.add_token(&mut tokens, TokenKind::NewLine),
                '(' => self.add_token(&mut tokens, TokenKind::OpenParen),
                ')' => self.add_token(&mut tokens, TokenKind::CloseParen),
                '{' => self.add_token(&mut tokens, TokenKind::OpenBrace),
                '}' => self.add_token(&mut tokens, TokenKind::CloseBrace),
                ',' => self.add_token(&mut tokens, TokenKind::Comma),
                '.' => {
                    if self.current < n && self.code[self.current] == '.' {
                        self.current += 1;
                        self.add_token(&mut tokens, TokenKind::DotDot);
                    } else {
                        self.add_token(&mut tokens, TokenKind::Dot);
                    }
                },
                '-' => self.add_token(&mut tokens, TokenKind::Minus),
                '+' => self.add_token(&mut tokens, TokenKind::Plus),
                '*' => self.add_token(&mut tokens, TokenKind::Star),
                '%' => self.add_token(&mut tokens, TokenKind::Modulo),
                '!' => {
                    if self.current < n && self.code[self.current] == '=' {
                        self.current += 1;
                        self.add_token(&mut tokens, TokenKind::BangEqual);
                    } else {
                        self.add_token(&mut tokens, TokenKind::Bang);
                    }
                },
                '=' => {
                    if self.current < n && self.code[self.current] == '=' {
                        self.current += 1;
                        self.add_token(&mut tokens, TokenKind::EqualEqual);
                    } else {
                        self.add_token(&mut tokens, TokenKind::Equal);
                    }
                },
                '<' => {
                    if self.current < n && self.code[self.current] == '=' {
                        self.current += 1;
                        self.add_token(&mut tokens, TokenKind::LessEqual);
                    } else {
                        self.add_token(&mut tokens, TokenKind::Less);
                    }
                },
                '>' => {
                    if self.current < n && self.code[self.current] == '=' {
                        self.current += 1;
                        self.add_token(&mut tokens, TokenKind::GreaterEqual);
                    } else {
                        self.add_token(&mut tokens, TokenKind::Greater);
                    }
                },
                '/' => {
                    if self.current < n && self.code[self.current] == '/' {
                        self.current += 1;
                        self.lex_comment();
                    } else {
                        self.add_token(&mut tokens, TokenKind::Slash);
                    }
                },
                '"' => {
                    match self.lex_string(&mut tokens) {
                        Ok(_) => {},
                        Err(e) => errors.push(e),
                    }
                },
                _ => {
                    if char_is_numeric(c) {
                        match self.lex_number(&mut tokens) {
                            Ok(_) => {},
                            Err(e) => errors.push(e),
                        }
                    } else if char_is_alphabetic(c) {
                        self.lex_identifier(&mut tokens);
                    } else {
                        let e = self.trigger_error(LexerErr::UnexpectedToken(c));
                        errors.push(e);
                    }
                },
            }
            proof {
                lemma_lex_step_next(code@, i);
                assert(tokens.deep_view() =~= t0 + lex_step(code@, i).toks);
                assert(errors.deep_view() =~= e0 + lex_step(code@, i).errs);
                lemma_lex_loop_inv(
                    code@,
                    i,
                    t0,
                    e0,
                    tokens.deep_view(),
                    errors.deep_view(),
                    self.current as int,
                );
            }
        }
        proof {
            assert(lex_from(code@, self.current as int).toks =~= Seq::<TokenV>::empty());
            assert(lex_from(code@, self.current as int).errs =~= Seq::<
                DiagV<LexerErr>,
            >::empty());
            assert(tokens.deep_view() =~= lex_from(code@, 0).toks);
            assert(errors.deep_view() =~= lex_from(code@, 0).errs);
        }
        let value = "eof".to_owned();
        let t = Token { kind: TokenKind::Eof, value, loc: Loc::new(n, n + 1) };
        proof {
            assert(t@ == eof_token(code@.len() as int));
        }
        let ghost prevt = tokens.deep_view();
        tokens.push(t);
        proof {
            assert(tokens.deep_view() =~= prevt.push(t@));
            assert(tokens.deep_view() =~= spec_tokenize(code@).toks);
        }
        if errors.len() == 0 {
            Ok(tokens)
        } else {
            Err(errors)
        }
    }
}

} // verus!
