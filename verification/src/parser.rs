//! The parser: recursive descent with precedence climbing and panic-mode
//! error recovery, over a borrowed token buffer. It returns either the full
//! ordered statement list or the full ordered list of syntax errors collected
//! in one pass — never both.
//!
//! The grammar walk is specified by one recursive function per precedence
//! level (`spec_primary` up to `spec_parse_from`); each executable function
//! is proved to return exactly what its spec twin says.

use vstd::prelude::*;

use crate::expr::{
    AssignExpr, BinaryExpr, Expr, ExprV, GroupingExpr, IdentifierExpr, IntLiteralExpr,
    RealLiteralExpr, StrLiteralExpr, UnaryExpr, expr_view,
};
use crate::lexer::{Token, TokenKind, TokenV};
use crate::results::{DiagV, Loc, PhyResult};
use crate::stmt::{BlockStmt, ExprStmt, PrintStmt, Stmt, StmtV, VarDeclStmt, stmt_view};

verus! {

// ----------------
// Error management
// ----------------
/// The syntax error kinds. `IncorrectVarDeclVal` wraps the inner failure that
/// sank a declaration's initializer; `UnexpextedToken` carries the expected
/// and the found kind. Rendering either as text is the external reporter's
/// business.
#[derive(Debug, PartialEq)]
pub enum ParserErr {
    UnexpectedEol,
    MissingLhsInBinop,
    UnknownToken(String),
    ParsingInt,
    ParsingReal,
    ParenNeverClosed,
    VarDeclNoName,
    IncorrectVarDeclVal(Box<ParserErr>),
    WrongRhsVarDecl,
    NoExprAssign,
    InvalidAssignTarget,
    UnclosedBlock,
    UnexpectedEof,
    UnexpextedToken(TokenKind, TokenKind),
}

/// Spec-level twin of `ParserErr`.
pub ghost enum ParserErrV {
    UnexpectedEol,
    MissingLhsInBinop,
    UnknownToken(Seq<char>),
    ParsingInt,
    ParsingReal,
    ParenNeverClosed,
    VarDeclNoName,
    IncorrectVarDeclVal(Box<ParserErrV>),
    WrongRhsVarDecl,
    NoExprAssign,
    InvalidAssignTarget,
    UnclosedBlock,
    UnexpectedEof,
    UnexpextedToken(TokenKind, TokenKind),
}

pub open spec fn parser_err_view(e: &ParserErr) -> ParserErrV
    decreases e,
{
    match e {
        ParserErr::UnexpectedEol => ParserErrV::UnexpectedEol,
        ParserErr::MissingLhsInBinop => ParserErrV::MissingLhsInBinop,
        ParserErr::UnknownToken(t) => ParserErrV::UnknownToken(t@),
        ParserErr::ParsingInt => ParserErrV::ParsingInt,
        ParserErr::ParsingReal => ParserErrV::ParsingReal,
        ParserErr::ParenNeverClosed => ParserErrV::ParenNeverClosed,
        ParserErr::VarDeclNoName => ParserErrV::VarDeclNoName,
        ParserErr::IncorrectVarDeclVal(inner) => ParserErrV::IncorrectVarDeclVal(
            Box::new(parser_err_view(inner)),
        ),
        ParserErr::WrongRhsVarDecl => ParserErrV::WrongRhsVarDecl,
        ParserErr::NoExprAssign => ParserErrV::NoExprAssign,
        ParserErr::InvalidAssignTarget => ParserErrV::InvalidAssignTarget,
        ParserErr::UnclosedBlock => ParserErrV::UnclosedBlock,
        ParserErr::UnexpectedEof => ParserErrV::UnexpectedEof,
        ParserErr::UnexpextedToken(a, b) => ParserErrV::UnexpextedToken(*a, *b),
    }
}

impl View for ParserErr {
    type V = ParserErrV;

    open spec fn view(&self) -> ParserErrV {
        parser_err_view(self)
    }
}

impl DeepView for ParserErr {
    type V = ParserErrV;

    open spec fn deep_view(&self) -> ParserErrV {
        parser_err_view(self)
    }
}

// -------------------------
//  Spec: the token buffer
// -------------------------
/// The shape the lexer guarantees and the parser relies on: a non-empty
/// buffer whose one and only `Eof` token stands last. The cursor then never
/// leaves the buffer.
pub open spec fn wf_tokens(s: Seq<TokenV>) -> bool {
    &&& s.len() >= 1
    &&& s[s.len() - 1].kind == TokenKind::Eof
    &&& forall|i: int| 0 <= i < s.len() - 1 ==> (#[trigger] s[i].kind) != TokenKind::Eof
}

/// The start offset of the token at `pos`: where the parser's cursor-derived
/// spans end.
pub open spec fn tok_start(s: Seq<TokenV>, pos: int) -> int {
    s[pos].start
}

/// A returned cursor clamped into `[lo, s.len()]`; every parsing function in
/// fact returns a cursor inside that range, so the clamp changes nothing and
/// only carries the bound the termination measure needs.
pub open spec fn step_pos(s: Seq<TokenV>, v: int, lo: int) -> int {
    let w = if v < lo {
        lo
    } else {
        v
    };
    if w > s.len() {
        s.len() as int
    } else {
        w
    }
}

/// First index at or after `pos` whose token is not a `NewLine`.
pub open spec fn skip_nl(s: Seq<TokenV>, pos: int) -> int
    decreases s.len() - pos,
{
    if pos < 0 || pos >= s.len() {
        pos
    } else if s[pos].kind == TokenKind::NewLine {
        skip_nl(s, pos + 1)
    } else {
        pos
    }
}

/// First index at or after `pos` holding a `NewLine` or `Eof` token: where
/// panic-mode recovery stops skipping.
pub open spec fn sync_to(s: Seq<TokenV>, pos: int) -> int
    decreases s.len() - pos,
{
    if pos < 0 || pos >= s.len() {
        pos
    } else if s[pos].kind == TokenKind::NewLine || s[pos].kind == TokenKind::Eof {
        pos
    } else {
        sync_to(s, pos + 1)
    }
}

/// Panic-mode resynchronization: if the token just consumed was itself a
/// `NewLine`, the parser is already past the statement boundary and stays
/// put; otherwise it skips to the next `NewLine` or `Eof`.
pub open spec fn spec_sync(s: Seq<TokenV>, pos: int) -> int {
    if 0 < pos <= s.len() && s[pos - 1].kind == TokenKind::NewLine {
        pos
    } else {
        sync_to(s, pos)
    }
}

pub open spec fn p_diag(e: ParserErrV, sl: int, end: int) -> DiagV<ParserErrV> {
    DiagV { err: e, start: sl, end }
}

/// What consuming one token of a demanded kind yields: the token and the
/// cursor past it, or `UnexpectedEof` in place (the cursor cannot pass the
/// `Eof` token), or a kind mismatch one past the offender.
pub ghost struct PT {
    pub r: Result<TokenV, DiagV<ParserErrV>>,
    pub pos: int,
}

pub open spec fn spec_expect(s: Seq<TokenV>, pos: int, sl: int, k: TokenKind) -> PT {
    if pos < 0 || pos >= s.len() {
        PT { r: Err(p_diag(ParserErrV::UnexpectedEof, sl, sl)), pos }
    } else if s[pos].kind == TokenKind::Eof {
        PT { r: Err(p_diag(ParserErrV::UnexpectedEof, sl, tok_start(s, pos))), pos }
    } else if s[pos].kind == k {
        PT { r: Ok(s[pos]), pos: pos + 1 }
    } else {
        PT {
            r: Err(
                p_diag(
                    ParserErrV::UnexpextedToken(k, s[pos].kind),
                    sl,
                    tok_start(s, pos + 1),
                ),
            ),
            pos: pos + 1,
        }
    }
}

// ---------------------------
//  Spec: literal token texts
// ---------------------------
pub open spec fn is_ascii_digit(c: char) -> bool {
    '0' as int <= c as int <= '9' as int
}

pub open spec fn digit_val(c: char) -> int {
    c as int - '0' as int
}

pub open spec fn all_digits(t: Seq<char>) -> bool {
    forall|i: int| 0 <= i < t.len() ==> is_ascii_digit(#[trigger] t[i])
}

/// The integer a run of decimal digits denotes.
pub open spec fn int_of(t: Seq<char>) -> int
    decreases t.len(),
{
    if t.len() == 0 {
        0
    } else {
        int_of(t.drop_last()) * 10 + digit_val(t.last())
    }
}

/// What an `Int` token's text must be for the literal to parse: a non-empty
/// run of decimal digits.
pub open spec fn is_int_text(t: Seq<char>) -> bool {
    t.len() > 0 && all_digits(t)
}

/// First index at or after `i` that ends a run of decimal digits.
pub open spec fn ascii_digits_end(t: Seq<char>, i: int) -> int
    decreases t.len() - i,
{
    if i < 0 || i >= t.len() || !is_ascii_digit(t[i]) {
        i
    } else {
        ascii_digits_end(t, i + 1)
    }
}

/// What a `Real` token's text must be for the literal to parse: decimal
/// digits, then optionally a dot followed by decimal digits — a trailing dot
/// included.
pub open spec fn is_real_text(t: Seq<char>) -> bool {
    let d = ascii_digits_end(t, 0);
    d > 0 && (d == t.len() || (t[d] == '.' && ascii_digits_end(t, d + 1) == t.len()))
}

// ----------------------------------
//  Spec: the expression grammar
// ----------------------------------
/// One parsing function's outcome: the node built or the error raised, and
/// the cursor afterwards.
pub ghost struct PE {
    pub r: Result<ExprV, DiagV<ParserErrV>>,
    pub pos: int,
}

pub ghost struct PS {
    pub r: Result<StmtV, DiagV<ParserErrV>>,
    pub pos: int,
}

/// A block body's outcome: the statements gathered, the cursor, and the
/// statement-start offset last recorded while skipping blank lines.
pub ghost struct BB {
    pub r: Result<Seq<StmtV>, DiagV<ParserErrV>>,
    pub pos: int,
    pub sl: int,
}

/// Primary: identifier-like tokens (including `true`, `false`, `null`),
/// literals, a parenthesized group, or one of the position's errors. The
/// cursor-out span of every node starts at the statement's start `sl`.
#[verifier::opaque]
pub open spec fn spec_primary(s: Seq<TokenV>, pos: int, sl: int) -> PE
    decreases s.len() - pos, 3int,
{
    if pos < 0 || pos >= s.len() {
        PE { r: Err(p_diag(ParserErrV::UnexpectedEof, sl, sl)), pos }
    } else if s[pos].kind == TokenKind::Eof {
        PE { r: Err(p_diag(ParserErrV::UnexpectedEof, sl, tok_start(s, pos))), pos }
    } else {
        let t = s[pos];
        let p1 = pos + 1;
        if t.kind == TokenKind::Identifier || t.kind == TokenKind::True || t.kind
            == TokenKind::False || t.kind == TokenKind::Null {
            PE {
                r: Ok(ExprV::Identifier { name: t.text, start: sl, end: tok_start(s, p1) }),
                pos: p1,
            }
        } else if t.kind == TokenKind::Int {
            if is_int_text(t.text) && int_of(t.text) <= i64::MAX as int {
                PE {
                    r: Ok(
                        ExprV::IntLiteral {
                            value: int_of(t.text) as i64,
                            start: sl,
                            end: tok_start(s, p1),
                        },
                    ),
                    pos: p1,
                }
            } else {
                PE { r: Err(p_diag(ParserErrV::ParsingInt, sl, tok_start(s, p1))), pos: p1 }
            }
        } else if t.kind == TokenKind::Real {
            if is_real_text(t.text) {
                PE {
                    r: Ok(ExprV::RealLiteral { value: t.text, start: sl, end: tok_start(s, p1) }),
                    pos: p1,
                }
            } else {
                PE { r: Err(p_diag(ParserErrV::ParsingReal, sl, tok_start(s, p1))), pos: p1 }
            }
        } else if t.kind == TokenKind::String {
            PE {
                r: Ok(ExprV::StrLiteral { value: t.text, start: sl, end: tok_start(s, p1) }),
                pos: p1,
            }
        } else if t.kind == TokenKind::OpenParen {
            spec_grouping(s, p1, sl)
        } else if t.kind == TokenKind::NewLine {
            PE { r: Err(p_diag(ParserErrV::UnexpectedEol, sl, tok_start(s, p1))), pos: p1 }
        } else if t.kind == TokenKind::Star || t.kind == TokenKind::Plus || t.kind
            == TokenKind::Slash || t.kind == TokenKind::Modulo {
            let np = spec_sync(s, p1);
            PE { r: Err(p_diag(ParserErrV::MissingLhsInBinop, sl, tok_start(s, np))), pos: np }
        } else {
            let np = spec_sync(s, p1);
            PE {
                r: Err(p_diag(ParserErrV::UnknownToken(t.text), sl, tok_start(s, np))),
                pos: np,
            }
        }
    }
}

/// A parenthesized group, entered with the cursor just past `(`. An inner
/// failure at end of line or file, and a missing `)`, are both remapped to
/// `ParenNeverClosed`.
pub open spec fn spec_grouping(s: Seq<TokenV>, pos: int, sl: int) -> PE
    decreases s.len() - pos, 15int,
{
    if pos < 0 || pos > s.len() {
        PE { r: Err(p_diag(ParserErrV::UnexpectedEof, sl, sl)), pos }
    } else {
        let e = spec_expr(s, pos, sl);
        match e.r {
            Err(d) => {
                if d.err is UnexpectedEof || d.err is UnexpectedEol {
                    PE {
                        r: Err(p_diag(ParserErrV::ParenNeverClosed, sl, tok_start(s, e.pos))),
                        pos: e.pos,
                    }
                } else {
                    PE { r: Err(d), pos: e.pos }
                }
            },
            Ok(inner) => {
                let x = spec_expect(s, step_pos(s, e.pos, pos), sl, TokenKind::CloseParen);
                match x.r {
                    Ok(_) => PE {
                        r: Ok(
                            ExprV::Grouping {
                                expr: Box::new(inner),
                                start: sl,
                                end: tok_start(s, x.pos),
                            },
                        ),
                        pos: x.pos,
                    },
                    Err(_) => PE {
                        r: Err(p_diag(ParserErrV::ParenNeverClosed, sl, tok_start(s, x.pos))),
                        pos: x.pos,
                    },
                }
            },
        }
    }
}

/// Unary: a leading `!` or `-` wraps the following primary only — unary does
/// not recurse through itself.
#[verifier::opaque]
pub open spec fn spec_unary(s: Seq<TokenV>, pos: int, sl: int) -> PE
    decreases s.len() - pos, 4int,
{
    if pos < 0 || pos >= s.len() {
        PE { r: Err(p_diag(ParserErrV::UnexpectedEof, sl, sl)), pos }
    } else if s[pos].kind == TokenKind::Bang || s[pos].kind == TokenKind::Minus {
        let op = s[pos].text;
        let r = spec_primary(s, pos + 1, sl);
        match r.r {
            Ok(e) => PE {
                r: Ok(
                    ExprV::Unary {
                        operator: op,
                        right: Box::new(e),
                        start: sl,
                        end: tok_start(s, r.pos),
                    },
                ),
                pos: r.pos,
            },
            Err(d) => PE { r: Err(d), pos: r.pos },
        }
    } else {
        spec_primary(s, pos, sl)
    }
}

/// Whether the token kind belongs to the factor level's operator set.
pub open spec fn is_factor_op(k: TokenKind) -> bool {
    k == TokenKind::Star || k == TokenKind::Slash || k == TokenKind::Modulo
}

pub open spec fn is_term_op(k: TokenKind) -> bool {
    k == TokenKind::Minus || k == TokenKind::Plus
}

pub open spec fn is_comparison_op(k: TokenKind) -> bool {
    k == TokenKind::Less || k == TokenKind::LessEqual || k == TokenKind::Greater || k
        == TokenKind::GreaterEqual
}

pub open spec fn is_equality_op(k: TokenKind) -> bool {
    k == TokenKind::EqualEqual || k == TokenKind::BangEqual
}

/// The left-associative fold shared by the four binary levels: as long as an
/// operator of the level is at the cursor, parse the next-higher operand and
/// fold it into a left-leaning `Binary` node.
#[verifier::opaque]
pub open spec fn spec_factor_more(s: Seq<TokenV>, pos: int, acc: ExprV, sl: int) -> PE
    decreases s.len() - pos, 5int,
{
    if pos < 0 || pos >= s.len() {
        PE { r: Ok(acc), pos }
    } else if is_factor_op(s[pos].kind) {
        let op = s[pos].text;
        let r = spec_unary(s, pos + 1, sl);
        match r.r {
            Err(d) => PE { r: Err(d), pos: r.pos },
            Ok(right) => spec_factor_more(
                s,
                step_pos(s, r.pos, pos + 1),
                ExprV::Binary {
                    left: Box::new(acc),
                    operator: op,
                    right: Box::new(right),
                    start: sl,
                    end: tok_start(s, r.pos),
                },
                sl,
            ),
        }
    } else {
        PE { r: Ok(acc), pos }
    }
}

#[verifier::opaque]
pub open spec fn spec_factor(s: Seq<TokenV>, pos: int, sl: int) -> PE
    decreases s.len() - pos, 6int,
{
    if pos < 0 || pos >= s.len() {
        PE { r: Err(p_diag(ParserErrV::UnexpectedEof, sl, sl)), pos }
    } else {
        let u = spec_unary(s, pos, sl);
        match u.r {
            Err(_) => u,
            Ok(e) => spec_factor_more(s, step_pos(s, u.pos, pos + 1), e, sl),
        }
    }
}

#[verifier::opaque]
pub open spec fn spec_term_more(s: Seq<TokenV>, pos: int, acc: ExprV, sl: int) -> PE
    decreases s.len() - pos, 7int,
{
    if pos < 0 || pos >= s.len() {
        PE { r: Ok(acc), pos }
    } else if is_term_op(s[pos].kind) {
        let op = s[pos].text;
        let r = spec_factor(s, pos + 1, sl);
        match r.r {
            Err(d) => PE { r: Err(d), pos: r.pos },
            Ok(right) => spec_term_more(
                s,
                step_pos(s, r.pos, pos + 1),
                ExprV::Binary {
                    left: Box::new(acc),
                    operator: op,
                    right: Box::new(right),
                    start: sl,
                    end: tok_start(s, r.pos),
                },
                sl,
            ),
        }
    } else {
        PE { r: Ok(acc), pos }
    }
}

#[verifier::opaque]
pub open spec fn spec_term(s: Seq<TokenV>, pos: int, sl: int) -> PE
    decreases s.len() - pos, 8int,
{
    if pos < 0 || pos >= s.len() {
        PE { r: Err(p_diag(ParserErrV::UnexpectedEof, sl, sl)), pos }
    } else {
        let u = spec_factor(s, pos, sl);
        match u.r {
            Err(_) => u,
            Ok(e) => spec_term_more(s, step_pos(s, u.pos, pos + 1), e, sl),
        }
    }
}

#[verifier::opaque]
pub open spec fn spec_comparison_more(s: Seq<TokenV>, pos: int, acc: ExprV, sl: int) -> PE
    decreases s.len() - pos, 9int,
{
    if pos < 0 || pos >= s.len() {
        PE { r: Ok(acc), pos }
    } else if is_comparison_op(s[pos].kind) {
        let op = s[pos].text;
        let r = spec_term(s, pos + 1, sl);
        match r.r {
            Err(d) => PE { r: Err(d), pos: r.pos },
            Ok(right) => spec_comparison_more(
                s,
                step_pos(s, r.pos, pos + 1),
                ExprV::Binary {
                    left: Box::new(acc),
                    operator: op,
                    right: Box::new(right),
                    start: sl,
                    end: tok_start(s, r.pos),
                },
                sl,
            ),
        }
    } else {
        PE { r: Ok(acc), pos }
    }
}

#[verifier::opaque]
pub open spec fn spec_comparison(s: Seq<TokenV>, pos: int, sl: int) -> PE
    decreases s.len() - pos, 10int,
{
    if pos < 0 || pos >= s.len() {
        PE { r: Err(p_diag(ParserErrV::UnexpectedEof, sl, sl)), pos }
    } else {
        let u = spec_term(s, pos, sl);
        match u.r {
            Err(_) => u,
            Ok(e) => spec_comparison_more(s, step_pos(s, u.pos, pos + 1), e, sl),
        }
    }
}

#[verifier::opaque]
pub open spec fn spec_equality_more(s: Seq<TokenV>, pos: int, acc: ExprV, sl: int) -> PE
    decreases s.len() - pos, 11int,
{
    if pos < 0 || pos >= s.len() {
        PE { r: Ok(acc), pos }
    } else if is_equality_op(s[pos].kind) {
        let op = s[pos].text;
        let r = spec_comparison(s, pos + 1, sl);
        match r.r {
            Err(d) => PE { r: Err(d), pos: r.pos },
            Ok(right) => spec_equality_more(
                s,
                step_pos(s, r.pos, pos + 1),
                ExprV::Binary {
                    left: Box::new(acc),
                    operator: op,
                    right: Box::new(right),
                    start: sl,
                    end: tok_start(s, r.pos),
                },
                sl,
            ),
        }
    } else {
        PE { r: Ok(acc), pos }
    }
}

#[verifier::opaque]
pub open spec fn spec_equality(s: Seq<TokenV>, pos: int, sl: int) -> PE
    decreases s.len() - pos, 12int,
{
    if pos < 0 || pos >= s.len() {
        PE { r: Err(p_diag(ParserErrV::UnexpectedEof, sl, sl)), pos }
    } else {
        let u = spec_comparison(s, pos, sl);
        match u.r {
            Err(_) => u,
            Ok(e) => spec_equality_more(s, step_pos(s, u.pos, pos + 1), e, sl),
        }
    }
}

/// Assignment, right-associative: an equality-level expression is the
/// candidate target; a following `=` demands an `Identifier` target and
/// recurses for the value, else `InvalidAssignTarget`.
#[verifier::opaque]
pub open spec fn spec_assign(s: Seq<TokenV>, pos: int, sl: int) -> PE
    decreases s.len() - pos, 13int,
{
    if pos < 0 || pos >= s.len() {
        PE { r: Err(p_diag(ParserErrV::UnexpectedEof, sl, sl)), pos }
    } else {
        let a = spec_equality(s, pos, sl);
        match a.r {
            Err(_) => a,
            Ok(target) => {
                if 0 <= a.pos < s.len() && s[a.pos].kind == TokenKind::Equal {
                    let v = spec_assign(s, step_pos(s, a.pos + 1, pos + 1), sl);
                    match v.r {
                        Err(d) => PE { r: Err(d), pos: v.pos },
                        Ok(val) => match target {
                            ExprV::Identifier { name, .. } => PE {
                                r: Ok(
                                    ExprV::Assign {
                                        name,
                                        value: Box::new(val),
                                        start: sl,
                                        end: tok_start(s, v.pos),
                                    },
                                ),
                                pos: v.pos,
                            },
                            _ => {
                                let np = spec_sync(s, v.pos);
                                PE {
                                    r: Err(
                                        p_diag(
                                            ParserErrV::InvalidAssignTarget,
                                            sl,
                                            tok_start(s, np),
                                        ),
                                    ),
                                    pos: np,
                                }
                            },
                        },
                    }
                } else {
                    a
                }
            },
        }
    }
}

/// The expression entry point: the lowest precedence level. Opaque so that
/// the statement level reasons about a whole expression parse as one step;
/// `parse_expr` reveals it.
#[verifier::opaque]
pub open spec fn spec_expr(s: Seq<TokenV>, pos: int, sl: int) -> PE
    decreases s.len() - pos, 14int,
{
    spec_assign(s, pos, sl)
}

// ----------------------------
//  Spec: the statement grammar
// ----------------------------
pub open spec fn spec_expr_stmt(s: Seq<TokenV>, pos: int, sl: int) -> PS
    decreases s.len() - pos, 15int,
{
    let e = spec_expr(s, pos, sl);
    match e.r {
        Err(d) => PS { r: Err(d), pos: e.pos },
        Ok(expr) => PS {
            r: Ok(StmtV::Expr { expr, start: sl, end: tok_start(s, e.pos) }),
            pos: e.pos,
        },
    }
}

pub open spec fn spec_print_stmt(s: Seq<TokenV>, pos: int, sl: int) -> PS
    decreases s.len() - pos, 15int,
{
    if pos < 0 || pos >= s.len() {
        PS { r: Err(p_diag(ParserErrV::UnexpectedEof, sl, sl)), pos }
    } else {
        let x = spec_expect(s, pos, sl, TokenKind::Print);
        match x.r {
            Err(d) => PS { r: Err(d), pos: x.pos },
            Ok(_) => {
                let e = spec_expr(s, step_pos(s, x.pos, pos + 1), sl);
                match e.r {
                    Err(d) => PS { r: Err(d), pos: e.pos },
                    Ok(expr) => PS {
                        r: Ok(StmtV::Print { expr, start: sl, end: tok_start(s, e.pos) }),
                        pos: e.pos,
                    },
                }
            },
        }
    }
}

/// A block's body: declarations separated by blank lines, up to the closing
/// brace or the input's end. Each round of line-skipping moves the recorded
/// statement start.
#[verifier::opaque]
pub open spec fn spec_block_body(s: Seq<TokenV>, pos: int, sl: int) -> BB
    decreases s.len() - pos, 20int,
{
    if pos < 0 || pos >= s.len() {
        BB { r: Ok(seq![]), pos, sl }
    } else if s[pos].kind == TokenKind::CloseBrace || s[pos].kind == TokenKind::Eof {
        BB { r: Ok(seq![]), pos, sl }
    } else {
        let d = spec_declarations(s, pos, sl);
        match d.r {
            Err(e) => BB { r: Err(e), pos: d.pos, sl },
            Ok(st) => {
                let q = step_pos(s, skip_nl(s, d.pos), pos + 1);
                let sl1 = tok_start(s, q);
                let rest = spec_block_body(s, q, sl1);
                match rest.r {
                    Err(e) => BB { r: Err(e), pos: rest.pos, sl: rest.sl },
                    Ok(list) => BB { r: Ok(seq![st] + list), pos: rest.pos, sl: rest.sl },
                }
            },
        }
    }
}

/// A `{ ... }` block, entered at the opening brace. A missing closing brace
/// is `UnclosedBlock`.
pub open spec fn spec_block_stmt(s: Seq<TokenV>, pos: int, sl: int) -> PS
    decreases s.len() - pos, 16int,
{
    if pos < 0 || pos >= s.len() {
        PS { r: Err(p_diag(ParserErrV::UnexpectedEof, sl, sl)), pos }
    } else {
        let x = spec_expect(s, pos, sl, TokenKind::OpenBrace);
        match x.r {
            Err(d) => PS { r: Err(d), pos: x.pos },
            Ok(_) => {
                let q = step_pos(s, skip_nl(s, x.pos), pos + 1);
                let sl1 = tok_start(s, q);
                let b = spec_block_body(s, q, sl1);
                match b.r {
                    Err(d) => PS { r: Err(d), pos: b.pos },
                    Ok(list) => {
                        let y = spec_expect(s, step_pos(s, b.pos, pos), b.sl, TokenKind::CloseBrace);
                        match y.r {
                            Ok(_) => PS {
                                r: Ok(
                                    StmtV::Block {
                                        stmts: list,
                                        start: b.sl,
                                        end: tok_start(s, y.pos),
                                    },
                                ),
                                pos: y.pos,
                            },
                            Err(_) => {
                                let np = spec_sync(s, y.pos);
                                PS {
                                    r: Err(
                                        p_diag(ParserErrV::UnclosedBlock, b.sl, tok_start(s, np)),
                                    ),
                                    pos: np,
                                }
                            },
                        }
                    },
                }
            },
        }
    }
}

/// A `var` declaration: `var` IDENT, optionally `= expr`. Each way the shape
/// can fail carries its own error kind.
pub open spec fn spec_var_declaration(s: Seq<TokenV>, pos: int, sl: int) -> PS
    decreases s.len() - pos, 16int,
{
    if pos < 0 || pos >= s.len() {
        PS { r: Err(p_diag(ParserErrV::UnexpectedEof, sl, sl)), pos }
    } else {
        let e1 = spec_expect(s, pos, sl, TokenKind::Var);
        match e1.r {
            Err(d) => PS { r: Err(d), pos: e1.pos },
            Ok(_) => {
                let e2 = spec_expect(s, step_pos(s, e1.pos, pos), sl, TokenKind::Identifier);
                match e2.r {
                    Err(_) => {
                        let np = spec_sync(s, e2.pos);
                        PS {
                            r: Err(p_diag(ParserErrV::VarDeclNoName, sl, tok_start(s, np))),
                            pos: np,
                        }
                    },
                    Ok(name_tok) => {
                        let p2 = e2.pos;
                        if 0 <= p2 < s.len() && s[p2].kind == TokenKind::Equal {
                            let v = spec_expr(s, step_pos(s, p2 + 1, pos + 1), sl);
                            match v.r {
                                Ok(val) => PS {
                                    r: Ok(
                                        StmtV::VarDecl {
                                            name: name_tok.text,
                                            value: Some(val),
                                            start: sl,
                                            end: tok_start(s, v.pos),
                                        },
                                    ),
                                    pos: v.pos,
                                },
                                Err(d) => {
                                    let np = spec_sync(s, v.pos);
                                    if d.err is UnexpectedEol || d.err is UnexpectedEof {
                                        PS {
                                            r: Err(
                                                p_diag(
                                                    ParserErrV::NoExprAssign,
                                                    sl,
                                                    tok_start(s, np),
                                                ),
                                            ),
                                            pos: np,
                                        }
                                    } else {
                                        PS {
                                            r: Err(
                                                p_diag(
                                                    ParserErrV::IncorrectVarDeclVal(
                                                        Box::new(d.err),
                                                    ),
                                                    sl,
                                                    tok_start(s, np),
                                                ),
                                            ),
                                            pos: np,
                                        }
                                    }
                                },
                            }
                        } else if 0 <= p2 < s.len() && (s[p2].kind == TokenKind::NewLine || s[p2].kind
                            == TokenKind::Eof) {
                            PS {
                                r: Ok(
                                    StmtV::VarDecl {
                                        name: name_tok.text,
                                        value: None,
                                        start: sl,
                                        end: tok_start(s, p2),
                                    },
                                ),
                                pos: p2,
                            }
                        } else {
                            let np = spec_sync(s, p2);
                            PS {
                                r: Err(p_diag(ParserErrV::WrongRhsVarDecl, sl, tok_start(s, np))),
                                pos: np,
                            }
                        }
                    },
                }
            },
        }
    }
}

pub open spec fn spec_stmt(s: Seq<TokenV>, pos: int, sl: int) -> PS
    decreases s.len() - pos, 17int,
{
    if pos < 0 || pos >= s.len() {
        PS { r: Err(p_diag(ParserErrV::UnexpectedEof, sl, sl)), pos }
    } else if s[pos].kind == TokenKind::Print {
        spec_print_stmt(s, pos, sl)
    } else if s[pos].kind == TokenKind::OpenBrace {
        spec_block_stmt(s, pos, sl)
    } else {
        spec_expr_stmt(s, pos, sl)
    }
}

/// One declaration or statement, dispatched on the token at the cursor.
/// Opaque so that the top loop and blocks reason about a whole declaration
/// parse as one step; `parse_declarations` reveals it.
#[verifier::opaque]
pub open spec fn spec_declarations(s: Seq<TokenV>, pos: int, sl: int) -> PS
    decreases s.len() - pos, 19int,
{
    if pos < 0 || pos >= s.len() {
        PS { r: Err(p_diag(ParserErrV::UnexpectedEof, sl, sl)), pos }
    } else if s[pos].kind == TokenKind::Var {
        spec_var_declaration(s, pos, sl)
    } else {
        spec_stmt(s, pos, sl)
    }
}

/// The whole parse from `pos`: skip blank lines, parse one declaration per
/// round until `Eof`, recording each failure and resynchronizing rather than
/// aborting.
pub ghost struct PAll {
    pub stmts: Seq<StmtV>,
    pub errs: Seq<DiagV<ParserErrV>>,
}

pub open spec fn spec_parse_from(s: Seq<TokenV>, pos: int) -> PAll
    decreases s.len() - pos, 20int,
{
    if pos < 0 || pos >= s.len() {
        PAll { stmts: seq![], errs: seq![] }
    } else {
        let q = step_pos(s, skip_nl(s, pos), pos);
        if q >= s.len() || s[q].kind == TokenKind::Eof {
            PAll { stmts: seq![], errs: seq![] }
        } else {
            let sl = tok_start(s, q);
            let d = spec_declarations(s, q, sl);
            let rest = spec_parse_from(s, step_pos(s, d.pos, q + 1));
            match d.r {
                Ok(st) => PAll { stmts: seq![st] + rest.stmts, errs: rest.errs },
                Err(e) => PAll { stmts: rest.stmts, errs: seq![e] + rest.errs },
            }
        }
    }
}

/// Whatever the source, the scanner's output has the shape the parser's
/// precondition demands: non-empty, with its one `Eof` token standing last.
/// The two contracts therefore compose on every input.
pub proof fn lemma_tokenize_wf(code: Seq<char>)
    ensures
        wf_tokens(crate::lexer::spec_tokenize(code).toks),
{
    crate::lexer::lemma_lex_from_no_eof(code, 0);
    let toks = crate::lexer::spec_tokenize(code).toks;
    assert(toks[toks.len() - 1].kind == TokenKind::Eof);
    assert forall|i: int| 0 <= i < toks.len() - 1 implies (#[trigger] toks[i].kind)
        != TokenKind::Eof by {
        assert(toks[i] == crate::lexer::lex_from(code, 0).toks[i]);
    }
}

/// Multi-error aggregation: where the parse meets a failing declaration, then
/// — after resynchronizing — a second failing declaration, and then nothing
/// but the input's end, it yields exactly those two errors, in source order,
/// in one pass: the first failure ends neither the pass nor the collecting.
pub proof fn lemma_two_malformed_declarations(s: Seq<TokenV>, pos: int)
    requires
        0 <= pos < s.len(),
        ({
            let q1 = step_pos(s, skip_nl(s, pos), pos);
            let d1 = spec_declarations(s, q1, tok_start(s, q1));
            let p1 = step_pos(s, d1.pos, q1 + 1);
            let q2 = step_pos(s, skip_nl(s, p1), p1);
            let d2 = spec_declarations(s, q2, tok_start(s, q2));
            let p2 = step_pos(s, d2.pos, q2 + 1);
            &&& q1 < s.len() && s[q1].kind != TokenKind::Eof
            &&& d1.r is Err
            &&& p1 < s.len()
            &&& q2 < s.len() && s[q2].kind != TokenKind::Eof
            &&& d2.r is Err
            &&& (p2 >= s.len() || s[step_pos(s, skip_nl(s, p2), p2)].kind == TokenKind::Eof)
        }),
    ensures
        ({
            let q1 = step_pos(s, skip_nl(s, pos), pos);
            let d1 = spec_declarations(s, q1, tok_start(s, q1));
            let p1 = step_pos(s, d1.pos, q1 + 1);
            let q2 = step_pos(s, skip_nl(s, p1), p1);
            let d2 = spec_declarations(s, q2, tok_start(s, q2));
            &&& spec_parse_from(s, pos).stmts == Seq::<StmtV>::empty()
            &&& spec_parse_from(s, pos).errs == seq![d1.r->Err_0, d2.r->Err_0]
        }),
{
    reveal(spec_declarations);
    let q1 = step_pos(s, skip_nl(s, pos), pos);
    let d1 = spec_declarations(s, q1, tok_start(s, q1));
    let p1 = step_pos(s, d1.pos, q1 + 1);
    let q2 = step_pos(s, skip_nl(s, p1), p1);
    let d2 = spec_declarations(s, q2, tok_start(s, q2));
    let p2 = step_pos(s, d2.pos, q2 + 1);
    let e1 = d1.r->Err_0;
    let e2 = d2.r->Err_0;
    assert(spec_parse_from(s, p2).errs =~= Seq::<DiagV<ParserErrV>>::empty());
    assert(spec_parse_from(s, p2).stmts =~= Seq::<StmtV>::empty());
    assert(spec_parse_from(s, p1).errs =~= seq![e2]);
    assert(spec_parse_from(s, p1).stmts =~= Seq::<StmtV>::empty());
    assert(spec_parse_from(s, pos).errs =~= seq![e1, e2]);
    assert(spec_parse_from(s, pos).stmts =~= Seq::<StmtV>::empty());
}

// ----------------------
//  Executable helpers
// ----------------------
/// The views of the result pair every expression-parsing function returns.
pub open spec fn expr_res_view(r: Result<Expr, PhyResult<ParserErr>>) -> Result<
    ExprV,
    DiagV<ParserErrV>,
> {
    match r {
        Ok(e) => Ok(expr_view(&e)),
        Err(d) => Err(d@),
    }
}

pub open spec fn stmt_res_view(r: Result<Stmt, PhyResult<ParserErr>>) -> Result<
    StmtV,
    DiagV<ParserErrV>,
> {
    match r {
        Ok(st) => Ok(stmt_view(&st)),
        Err(d) => Err(d@),
    }
}

/// Skips `NewLine` tokens; lands on the first other token (at worst `Eof`).
fn p_skip_nl(s: &Vec<Token>, pos: usize) -> (r: usize)
    requires
        wf_tokens(s.deep_view()),
        pos < s@.len(),
    ensures
        r as int == skip_nl(s.deep_view(), pos as int),
        pos <= r < s@.len(),
{
    let ghost sv = s.deep_view();
    let n = s.len();
    let mut j = pos;
    while s[j].kind == TokenKind::NewLine
        invariant
            sv == s.deep_view(),
            wf_tokens(sv),
            n == s@.len(),
            pos <= j < sv.len(),
            skip_nl(sv, pos as int) == skip_nl(sv, j as int),
        decreases sv.len() - j,
    {
        proof {
            assert(sv[j as int].kind != TokenKind::Eof);
            assert(j < sv.len() - 1);
        }
        j += 1;
    }
    j
}

/// Panic-mode resynchronization, as `spec_sync` says.
fn p_synchronize(s: &Vec<Token>, pos: usize) -> (r: usize)
    requires
        wf_tokens(s.deep_view()),
        1 <= pos < s@.len(),
    ensures
        r as int == spec_sync(s.deep_view(), pos as int),
        pos <= r < s@.len(),
{
    let ghost sv = s.deep_view();
    if s[pos - 1].kind == TokenKind::NewLine {
        return pos;
    }
    let n = s.len();
    let mut j = pos;
    while s[j].kind != TokenKind::NewLine && s[j].kind != TokenKind::Eof
        invariant
            sv == s.deep_view(),
            wf_tokens(sv),
            n == s@.len(),
            pos <= j < sv.len(),
            sync_to(sv, pos as int) == sync_to(sv, j as int),
        decreases sv.len() - j,
    {
        proof {
            assert(j < sv.len() - 1);
        }
        j += 1;
    }
    j
}

/// Resynchronizes where asked, then wraps the error with the span from the
/// statement's start to the cursor's token.
fn p_trigger(s: &Vec<Token>, pos: usize, sl: usize, e: ParserErr, synchro: bool) -> (r: (
    PhyResult<ParserErr>,
    usize,
))
    requires
        wf_tokens(s.deep_view()),
        1 <= pos < s@.len(),
    ensures
        ({
            let sv = s.deep_view();
            let np = if synchro {
                spec_sync(sv, pos as int)
            } else {
                pos as int
            };
            &&& r.1 as int == np
            &&& pos <= r.1 < s@.len()
            &&& r.0@ == p_diag(e@, sl as int, tok_start(sv, np))
        }),
{
    let np = if synchro {
        p_synchronize(s, pos)
    } else {
        pos
    };
    (PhyResult::new(e, Loc::new(sl, s[np].loc.start)), np)
}

/// Demands one token of the given kind, as `spec_expect` says.
fn p_expect(s: &Vec<Token>, pos: usize, sl: usize, k: TokenKind) -> (r: (
    Result<(), PhyResult<ParserErr>>,
    usize,
))
    requires
        wf_tokens(s.deep_view()),
        pos < s@.len(),
    ensures
        ({
            let sp = spec_expect(s.deep_view(), pos as int, sl as int, k);
            &&& r.1 as int == sp.pos
            &&& pos <= r.1 < s@.len()
            &&& match r.0 {
                Ok(_) => sp.r is Ok && s.deep_view()[pos as int].kind == k && r.1 == pos + 1,
                Err(e) => sp.r == Result::<TokenV, DiagV<ParserErrV>>::Err(e@),
            }
        }),
{
    let ghost sv = s.deep_view();
    let n = s.len();
    if s[pos].kind == TokenKind::Eof {
        return (
            Err(PhyResult::new(ParserErr::UnexpectedEof, Loc::new(sl, s[pos].loc.start))),
            pos,
        );
    }
    proof {
        assert(pos < sv.len() - 1);
    }
    let np = pos + 1;
    if s[pos].kind == k {
        (Ok(()), np)
    } else {
        (
            Err(
                PhyResult::new(
                    ParserErr::UnexpextedToken(k, s[pos].kind),
                    Loc::new(sl, s[np].loc.start),
                ),
            ),
            np,
        )
    }
}

// -------------------------
//  Executable literal texts
// -------------------------
proof fn lemma_int_of_nonneg(t: Seq<char>)
    requires
        all_digits(t),
    ensures
        int_of(t) >= 0,
    decreases t.len(),
{
    if t.len() > 0 {
        assert(all_digits(t.drop_last()));
        lemma_int_of_nonneg(t.drop_last());
    }
}

/// A digit run's value only grows as digits are appended.
proof fn lemma_int_of_prefix(t: Seq<char>, i: int)
    requires
        0 <= i <= t.len(),
        all_digits(t),
    ensures
        int_of(t.take(i)) <= int_of(t),
    decreases t.len() - i,
{
    if i < t.len() {
        assert(t.take(i + 1).drop_last() =~= t.take(i));
        assert(t.take(i + 1).last() == t[i]);
        assert(all_digits(t.take(i)));
        lemma_int_of_nonneg(t.take(i));
        lemma_int_of_prefix(t, i + 1);
    } else {
        assert(t.take(i) =~= t);
    }
}

/// The value of an `Int` token's text, where the text is a digit run whose
/// value fits an `i64`; `None` exactly otherwise.
fn parse_int_value(text: &String) -> (r: Option<i64>)
    ensures
        match r {
            Some(v) => is_int_text(text@) && int_of(text@) <= i64::MAX as int && v as int == int_of(
                text@,
            ),
            None => !(is_int_text(text@) && int_of(text@) <= i64::MAX as int),
        },
{
    let st = text.as_str();
    let n = st.unicode_len();
    if n == 0 {
        return None;
    }
    let mut acc: i64 = 0;
    let mut i: usize = 0;
    while i < n
        invariant
            st@ == text@,
            n == text@.len(),
            i <= n,
            all_digits(text@.take(i as int)),
            acc as int == int_of(text@.take(i as int)),
            0 <= acc,
        decreases n - i,
    {
        let c = st.get_char(i);
        let cv = c as u32;
        if cv < 48 || cv > 57 {
            proof {
                assert(!is_ascii_digit(text@[i as int]));
            }
            return None;
        }
        let d = (cv - 48) as i64;
        proof {
            assert(text@.take(i + 1).drop_last() =~= text@.take(i as int));
            assert(text@.take(i + 1).last() == text@[i as int]);
            assert(d as int == digit_val(text@[i as int]));
        }
        let m = match acc.checked_mul(10) {
            Some(x) => x,
            None => {
                proof {
                    assert(int_of(text@.take(i + 1)) > i64::MAX as int);
                    if all_digits(text@) {
                        lemma_int_of_prefix(text@, i + 1);
                    }
                }
                return None;
            },
        };
        let a2 = match m.checked_add(d) {
            Some(x) => x,
            None => {
                proof {
                    assert(int_of(text@.take(i + 1)) > i64::MAX as int);
                    if all_digits(text@) {
                        lemma_int_of_prefix(text@, i + 1);
                    }
                }
                return None;
            },
        };
        acc = a2;
        proof {
            assert(all_digits(text@.take(i + 1)));
        }
        i += 1;
    }
    proof {
        assert(text@.take(n as int) =~= text@);
    }
    Some(acc)
}

/// First index at or after `from` that ends a run of decimal digits.
fn ascii_digits_end_exec(st: &str, from: usize) -> (j: usize)
    requires
        from <= st@.len(),
    ensures
        from <= j <= st@.len(),
        j as int == ascii_digits_end(st@, from as int),
{
    let n = st.unicode_len();
    let mut j = from;
    while j < n
        invariant
            n == st@.len(),
            from <= j <= n,
            ascii_digits_end(st@, from as int) == ascii_digits_end(st@, j as int),
        decreases n - j,
    {
        let cv = st.get_char(j) as u32;
        if cv < 48 || cv > 57 {
            proof {
                assert(!is_ascii_digit(st@[j as int]));
            }
            return j;
        }
        j += 1;
    }
    j
}

/// Whether a `Real` token's text has the shape a real literal demands.
fn parse_real_check(text: &String) -> (r: bool)
    ensures
        r == is_real_text(text@),
{
    let st = text.as_str();
    let n = st.unicode_len();
    let d = ascii_digits_end_exec(st, 0);
    if d == 0 {
        false
    } else if d == n {
        true
    } else if st.get_char(d) == '.' {
        let e = ascii_digits_end_exec(st, d + 1);
        e == n
    } else {
        false
    }
}

/// The view keeps each error's variant; in particular an error is an
/// end-of-line or end-of-file error exactly when its view is.
proof fn lemma_err_view_variants(e: &ParserErr)
    ensures
        (parser_err_view(e) is UnexpectedEof) == (e is UnexpectedEof),
        (parser_err_view(e) is UnexpectedEol) == (e is UnexpectedEol),
{
    match e {
        ParserErr::UnexpectedEol => {},
        ParserErr::MissingLhsInBinop => {},
        ParserErr::UnknownToken(_) => {},
        ParserErr::ParsingInt => {},
        ParserErr::ParsingReal => {},
        ParserErr::ParenNeverClosed => {},
        ParserErr::VarDeclNoName => {},
        ParserErr::IncorrectVarDeclVal(_) => {},
        ParserErr::WrongRhsVarDecl => {},
        ParserErr::NoExprAssign => {},
        ParserErr::InvalidAssignTarget => {},
        ParserErr::UnclosedBlock => {},
        ParserErr::UnexpectedEof => {},
        ParserErr::UnexpextedToken(_, _) => {},
    }
}

// ----------------------------------
//  Executable expression grammar
// ----------------------------------
fn parse_int_literal(s: &Vec<Token>, pos: usize, sl: usize) -> (r: (
    Result<Expr, PhyResult<ParserErr>>,
    usize,
))
    requires
        wf_tokens(s.deep_view()),
        pos + 1 < s@.len(),
        s.deep_view()[pos as int].kind == TokenKind::Int,
    ensures
        ({
            let sp = spec_primary(s.deep_view(), pos as int, sl as int);
            &&& expr_res_view(r.0) == sp.r
            &&& r.1 as int == sp.pos
            &&& r.1 == pos + 1
        }),
{
    proof {
        reveal(spec_primary);
    }
    let n = s.len();
    let np = pos + 1;
    let loc = Loc::new(sl, s[np].loc.start);
    match parse_int_value(&s[pos].value) {
        Some(v) => (Ok(Expr::IntLiteral(IntLiteralExpr { value: v, loc })), np),
        None => (Err(PhyResult::new(ParserErr::ParsingInt, loc)), np),
    }
}

fn parse_real_literal(s: &Vec<Token>, pos: usize, sl: usize) -> (r: (
    Result<Expr, PhyResult<ParserErr>>,
    usize,
))
    requires
        wf_tokens(s.deep_view()),
        pos + 1 < s@.len(),
        s.deep_view()[pos as int].kind == TokenKind::Real,
    ensures
        ({
            let sp = spec_primary(s.deep_view(), pos as int, sl as int);
            &&& expr_res_view(r.0) == sp.r
            &&& r.1 as int == sp.pos
            &&& r.1 == pos + 1
        }),
{
    proof {
        reveal(spec_primary);
    }
    let n = s.len();
    let np = pos + 1;
    let loc = Loc::new(sl, s[np].loc.start);
    if parse_real_check(&s[pos].value) {
        let value = s[pos].value.clone();
        (Ok(Expr::RealLiteral(RealLiteralExpr { value, loc })), np)
    } else {
        (Err(PhyResult::new(ParserErr::ParsingReal, loc)), np)
    }
}

fn parse_str_literal(s: &Vec<Token>, pos: usize, sl: usize) -> (r: (
    Result<Expr, PhyResult<ParserErr>>,
    usize,
))
    requires
        wf_tokens(s.deep_view()),
        pos + 1 < s@.len(),
        s.deep_view()[pos as int].kind == TokenKind::String,
    ensures
        ({
            let sp = spec_primary(s.deep_view(), pos as int, sl as int);
            &&& expr_res_view(r.0) == sp.r
            &&& r.1 as int == sp.pos
            &&& r.1 == pos + 1
        }),
{
    proof {
        reveal(spec_primary);
    }
    let n = s.len();
    let np = pos + 1;
    let value = s[pos].value.clone();
    (Ok(Expr::StrLiteral(StrLiteralExpr { value, loc: Loc::new(sl, s[np].loc.start) })), np)
}

#[verifier::rlimit(100)]
fn parse_primary(s: &Vec<Token>, pos: usize, sl: usize) -> (r: (
    Result<Expr, PhyResult<ParserErr>>,
    usize,
))
    requires
        wf_tokens(s.deep_view()),
        pos < s@.len(),
    ensures
        ({
            let sp = spec_primary(s.deep_view(), pos as int, sl as int);
            &&& expr_res_view(r.0) == sp.r
            &&& r.1 as int == sp.pos
            &&& pos <= r.1 < s@.len()
            &&& (r.0 is Ok ==> r.1 > pos)
            &&& (s.deep_view()[pos as int].kind != TokenKind::Eof ==> r.1 > pos)
        }),
    decreases s@.len() - pos, 3int,
{
    proof {
        reveal(spec_primary);
    }
    let ghost sv = s.deep_view();
    let n = s.len();
    let k = s[pos].kind;
    if k == TokenKind::Eof {
        return (
            Err(PhyResult::new(ParserErr::UnexpectedEof, Loc::new(sl, s[pos].loc.start))),
            pos,
        );
    }
    proof {
        assert(pos < sv.len() - 1);
    }
    let np = pos + 1;
    match k {
        TokenKind::Identifier | TokenKind::True | TokenKind::False | TokenKind::Null => {
            let name = s[pos].value.clone();
            (
                Ok(Expr::Identifier(IdentifierExpr { name, loc: Loc::new(sl, s[np].loc.start) })),
                np,
            )
        },
        TokenKind::Int => parse_int_literal(s, pos, sl),
        TokenKind::Real => parse_real_literal(s, pos, sl),
        TokenKind::String => parse_str_literal(s, pos, sl),
        TokenKind::OpenParen => parse_grouping(s, np, sl),
        TokenKind::NewLine => (
            Err(PhyResult::new(ParserErr::UnexpectedEol, Loc::new(sl, s[np].loc.start))),
            np,
        ),
        TokenKind::Star | TokenKind::Plus | TokenKind::Slash | TokenKind::Modulo => {
            let (e, p2) = p_trigger(s, np, sl, ParserErr::MissingLhsInBinop, true);
            (Err(e), p2)
        },
        _ => {
            let tx = s[pos].value.clone();
            let (e, p2) = p_trigger(s, np, sl, ParserErr::UnknownToken(tx), true);
            (Err(e), p2)
        },
    }
}

#[verifier::rlimit(100)]
fn parse_grouping(s: &Vec<Token>, pos: usize, sl: usize) -> (r: (
    Result<Expr, PhyResult<ParserErr>>,
    usize,
))
    requires
        wf_tokens(s.deep_view()),
        pos < s@.len(),
    ensures
        ({
            let sp = spec_grouping(s.deep_view(), pos as int, sl as int);
            &&& expr_res_view(r.0) == sp.r
            &&& r.1 as int == sp.pos
            &&& pos <= r.1 < s@.len()
        }),
    decreases s@.len() - pos, 15int,
{
    proof {
        reveal(spec_expr);
    }
    let (e, p1) = parse_expr(s, pos, sl);
    match e {
        Err(d) => {
            let remap = match &d.err {
                ParserErr::UnexpectedEof | ParserErr::UnexpectedEol => true,
                _ => false,
            };
            proof {
                lemma_err_view_variants(&d.err);
            }
            if remap {
                (
                    Err(
                        PhyResult::new(ParserErr::ParenNeverClosed, Loc::new(sl, s[p1].loc.start)),
                    ),
                    p1,
                )
            } else {
                (Err(d), p1)
            }
        },
        Ok(inner) => {
            let (x, p2) = p_expect(s, p1, sl, TokenKind::CloseParen);
            match x {
                Ok(_) => (
                    Ok(
                        Expr::Grouping(
                            GroupingExpr {
                                expr: Box::new(inner),
                                loc: Loc::new(sl, s[p2].loc.start),
                            },
                        ),
                    ),
                    p2,
                ),
                Err(_) => (
                    Err(
                        PhyResult::new(ParserErr::ParenNeverClosed, Loc::new(sl, s[p2].loc.start)),
                    ),
                    p2,
                ),
            }
        },
    }
}

#[verifier::rlimit(100)]
fn parse_unary(s: &Vec<Token>, pos: usize, sl: usize) -> (r: (
    Result<Expr, PhyResult<ParserErr>>,
    usize,
))
    requires
        wf_tokens(s.deep_view()),
        pos < s@.len(),
    ensures
        ({
            let sp = spec_unary(s.deep_view(), pos as int, sl as int);
            &&& expr_res_view(r.0) == sp.r
            &&& r.1 as int == sp.pos
            &&& pos <= r.1 < s@.len()
            &&& (r.0 is Ok ==> r.1 > pos)
            &&& (s.deep_view()[pos as int].kind != TokenKind::Eof ==> r.1 > pos)
        }),
    decreases s@.len() - pos, 4int,
{
    proof {
        reveal(spec_unary);
        reveal(spec_primary);
    }
    let ghost sv = s.deep_view();
    let n = s.len();
    let k = s[pos].kind;
    if k == TokenKind::Bang || k == TokenKind::Minus {
        proof {
            assert(pos < sv.len() - 1);
        }
        let op = s[pos].value.clone();
        let (rr, p2) = parse_primary(s, pos + 1, sl);
        match rr {
            Ok(e) => (
                Ok(
                    Expr::Unary(
                        UnaryExpr {
                            operator: op,
                            right: Box::new(e),
                            loc: Loc::new(sl, s[p2].loc.start),
                        },
                    ),
                ),
                p2,
            ),
            Err(d) => (Err(d), p2),
        }
    } else {
        parse_primary(s, pos, sl)
    }
}

#[verifier::rlimit(100)]
fn parse_factor_more(s: &Vec<Token>, pos: usize, acc: Expr, sl: usize) -> (r: (
    Result<Expr, PhyResult<ParserErr>>,
    usize,
))
    requires
        wf_tokens(s.deep_view()),
        pos < s@.len(),
    ensures
        ({
            let sp = spec_factor_more(s.deep_view(), pos as int, expr_view(&acc), sl as int);
            &&& expr_res_view(r.0) == sp.r
            &&& r.1 as int == sp.pos
            &&& pos <= r.1 < s@.len()
        }),
    decreases s@.len() - pos, 5int,
{
    proof {
        reveal(spec_factor_more);
        reveal(spec_unary);
    }
    let ghost sv = s.deep_view();
    let n = s.len();
    let k = s[pos].kind;
    if k == TokenKind::Star || k == TokenKind::Slash || k == TokenKind::Modulo {
        proof {
            assert(pos < sv.len() - 1);
        }
        let op = s[pos].value.clone();
        let (rr, p2) = parse_unary(s, pos + 1, sl);
        match rr {
            Err(d) => (Err(d), p2),
            Ok(right) => {
                let b = Expr::Binary(
                    BinaryExpr {
                        left: Box::new(acc),
                        operator: op,
                        right: Box::new(right),
                        loc: Loc::new(sl, s[p2].loc.start),
                    },
                );
                parse_factor_more(s, p2, b, sl)
            },
        }
    } else {
        (Ok(acc), pos)
    }
}

#[verifier::rlimit(100)]
fn parse_factor(s: &Vec<Token>, pos: usize, sl: usize) -> (r: (
    Result<Expr, PhyResult<ParserErr>>,
    usize,
))
    requires
        wf_tokens(s.deep_view()),
        pos < s@.len(),
    ensures
        ({
            let sp = spec_factor(s.deep_view(), pos as int, sl as int);
            &&& expr_res_view(r.0) == sp.r
            &&& r.1 as int == sp.pos
            &&& pos <= r.1 < s@.len()
            &&& (r.0 is Ok ==> r.1 > pos)
            &&& (s.deep_view()[pos as int].kind != TokenKind::Eof ==> r.1 > pos)
        }),
    decreases s@.len() - pos, 6int,
{
    proof {
        reveal(spec_factor);
        reveal(spec_unary);
        reveal(spec_factor_more);
    }
    let (u, p1) = parse_unary(s, pos, sl);
    match u {
        Err(_) => (u, p1),
        Ok(e) => parse_factor_more(s, p1, e, sl),
    }
}

#[verifier::rlimit(100)]
fn parse_term_more(s: &Vec<Token>, pos: usize, acc: Expr, sl: usize) -> (r: (
    Result<Expr, PhyResult<ParserErr>>,
    usize,
))
    requires
        wf_tokens(s.deep_view()),
        pos < s@.len(),
    ensures
        ({
            let sp = spec_term_more(s.deep_view(), pos as int, expr_view(&acc), sl as int);
            &&& expr_res_view(r.0) == sp.r
            &&& r.1 as int == sp.pos
            &&& pos <= r.1 < s@.len()
        }),
    decreases s@.len() - pos, 7int,
{
    proof {
        reveal(spec_term_more);
        reveal(spec_factor);
    }
    let ghost sv = s.deep_view();
    let n = s.len();
    let k = s[pos].kind;
    if k == TokenKind::Minus || k == TokenKind::Plus {
        proof {
            assert(pos < sv.len() - 1);
        }
        let op = s[pos].value.clone();
        let (rr, p2) = parse_factor(s, pos + 1, sl);
        match rr {
            Err(d) => (Err(d), p2),
            Ok(right) => {
                let b = Expr::Binary(
                    BinaryExpr {
                        left: Box::new(acc),
                        operator: op,
                        right: Box::new(right),
                        loc: Loc::new(sl, s[p2].loc.start),
                    },
                );
                parse_term_more(s, p2, b, sl)
            },
        }
    } else {
        (Ok(acc), pos)
    }
}

#[verifier::rlimit(100)]
fn parse_term(s: &Vec<Token>, pos: usize, sl: usize) -> (r: (
    Result<Expr, PhyResult<ParserErr>>,
    usize,
))
    requires
        wf_tokens(s.deep_view()),
        pos < s@.len(),
    ensures
        ({
            let sp = spec_term(s.deep_view(), pos as int, sl as int);
            &&& expr_res_view(r.0) == sp.r
            &&& r.1 as int == sp.pos
            &&& pos <= r.1 < s@.len()
            &&& (r.0 is Ok ==> r.1 > pos)
            &&& (s.deep_view()[pos as int].kind != TokenKind::Eof ==> r.1 > pos)
        }),
    decreases s@.len() - pos, 8int,
{
    proof {
        reveal(spec_term);
        reveal(spec_factor);
        reveal(spec_term_more);
    }
    let (u, p1) = parse_factor(s, pos, sl);
    match u {
        Err(_) => (u, p1),
        Ok(e) => parse_term_more(s, p1, e, sl),
    }
}

#[verifier::rlimit(100)]
fn parse_comparison_more(s: &Vec<Token>, pos: usize, acc: Expr, sl: usize) -> (r: (
    Result<Expr, PhyResult<ParserErr>>,
    usize,
))
    requires
        wf_tokens(s.deep_view()),
        pos < s@.len(),
    ensures
        ({
            let sp = spec_comparison_more(s.deep_view(), pos as int, expr_view(&acc), sl as int);
            &&& expr_res_view(r.0) == sp.r
            &&& r.1 as int == sp.pos
            &&& pos <= r.1 < s@.len()
        }),
    decreases s@.len() - pos, 9int,
{
    proof {
        reveal(spec_comparison_more);
        reveal(spec_term);
    }
    let ghost sv = s.deep_view();
    let n = s.len();
    let k = s[pos].kind;
    if k == TokenKind::Less || k == TokenKind::LessEqual || k == TokenKind::Greater || k
        == TokenKind::GreaterEqual {
        proof {
            assert(pos < sv.len() - 1);
        }
        let op = s[pos].value.clone();
        let (rr, p2) = parse_term(s, pos + 1, sl);
        match rr {
            Err(d) => (Err(d), p2),
            Ok(right) => {
                let b = Expr::Binary(
                    BinaryExpr {
                        left: Box::new(acc),
                        operator: op,
                        right: Box::new(right),
                        loc: Loc::new(sl, s[p2].loc.start),
                    },
                );
                parse_comparison_more(s, p2, b, sl)
            },
        }
    } else {
        (Ok(acc), pos)
    }
}

#[verifier::rlimit(100)]
fn parse_comparison(s: &Vec<Token>, pos: usize, sl: usize) -> (r: (
    Result<Expr, PhyResult<ParserErr>>,
    usize,
))
    requires
        wf_tokens(s.deep_view()),
        pos < s@.len(),
    ensures
        ({
            let sp = spec_comparison(s.deep_view(), pos as int, sl as int);
            &&& expr_res_view(r.0) == sp.r
            &&& r.1 as int == sp.pos
            &&& pos <= r.1 < s@.len()
            &&& (r.0 is Ok ==> r.1 > pos)
            &&& (s.deep_view()[pos as int].kind != TokenKind::Eof ==> r.1 > pos)
        }),
    decreases s@.len() - pos, 10int,
{
    proof {
        reveal(spec_comparison);
        reveal(spec_term);
        reveal(spec_comparison_more);
    }
    let (u, p1) = parse_term(s, pos, sl);
    match u {
        Err(_) => (u, p1),
        Ok(e) => parse_comparison_more(s, p1, e, sl),
    }
}

#[verifier::rlimit(100)]
fn parse_equality_more(s: &Vec<Token>, pos: usize, acc: Expr, sl: usize) -> (r: (
    Result<Expr, PhyResult<ParserErr>>,
    usize,
))
    requires
        wf_tokens(s.deep_view()),
        pos < s@.len(),
    ensures
        ({
            let sp = spec_equality_more(s.deep_view(), pos as int, expr_view(&acc), sl as int);
            &&& expr_res_view(r.0) == sp.r
            &&& r.1 as int == sp.pos
            &&& pos <= r.1 < s@.len()
        }),
    decreases s@.len() - pos, 11int,
{
    proof {
        reveal(spec_equality_more);
        reveal(spec_comparison);
    }
    let ghost sv = s.deep_view();
    let n = s.len();
    let k = s[pos].kind;
    if k == TokenKind::EqualEqual || k == TokenKind::BangEqual {
        proof {
            assert(pos < sv.len() - 1);
        }
        let op = s[pos].value.clone();
        let (rr, p2) = parse_comparison(s, pos + 1, sl);
        match rr {
            Err(d) => (Err(d), p2),
            Ok(right) => {
                let b = Expr::Binary(
                    BinaryExpr {
                        left: Box::new(acc),
                        operator: op,
                        right: Box::new(right),
                        loc: Loc::new(sl, s[p2].loc.start),
                    },
                );
                parse_equality_more(s, p2, b, sl)
            },
        }
    } else {
        (Ok(acc), pos)
    }
}

#[verifier::rlimit(100)]
fn parse_equality(s: &Vec<Token>, pos: usize, sl: usize) -> (r: (
    Result<Expr, PhyResult<ParserErr>>,
    usize,
))
    requires
        wf_tokens(s.deep_view()),
        pos < s@.len(),
    ensures
        ({
            let sp = spec_equality(s.deep_view(), pos as int, sl as int);
            &&& expr_res_view(r.0) == sp.r
            &&& r.1 as int == sp.pos
            &&& pos <= r.1 < s@.len()
            &&& (r.0 is Ok ==> r.1 > pos)
            &&& (s.deep_view()[pos as int].kind != TokenKind::Eof ==> r.1 > pos)
        }),
    decreases s@.len() - pos, 12int,
{
    proof {
        reveal(spec_equality);
        reveal(spec_comparison);
        reveal(spec_equality_more);
    }
    let (u, p1) = parse_comparison(s, pos, sl);
    match u {
        Err(_) => (u, p1),
        Ok(e) => parse_equality_more(s, p1, e, sl),
    }
}

#[verifier::rlimit(100)]
#[verifier::spinoff_prover]
fn parse_assign(s: &Vec<Token>, pos: usize, sl: usize) -> (r: (
    Result<Expr, PhyResult<ParserErr>>,
    usize,
))
    requires
        wf_tokens(s.deep_view()),
        pos < s@.len(),
    ensures
        ({
            let sp = spec_assign(s.deep_view(), pos as int, sl as int);
            &&& expr_res_view(r.0) == sp.r
            &&& r.1 as int == sp.pos
            &&& pos <= r.1 < s@.len()
            &&& (r.0 is Ok ==> r.1 > pos)
            &&& (s.deep_view()[pos as int].kind != TokenKind::Eof ==> r.1 > pos)
        }),
    decreases s@.len() - pos, 13int,
{
    proof {
        reveal(spec_assign);
        reveal(spec_equality);
    }
    let ghost sv = s.deep_view();
    let n = s.len();
    let (a, p1) = parse_equality(s, pos, sl);
    match a {
        Err(_) => (a, p1),
        Ok(target) => {
            if s[p1].kind == TokenKind::Equal {
                proof {
                    assert(p1 < sv.len() - 1);
                }
                let (v, p2) = parse_assign(s, p1 + 1, sl);
                match v {
                    Err(d) => (Err(d), p2),
                    Ok(val) => {
                        match target {
                            Expr::Identifier(ie) => (
                                Ok(
                                    Expr::Assign(
                                        AssignExpr {
                                            name: ie.name,
                                            value: Box::new(val),
                                            loc: Loc::new(sl, s[p2].loc.start),
                                        },
                                    ),
                                ),
                                p2,
                            ),
                            _ => {
                                let (e, p3) = p_trigger(
                                    s,
                                    p2,
                                    sl,
                                    ParserErr::InvalidAssignTarget,
                                    true,
                                );
                                (Err(e), p3)
                            },
                        }
                    },
                }
            } else {
                (Ok(target), p1)
            }
        },
    }
}

#[verifier::rlimit(100)]
fn parse_expr(s: &Vec<Token>, pos: usize, sl: usize) -> (r: (
    Result<Expr, PhyResult<ParserErr>>,
    usize,
))
    requires
        wf_tokens(s.deep_view()),
        pos < s@.len(),
    ensures
        ({
            let sp = spec_expr(s.deep_view(), pos as int, sl as int);
            &&& expr_res_view(r.0) == sp.r
            &&& r.1 as int == sp.pos
            &&& pos <= r.1 < s@.len()
            &&& (r.0 is Ok ==> r.1 > pos)
            &&& (s.deep_view()[pos as int].kind != TokenKind::Eof ==> r.1 > pos)
        }),
    decreases s@.len() - pos, 14int,
{
    proof {
        reveal(spec_expr);
        reveal(spec_assign);
    }
    parse_assign(s, pos, sl)
}

// ----------------------------------
//  Executable statement grammar
// ----------------------------------
#[verifier::rlimit(100)]
fn parse_expr_stmt(s: &Vec<Token>, pos: usize, sl: usize) -> (r: (
    Result<Stmt, PhyResult<ParserErr>>,
    usize,
))
    requires
        wf_tokens(s.deep_view()),
        pos < s@.len(),
    ensures
        ({
            let sp = spec_expr_stmt(s.deep_view(), pos as int, sl as int);
            &&& stmt_res_view(r.0) == sp.r
            &&& r.1 as int == sp.pos
            &&& pos <= r.1 < s@.len()
            &&& (s.deep_view()[pos as int].kind != TokenKind::Eof ==> r.1 > pos)
        }),
    decreases s@.len() - pos, 15int,
{
    proof {
        reveal(spec_expr);
    }
    let (e, p1) = parse_expr(s, pos, sl);
    match e {
        Err(d) => (Err(d), p1),
        Ok(expr) => (Ok(Stmt::Expr(ExprStmt { expr, loc: Loc::new(sl, s[p1].loc.start) })), p1),
    }
}

#[verifier::rlimit(100)]
fn parse_print_stmt(s: &Vec<Token>, pos: usize, sl: usize) -> (r: (
    Result<Stmt, PhyResult<ParserErr>>,
    usize,
))
    requires
        wf_tokens(s.deep_view()),
        pos < s@.len(),
    ensures
        ({
            let sp = spec_print_stmt(s.deep_view(), pos as int, sl as int);
            &&& stmt_res_view(r.0) == sp.r
            &&& r.1 as int == sp.pos
            &&& pos <= r.1 < s@.len()
            &&& (s.deep_view()[pos as int].kind != TokenKind::Eof ==> r.1 > pos)
        }),
    decreases s@.len() - pos, 15int,
{
    proof {
        reveal(spec_expr);
    }
    let (x, p1) = p_expect(s, pos, sl, TokenKind::Print);
    match x {
        Err(d) => (Err(d), p1),
        Ok(_) => {
            let (e, p2) = parse_expr(s, p1, sl);
            match e {
                Err(d) => (Err(d), p2),
                Ok(expr) => (
                    Ok(Stmt::Print(PrintStmt { expr, loc: Loc::new(sl, s[p2].loc.start) })),
                    p2,
                ),
            }
        },
    }
}

#[verifier::rlimit(100)]
#[verifier::spinoff_prover]
fn parse_var_declaration(s: &Vec<Token>, pos: usize, sl: usize) -> (r: (
    Result<Stmt, PhyResult<ParserErr>>,
    usize,
))
    requires
        wf_tokens(s.deep_view()),
        pos < s@.len(),
    ensures
        ({
            let sp = spec_var_declaration(s.deep_view(), pos as int, sl as int);
            &&& stmt_res_view(r.0) == sp.r
            &&& r.1 as int == sp.pos
            &&& pos <= r.1 < s@.len()
            &&& (s.deep_view()[pos as int].kind != TokenKind::Eof ==> r.1 > pos)
        }),
    decreases s@.len() - pos, 16int,
{
    proof {
        reveal(spec_expr);
    }
    let ghost sv = s.deep_view();
    let n = s.len();
    let (e1, p1) = p_expect(s, pos, sl, TokenKind::Var);
    match e1 {
        Err(d) => {
            return (Err(d), p1);
        },
        Ok(_) => {},
    }
    let (e2, p2) = p_expect(s, p1, sl, TokenKind::Identifier);
    match e2 {
        Err(_) => {
            let (e, p3) = p_trigger(s, p2, sl, ParserErr::VarDeclNoName, true);
            return (Err(e), p3);
        },
        Ok(_) => {},
    }
    let name = s[p1].value.clone();
    let k2 = s[p2].kind;
    if k2 == TokenKind::Equal {
        proof {
            assert(p2 < sv.len() - 1);
        }
        let (v, p3) = parse_expr(s, p2 + 1, sl);
        match v {
            Ok(val) => (
                Ok(
                    Stmt::VarDecl(
                        VarDeclStmt {
                            name,
                            value: Some(val),
                            loc: Loc::new(sl, s[p3].loc.start),
                        },
                    ),
                ),
                p3,
            ),
            Err(d) => {
                let iseol = match &d.err {
                    ParserErr::UnexpectedEol | ParserErr::UnexpectedEof => true,
                    _ => false,
                };
                proof {
                    lemma_err_view_variants(&d.err);
                }
                if iseol {
                    let (e, p4) = p_trigger(s, p3, sl, ParserErr::NoExprAssign, true);
                    (Err(e), p4)
                } else {
                    let (e, p4) = p_trigger(
                        s,
                        p3,
                        sl,
                        ParserErr::IncorrectVarDeclVal(Box::new(d.err)),
                        true,
                    );
                    (Err(e), p4)
                }
            },
        }
    } else if k2 == TokenKind::NewLine || k2 == TokenKind::Eof {
        (Ok(Stmt::VarDecl(VarDeclStmt { name, value: None, loc: Loc::new(sl, s[p2].loc.start) })), p2)
    } else {
        let (e, p3) = p_trigger(s, p2, sl, ParserErr::WrongRhsVarDecl, true);
        (Err(e), p3)
    }
}

/// A block's body, gathered as `spec_block_body` says; the third component is
/// the statement-start offset last recorded while skipping blank lines.
#[verifier::rlimit(100)]
fn parse_block_body(s: &Vec<Token>, pos: usize, sl: usize) -> (r: (
    Result<Vec<Stmt>, PhyResult<ParserErr>>,
    usize,
    usize,
))
    requires
        wf_tokens(s.deep_view()),
        pos < s@.len(),
    ensures
        ({
            let bb = spec_block_body(s.deep_view(), pos as int, sl as int);
            &&& match r.0 {
                Ok(list) => bb.r == Result::<Seq<StmtV>, DiagV<ParserErrV>>::Ok(list.deep_view()),
                Err(e) => bb.r == Result::<Seq<StmtV>, DiagV<ParserErrV>>::Err(e@),
            }
            &&& r.1 as int == bb.pos
            &&& r.2 as int == bb.sl
            &&& pos <= r.1 < s@.len()
        }),
    decreases s@.len() - pos, 20int,
{
    proof {
        reveal(spec_block_body);
        reveal(spec_declarations);
    }
    let ghost sv = s.deep_view();
    let k = s[pos].kind;
    if k == TokenKind::CloseBrace || k == TokenKind::Eof {
        let out: Vec<Stmt> = Vec::new();
        proof {
            assert(out.deep_view() =~= Seq::<StmtV>::empty());
        }
        return (Ok(out), pos, sl);
    }
    let (d, p1) = parse_declarations(s, pos, sl);
    match d {
        Err(e) => (Err(e), p1, sl),
        Ok(st) => {
            let q = p_skip_nl(s, p1);
            let sl1 = s[q].loc.start;
            let (rest, p2, sl2) = parse_block_body(s, q, sl1);
            match rest {
                Err(e) => (Err(e), p2, sl2),
                Ok(list) => {
                    let ghost oldlist = list.deep_view();
                    let mut list = list;
                    list.insert(0, st);
                    proof {
                        assert(list.deep_view() =~= seq![stmt_view(&st)] + oldlist);
                    }
                    (Ok(list), p2, sl2)
                },
            }
        },
    }
}

#[verifier::rlimit(100)]
fn parse_block_stmt(s: &Vec<Token>, pos: usize, sl: usize) -> (r: (
    Result<Stmt, PhyResult<ParserErr>>,
    usize,
))
    requires
        wf_tokens(s.deep_view()),
        pos < s@.len(),
    ensures
        ({
            let sp = spec_block_stmt(s.deep_view(), pos as int, sl as int);
            &&& stmt_res_view(r.0) == sp.r
            &&& r.1 as int == sp.pos
            &&& pos <= r.1 < s@.len()
            &&& (s.deep_view()[pos as int].kind != TokenKind::Eof ==> r.1 > pos)
        }),
    decreases s@.len() - pos, 17int,
{
    proof {
        reveal(spec_block_body);
    }
    let (x, p1) = p_expect(s, pos, sl, TokenKind::OpenBrace);
    match x {
        Err(d) => {
            return (Err(d), p1);
        },
        Ok(_) => {},
    }
    let q = p_skip_nl(s, p1);
    let sl1 = s[q].loc.start;
    let (b, p2, sl2) = parse_block_body(s, q, sl1);
    match b {
        Err(d) => (Err(d), p2),
        Ok(list) => {
            proof {
                crate::stmt::lemma_stmts_view(list@);
                assert(crate::stmt::stmts_view(list@) =~= list.deep_view());
            }
            let (y, p3) = p_expect(s, p2, sl2, TokenKind::CloseBrace);
            match y {
                Ok(_) => (
                    Ok(
                        Stmt::Block(
                            BlockStmt { stmts: list, loc: Loc::new(sl2, s[p3].loc.start) },
                        ),
                    ),
                    p3,
                ),
                Err(_) => {
                    let (e, p4) = p_trigger(s, p3, sl2, ParserErr::UnclosedBlock, true);
                    (Err(e), p4)
                },
            }
        },
    }
}

#[verifier::rlimit(100)]
fn parse_stmt(s: &Vec<Token>, pos: usize, sl: usize) -> (r: (
    Result<Stmt, PhyResult<ParserErr>>,
    usize,
))
    requires
        wf_tokens(s.deep_view()),
        pos < s@.len(),
    ensures
        ({
            let sp = spec_stmt(s.deep_view(), pos as int, sl as int);
            &&& stmt_res_view(r.0) == sp.r
            &&& r.1 as int == sp.pos
            &&& pos <= r.1 < s@.len()
            &&& (s.deep_view()[pos as int].kind != TokenKind::Eof ==> r.1 > pos)
        }),
    decreases s@.len() - pos, 18int,
{
    let k = s[pos].kind;
    if k == TokenKind::Print {
        parse_print_stmt(s, pos, sl)
    } else if k == TokenKind::OpenBrace {
        parse_block_stmt(s, pos, sl)
    } else {
        parse_expr_stmt(s, pos, sl)
    }
}

#[verifier::rlimit(100)]
fn parse_declarations(s: &Vec<Token>, pos: usize, sl: usize) -> (r: (
    Result<Stmt, PhyResult<ParserErr>>,
    usize,
))
    requires
        wf_tokens(s.deep_view()),
        pos < s@.len(),
    ensures
        ({
            let sp = spec_declarations(s.deep_view(), pos as int, sl as int);
            &&& stmt_res_view(r.0) == sp.r
            &&& r.1 as int == sp.pos
            &&& pos <= r.1 < s@.len()
            &&& (s.deep_view()[pos as int].kind != TokenKind::Eof ==> r.1 > pos)
        }),
    decreases s@.len() - pos, 19int,
{
    proof {
        reveal(spec_declarations);
    }
    let k = s[pos].kind;
    if k == TokenKind::Var {
        parse_var_declaration(s, pos, sl)
    } else {
        parse_stmt(s, pos, sl)
    }
}

/// One top-loop round's bookkeeping: folding the round's outcome into what
/// was gathered so far keeps the whole parse's decomposition intact.
proof fn lemma_parse_loop_inv(
    sv: Seq<TokenV>,
    cur: int,
    t0: Seq<StmtV>,
    e0: Seq<DiagV<ParserErrV>>,
    t1: Seq<StmtV>,
    e1: Seq<DiagV<ParserErrV>>,
    np: int,
)
    requires
        0 <= cur < sv.len(),
        spec_parse_from(sv, 0).stmts == t0 + spec_parse_from(sv, cur).stmts,
        spec_parse_from(sv, 0).errs == e0 + spec_parse_from(sv, cur).errs,
        ({
            let q = step_pos(sv, skip_nl(sv, cur), cur);
            &&& !(q >= sv.len() || sv[q].kind == TokenKind::Eof)
            &&& ({
                let d = spec_declarations(sv, q, tok_start(sv, q));
                &&& np == step_pos(sv, d.pos, q + 1)
                &&& match d.r {
                    Ok(st) => t1 == t0.push(st) && e1 == e0,
                    Err(e) => t1 == t0 && e1 == e0.push(e),
                }
            })
        }),
    ensures
        spec_parse_from(sv, 0).stmts == t1 + spec_parse_from(sv, np).stmts,
        spec_parse_from(sv, 0).errs == e1 + spec_parse_from(sv, np).errs,
{
    reveal(spec_declarations);
    let q = step_pos(sv, skip_nl(sv, cur), cur);
    let d = spec_declarations(sv, q, tok_start(sv, q));
    let rest = spec_parse_from(sv, np);
    match d.r {
        Ok(st) => {
            assert(spec_parse_from(sv, cur).stmts == seq![st] + rest.stmts);
            assert(spec_parse_from(sv, cur).errs == rest.errs);
            assert(t0 + (seq![st] + rest.stmts) =~= (t0.push(st)) + rest.stmts);
        },
        Err(e) => {
            assert(spec_parse_from(sv, cur).stmts == rest.stmts);
            assert(spec_parse_from(sv, cur).errs == seq![e] + rest.errs);
            assert(e0 + (seq![e] + rest.errs) =~= (e0.push(e)) + rest.errs);
        },
    }
}

// -----------
//  The parser
// -----------
/// Recursive-descent parser state: the statement-start offset and the cursor
/// into the borrowed token buffer, scoped to one `parse` call.
#[derive(Default)]
pub struct Parser {
    start_loc: usize,
    current: usize,
}

impl Parser {
    /// A fresh parser. `parse` resets the cursor and the statement-start
    /// offset in any case, so a parser may also be had through `Default`.
    pub fn new() -> (r: Parser) {
        Parser { start_loc: 0, current: 0 }
    }

    /// Parses the whole token buffer. Returns the ordered statement sequence
    /// when no syntax error occurred, and the ordered list of all syntax
    /// errors collected in this pass otherwise — never both. The result is
    /// exactly `spec_parse_from` the buffer's start.
    ///
    /// The buffer must be shaped as the lexer always shapes it: non-empty,
    /// its one `Eof` token last.
    #[verifier::rlimit(100)]
    pub fn parse(&mut self, tokens: &Vec<Token>) -> (r: Result<
        Vec<Stmt>,
        Vec<PhyResult<ParserErr>>,
    >)
        requires
            wf_tokens(tokens.deep_view()),
        ensures
            ({
                let out = spec_parse_from(tokens.deep_view(), 0);
                match r {
                    Ok(stmts) => out.errs.len() == 0 && stmts.deep_view() == out.stmts,
                    Err(errs) => out.errs.len() > 0 && errs.deep_view() == out.errs,
                }
            }),
    {
        proof {
            reveal(spec_declarations);
        }
        let ghost sv = tokens.deep_view();
        self.current = 0;
        self.start_loc = 0;
        let mut stmts: Vec<Stmt> = Vec::new();
        let mut errors: Vec<PhyResult<ParserErr>> = Vec::new();
        while tokens[self.current].kind != TokenKind::Eof
            invariant
                sv == tokens.deep_view(),
                wf_tokens(sv),
                self.current < sv.len(),
                spec_parse_from(sv, 0).stmts == stmts.deep_view() + spec_parse_from(
                    sv,
                    self.current as int,
                ).stmts,
                spec_parse_from(sv, 0).errs == errors.deep_view() + spec_parse_from(
                    sv,
                    self.current as int,
                ).errs,
            ensures
                self.current < sv.len(),
                sv[self.current as int].kind == TokenKind::Eof,
                spec_parse_from(sv, 0).stmts == stmts.deep_view() + spec_parse_from(
                    sv,
                    self.current as int,
                ).stmts,
                spec_parse_from(sv, 0).errs == errors.deep_view() + spec_parse_from(
                    sv,
                    self.current as int,
                ).errs,
            decreases sv.len() - self.current,
        {
            let ghost cur = self.current as int;
            let q = p_skip_nl(tokens, self.current);
            self.start_loc = tokens[q].loc.start;
            if tokens[q].kind == TokenKind::Eof {
                proof {
                    assert(skip_nl(sv, q as int) == q as int);
                    assert(spec_parse_from(sv, q as int).stmts =~= Seq::<StmtV>::empty());
                    assert(spec_parse_from(sv, q as int).errs =~= Seq::<
                        DiagV<ParserErrV>,
                    >::empty());
                    assert(spec_parse_from(sv, cur).stmts =~= Seq::<StmtV>::empty());
                    assert(spec_parse_from(sv, cur).errs =~= Seq::<DiagV<ParserErrV>>::empty());
                }
                self.current = q;
                break ;
            }
            let sl = tokens[q].loc.start;
            let ghost t0 = stmts.deep_view();
            let ghost e0 = errors.deep_view();
            let (d, p1) = parse_declarations(tokens, q, sl);
            self.current = p1;
            match d {
                Ok(st) => {
                    stmts.push(st);
                    proof {
                        assert(stmts.deep_view() =~= t0.push(stmt_view(&st)));
                    }
                },
                Err(e) => {
                    errors.push(e);
                    proof {
                        assert(errors.deep_view() =~= e0.push(e@));
                    }
                },
            }
            proof {
                lemma_parse_loop_inv(
                    sv,
                    cur,
                    t0,
                    e0,
                    stmts.deep_view(),
                    errors.deep_view(),
                    self.current as int,
                );
            }
        }
        proof {
            assert(skip_nl(sv, self.current as int) == self.current as int);
            assert(spec_parse_from(sv, self.current as int).stmts =~= Seq::<StmtV>::empty());
            assert(spec_parse_from(sv, self.current as int).errs =~= Seq::<
                DiagV<ParserErrV>,
            >::empty());
            assert(stmts.deep_view() =~= spec_parse_from(sv, 0).stmts);
            assert(errors.deep_view() =~= spec_parse_from(sv, 0).errs);
        }
        if errors.len() == 0 {
            Ok(stmts)
        } else {
            Err(errors)
        }
    }
}

} // verus!
