//! The expression grammar as the specifications see it: what expression, or
//! what error, the parser gives at each position of a token stream.

use vstd::prelude::*;
use crate::ast::{
    BinOp, Block, ComptimeDef, EnumDef, Expr, Function, ImportDecl, MatchArm, Param, Pattern, Program, Stmt,
    StructDef, StructField, UnaryOp,
};
use crate::text::int_text;
use crate::error::Span;
use crate::lexer::token::{kind_debug_text, Token, TokenKind};
use crate::parser::{continues, expected_msg, infix_bp};

verus! {

/// An expression with its names as text and its lists as sequences.
pub enum SExpr {
    Int(i64, Span),
    Bool(bool, Span),
    Str(Seq<char>, Span),
    Ident(Seq<char>, Span),
    Binary(BinOp, Box<SExpr>, Box<SExpr>, Span),
    Unary(UnaryOp, Box<SExpr>, Span),
    Call(Seq<char>, Seq<SExpr>, Span),
    Array(Seq<SExpr>, Span),
    Index(Box<SExpr>, Box<SExpr>, Span),
    Variant(Seq<char>, Seq<char>, Span),
    StructLit(Seq<char>, Seq<(Seq<char>, SExpr)>, Span),
    Field(Box<SExpr>, Seq<char>, Span),
    Try(Box<SExpr>, Span),
    Cast(Box<SExpr>, Seq<char>, Span),
}

/// The result of parsing from a position: the value and the position after
/// it, or the error message and the span of the token it is about.
pub enum Parsed<T> {
    Done(T, int),
    Failed(Seq<char>, Span),
}

/// An expression as the specifications see it.
pub open spec fn expr_view(e: Expr) -> SExpr
    decreases e,
{
    match e {
        Expr::IntLit { value, span } => SExpr::Int(value, span),
        Expr::BoolLit { value, span } => SExpr::Bool(value, span),
        Expr::StringLit { value, span } => SExpr::Str(value@, span),
        Expr::Ident { name, span } => SExpr::Ident(name@, span),
        Expr::BinaryOp { op, left, right, span } => SExpr::Binary(
            op,
            Box::new(expr_view(*left)),
            Box::new(expr_view(*right)),
            span,
        ),
        Expr::UnaryOp { op, operand, span } => SExpr::Unary(op, Box::new(expr_view(*operand)), span),
        Expr::Call { name, args, span } => SExpr::Call(name@, exprs_view(args@), span),
        Expr::ArrayLit { elements, span } => SExpr::Array(exprs_view(elements@), span),
        Expr::Index { object, index, span } => SExpr::Index(
            Box::new(expr_view(*object)),
            Box::new(expr_view(*index)),
            span,
        ),
        Expr::EnumVariant { enum_name, variant, span } => SExpr::Variant(enum_name@, variant@, span),
        Expr::StructLit { name, fields, span } => SExpr::StructLit(name@, fields_view(fields@), span),
        Expr::FieldAccess { object, field, span } => SExpr::Field(Box::new(expr_view(*object)), field@, span),
        Expr::Try { expr, span } => SExpr::Try(Box::new(expr_view(*expr)), span),
        Expr::Cast { expr, target, span } => SExpr::Cast(Box::new(expr_view(*expr)), target@, span),
    }
}

/// A list of expressions as the specifications see it.
pub open spec fn exprs_view(s: Seq<Expr>) -> Seq<SExpr>
    decreases s,
{
    if s.len() == 0 {
        Seq::empty()
    } else {
        exprs_view(s.drop_last()).push(expr_view(s.last()))
    }
}

/// The fields of a struct literal as the specifications see them.
pub open spec fn fields_view(s: Seq<(String, Expr)>) -> Seq<(Seq<char>, SExpr)>
    decreases s,
{
    if s.len() == 0 {
        Seq::empty()
    } else {
        fields_view(s.drop_last()).push((s.last().0@, expr_view(s.last().1)))
    }
}

/// The span an expression records.
pub open spec fn sspan(e: SExpr) -> Span {
    match e {
        SExpr::Int(_, s) => s,
        SExpr::Bool(_, s) => s,
        SExpr::Str(_, s) => s,
        SExpr::Ident(_, s) => s,
        SExpr::Binary(_, _, _, s) => s,
        SExpr::Unary(_, _, s) => s,
        SExpr::Call(_, _, s) => s,
        SExpr::Array(_, s) => s,
        SExpr::Index(_, _, s) => s,
        SExpr::Variant(_, _, s) => s,
        SExpr::StructLit(_, _, s) => s,
        SExpr::Field(_, _, s) => s,
        SExpr::Try(_, s) => s,
        SExpr::Cast(_, _, s) => s,
    }
}

/// From the start of `a` to the end of `b`.
pub open spec fn join(a: Span, b: Span) -> Span {
    Span { start: a.start, end: b.end }
}

/// The error for the token at `i`: `what` and the token.
pub open spec fn fail_at<T>(t: Seq<Token>, i: int, what: Seq<char>) -> Parsed<T> {
    Parsed::Failed(what + kind_debug_text(t[i].kind), t[i].span)
}

/// The error for the token at `i` where a `k` was expected.
pub open spec fn expect_fail<T>(t: Seq<Token>, i: int, k: TokenKind) -> Parsed<T> {
    Parsed::Failed(expected_msg(k, t[i].kind), t[i].span)
}

/// Whether the `{` at `i` opens a struct literal: an identifier and a colon,
/// or `}`, follow it.
pub open spec fn struct_literal_at(t: Seq<Token>, i: int) -> bool {
    if i + 1 < t.len() && t[i + 1].kind is Ident {
        i + 2 < t.len() && t[i + 2].kind == TokenKind::Colon
    } else {
        i + 1 < t.len() && t[i + 1].kind == TokenKind::RBrace
    }
}

/// The expression at `i` whose operators all bind tighter than `min_bp`: a
/// prefix expression and what follows it.
pub open spec fn pexpr(t: Seq<Token>, i: int, min_bp: u8) -> Parsed<SExpr>
    decreases t.len() - i, 2nat,
{
    if !(0 <= i < t.len()) {
        Parsed::Failed(Seq::empty(), t[i].span)
    } else {
        match pprefix(t, i) {
            Parsed::Done(lhs, j) => if i < j <= t.len() {
                ploop(t, j, lhs, min_bp)
            } else {
                Parsed::Failed(Seq::empty(), t[i].span)
            },
            Parsed::Failed(m, s) => Parsed::Failed(m, s),
        }
    }
}

/// A prefix expression at `i`: a literal, a name, a variant, a call, a
/// struct literal, a unary operation, a parenthesized expression, a `try`
/// or an array literal.
pub open spec fn pprefix(t: Seq<Token>, i: int) -> Parsed<SExpr>
    decreases t.len() - i, 1nat,
{
    if !(0 <= i < t.len()) {
        Parsed::Failed(Seq::empty(), t[i].span)
    } else {
        let sp = t[i].span;
        match t[i].kind {
            TokenKind::Int(v) => Parsed::Done(SExpr::Int(v, sp), i + 1),
            TokenKind::True => Parsed::Done(SExpr::Bool(true, sp), i + 1),
            TokenKind::False => Parsed::Done(SExpr::Bool(false, sp), i + 1),
            TokenKind::StringLit(v) => Parsed::Done(SExpr::Str(v@, sp), i + 1),
            TokenKind::Ident(n) => if t[i + 1].kind == TokenKind::ColonColon {
                match t[i + 2].kind {
                    TokenKind::Ident(v) => Parsed::Done(SExpr::Variant(n@, v@, join(sp, t[i + 2].span)), i + 3),
                    _ => fail_at(t, i + 2, "expected identifier, found "@),
                }
            } else if t[i + 1].kind == TokenKind::LParen && i + 2 <= t.len() {
                match pargs(t, i + 2, Seq::empty()) {
                    Parsed::Done(args, k) => Parsed::Done(SExpr::Call(n@, args, join(sp, t[k].span)), k + 1),
                    Parsed::Failed(m, s) => Parsed::Failed(m, s),
                }
            } else if t[i + 1].kind == TokenKind::LBrace && struct_literal_at(t, i + 1) && i + 2 <= t.len() {
                match pfields(t, i + 2, Seq::empty()) {
                    Parsed::Done(fs, k) => Parsed::Done(SExpr::StructLit(n@, fs, join(sp, t[k].span)), k + 1),
                    Parsed::Failed(m, s) => Parsed::Failed(m, s),
                }
            } else {
                Parsed::Done(SExpr::Ident(n@, sp), i + 1)
            },
            TokenKind::Minus => match pexpr(t, i + 1, 7) {
                Parsed::Done(o, k) => Parsed::Done(SExpr::Unary(UnaryOp::Neg, Box::new(o), join(sp, sspan(o))), k),
                Parsed::Failed(m, s) => Parsed::Failed(m, s),
            },
            TokenKind::Bang => match pexpr(t, i + 1, 7) {
                Parsed::Done(o, k) => Parsed::Done(SExpr::Unary(UnaryOp::Not, Box::new(o), join(sp, sspan(o))), k),
                Parsed::Failed(m, s) => Parsed::Failed(m, s),
            },
            TokenKind::LParen => match pexpr(t, i + 1, 0) {
                Parsed::Done(e, k) => if t[k].kind == TokenKind::RParen {
                    Parsed::Done(e, k + 1)
                } else {
                    expect_fail(t, k, TokenKind::RParen)
                },
                Parsed::Failed(m, s) => Parsed::Failed(m, s),
            },
            TokenKind::Try => match pexpr(t, i + 1, 7) {
                Parsed::Done(e, k) => Parsed::Done(SExpr::Try(Box::new(e), join(sp, sspan(e))), k),
                Parsed::Failed(m, s) => Parsed::Failed(m, s),
            },
            TokenKind::LBracket => match pelems(t, i + 1, Seq::empty()) {
                Parsed::Done(es, k) => Parsed::Done(SExpr::Array(es, join(sp, t[k].span)), k + 1),
                Parsed::Failed(m, s) => Parsed::Failed(m, s),
            },
            _ => fail_at(t, i, "expected expression, found "@),
        }
    }
}

/// The arguments of a call from `i` up to its `)` (whose position is
/// given), separated by commas, after those already read.
pub open spec fn pargs(t: Seq<Token>, i: int, acc: Seq<SExpr>) -> Parsed<Seq<SExpr>>
    decreases t.len() - i, 3nat,
{
    if !(0 <= i < t.len()) {
        Parsed::Failed(Seq::empty(), t[i].span)
    } else if t[i].kind == TokenKind::RParen {
        Parsed::Done(acc, i)
    } else if acc.len() > 0 && t[i].kind != TokenKind::Comma {
        expect_fail(t, i, TokenKind::Comma)
    } else {
        let j = if acc.len() > 0 { i + 1 } else { i };
        match pexpr(t, j, 0) {
            Parsed::Done(e, k) => if i < k <= t.len() {
                pargs(t, k, acc.push(e))
            } else {
                Parsed::Failed(Seq::empty(), t[i].span)
            },
            Parsed::Failed(m, s) => Parsed::Failed(m, s),
        }
    }
}

/// The elements of an array literal from `i` up to its `]`.
pub open spec fn pelems(t: Seq<Token>, i: int, acc: Seq<SExpr>) -> Parsed<Seq<SExpr>>
    decreases t.len() - i, 3nat,
{
    if !(0 <= i < t.len()) {
        Parsed::Failed(Seq::empty(), t[i].span)
    } else if t[i].kind == TokenKind::RBracket {
        Parsed::Done(acc, i)
    } else if acc.len() > 0 && t[i].kind != TokenKind::Comma {
        expect_fail(t, i, TokenKind::Comma)
    } else {
        let j = if acc.len() > 0 { i + 1 } else { i };
        match pexpr(t, j, 0) {
            Parsed::Done(e, k) => if i < k <= t.len() {
                pelems(t, k, acc.push(e))
            } else {
                Parsed::Failed(Seq::empty(), t[i].span)
            },
            Parsed::Failed(m, s) => Parsed::Failed(m, s),
        }
    }
}

/// The fields of a struct literal from `i` up to its `}`: `name: value`
/// separated by commas, a trailing comma allowed.
pub open spec fn pfields(t: Seq<Token>, i: int, acc: Seq<(Seq<char>, SExpr)>) -> Parsed<Seq<(Seq<char>, SExpr)>>
    decreases t.len() - i, 3nat,
{
    if !(0 <= i < t.len()) {
        Parsed::Failed(Seq::empty(), t[i].span)
    } else if t[i].kind == TokenKind::RBrace {
        Parsed::Done(acc, i)
    } else if acc.len() > 0 && t[i].kind != TokenKind::Comma {
        expect_fail(t, i, TokenKind::Comma)
    } else {
        let j = if acc.len() > 0 { i + 1 } else { i };
        if acc.len() > 0 && t[j].kind == TokenKind::RBrace {
            Parsed::Done(acc, j)
        } else {
            match t[j].kind {
                TokenKind::Ident(f) => if t[j + 1].kind == TokenKind::Colon && j + 2 <= t.len() {
                    match pexpr(t, j + 2, 0) {
                        Parsed::Done(v, k) => if i < k <= t.len() {
                            pfields(t, k, acc.push((f@, v)))
                        } else {
                            Parsed::Failed(Seq::empty(), t[i].span)
                        },
                        Parsed::Failed(m, s) => Parsed::Failed(m, s),
                    }
                } else {
                    expect_fail(t, j + 1, TokenKind::Colon)
                },
                _ => fail_at(t, j, "expected identifier, found "@),
            }
        }
    }
}

/// What follows the expression `lhs` ending at `i`: indexing, field access,
/// casts, pipes into a call (when `min_bp` is 0) and binary operators that
/// bind tighter than `min_bp`, left to right.
pub open spec fn ploop(t: Seq<Token>, i: int, lhs: SExpr, min_bp: u8) -> Parsed<SExpr>
    decreases t.len() - i, 0nat,
{
    if !(0 <= i < t.len()) {
        Parsed::Failed(Seq::empty(), t[i].span)
    } else {
        let k = t[i].kind;
        if k == TokenKind::LBracket {
            match pexpr(t, i + 1, 0) {
                Parsed::Done(idx, j) => if t[j].kind == TokenKind::RBracket {
                    if i < j + 1 <= t.len() {
                        ploop(t, j + 1, SExpr::Index(Box::new(lhs), Box::new(idx), join(sspan(lhs), t[j].span)), min_bp)
                    } else {
                        Parsed::Failed(Seq::empty(), t[i].span)
                    }
                } else {
                    expect_fail(t, j, TokenKind::RBracket)
                },
                Parsed::Failed(m, s) => Parsed::Failed(m, s),
            }
        } else if k == TokenKind::Dot {
            match t[i + 1].kind {
                TokenKind::Ident(f) => if i + 2 <= t.len() {
                    ploop(t, i + 2, SExpr::Field(Box::new(lhs), f@, join(sspan(lhs), t[i + 1].span)), min_bp)
                } else {
                    Parsed::Failed(Seq::empty(), t[i].span)
                },
                _ => fail_at(t, i + 1, "expected identifier, found "@),
            }
        } else if k == TokenKind::As {
            match t[i + 1].kind {
                TokenKind::Ident(f) => if i + 2 <= t.len() {
                    ploop(t, i + 2, SExpr::Cast(Box::new(lhs), f@, join(sspan(lhs), t[i + 1].span)), min_bp)
                } else {
                    Parsed::Failed(Seq::empty(), t[i].span)
                },
                _ => fail_at(t, i + 1, "expected identifier, found "@),
            }
        } else if k == TokenKind::PipeArrow {
            if 1 <= min_bp {
                Parsed::Done(lhs, i)
            } else {
                match pprefix(t, i + 1) {
                    Parsed::Done(rhs, j) => if i < j <= t.len() {
                        match rhs {
                            SExpr::Call(n, args, sp) => ploop(t, j, SExpr::Call(n, seq![lhs] + args, join(sspan(lhs), sp)), min_bp),
                            SExpr::Ident(n, sp) => ploop(t, j, SExpr::Call(n, seq![lhs], join(sspan(lhs), sp)), min_bp),
                            _ => Parsed::Failed("right side of |> must be a function name or call"@, t[j].span),
                        }
                    } else {
                        Parsed::Failed(Seq::empty(), t[i].span)
                    },
                    Parsed::Failed(m, s) => Parsed::Failed(m, s),
                }
            }
        } else {
            match infix_bp(k) {
                Some((op, bp)) => if bp <= min_bp {
                    Parsed::Done(lhs, i)
                } else {
                    match pexpr(t, i + 1, bp) {
                        Parsed::Done(rhs, j) => if i < j <= t.len() {
                            ploop(t, j, SExpr::Binary(op, Box::new(lhs), Box::new(rhs), join(sspan(lhs), sspan(rhs))), min_bp)
                        } else {
                            Parsed::Failed(Seq::empty(), t[i].span)
                        },
                        Parsed::Failed(m, s) => Parsed::Failed(m, s),
                    }
                },
                None => Parsed::Done(lhs, i),
            }
        }
    }
}

/// An expression agrees with a parse result: on success its view and the
/// position after it; on failure the error's message and span.
pub open spec fn parsed_as(r: Result<Expr, crate::error::CompileError>, at: int, p: Parsed<SExpr>) -> bool {
    match (r, p) {
        (Ok(e), Parsed::Done(se, j)) => expr_view(e) == se && at == j,
        (Err(err), Parsed::Failed(m, s)) => err.message@ == m && err.span == Some(s),
        _ => false,
    }
}

/// A view of a list agrees with the list element by element.
pub proof fn lemma_exprs_view(s: Seq<Expr>)
    ensures
        exprs_view(s).len() == s.len(),
        forall|i: int| 0 <= i < s.len() ==> exprs_view(s)[i] == expr_view(#[trigger] s[i]),
    decreases s.len(),
{
    if s.len() > 0 {
        lemma_exprs_view(s.drop_last());
        assert forall|i: int| 0 <= i < s.len() implies exprs_view(s)[i] == expr_view(#[trigger] s[i]) by {
            if i < s.len() - 1 {
                assert(s.drop_last()[i] == s[i]);
            }
        }
    }
}


// ── Statements ───────────────────────────────────────────

/// A match pattern as the specifications see it.
pub enum SPattern {
    Int(i64, Span),
    Bool(bool, Span),
    Wildcard(Span),
    Variant(Seq<char>, Seq<char>, Span),
}

/// A block as the specifications see it.
pub struct SBlock {
    pub stmts: Seq<SStmt>,
    pub span: Span,
}

/// A match arm as the specifications see it.
pub struct SArm {
    pub pattern: SPattern,
    pub body: SBlock,
    pub span: Span,
}

/// A statement as the specifications see it.
pub enum SStmt {
    Let(Seq<char>, bool, Option<Seq<char>>, SExpr, Span),
    Assign(Seq<char>, SExpr, Span),
    IndexAssign(Seq<char>, SExpr, SExpr, Span),
    FieldAssign(Seq<char>, Seq<char>, SExpr, Span),
    Return(Option<SExpr>, Span),
    Defer(SExpr, Span),
    Fail(SExpr, Span),
    Expr(SExpr, Span),
    TailExpr(SExpr, Span),
    If(SExpr, SBlock, Option<SBlock>, Span),
    While(SExpr, SBlock, Span),
    For(Seq<char>, SExpr, SExpr, SBlock, Span),
    Break(Span),
    Continue(Span),
    Match(SExpr, Seq<SArm>, Span),
}

/// A pattern as the specifications see it.
pub open spec fn pattern_view(p: Pattern) -> SPattern {
    match p {
        Pattern::IntLit(v, s) => SPattern::Int(v, s),
        Pattern::BoolLit(v, s) => SPattern::Bool(v, s),
        Pattern::Wildcard(s) => SPattern::Wildcard(s),
        Pattern::EnumVariant(e, v, s) => SPattern::Variant(e@, v@, s),
    }
}

/// A block as the specifications see it.
pub open spec fn block_view(b: Block) -> SBlock
    decreases b,
{
    SBlock { stmts: stmts_view(b.stmts@), span: b.span }
}

/// Statements as the specifications see them.
pub open spec fn stmts_view(s: Seq<Stmt>) -> Seq<SStmt>
    decreases s,
{
    if s.len() == 0 {
        Seq::empty()
    } else {
        stmts_view(s.drop_last()).push(stmt_view(s.last()))
    }
}

/// Match arms as the specifications see them.
pub open spec fn arms_view(s: Seq<MatchArm>) -> Seq<SArm>
    decreases s,
{
    if s.len() == 0 {
        Seq::empty()
    } else {
        arms_view(s.drop_last()).push(
            SArm { pattern: pattern_view(s.last().pattern), body: block_view(s.last().body), span: s.last().span },
        )
    }
}

/// A name as text, if there is one.
pub open spec fn opt_text(o: Option<String>) -> Option<Seq<char>> {
    match o {
        Some(s) => Some(s@),
        None => None,
    }
}

/// A statement as the specifications see it.
pub open spec fn stmt_view(s: Stmt) -> SStmt
    decreases s,
{
    match s {
        Stmt::Let { name, mutable, ty_name, value, span } => SStmt::Let(name@, mutable, opt_text(ty_name), expr_view(value), span),
        Stmt::Assign { name, value, span } => SStmt::Assign(name@, expr_view(value), span),
        Stmt::IndexAssign { object, index, value, span } => SStmt::IndexAssign(object@, expr_view(index), expr_view(value), span),
        Stmt::FieldAssign { object, field, value, span } => SStmt::FieldAssign(object@, field@, expr_view(value), span),
        Stmt::Return { value, span } => SStmt::Return(
            match value {
                Some(v) => Some(expr_view(v)),
                None => None,
            },
            span,
        ),
        Stmt::Defer { expr, span } => SStmt::Defer(expr_view(expr), span),
        Stmt::Fail { message, span } => SStmt::Fail(expr_view(message), span),
        Stmt::Expr { expr, span } => SStmt::Expr(expr_view(expr), span),
        Stmt::TailExpr { expr, span } => SStmt::TailExpr(expr_view(expr), span),
        Stmt::If { condition, then_block, else_block, span } => SStmt::If(
            expr_view(condition),
            block_view(then_block),
            match else_block {
                Some(b) => Some(block_view(b)),
                None => None,
            },
            span,
        ),
        Stmt::While { condition, body, span } => SStmt::While(expr_view(condition), block_view(body), span),
        Stmt::For { var, start, end, body, span } => SStmt::For(var@, expr_view(start), expr_view(end), block_view(body), span),
        Stmt::Break { span } => SStmt::Break(span),
        Stmt::Continue { span } => SStmt::Continue(span),
        Stmt::Match { subject, arms, span } => SStmt::Match(expr_view(subject), arms_view(arms@), span),
    }
}

/// From the start of the token at `i` to the start of the token at `k`.
pub open spec fn upto(t: Seq<Token>, i: int, k: int) -> Span {
    Span { start: t[i].span.start, end: t[k].span.start }
}

/// A failure that the parser never meets: a position outside the tokens.
pub open spec fn stray<T>(t: Seq<Token>, i: int) -> Parsed<T> {
    Parsed::Failed(Seq::empty(), t[i].span)
}

/// A parse result agrees with a value of the program's own types, taken by
/// the given view.
pub open spec fn result_as<T, S>(r: Result<T, crate::error::CompileError>, at: int, p: Parsed<S>, view: spec_fn(T) -> S) -> bool {
    match (r, p) {
        (Ok(v), Parsed::Done(sv, j)) => view(v) == sv && at == j,
        (Err(err), Parsed::Failed(m, s)) => err.message@ == m && err.span == Some(s),
        _ => false,
    }
}

/// A type name at `i`: a name, or `[elem; N]` written out as `[elem; N]`.
pub open spec fn ptype(t: Seq<Token>, i: int) -> Parsed<Seq<char>> {
    if t[i].kind == TokenKind::LBracket {
        match t[i + 1].kind {
            TokenKind::Ident(e) => if t[i + 2].kind == TokenKind::Semicolon {
                match t[i + 3].kind {
                    TokenKind::Int(n) => if t[i + 4].kind == TokenKind::RBracket {
                        Parsed::Done("["@ + e@ + "; "@ + int_text(n as int) + "]"@, i + 5)
                    } else {
                        expect_fail(t, i + 4, TokenKind::RBracket)
                    },
                    _ => fail_at(t, i + 3, "expected array size, found "@),
                }
            } else {
                expect_fail(t, i + 2, TokenKind::Semicolon)
            },
            _ => fail_at(t, i + 1, "expected identifier, found "@),
        }
    } else {
        match t[i].kind {
            TokenKind::Ident(n) => Parsed::Done(n@, i + 1),
            _ => fail_at(t, i, "expected identifier, found "@),
        }
    }
}

/// A match pattern at `i`.
pub open spec fn ppattern(t: Seq<Token>, i: int) -> Parsed<SPattern> {
    let sp = t[i].span;
    match t[i].kind {
        TokenKind::Int(v) => Parsed::Done(SPattern::Int(v, sp), i + 1),
        TokenKind::True => Parsed::Done(SPattern::Bool(true, sp), i + 1),
        TokenKind::False => Parsed::Done(SPattern::Bool(false, sp), i + 1),
        TokenKind::Ident(n) => if n@ == "_"@ {
            Parsed::Done(SPattern::Wildcard(sp), i + 1)
        } else if t[i + 1].kind == TokenKind::ColonColon {
            match t[i + 2].kind {
                TokenKind::Ident(v) => Parsed::Done(SPattern::Variant(n@, v@, join(sp, t[i + 2].span)), i + 3),
                _ => fail_at(t, i + 2, "expected identifier, found "@),
            }
        } else {
            Parsed::Failed("expected pattern (integer, bool, _, or Enum::Variant), found identifier '"@ + n@ + "'"@, sp)
        },
        _ => fail_at(t, i, "expected pattern (integer, bool, _, or Enum::Variant), found "@),
    }
}

/// A block at `i`: `{`, statements, `}`.
pub open spec fn pblock(t: Seq<Token>, i: int) -> Parsed<SBlock>
    decreases t.len() - i, 0nat,
{
    if !(0 <= i < t.len()) {
        stray(t, i)
    } else if t[i].kind != TokenKind::LBrace {
        expect_fail(t, i, TokenKind::LBrace)
    } else {
        match pstmts(t, i + 1, Seq::empty()) {
            Parsed::Done(ss, k) => Parsed::Done(SBlock { stmts: ss, span: upto(t, i, k + 1) }, k + 1),
            Parsed::Failed(m, s) => Parsed::Failed(m, s),
        }
    }
}

/// Statements from `i` up to the `}` that closes their block.
pub open spec fn pstmts(t: Seq<Token>, i: int, acc: Seq<SStmt>) -> Parsed<Seq<SStmt>>
    decreases t.len() - i, 6nat,
{
    if !(0 <= i < t.len()) {
        stray(t, i)
    } else if t[i].kind == TokenKind::RBrace {
        Parsed::Done(acc, i)
    } else {
        match pstmt(t, i) {
            Parsed::Done(st, k) => if i < k <= t.len() {
                pstmts(t, k, acc.push(st))
            } else {
                stray(t, i)
            },
            Parsed::Failed(m, s) => Parsed::Failed(m, s),
        }
    }
}

/// A statement at `i`, by its first token.
pub open spec fn pstmt(t: Seq<Token>, i: int) -> Parsed<SStmt>
    decreases t.len() - i, 5nat,
{
    if !(0 <= i < t.len()) {
        stray(t, i)
    } else {
        match t[i].kind {
            TokenKind::Let => plet(t, i),
            TokenKind::Return => preturn(t, i),
            TokenKind::Defer => match pexpr(t, i + 1, 0) {
                Parsed::Done(v, e) => if t[e].kind == TokenKind::Semicolon {
                    Parsed::Done(SStmt::Defer(v, upto(t, i, e + 1)), e + 1)
                } else {
                    expect_fail(t, e, TokenKind::Semicolon)
                },
                Parsed::Failed(m, s) => Parsed::Failed(m, s),
            },
            TokenKind::Fail => match pexpr(t, i + 1, 0) {
                Parsed::Done(v, e) => if t[e].kind == TokenKind::Semicolon {
                    Parsed::Done(SStmt::Fail(v, upto(t, i, e + 1)), e + 1)
                } else {
                    expect_fail(t, e, TokenKind::Semicolon)
                },
                Parsed::Failed(m, s) => Parsed::Failed(m, s),
            },
            TokenKind::If => pif(t, i),
            TokenKind::While => match pexpr(t, i + 1, 0) {
                Parsed::Done(c, e) => if i < e <= t.len() {
                    match pblock(t, e) {
                        Parsed::Done(b, k) => Parsed::Done(SStmt::While(c, b, upto(t, i, k)), k),
                        Parsed::Failed(m, s) => Parsed::Failed(m, s),
                    }
                } else {
                    stray(t, i)
                },
                Parsed::Failed(m, s) => Parsed::Failed(m, s),
            },
            TokenKind::For => pfor(t, i),
            TokenKind::Break => if t[i + 1].kind == TokenKind::Semicolon {
                Parsed::Done(SStmt::Break(upto(t, i, i + 2)), i + 2)
            } else {
                expect_fail(t, i + 1, TokenKind::Semicolon)
            },
            TokenKind::Continue => if t[i + 1].kind == TokenKind::Semicolon {
                Parsed::Done(SStmt::Continue(upto(t, i, i + 2)), i + 2)
            } else {
                expect_fail(t, i + 1, TokenKind::Semicolon)
            },
            TokenKind::Match => pmatch(t, i),
            _ => pexpr_stmt(t, i),
        }
    }
}

/// `let [mut] name [: type] = value;` at `i`.
pub open spec fn plet(t: Seq<Token>, i: int) -> Parsed<SStmt>
    decreases t.len() - i, 4nat,
{
    let m = t[i + 1].kind == TokenKind::Mut;
    let j = if m { i + 2 } else { i + 1 };
    match t[j].kind {
        TokenKind::Ident(n) => {
            let ty: Parsed<Option<Seq<char>>> = if t[j + 1].kind == TokenKind::Colon {
                match ptype(t, j + 2) {
                    Parsed::Done(x, k) => Parsed::Done(Some(x), k),
                    Parsed::Failed(a, b) => Parsed::Failed(a, b),
                }
            } else {
                Parsed::Done(None, j + 1)
            };
            match ty {
                Parsed::Done(ty, k) => if t[k].kind != TokenKind::Equals {
                    expect_fail(t, k, TokenKind::Equals)
                } else if 0 <= i < k && k + 1 <= t.len() {
                    match pexpr(t, k + 1, 0) {
                        Parsed::Done(v, e) => if t[e].kind == TokenKind::Semicolon {
                            Parsed::Done(SStmt::Let(n@, m, ty, v, upto(t, i, e + 1)), e + 1)
                        } else {
                            expect_fail(t, e, TokenKind::Semicolon)
                        },
                        Parsed::Failed(a, b) => Parsed::Failed(a, b),
                    }
                } else {
                    stray(t, i)
                },
                Parsed::Failed(a, b) => Parsed::Failed(a, b),
            }
        },
        _ => fail_at(t, j, "expected identifier, found "@),
    }
}

/// `return [value];` at `i`.
pub open spec fn preturn(t: Seq<Token>, i: int) -> Parsed<SStmt>
    decreases t.len() - i, 4nat,
{
    if t[i + 1].kind != TokenKind::Semicolon {
        if 0 <= i && i + 1 <= t.len() {
            match pexpr(t, i + 1, 0) {
                Parsed::Done(v, e) => if t[e].kind == TokenKind::Semicolon {
                    Parsed::Done(SStmt::Return(Some(v), upto(t, i, e + 1)), e + 1)
                } else {
                    expect_fail(t, e, TokenKind::Semicolon)
                },
                Parsed::Failed(a, b) => Parsed::Failed(a, b),
            }
        } else {
            stray(t, i)
        }
    } else {
        Parsed::Done(SStmt::Return(None, upto(t, i, i + 2)), i + 2)
    }
}

/// `if condition { ... } [else { ... }]` at `i`.
pub open spec fn pif(t: Seq<Token>, i: int) -> Parsed<SStmt>
    decreases t.len() - i, 4nat,
{
    if !(0 <= i < t.len()) {
        stray(t, i)
    } else {
        match pexpr(t, i + 1, 0) {
            Parsed::Done(c, e) => if i < e <= t.len() {
                match pblock(t, e) {
                    Parsed::Done(b1, k) => if t[k].kind == TokenKind::Else {
                        if i < k && k + 1 <= t.len() {
                            match pblock(t, k + 1) {
                                Parsed::Done(b2, q) => Parsed::Done(SStmt::If(c, b1, Some(b2), upto(t, i, q)), q),
                                Parsed::Failed(a, b) => Parsed::Failed(a, b),
                            }
                        } else {
                            stray(t, i)
                        }
                    } else {
                        Parsed::Done(SStmt::If(c, b1, None, upto(t, i, k)), k)
                    },
                    Parsed::Failed(a, b) => Parsed::Failed(a, b),
                }
            } else {
                stray(t, i)
            },
            Parsed::Failed(a, b) => Parsed::Failed(a, b),
        }
    }
}

/// `for var in start..end { ... }` at `i` (the bounds bind tighter than
/// comparisons).
pub open spec fn pfor(t: Seq<Token>, i: int) -> Parsed<SStmt>
    decreases t.len() - i, 4nat,
{
    match t[i + 1].kind {
        TokenKind::Ident(v) => if t[i + 2].kind != TokenKind::In {
            expect_fail(t, i + 2, TokenKind::In)
        } else if 0 <= i && i + 3 <= t.len() {
            match pexpr(t, i + 3, 5) {
                Parsed::Done(s, e) => if t[e].kind != TokenKind::DotDot {
                    expect_fail(t, e, TokenKind::DotDot)
                } else if i < e && e + 1 <= t.len() {
                    match pexpr(t, e + 1, 5) {
                        Parsed::Done(en, f) => if i < f <= t.len() {
                            match pblock(t, f) {
                                Parsed::Done(b, k) => Parsed::Done(SStmt::For(v@, s, en, b, upto(t, i, k)), k),
                                Parsed::Failed(a, b) => Parsed::Failed(a, b),
                            }
                        } else {
                            stray(t, i)
                        },
                        Parsed::Failed(a, b) => Parsed::Failed(a, b),
                    }
                } else {
                    stray(t, i)
                },
                Parsed::Failed(a, b) => Parsed::Failed(a, b),
            }
        } else {
            stray(t, i)
        },
        _ => fail_at(t, i + 1, "expected identifier, found "@),
    }
}

/// `match subject { pattern => { ... } ... }` at `i`.
pub open spec fn pmatch(t: Seq<Token>, i: int) -> Parsed<SStmt>
    decreases t.len() - i, 4nat,
{
    if !(0 <= i < t.len()) {
        stray(t, i)
    } else {
        match pexpr(t, i + 1, 0) {
            Parsed::Done(s, e) => if t[e].kind != TokenKind::LBrace {
                expect_fail(t, e, TokenKind::LBrace)
            } else if i < e && e + 1 <= t.len() {
                match parms(t, e + 1, Seq::empty()) {
                    Parsed::Done(arms, k) => Parsed::Done(SStmt::Match(s, arms, upto(t, i, k + 1)), k + 1),
                    Parsed::Failed(a, b) => Parsed::Failed(a, b),
                }
            } else {
                stray(t, i)
            },
            Parsed::Failed(a, b) => Parsed::Failed(a, b),
        }
    }
}

/// Match arms from `i` up to the `}` that closes the match.
pub open spec fn parms(t: Seq<Token>, i: int, acc: Seq<SArm>) -> Parsed<Seq<SArm>>
    decreases t.len() - i, 6nat,
{
    if !(0 <= i < t.len()) {
        stray(t, i)
    } else if t[i].kind == TokenKind::RBrace {
        Parsed::Done(acc, i)
    } else {
        match ppattern(t, i) {
            Parsed::Done(p, j) => if t[j].kind != TokenKind::FatArrow {
                expect_fail(t, j, TokenKind::FatArrow)
            } else if i <= j && j + 1 <= t.len() {
                match pblock(t, j + 1) {
                    Parsed::Done(b, k) => if i < k <= t.len() {
                        parms(t, k, acc.push(SArm { pattern: p, body: b, span: upto(t, i, k) }))
                    } else {
                        stray(t, i)
                    },
                    Parsed::Failed(a, b) => Parsed::Failed(a, b),
                }
            } else {
                stray(t, i)
            },
            Parsed::Failed(a, b) => Parsed::Failed(a, b),
        }
    }
}

/// The value and `;` of an assignment whose `=` is just before `j`.
pub open spec fn passign_value(t: Seq<Token>, i: int, j: int) -> Parsed<(SExpr, int)>
    decreases t.len() - i, 3nat,
{
    if i <= j <= t.len() {
        match pexpr(t, j, 0) {
            Parsed::Done(v, k) => if t[k].kind == TokenKind::Semicolon {
                Parsed::Done((v, k + 1), k + 1)
            } else {
                expect_fail(t, k, TokenKind::Semicolon)
            },
            Parsed::Failed(a, b) => Parsed::Failed(a, b),
        }
    } else {
        stray(t, i)
    }
}

/// An expression statement at `i`: an assignment to a name, an element or
/// a field (`target = value;`), an expression with `;`, or an expression
/// right before `}` (a tail expression).
pub open spec fn pexpr_stmt(t: Seq<Token>, i: int) -> Parsed<SStmt>
    decreases t.len() - i, 4nat,
{
    match pexpr(t, i, 0) {
        Parsed::Done(e, j) => if t[j].kind == TokenKind::Equals {
            let bad = upto(t, i, j + 1);
            match e {
                SExpr::Ident(n, _) => match passign_value(t, i, j + 1) {
                    Parsed::Done((v, k), _) => Parsed::Done(SStmt::Assign(n, v, upto(t, i, k)), k),
                    Parsed::Failed(a, b) => Parsed::Failed(a, b),
                },
                SExpr::Index(obj, idx, _) => match *obj {
                    SExpr::Ident(n, _) => match passign_value(t, i, j + 1) {
                        Parsed::Done((v, k), _) => Parsed::Done(SStmt::IndexAssign(n, *idx, v, upto(t, i, k)), k),
                        Parsed::Failed(a, b) => Parsed::Failed(a, b),
                    },
                    _ => Parsed::Failed("invalid index assignment target"@, bad),
                },
                SExpr::Field(obj, f, _) => match *obj {
                    SExpr::Ident(n, _) => match passign_value(t, i, j + 1) {
                        Parsed::Done((v, k), _) => Parsed::Done(SStmt::FieldAssign(n, f, v, upto(t, i, k)), k),
                        Parsed::Failed(a, b) => Parsed::Failed(a, b),
                    },
                    _ => Parsed::Failed("invalid field assignment target"@, bad),
                },
                _ => Parsed::Failed("invalid assignment target"@, bad),
            }
        } else if t[j].kind == TokenKind::RBrace {
            Parsed::Done(SStmt::TailExpr(e, upto(t, i, j)), j)
        } else if t[j].kind == TokenKind::Semicolon {
            Parsed::Done(SStmt::Expr(e, upto(t, i, j + 1)), j + 1)
        } else {
            expect_fail(t, j, TokenKind::Semicolon)
        },
        Parsed::Failed(a, b) => Parsed::Failed(a, b),
    }
}


// ── Items ────────────────────────────────────────────────

/// A function parameter as the specifications see it.
pub struct SParam {
    pub name: Seq<char>,
    pub ty: Seq<char>,
    pub span: Span,
}

/// A function as the specifications see it.
pub struct SFunction {
    pub name: Seq<char>,
    pub params: Seq<SParam>,
    pub return_type: Option<Seq<char>>,
    pub can_fail: bool,
    pub is_private: bool,
    pub body: SBlock,
    pub span: Span,
}

/// An enum as the specifications see it.
pub struct SEnum {
    pub name: Seq<char>,
    pub variants: Seq<Seq<char>>,
    pub is_private: bool,
    pub span: Span,
}

/// A struct field as the specifications see it.
pub struct SField {
    pub name: Seq<char>,
    pub ty: Seq<char>,
    pub span: Span,
}

/// A struct as the specifications see it.
pub struct SStruct {
    pub name: Seq<char>,
    pub fields: Seq<SField>,
    pub is_private: bool,
    pub span: Span,
}

/// A comptime constant as the specifications see it.
pub struct SComptime {
    pub name: Seq<char>,
    pub value: SExpr,
    pub is_private: bool,
    pub span: Span,
}

/// An import as the specifications see it.
pub struct SImport {
    pub path: Seq<char>,
    pub span: Span,
}

/// A program as the specifications see it.
#[verifier::ext_equal]
pub struct SProgram {
    pub imports: Seq<SImport>,
    pub functions: Seq<SFunction>,
    pub enums: Seq<SEnum>,
    pub structs: Seq<SStruct>,
    pub comptimes: Seq<SComptime>,
}

pub open spec fn param_view(p: Param) -> SParam {
    SParam { name: p.name@, ty: p.ty_name@, span: p.span }
}

pub open spec fn function_view(f: Function) -> SFunction {
    SFunction {
        name: f.name@,
        params: f.params@.map_values(|p: Param| param_view(p)),
        return_type: opt_text(f.return_type),
        can_fail: f.can_fail,
        is_private: f.is_private,
        body: block_view(f.body),
        span: f.span,
    }
}

pub open spec fn enum_view(e: EnumDef) -> SEnum {
    SEnum { name: e.name@, variants: e.variants@.map_values(|v: String| v@), is_private: e.is_private, span: e.span }
}

pub open spec fn field_view(f: StructField) -> SField {
    SField { name: f.name@, ty: f.ty_name@, span: f.span }
}

pub open spec fn struct_view(s: StructDef) -> SStruct {
    SStruct {
        name: s.name@,
        fields: s.fields@.map_values(|f: StructField| field_view(f)),
        is_private: s.is_private,
        span: s.span,
    }
}

pub open spec fn comptime_view(c: ComptimeDef) -> SComptime {
    SComptime { name: c.name@, value: expr_view(c.value), is_private: c.is_private, span: c.span }
}

pub open spec fn import_view(d: ImportDecl) -> SImport {
    SImport { path: d.path@, span: d.span }
}

/// A program as the specifications see it.
pub open spec fn program_view(p: Program) -> SProgram {
    SProgram {
        imports: p.imports@.map_values(|d: ImportDecl| import_view(d)),
        functions: p.functions@.map_values(|f: Function| function_view(f)),
        enums: p.enums@.map_values(|e: EnumDef| enum_view(e)),
        structs: p.structs@.map_values(|s: StructDef| struct_view(s)),
        comptimes: p.comptimes@.map_values(|c: ComptimeDef| comptime_view(c)),
    }
}

/// `import "path";` at `i`; its span ends where the next token starts.
#[verifier::opaque]
pub open spec fn pimport(t: Seq<Token>, i: int) -> Parsed<SImport> {
    if t[i].kind != TokenKind::Import {
        expect_fail(t, i, TokenKind::Import)
    } else {
        match t[i + 1].kind {
            TokenKind::StringLit(p) => if t[i + 2].kind == TokenKind::Semicolon {
                Parsed::Done(SImport { path: p@, span: upto(t, i, i + 3) }, i + 3)
            } else {
                expect_fail(t, i + 2, TokenKind::Semicolon)
            },
            _ => fail_at(t, i + 1, "expected string path after 'import', found "@),
        }
    }
}

/// `comptime let NAME = value;` at `i`.
#[verifier::opaque]
pub open spec fn pcomptime(t: Seq<Token>, i: int) -> Parsed<SComptime> {
    if t[i].kind != TokenKind::Comptime {
        expect_fail(t, i, TokenKind::Comptime)
    } else if t[i + 1].kind != TokenKind::Let {
        expect_fail(t, i + 1, TokenKind::Let)
    } else {
        match t[i + 2].kind {
            TokenKind::Ident(n) => if t[i + 3].kind != TokenKind::Equals {
                expect_fail(t, i + 3, TokenKind::Equals)
            } else {
                match pexpr(t, i + 4, 0) {
                    Parsed::Done(v, e) => if t[e].kind == TokenKind::Semicolon {
                        Parsed::Done(SComptime { name: n@, value: v, is_private: false, span: upto(t, i, e + 1) }, e + 1)
                    } else {
                        expect_fail(t, e, TokenKind::Semicolon)
                    },
                    Parsed::Failed(a, b) => Parsed::Failed(a, b),
                }
            },
            _ => fail_at(t, i + 2, "expected identifier, found "@),
        }
    }
}

/// Enum variants from `i` up to the `}` (a trailing comma allowed).
pub open spec fn pvariants(t: Seq<Token>, i: int, acc: Seq<Seq<char>>) -> Parsed<Seq<Seq<char>>>
    decreases t.len() - i,
{
    if !(0 <= i < t.len()) {
        stray(t, i)
    } else if t[i].kind == TokenKind::RBrace {
        Parsed::Done(acc, i)
    } else if acc.len() > 0 && t[i].kind != TokenKind::Comma {
        expect_fail(t, i, TokenKind::Comma)
    } else {
        let j = if acc.len() > 0 { i + 1 } else { i };
        if acc.len() > 0 && t[j].kind == TokenKind::RBrace {
            Parsed::Done(acc, j)
        } else {
            match t[j].kind {
                TokenKind::Ident(v) => if j + 1 <= t.len() {
                    pvariants(t, j + 1, acc.push(v@))
                } else {
                    stray(t, i)
                },
                _ => fail_at(t, j, "expected identifier, found "@),
            }
        }
    }
}

/// `enum Name { ... }` at `i`; its span ends where its `}` starts.
#[verifier::opaque]
pub open spec fn penum(t: Seq<Token>, i: int) -> Parsed<SEnum> {
    if t[i].kind != TokenKind::Enum {
        expect_fail(t, i, TokenKind::Enum)
    } else {
        match t[i + 1].kind {
            TokenKind::Ident(n) => if t[i + 2].kind != TokenKind::LBrace {
                expect_fail(t, i + 2, TokenKind::LBrace)
            } else {
                match pvariants(t, i + 3, Seq::empty()) {
                    Parsed::Done(vs, k) => Parsed::Done(
                        SEnum { name: n@, variants: vs, is_private: false, span: upto(t, i, k) },
                        k + 1,
                    ),
                    Parsed::Failed(a, b) => Parsed::Failed(a, b),
                }
            },
            _ => fail_at(t, i + 1, "expected identifier, found "@),
        }
    }
}

/// Struct fields from `i` up to the `}` (a trailing comma allowed).
pub open spec fn pfielddefs(t: Seq<Token>, i: int, acc: Seq<SField>) -> Parsed<Seq<SField>>
    decreases t.len() - i,
{
    if !(0 <= i < t.len()) {
        stray(t, i)
    } else if t[i].kind == TokenKind::RBrace {
        Parsed::Done(acc, i)
    } else if acc.len() > 0 && t[i].kind != TokenKind::Comma {
        expect_fail(t, i, TokenKind::Comma)
    } else {
        let j = if acc.len() > 0 { i + 1 } else { i };
        if acc.len() > 0 && t[j].kind == TokenKind::RBrace {
            Parsed::Done(acc, j)
        } else {
            match t[j].kind {
                TokenKind::Ident(f) => if t[j + 1].kind != TokenKind::Colon {
                    expect_fail(t, j + 1, TokenKind::Colon)
                } else {
                    match ptype(t, j + 2) {
                        Parsed::Done(ty, k) => if i < k <= t.len() {
                            pfielddefs(t, k, acc.push(SField { name: f@, ty, span: upto(t, j, k) }))
                        } else {
                            stray(t, i)
                        },
                        Parsed::Failed(a, b) => Parsed::Failed(a, b),
                    }
                },
                _ => fail_at(t, j, "expected identifier, found "@),
            }
        }
    }
}

/// `struct Name { ... }` at `i`; its span ends where its `}` starts.
#[verifier::opaque]
pub open spec fn pstruct(t: Seq<Token>, i: int) -> Parsed<SStruct> {
    if t[i].kind != TokenKind::Struct {
        expect_fail(t, i, TokenKind::Struct)
    } else {
        match t[i + 1].kind {
            TokenKind::Ident(n) => if t[i + 2].kind != TokenKind::LBrace {
                expect_fail(t, i + 2, TokenKind::LBrace)
            } else {
                match pfielddefs(t, i + 3, Seq::empty()) {
                    Parsed::Done(fs, k) => Parsed::Done(
                        SStruct { name: n@, fields: fs, is_private: false, span: upto(t, i, k) },
                        k + 1,
                    ),
                    Parsed::Failed(a, b) => Parsed::Failed(a, b),
                }
            },
            _ => fail_at(t, i + 1, "expected identifier, found "@),
        }
    }
}

/// Function parameters from `i` up to the `)`.
pub open spec fn pparams(t: Seq<Token>, i: int, acc: Seq<SParam>) -> Parsed<Seq<SParam>>
    decreases t.len() - i,
{
    if !(0 <= i < t.len()) {
        stray(t, i)
    } else if t[i].kind == TokenKind::RParen {
        Parsed::Done(acc, i)
    } else if acc.len() > 0 && t[i].kind != TokenKind::Comma {
        expect_fail(t, i, TokenKind::Comma)
    } else {
        let j = if acc.len() > 0 { i + 1 } else { i };
        match t[j].kind {
            TokenKind::Ident(n) => if t[j + 1].kind != TokenKind::Colon {
                expect_fail(t, j + 1, TokenKind::Colon)
            } else {
                match ptype(t, j + 2) {
                    Parsed::Done(ty, k) => if i < k <= t.len() {
                        pparams(t, k, acc.push(SParam { name: n@, ty, span: upto(t, j, k) }))
                    } else {
                        stray(t, i)
                    },
                    Parsed::Failed(a, b) => Parsed::Failed(a, b),
                }
            },
            _ => fail_at(t, j, "expected identifier, found "@),
        }
    }
}

/// The body of a function whose header ends before `p`.
pub open spec fn pfunction_body(
    t: Seq<Token>,
    i: int,
    name: Seq<char>,
    params: Seq<SParam>,
    ret: Option<Seq<char>>,
    can_fail: bool,
    p: int,
) -> Parsed<SFunction> {
    match pblock(t, p) {
        Parsed::Done(b, q) => Parsed::Done(
            SFunction { name, params, return_type: ret, can_fail, is_private: false, body: b, span: upto(t, i, q) },
            q,
        ),
        Parsed::Failed(a, b) => Parsed::Failed(a, b),
    }
}

/// `fn name(params) [-> type [! str]] { ... }` at `i`; its span ends where
/// the token after its body starts.
#[verifier::opaque]
pub open spec fn pfunction(t: Seq<Token>, i: int) -> Parsed<SFunction> {
    if t[i].kind != TokenKind::Fn {
        expect_fail(t, i, TokenKind::Fn)
    } else {
        match t[i + 1].kind {
            TokenKind::Ident(n) => if t[i + 2].kind != TokenKind::LParen {
                expect_fail(t, i + 2, TokenKind::LParen)
            } else {
                match pparams(t, i + 3, Seq::empty()) {
                    Parsed::Done(ps, k) => if t[k + 1].kind == TokenKind::Arrow {
                        match ptype(t, k + 2) {
                            Parsed::Done(ty, m) => if t[m].kind == TokenKind::Bang {
                                match t[m + 1].kind {
                                    TokenKind::Ident(et) => if et@ == "str"@ {
                                        pfunction_body(t, i, n@, ps, Some(ty), true, m + 2)
                                    } else {
                                        Parsed::Failed(
                                            "expected 'str' after '!' in return type, got '"@ + et@ + "'"@,
                                            t[m + 2].span,
                                        )
                                    },
                                    _ => fail_at(t, m + 1, "expected identifier, found "@),
                                }
                            } else {
                                pfunction_body(t, i, n@, ps, Some(ty), false, m)
                            },
                            Parsed::Failed(a, b) => Parsed::Failed(a, b),
                        }
                    } else {
                        pfunction_body(t, i, n@, ps, None, false, k + 1)
                    },
                    Parsed::Failed(a, b) => Parsed::Failed(a, b),
                }
            },
            _ => fail_at(t, i + 1, "expected identifier, found "@),
        }
    }
}

/// The top-level items from `i` to the end: each may be marked `priv`
/// (but an import may not); an item starting with neither `import`,
/// `enum`, `struct` nor `comptime` is a function.
pub open spec fn pprogram(t: Seq<Token>, i: int, acc: SProgram) -> Parsed<SProgram>
    decreases t.len() - i,
{
    if !(0 <= i < t.len()) {
        stray(t, i)
    } else if t[i].kind == TokenKind::Eof {
        Parsed::Done(acc, i)
    } else {
        let p = t[i].kind == TokenKind::Priv;
        let j = if p { i + 1 } else { i };
        if t[j].kind == TokenKind::Import {
            if p {
                Parsed::Failed("import declarations cannot be private"@, t[j].span)
            } else {
                match pimport(t, j) {
                    Parsed::Done(d, k) => if i < k <= t.len() {
                        pprogram(t, k, SProgram { imports: acc.imports.push(d), ..acc })
                    } else {
                        stray(t, i)
                    },
                    Parsed::Failed(a, b) => Parsed::Failed(a, b),
                }
            }
        } else if t[j].kind == TokenKind::Enum {
            match penum(t, j) {
                Parsed::Done(e, k) => if i < k <= t.len() {
                    pprogram(t, k, SProgram { enums: acc.enums.push(SEnum { is_private: p, ..e }), ..acc })
                } else {
                    stray(t, i)
                },
                Parsed::Failed(a, b) => Parsed::Failed(a, b),
            }
        } else if t[j].kind == TokenKind::Struct {
            match pstruct(t, j) {
                Parsed::Done(st, k) => if i < k <= t.len() {
                    pprogram(t, k, SProgram { structs: acc.structs.push(SStruct { is_private: p, ..st }), ..acc })
                } else {
                    stray(t, i)
                },
                Parsed::Failed(a, b) => Parsed::Failed(a, b),
            }
        } else if t[j].kind == TokenKind::Comptime {
            match pcomptime(t, j) {
                Parsed::Done(c, k) => if i < k <= t.len() {
                    pprogram(t, k, SProgram { comptimes: acc.comptimes.push(SComptime { is_private: p, ..c }), ..acc })
                } else {
                    stray(t, i)
                },
                Parsed::Failed(a, b) => Parsed::Failed(a, b),
            }
        } else {
            match pfunction(t, j) {
                Parsed::Done(f, k) => if i < k <= t.len() {
                    pprogram(t, k, SProgram { functions: acc.functions.push(SFunction { is_private: p, ..f }), ..acc })
                } else {
                    stray(t, i)
                },
                Parsed::Failed(a, b) => Parsed::Failed(a, b),
            }
        }
    }
}

/// The empty program.
pub open spec fn empty_sprogram() -> SProgram {
    SProgram {
        imports: Seq::empty(),
        functions: Seq::empty(),
        enums: Seq::empty(),
        structs: Seq::empty(),
        comptimes: Seq::empty(),
    }
}

/// Mapping a sequence with one more element maps that element last.
pub proof fn lemma_map_push<A, B>(s: Seq<A>, a: A, f: spec_fn(A) -> B)
    ensures
        s.push(a).map_values(f) == s.map_values(f).push(f(a)),
{
    assert(s.push(a).map_values(f) =~= s.map_values(f).push(f(a)));
}

/// A parse result agrees with a value, wherever the parse ended.
pub open spec fn outcome_as<T, S>(r: Result<T, crate::error::CompileError>, p: Parsed<S>, view: spec_fn(T) -> S) -> bool {
    match (r, p) {
        (Ok(v), Parsed::Done(sv, _)) => view(v) == sv,
        (Err(err), Parsed::Failed(m, s)) => err.message@ == m && err.span == Some(s),
        _ => false,
    }
}

/// Whether `e` is the integer literal `v`.
pub open spec fn is_int(e: SExpr, v: i64) -> bool {
    e matches SExpr::Int(x, _) && x == v
}

/// Whether `e` applies `op` to operands `l` and `r` (spans aside).
pub open spec fn is_binary(e: SExpr, op: BinOp, l: spec_fn(SExpr) -> bool, r: spec_fn(SExpr) -> bool) -> bool {
    e matches SExpr::Binary(o, a, b, _) && o == op && l(*a) && r(*b)
}

/// The binary operator a token stands for.
pub open spec fn binary_token_op(k: TokenKind) -> Option<BinOp> {
    match k {
        TokenKind::PipePipe => Some(BinOp::Or),
        TokenKind::AmpAmp => Some(BinOp::And),
        TokenKind::EqualEqual => Some(BinOp::Eq),
        TokenKind::BangEqual => Some(BinOp::Neq),
        TokenKind::Less => Some(BinOp::Lt),
        TokenKind::Greater => Some(BinOp::Gt),
        TokenKind::LessEqual => Some(BinOp::Lte),
        TokenKind::GreaterEqual => Some(BinOp::Gte),
        TokenKind::Plus => Some(BinOp::Add),
        TokenKind::Minus => Some(BinOp::Sub),
        TokenKind::Star => Some(BinOp::Mul),
        TokenKind::Slash => Some(BinOp::Div),
        TokenKind::Percent => Some(BinOp::Mod),
        _ => None,
    }
}

/// How tightly a binary operator binds, loosest first: `||`, then `&&`,
/// then `==` and `!=`, then `<`, `>`, `<=`, `>=`, then `+` and `-`, then
/// `*`, `/` and `%`.
pub open spec fn precedence(op: BinOp) -> nat {
    match op {
        BinOp::Or => 1,
        BinOp::And => 2,
        BinOp::Eq | BinOp::Neq => 3,
        BinOp::Lt | BinOp::Gt | BinOp::Lte | BinOp::Gte => 4,
        BinOp::Add | BinOp::Sub => 5,
        BinOp::Mul | BinOp::Div | BinOp::Mod => 6,
    }
}

/// Precedence and associativity of binary operators: for every three
/// integer literals `a`, `b`, `c` and every two binary operators, `a op1 b
/// op2 c` parses as `a op1 (b op2 c)` when `op2` binds tighter than `op1`,
/// and as `(a op1 b) op2 c` otherwise (operators of one level group to the
/// left); the expression ends before the first token that cannot continue
/// it.
pub proof fn lemma_precedence(t: Seq<Token>, i: int, a: i64, b: i64, c: i64)
    requires
        0 <= i,
        i + 5 < t.len(),
        t[i].kind == TokenKind::Int(a),
        t[i + 2].kind == TokenKind::Int(b),
        t[i + 4].kind == TokenKind::Int(c),
        binary_token_op(t[i + 1].kind) is Some,
        binary_token_op(t[i + 3].kind) is Some,
        !continues(t[i + 5].kind, 0),
    ensures
        ({
            let op1 = binary_token_op(t[i + 1].kind)->Some_0;
            let op2 = binary_token_op(t[i + 3].kind)->Some_0;
            pexpr(t, i, 0) matches Parsed::Done(e, j) && j == i + 5 && if precedence(op2) > precedence(op1) {
                is_binary(
                    e,
                    op1,
                    |x: SExpr| is_int(x, a),
                    |x: SExpr| is_binary(x, op2, |y: SExpr| is_int(y, b), |y: SExpr| is_int(y, c)),
                )
            } else {
                is_binary(
                    e,
                    op2,
                    |x: SExpr| is_binary(x, op1, |y: SExpr| is_int(y, a), |y: SExpr| is_int(y, b)),
                    |x: SExpr| is_int(x, c),
                )
            }
        }),
{
    let k1 = t[i + 1].kind;
    let k3 = t[i + 3].kind;
    let o1 = binary_token_op(k1)->Some_0;
    let o2 = binary_token_op(k3)->Some_0;
    assert(infix_bp(k1) == Some((o1, precedence(o1) as u8)));
    assert(infix_bp(k3) == Some((o2, precedence(o2) as u8)));
    let bp1 = precedence(o1) as u8;
    let bp2 = precedence(o2) as u8;
    let k5 = t[i + 5].kind;
    assert(infix_bp(k5) is None || infix_bp(k5)->Some_0.1 == 0);
    let ic = SExpr::Int(c, t[i + 4].span);
    let ib = SExpr::Int(b, t[i + 2].span);
    let ia = SExpr::Int(a, t[i].span);
    assert(ploop(t, i + 5, ic, bp2) == Parsed::Done(ic, i + 5));
    assert(pexpr(t, i + 4, bp2) == Parsed::Done(ic, i + 5));
    if bp2 > bp1 {
        let bc = SExpr::Binary(o2, Box::new(ib), Box::new(ic), join(sspan(ib), sspan(ic)));
        assert(ploop(t, i + 5, bc, bp1) == Parsed::Done(bc, i + 5));
        assert(ploop(t, i + 3, ib, bp1) == Parsed::Done(bc, i + 5));
        assert(pexpr(t, i + 2, bp1) == Parsed::Done(bc, i + 5));
        let abc = SExpr::Binary(o1, Box::new(ia), Box::new(bc), join(sspan(ia), sspan(bc)));
        assert(ploop(t, i + 5, abc, 0) == Parsed::Done(abc, i + 5));
        assert(ploop(t, i + 1, ia, 0) == Parsed::Done(abc, i + 5));
        assert(pexpr(t, i, 0) == Parsed::Done(abc, i + 5));
    } else {
        assert(ploop(t, i + 3, ib, bp1) == Parsed::Done(ib, i + 3));
        assert(pexpr(t, i + 2, bp1) == Parsed::Done(ib, i + 3));
        let ab = SExpr::Binary(o1, Box::new(ia), Box::new(ib), join(sspan(ia), sspan(ib)));
        let abc = SExpr::Binary(o2, Box::new(ab), Box::new(ic), join(sspan(ab), sspan(ic)));
        assert(ploop(t, i + 5, abc, 0) == Parsed::Done(abc, i + 5));
        assert(ploop(t, i + 3, ab, 0) == Parsed::Done(abc, i + 5));
        assert(ploop(t, i + 1, ia, 0) == Parsed::Done(abc, i + 5));
        assert(pexpr(t, i, 0) == Parsed::Done(abc, i + 5));
    }
}

} // verus!
