//! Parser — parses tokens into an AST.
//!
//! Recursive descent for statements and Pratt parsing for expressions.
//! Binding powers, from loosest to tightest:
//!   `|>` and `||` → 1, `&&` → 2, `==` `!=` → 3, `<` `>` `<=` `>=` → 4,
//!   `+` `-` → 5, `*` `/` `%` → 6, prefix `-` `!` `try` → 7.

pub mod grammar;

use vstd::prelude::*;
use crate::ast::{
    BinOp, Block, ComptimeDef, EnumDef, Expr, Function, ImportDecl, MatchArm, Param, Pattern, Program,
    Stmt, StructDef, StructField, UnaryOp,
};
use crate::error::{CompileError, Span};
use crate::lexer::token::{has_payload, is_kind, kind_debug_text, push_kind_debug, Token, TokenKind};
use crate::text::{push_i64, push_str, push_string, str_is, string_of};
use crate::parser::grammar::{
    arms_view, block_view, comptime_view, empty_sprogram, enum_view, expr_view, exprs_view, field_view,
    fields_view, function_view, import_view, param_view, parms, pargs, parsed_as, pblock, pcomptime, pelems,
    penum, pexpr, pexpr_stmt, pfielddefs, pfields, pfunction, pimport, ploop, pparams, ppattern, pprefix,
    pattern_view, pprogram, program_view, pstmt, pstmts, pstruct, ptype, pvariants, result_as,
    stmt_view, stmts_view, struct_view, Parsed, SField,
    SParam, SProgram,
};

verus! {

// ── Specification helpers ───────────────────────────────

/// The span an expression records.
pub open spec fn span_of(e: Expr) -> Span {
    match e {
        Expr::IntLit { span, .. } => span,
        Expr::BoolLit { span, .. } => span,
        Expr::StringLit { span, .. } => span,
        Expr::Ident { span, .. } => span,
        Expr::BinaryOp { span, .. } => span,
        Expr::UnaryOp { span, .. } => span,
        Expr::Call { span, .. } => span,
        Expr::ArrayLit { span, .. } => span,
        Expr::Index { span, .. } => span,
        Expr::EnumVariant { span, .. } => span,
        Expr::StructLit { span, .. } => span,
        Expr::FieldAccess { span, .. } => span,
        Expr::Try { span, .. } => span,
        Expr::Cast { span, .. } => span,
    }
}

/// The binary operator a token stands for, with its binding power.
pub open spec fn infix_bp(k: TokenKind) -> Option<(BinOp, u8)> {
    match k {
        TokenKind::PipePipe => Some((BinOp::Or, 1u8)),
        TokenKind::AmpAmp => Some((BinOp::And, 2u8)),
        TokenKind::EqualEqual => Some((BinOp::Eq, 3u8)),
        TokenKind::BangEqual => Some((BinOp::Neq, 3u8)),
        TokenKind::Less => Some((BinOp::Lt, 4u8)),
        TokenKind::Greater => Some((BinOp::Gt, 4u8)),
        TokenKind::LessEqual => Some((BinOp::Lte, 4u8)),
        TokenKind::GreaterEqual => Some((BinOp::Gte, 4u8)),
        TokenKind::Plus => Some((BinOp::Add, 5u8)),
        TokenKind::Minus => Some((BinOp::Sub, 5u8)),
        TokenKind::Star => Some((BinOp::Mul, 6u8)),
        TokenKind::Slash => Some((BinOp::Div, 6u8)),
        TokenKind::Percent => Some((BinOp::Mod, 6u8)),
        _ => None,
    }
}

/// Whether an expression parsed with minimum binding power `min_bp` would
/// continue past a token of kind `k` (postfix, pipe, or a binary operator
/// that binds tighter than `min_bp`).
pub open spec fn continues(k: TokenKind, min_bp: u8) -> bool {
    ||| k is LBracket
    ||| k is Dot
    ||| k is As
    ||| (k is PipeArrow && 1 > min_bp)
    ||| (infix_bp(k) matches Some((_, bp)) && bp > min_bp)
}

/// Whether a token can start an expression.
pub open spec fn starts_expr(k: TokenKind) -> bool {
    ||| k is Int
    ||| k is True
    ||| k is False
    ||| k is StringLit
    ||| k is Ident
    ||| k is Minus
    ||| k is Bang
    ||| k is LParen
    ||| k is Try
    ||| k is LBracket
}

/// The statement kind that a statement starting with a token of kind `k` has.
pub open spec fn stmt_starts(k: TokenKind, s: Stmt) -> bool {
    match k {
        TokenKind::Let => s is Let,
        TokenKind::Return => s is Return,
        TokenKind::Defer => s is Defer,
        TokenKind::Fail => s is Fail,
        TokenKind::If => s is If,
        TokenKind::While => s is While,
        TokenKind::For => s is For,
        TokenKind::Break => s is Break,
        TokenKind::Continue => s is Continue,
        TokenKind::Match => s is Match,
        _ => s is Assign || s is IndexAssign || s is FieldAssign || s is Expr || s is TailExpr,
    }
}

/// The message for an unexpected token.
pub open spec fn expected_msg(expected: TokenKind, found: TokenKind) -> Seq<char> {
    "expected "@ + kind_debug_text(expected) + ", found "@ + kind_debug_text(found)
}

/// The parser: a cursor over a token stream that ends with `Eof`.
pub struct Parser {
    tokens: Vec<Token>,
    pos: usize,
}

/// The parser's state after a step: well formed, same tokens, cursor not moved back.
pub open spec fn kept(a: Parser, b: Parser) -> bool {
    &&& b.wf()
    &&& b.toks() == a.toks()
    &&& a.at() <= b.at()
}

impl Parser {
    /// The token stream.
    pub closed spec fn toks(&self) -> Seq<Token> {
        self.tokens@
    }

    /// The index of the current token.
    pub closed spec fn at(&self) -> int {
        self.pos as int
    }

    /// The kind of the current token.
    pub open spec fn cur(&self) -> TokenKind {
        self.toks()[self.at()].kind
    }

    /// The stream is non-empty, ends with `Eof`, and the cursor is inside it.
    pub closed spec fn wf(&self) -> bool {
        &&& self.tokens@.len() > 0
        &&& self.tokens@.len() < usize::MAX
        &&& self.pos < self.tokens@.len()
        &&& self.tokens@.last().kind == TokenKind::Eof
    }

    pub fn new(tokens: Vec<Token>) -> (p: Self)
        requires
            tokens@.len() > 0,
            tokens@.len() < usize::MAX,
            tokens@.last().kind == TokenKind::Eof,
        ensures
            p.wf(),
            p.toks() == tokens@,
            p.at() == 0,
    {
        Parser { tokens, pos: 0 }
    }

    // ── Helpers ──────────────────────────────────────────

    /// Whether the current token is of the (value-less) kind `k`.
    fn check(&self, k: &TokenKind) -> (r: bool)
        requires
            self.wf(),
            !has_payload(*k),
        ensures
            r == (self.cur() == *k),
    {
        is_kind(&self.tokens[self.pos].kind, k)
    }

    /// The current token's span.
    fn span(&self) -> (s: Span)
        requires
            self.wf(),
        ensures
            s == self.toks()[self.at()].span,
    {
        self.tokens[self.pos].span
    }

    /// Move past the current token (never past the final `Eof`).
    fn advance(&mut self)
        requires
            old(self).wf(),
        ensures
            kept(*old(self), *final(self)),
            old(self).cur() != TokenKind::Eof ==> final(self).at() == old(self).at() + 1,
    {
        if self.pos + 1 < self.tokens.len() {
            self.pos += 1;
        }
    }

    /// Whether the token `offset` places ahead is of kind `k` (past the end counts as `Eof`).
    fn ahead_is(&self, offset: usize, k: &TokenKind) -> (r: bool)
        requires
            self.wf(),
            !has_payload(*k),
        ensures
            r == if self.at() + offset < self.toks().len() {
                self.toks()[self.at() + offset].kind == *k
            } else {
                *k == TokenKind::Eof
            },
    {
        if offset < self.tokens.len() - self.pos {
            is_kind(&self.tokens[self.pos + offset].kind, k)
        } else {
            is_kind(&TokenKind::Eof, k)
        }
    }

    /// Check if the current `{` starts a struct literal (next tokens: `Ident :` or `}`).
    fn is_struct_literal(&self) -> (r: bool)
        requires
            self.wf(),
        ensures
            r == if self.at() + 1 < self.toks().len() && self.toks()[self.at() + 1].kind is Ident {
                self.at() + 2 < self.toks().len() && self.toks()[self.at() + 2].kind == TokenKind::Colon
            } else {
                self.at() + 1 < self.toks().len() && self.toks()[self.at() + 1].kind == TokenKind::RBrace
            },
    {
        let next_is_ident = 1 < self.tokens.len() - self.pos && matches!(self.tokens[self.pos + 1].kind, TokenKind::Ident(_));
        if next_is_ident {
            self.ahead_is(2, &TokenKind::Colon)
        } else {
            1 < self.tokens.len() - self.pos && is_kind(&self.tokens[self.pos + 1].kind, &TokenKind::RBrace)
        }
    }

    /// The error for an unexpected token, with the current token's span.
    fn unexpected(&self, what: &str) -> (e: CompileError)
        requires
            self.wf(),
        ensures
            e.message@ == what@ + kind_debug_text(self.cur()),
            e.span == Some(self.toks()[self.at()].span),
    {
        let mut msg = string_of(what);
        push_kind_debug(&mut msg, &self.tokens[self.pos].kind);
        CompileError::new(msg.as_str(), self.span())
    }

    /// Expect the current token to be a specific kind, consume it, or error.
    fn expect(&mut self, expected: &TokenKind) -> (r: Result<Span, CompileError>)
        requires
            old(self).wf(),
            !has_payload(*expected),
            *expected != TokenKind::Eof,
        ensures
            kept(*old(self), *final(self)),
            match r {
                Ok(sp) => old(self).cur() == *expected && sp == old(self).toks()[old(self).at()].span
                    && final(self).at() == old(self).at() + 1,
                Err(e) => old(self).cur() != *expected
                    && e.message@ == expected_msg(*expected, old(self).cur())
                    && e.span == Some(old(self).toks()[old(self).at()].span),
            },
    {
        if self.check(expected) {
            let span = self.span();
            self.advance();
            Ok(span)
        } else {
            let mut msg = string_of("expected ");
            push_kind_debug(&mut msg, expected);
            push_str(&mut msg, ", found ");
            push_kind_debug(&mut msg, &self.tokens[self.pos].kind);
            assert(msg@ =~= expected_msg(*expected, self.cur()));
            Err(CompileError::new(msg.as_str(), self.span()))
        }
    }

    /// Expect an identifier, consume it, and return its name.
    fn expect_ident(&mut self) -> (r: Result<(String, Span), CompileError>)
        requires
            old(self).wf(),
        ensures
            kept(*old(self), *final(self)),
            match r {
                Ok((name, sp)) => old(self).cur() matches TokenKind::Ident(n) && name@ == n@
                    && sp == old(self).toks()[old(self).at()].span
                    && final(self).at() == old(self).at() + 1,
                Err(e) => !(old(self).cur() is Ident)
                    && e.message@ == "expected identifier, found "@ + kind_debug_text(old(self).cur())
                    && e.span == Some(old(self).toks()[old(self).at()].span),
            },
    {
        if let TokenKind::Ident(name) = &self.tokens[self.pos].kind {
            let name = name.clone();
            let span = self.span();
            self.advance();
            Ok((name, span))
        } else {
            Err(self.unexpected("expected identifier, found "))
        }
    }

    /// Parse a type name: `i64`, `str`, `bool`, or `[elem; N]` for arrays.
    fn parse_type_name(&mut self) -> (r: Result<(String, Span), CompileError>)
        requires
            old(self).wf(),
        ensures
            kept(*old(self), *final(self)),
            r is Ok ==> final(self).at() > old(self).at(),
            match (r, old(self).cur()) {
                (Ok((name, _)), TokenKind::Ident(n)) => name@ == n@,
                _ => true,
            },
            result_as(r, final(self).at(), ptype(old(self).toks(), old(self).at()), |p: (String, Span)| p.0@),
    {
        if self.check(&TokenKind::LBracket) {
            let start = self.span();
            self.advance();
            let (elem, _) = self.expect_ident()?;
            self.expect(&TokenKind::Semicolon)?;
            let size = match &self.tokens[self.pos].kind {
                TokenKind::Int(n) => {
                    let n = *n;
                    self.advance();
                    n
                },
                _ => {
                    return Err(self.unexpected("expected array size, found "));
                },
            };
            let end = self.span();
            self.expect(&TokenKind::RBracket)?;
            let mut name = string_of("[");
            push_string(&mut name, &elem);
            push_str(&mut name, "; ");
            push_i64(&mut name, size);
            push_str(&mut name, "]");
            Ok((name, Span::new(start.start, end.end)))
        } else {
            self.expect_ident()
        }
    }

    // ── Program ─────────────────────────────────────────

    /// Parse a full program: a list of top-level items.
    #[verifier::rlimit(60)]
    pub fn parse_program(&mut self) -> (r: Result<Program, CompileError>)
        requires
            old(self).wf(),
        ensures
            kept(*old(self), *final(self)),
            r is Ok ==> final(self).cur() == TokenKind::Eof,
            r matches Ok(p) ==> p.imports@.len() + p.functions@.len() + p.enums@.len() + p.structs@.len()
                + p.comptimes@.len() <= final(self).at() - old(self).at(),
            result_as(
                r,
                final(self).at(),
                pprogram(old(self).toks(), old(self).at(), empty_sprogram()),
                |p: Program| program_view(p),
            ),
    {
        let ghost t = self.toks();
        let ghost i0 = self.at();
        let mut imports: Vec<ImportDecl> = Vec::new();
        let mut functions: Vec<Function> = Vec::new();
        let mut enums: Vec<EnumDef> = Vec::new();
        let mut structs: Vec<StructDef> = Vec::new();
        let mut comptimes: Vec<ComptimeDef> = Vec::new();
        assert(program_view(Program { imports, functions, enums, structs, comptimes }) =~= empty_sprogram());
        while !self.check(&TokenKind::Eof)
            invariant
                kept(*old(self), *self),
                imports@.len() + functions@.len() + enums@.len() + structs@.len() + comptimes@.len()
                    <= self.at() - old(self).at(),
                t == old(self).toks(),
                i0 == old(self).at(),
                pprogram(t, self.at(), program_view(Program { imports, functions, enums, structs, comptimes }))
                    == pprogram(t, i0, empty_sprogram()),
            decreases self.toks().len() - self.at(),
        {
            let ghost at0 = self.at();
            let ghost acc = program_view(Program { imports, functions, enums, structs, comptimes });
            // Check for `priv` modifier
            let is_private = if self.check(&TokenKind::Priv) {
                self.advance();
                true
            } else {
                false
            };
            if self.check(&TokenKind::Import) {
                if is_private {
                    return Err(CompileError::new("import declarations cannot be private", self.span()));
                }
                let d = self.parse_import()?;
                let ghost before = imports@;
                imports.push(d);
                proof {
                    grammar::lemma_map_push(before, imports@.last(), |x: ImportDecl| import_view(x));
                }
                assert(program_view(Program { imports, functions, enums, structs, comptimes }) =~= SProgram {
                    imports: acc.imports.push(import_view(d)),
                    ..acc
                });
            } else if self.check(&TokenKind::Enum) {
                let mut e = self.parse_enum_def()?;
                e.is_private = is_private;
                let ghost before = enums@;
                enums.push(e);
                proof {
                    grammar::lemma_map_push(before, enums@.last(), |x: EnumDef| enum_view(x));
                }
                assert(program_view(Program { imports, functions, enums, structs, comptimes }) =~= SProgram {
                    enums: acc.enums.push(enum_view(e)),
                    ..acc
                });
            } else if self.check(&TokenKind::Struct) {
                let mut st = self.parse_struct_def()?;
                st.is_private = is_private;
                let ghost before = structs@;
                structs.push(st);
                proof {
                    grammar::lemma_map_push(before, structs@.last(), |x: StructDef| struct_view(x));
                }
                assert(program_view(Program { imports, functions, enums, structs, comptimes }) =~= SProgram {
                    structs: acc.structs.push(struct_view(st)),
                    ..acc
                });
            } else if self.check(&TokenKind::Comptime) {
                let mut c = self.parse_comptime_def()?;
                c.is_private = is_private;
                let ghost before = comptimes@;
                comptimes.push(c);
                proof {
                    grammar::lemma_map_push(before, comptimes@.last(), |x: ComptimeDef| comptime_view(x));
                }
                assert(program_view(Program { imports, functions, enums, structs, comptimes }) =~= SProgram {
                    comptimes: acc.comptimes.push(comptime_view(c)),
                    ..acc
                });
            } else {
                let mut f = self.parse_function()?;
                f.is_private = is_private;
                let ghost before = functions@;
                functions.push(f);
                proof {
                    grammar::lemma_map_push(before, functions@.last(), |x: Function| function_view(x));
                }
                assert(program_view(Program { imports, functions, enums, structs, comptimes }) =~= SProgram {
                    functions: acc.functions.push(function_view(f)),
                    ..acc
                });
            }
        }
        Ok(Program { imports, functions, enums, structs, comptimes })
    }

    /// Parse: `import "path.ferro";`
    fn parse_import(&mut self) -> (r: Result<ImportDecl, CompileError>)
        requires
            old(self).wf(),
        ensures
            kept(*old(self), *final(self)),
            r is Ok ==> final(self).at() > old(self).at(),
            r matches Ok(d) ==> (old(self).at() + 1 < old(self).toks().len()
                && (old(self).toks()[old(self).at() + 1].kind matches TokenKind::StringLit(p) && d.path == p)),
            result_as(r, final(self).at(), pimport(old(self).toks(), old(self).at()), |d: ImportDecl| import_view(d)),
    {
        proof {
            reveal(pimport);
        }
        let start = self.span();
        self.expect(&TokenKind::Import)?;
        // Expect a string literal for the path
        let path = match &self.tokens[self.pos].kind {
            TokenKind::StringLit(p) => {
                let p = p.clone();
                self.advance();
                p
            },
            _ => {
                return Err(self.unexpected("expected string path after 'import', found "));
            },
        };
        self.expect(&TokenKind::Semicolon)?;
        Ok(ImportDecl { path, span: Span::new(start.start, self.span().start) })
    }

    /// Parse: `comptime let NAME = expr;`
    fn parse_comptime_def(&mut self) -> (r: Result<ComptimeDef, CompileError>)
        requires
            old(self).wf(),
        ensures
            kept(*old(self), *final(self)),
            r is Ok ==> final(self).at() > old(self).at(),
            r matches Ok(c) ==> !c.is_private,
            result_as(
                r,
                final(self).at(),
                pcomptime(old(self).toks(), old(self).at()),
                |c: ComptimeDef| comptime_view(c),
            ),
    {
        proof {
            reveal(pcomptime);
        }
        let start = self.span();
        self.expect(&TokenKind::Comptime)?;
        self.expect(&TokenKind::Let)?;
        let (name, _) = self.expect_ident()?;
        self.expect(&TokenKind::Equals)?;
        let value = self.parse_expr()?;
        self.expect(&TokenKind::Semicolon)?;
        Ok(ComptimeDef { name, value, is_private: false, span: Span::new(start.start, self.span().start) })
    }

    /// Parse: `fn name(params) -> return_type { body }`
    #[verifier::rlimit(60)]
    fn parse_function(&mut self) -> (r: Result<Function, CompileError>)
        requires
            old(self).wf(),
        ensures
            kept(*old(self), *final(self)),
            r is Ok ==> final(self).at() > old(self).at() && old(self).cur() == TokenKind::Fn,
            r matches Ok(f) ==> !f.is_private && (f.can_fail ==> f.return_type is Some),
            result_as(r, final(self).at(), pfunction(old(self).toks(), old(self).at()), |f: Function| function_view(f)),
    {
        proof {
            reveal(pfunction);
        }
        let ghost t = self.toks();
        let ghost i0 = self.at();
        let start = self.span();
        self.expect(&TokenKind::Fn)?;
        let (name, _) = self.expect_ident()?;
        self.expect(&TokenKind::LParen)?;
        // Parse parameter list
        let mut params: Vec<Param> = Vec::new();
        assert(params@.map_values(|p: Param| param_view(p)) =~= Seq::<SParam>::empty());
        while !self.check(&TokenKind::RParen)
            invariant
                kept(*old(self), *self),
                self.at() > old(self).at(),
                old(self).cur() == TokenKind::Fn,
                t == old(self).toks(),
                i0 == old(self).at(),
                t[i0 + 1].kind matches TokenKind::Ident(n) && n@ == name@,
                t[i0 + 2].kind == TokenKind::LParen,
                pparams(t, self.at(), params@.map_values(|p: Param| param_view(p))) == pparams(
                    t,
                    i0 + 3,
                    Seq::empty(),
                ),
            decreases self.toks().len() - self.at(),
        {
            proof {
                reveal(pfunction);
            }
            if params.len() > 0 {
                self.expect(&TokenKind::Comma)?;
            }
            let param_start = self.span();
            let (param_name, _) = self.expect_ident()?;
            self.expect(&TokenKind::Colon)?;
            let (ty_name, _) = self.parse_type_name()?;
            let p = Param { name: param_name, ty_name, span: Span::new(param_start.start, self.span().start) };
            let ghost before = params@;
            params.push(p);
            proof {
                grammar::lemma_map_push(before, params@.last(), |p: Param| param_view(p));
            }
        }
        self.expect(&TokenKind::RParen)?;
        // Optional return type: `-> type` or `-> type ! str`
        let mut return_type: Option<String> = None;
        let mut can_fail = false;
        if self.check(&TokenKind::Arrow) {
            self.advance();
            let (ty_name, _) = self.parse_type_name()?;
            return_type = Some(ty_name);
            // Check for `! str` (failable)
            if self.check(&TokenKind::Bang) {
                self.advance();
                let (err_type, _) = self.expect_ident()?;
                if !str_is(&err_type, "str") {
                    let mut msg = string_of("expected 'str' after '!' in return type, got '");
                    push_string(&mut msg, &err_type);
                    push_str(&mut msg, "'");
                    return Err(CompileError::new(msg.as_str(), self.span()));
                }
                can_fail = true;
            }
        }
        let body = self.parse_block()?;
        let end = self.span();
        Ok(Function {
            name,
            params,
            return_type,
            can_fail,
            is_private: false,
            body,
            span: Span::new(start.start, end.start),
        })
    }

    /// Parse: `enum Name { Variant1, Variant2, ... }`
    fn parse_enum_def(&mut self) -> (r: Result<EnumDef, CompileError>)
        requires
            old(self).wf(),
        ensures
            kept(*old(self), *final(self)),
            r is Ok ==> final(self).at() > old(self).at(),
            r matches Ok(e) ==> !e.is_private,
            result_as(r, final(self).at(), penum(old(self).toks(), old(self).at()), |e: EnumDef| enum_view(e)),
    {
        proof {
            reveal(penum);
        }
        let ghost t = self.toks();
        let ghost i0 = self.at();
        let start = self.span();
        self.expect(&TokenKind::Enum)?;
        let (name, _) = self.expect_ident()?;
        self.expect(&TokenKind::LBrace)?;
        let mut variants: Vec<String> = Vec::new();
        assert(variants@.map_values(|v: String| v@) =~= Seq::<Seq<char>>::empty());
        while !self.check(&TokenKind::RBrace)
            invariant
                kept(*old(self), *self),
                self.at() > old(self).at(),
                t == old(self).toks(),
                i0 == old(self).at(),
                t[i0].kind == TokenKind::Enum,
                t[i0 + 1].kind matches TokenKind::Ident(n) && n@ == name@,
                t[i0 + 2].kind == TokenKind::LBrace,
                pvariants(t, self.at(), variants@.map_values(|v: String| v@)) == pvariants(t, i0 + 3, Seq::empty()),
            ensures
                self.cur() == TokenKind::RBrace,
            decreases self.toks().len() - self.at(),
        {
            proof {
                reveal(penum);
            }
            if variants.len() > 0 {
                self.expect(&TokenKind::Comma)?;
                // Allow trailing comma
                if self.check(&TokenKind::RBrace) {
                    break;
                }
            }
            let (variant_name, _) = self.expect_ident()?;
            let ghost before = variants@;
            let ghost vn = variant_name@;
            variants.push(variant_name);
            proof {
                grammar::lemma_map_push(before, variants@.last(), |v: String| v@);
            }
            assert(variants@.map_values(|v: String| v@) == before.map_values(|v: String| v@).push(vn));
        }
        let end = self.span();
        self.expect(&TokenKind::RBrace)?;
        Ok(EnumDef { name, variants, is_private: false, span: Span::new(start.start, end.start) })
    }

    /// Parse: `struct Name { field: type, ... }`
    fn parse_struct_def(&mut self) -> (r: Result<StructDef, CompileError>)
        requires
            old(self).wf(),
        ensures
            kept(*old(self), *final(self)),
            r is Ok ==> final(self).at() > old(self).at(),
            r matches Ok(st) ==> !st.is_private,
            result_as(r, final(self).at(), pstruct(old(self).toks(), old(self).at()), |s: StructDef| struct_view(s)),
    {
        proof {
            reveal(pstruct);
        }
        let ghost t = self.toks();
        let ghost i0 = self.at();
        let start = self.span();
        self.expect(&TokenKind::Struct)?;
        let (name, _) = self.expect_ident()?;
        self.expect(&TokenKind::LBrace)?;
        let mut fields: Vec<StructField> = Vec::new();
        assert(fields@.map_values(|f: StructField| field_view(f)) =~= Seq::<SField>::empty());
        while !self.check(&TokenKind::RBrace)
            invariant
                kept(*old(self), *self),
                self.at() > old(self).at(),
                t == old(self).toks(),
                i0 == old(self).at(),
                t[i0].kind == TokenKind::Struct,
                t[i0 + 1].kind matches TokenKind::Ident(n) && n@ == name@,
                t[i0 + 2].kind == TokenKind::LBrace,
                pfielddefs(t, self.at(), fields@.map_values(|f: StructField| field_view(f))) == pfielddefs(
                    t,
                    i0 + 3,
                    Seq::empty(),
                ),
            ensures
                self.cur() == TokenKind::RBrace,
            decreases self.toks().len() - self.at(),
        {
            proof {
                reveal(pstruct);
            }
            if fields.len() > 0 {
                self.expect(&TokenKind::Comma)?;
                if self.check(&TokenKind::RBrace) {
                    break;  // trailing comma
                }
            }
            let field_start = self.span();
            let (field_name, _) = self.expect_ident()?;
            self.expect(&TokenKind::Colon)?;
            let (ty_name, _) = self.parse_type_name()?;
            let f = StructField { name: field_name, ty_name, span: Span::new(field_start.start, self.span().start) };
            let ghost before = fields@;
            let ghost fv = field_view(f);
            fields.push(f);
            proof {
                grammar::lemma_map_push(before, fields@.last(), |f: StructField| field_view(f));
            }
        }
        let end = self.span();
        self.expect(&TokenKind::RBrace)?;
        Ok(StructDef { name, fields, is_private: false, span: Span::new(start.start, end.start) })
    }

    // ── Blocks ──────────────────────────────────────────

    /// Parse: `{ stmt1; stmt2; ... }`
    fn parse_block(&mut self) -> (r: Result<Block, CompileError>)
        requires
            old(self).wf(),
        ensures
            kept(*old(self), *final(self)),
            r is Ok ==> final(self).at() > old(self).at() && old(self).cur() == TokenKind::LBrace
                && final(self).toks()[final(self).at() - 1].kind == TokenKind::RBrace,
            result_as(r, final(self).at(), pblock(old(self).toks(), old(self).at()), |b: Block| block_view(b)),
        decreases old(self).toks().len() - old(self).at(), 0nat,
    {
        let ghost t = self.toks();
        let ghost i0 = self.at();
        let start = self.span();
        self.expect(&TokenKind::LBrace)?;
        let mut stmts: Vec<Stmt> = Vec::new();
        while !self.check(&TokenKind::RBrace)
            invariant
                kept(*old(self), *self),
                self.at() > old(self).at(),
                old(self).cur() == TokenKind::LBrace,
                t == old(self).toks(),
                i0 == old(self).at(),
                pstmts(t, self.at(), stmts_view(stmts@)) == pstmts(t, i0 + 1, Seq::empty()),
            decreases self.toks().len() - self.at(),
        {
            let st = self.parse_stmt()?;
            let ghost before = stmts@;
            stmts.push(st);
            assert(stmts@.drop_last() =~= before);
        }
        self.expect(&TokenKind::RBrace)?;
        let end = self.span();
        Ok(Block { stmts, span: Span::new(start.start, end.start) })
    }

    // ── Statements ──────────────────────────────────────

    /// Parse a single statement.
    fn parse_stmt(&mut self) -> (r: Result<Stmt, CompileError>)
        requires
            old(self).wf(),
        ensures
            kept(*old(self), *final(self)),
            r is Ok ==> final(self).at() > old(self).at(),
            r matches Ok(st) ==> stmt_starts(old(self).cur(), st),
            result_as(r, final(self).at(), pstmt(old(self).toks(), old(self).at()), |s: Stmt| stmt_view(s)),
        decreases old(self).toks().len() - old(self).at(), 5nat,
    {
        if self.check(&TokenKind::Let) {
            self.parse_let()
        } else if self.check(&TokenKind::Return) {
            self.parse_return()
        } else if self.check(&TokenKind::Defer) {
            self.parse_defer()
        } else if self.check(&TokenKind::Fail) {
            self.parse_fail()
        } else if self.check(&TokenKind::If) {
            self.parse_if()
        } else if self.check(&TokenKind::While) {
            self.parse_while()
        } else if self.check(&TokenKind::For) {
            self.parse_for()
        } else if self.check(&TokenKind::Break) {
            self.parse_break()
        } else if self.check(&TokenKind::Continue) {
            self.parse_continue()
        } else if self.check(&TokenKind::Match) {
            self.parse_match()
        } else {
            self.parse_expr_or_assign_stmt()
        }
    }

    /// Parse: `let [mut] name [: type] = expr;`
    fn parse_let(&mut self) -> (r: Result<Stmt, CompileError>)
        requires
            old(self).wf(),
            old(self).cur() == TokenKind::Let,
        ensures
            kept(*old(self), *final(self)),
            r is Ok ==> final(self).at() > old(self).at(),
            r matches Ok(st) ==> st matches Stmt::Let { mutable, .. }
                && mutable == (old(self).toks()[old(self).at() + 1].kind == TokenKind::Mut),
            result_as(r, final(self).at(), pstmt(old(self).toks(), old(self).at()), |s: Stmt| stmt_view(s)),
        decreases old(self).toks().len() - old(self).at(), 4nat,
    {
        let start = self.span();
        self.expect(&TokenKind::Let)?;
        let mutable = if self.check(&TokenKind::Mut) {
            self.advance();
            true
        } else {
            false
        };
        let (name, _) = self.expect_ident()?;
        // Optional type annotation: `: type`
        let ty_name = if self.check(&TokenKind::Colon) {
            self.advance();
            let (t, _) = self.parse_type_name()?;
            Some(t)
        } else {
            None
        };
        self.expect(&TokenKind::Equals)?;
        let value = self.parse_expr()?;
        self.expect(&TokenKind::Semicolon)?;
        Ok(Stmt::Let { name, mutable, ty_name, value, span: Span::new(start.start, self.span().start) })
    }

    /// Parse: `return [expr];`
    fn parse_return(&mut self) -> (r: Result<Stmt, CompileError>)
        requires
            old(self).wf(),
            old(self).cur() == TokenKind::Return,
        ensures
            kept(*old(self), *final(self)),
            r is Ok ==> final(self).at() > old(self).at(),
            r matches Ok(st) ==> st matches Stmt::Return { value, .. }
                && (value is None <==> old(self).toks()[old(self).at() + 1].kind == TokenKind::Semicolon),
            result_as(r, final(self).at(), pstmt(old(self).toks(), old(self).at()), |s: Stmt| stmt_view(s)),
        decreases old(self).toks().len() - old(self).at(), 4nat,
    {
        let start = self.span();
        self.expect(&TokenKind::Return)?;
        let value = if !self.check(&TokenKind::Semicolon) {
            Some(self.parse_expr()?)
        } else {
            None
        };
        self.expect(&TokenKind::Semicolon)?;
        Ok(Stmt::Return { value, span: Span::new(start.start, self.span().start) })
    }

    /// Parse: `defer expr;`
    fn parse_defer(&mut self) -> (r: Result<Stmt, CompileError>)
        requires
            old(self).wf(),
            old(self).cur() == TokenKind::Defer,
        ensures
            kept(*old(self), *final(self)),
            r is Ok ==> final(self).at() > old(self).at(),
            r matches Ok(st) ==> st is Defer,
            result_as(r, final(self).at(), pstmt(old(self).toks(), old(self).at()), |s: Stmt| stmt_view(s)),
        decreases old(self).toks().len() - old(self).at(), 4nat,
    {
        let start = self.span();
        self.expect(&TokenKind::Defer)?;
        let expr = self.parse_expr()?;
        self.expect(&TokenKind::Semicolon)?;
        Ok(Stmt::Defer { expr, span: Span::new(start.start, self.span().start) })
    }

    /// Parse: `fail expr;`
    fn parse_fail(&mut self) -> (r: Result<Stmt, CompileError>)
        requires
            old(self).wf(),
            old(self).cur() == TokenKind::Fail,
        ensures
            kept(*old(self), *final(self)),
            r is Ok ==> final(self).at() > old(self).at(),
            r matches Ok(st) ==> st is Fail,
            result_as(r, final(self).at(), pstmt(old(self).toks(), old(self).at()), |s: Stmt| stmt_view(s)),
        decreases old(self).toks().len() - old(self).at(), 4nat,
    {
        let start = self.span();
        self.expect(&TokenKind::Fail)?;
        let message = self.parse_expr()?;
        self.expect(&TokenKind::Semicolon)?;
        Ok(Stmt::Fail { message, span: Span::new(start.start, self.span().start) })
    }

    /// Parse: `if condition { ... } [else { ... }]`
    fn parse_if(&mut self) -> (r: Result<Stmt, CompileError>)
        requires
            old(self).wf(),
            old(self).cur() == TokenKind::If,
        ensures
            kept(*old(self), *final(self)),
            r is Ok ==> final(self).at() > old(self).at(),
            r matches Ok(st) ==> st is If,
            result_as(r, final(self).at(), pstmt(old(self).toks(), old(self).at()), |s: Stmt| stmt_view(s)),
        decreases old(self).toks().len() - old(self).at(), 4nat,
    {
        let start = self.span();
        self.expect(&TokenKind::If)?;
        let condition = self.parse_expr()?;
        let then_block = self.parse_block()?;
        let else_block = if self.check(&TokenKind::Else) {
            self.advance();
            Some(self.parse_block()?)
        } else {
            None
        };
        Ok(Stmt::If { condition, then_block, else_block, span: Span::new(start.start, self.span().start) })
    }

    /// Parse: `while condition { ... }`
    fn parse_while(&mut self) -> (r: Result<Stmt, CompileError>)
        requires
            old(self).wf(),
            old(self).cur() == TokenKind::While,
        ensures
            kept(*old(self), *final(self)),
            r is Ok ==> final(self).at() > old(self).at(),
            r matches Ok(st) ==> st is While,
            result_as(r, final(self).at(), pstmt(old(self).toks(), old(self).at()), |s: Stmt| stmt_view(s)),
        decreases old(self).toks().len() - old(self).at(), 4nat,
    {
        let start = self.span();
        self.expect(&TokenKind::While)?;
        let condition = self.parse_expr()?;
        let body = self.parse_block()?;
        Ok(Stmt::While { condition, body, span: Span::new(start.start, self.span().start) })
    }

    /// Parse: `for var in start..end { body }`
    fn parse_for(&mut self) -> (r: Result<Stmt, CompileError>)
        requires
            old(self).wf(),
            old(self).cur() == TokenKind::For,
        ensures
            kept(*old(self), *final(self)),
            r is Ok ==> final(self).at() > old(self).at(),
            r matches Ok(st) ==> st is For,
            result_as(r, final(self).at(), pstmt(old(self).toks(), old(self).at()), |s: Stmt| stmt_view(s)),
        decreases old(self).toks().len() - old(self).at(), 4nat,
    {
        let start = self.span();
        self.expect(&TokenKind::For)?;
        let (var, _) = self.expect_ident()?;
        self.expect(&TokenKind::In)?;
        // parse before `..` (binds tighter than comparison)
        let start_expr = self.parse_expr_bp(5)?;
        self.expect(&TokenKind::DotDot)?;
        let end_expr = self.parse_expr_bp(5)?;
        let body = self.parse_block()?;
        Ok(Stmt::For { var, start: start_expr, end: end_expr, body, span: Span::new(start.start, self.span().start) })
    }

    /// Parse: `break;`
    fn parse_break(&mut self) -> (r: Result<Stmt, CompileError>)
        requires
            old(self).wf(),
            old(self).cur() == TokenKind::Break,
        ensures
            kept(*old(self), *final(self)),
            r is Ok ==> final(self).at() > old(self).at(),
            r matches Ok(st) ==> st is Break,
            result_as(r, final(self).at(), pstmt(old(self).toks(), old(self).at()), |s: Stmt| stmt_view(s)),
    {
        let start = self.span();
        self.expect(&TokenKind::Break)?;
        self.expect(&TokenKind::Semicolon)?;
        Ok(Stmt::Break { span: Span::new(start.start, self.span().start) })
    }

    /// Parse: `continue;`
    fn parse_continue(&mut self) -> (r: Result<Stmt, CompileError>)
        requires
            old(self).wf(),
            old(self).cur() == TokenKind::Continue,
        ensures
            kept(*old(self), *final(self)),
            r is Ok ==> final(self).at() > old(self).at(),
            r matches Ok(st) ==> st is Continue,
            result_as(r, final(self).at(), pstmt(old(self).toks(), old(self).at()), |s: Stmt| stmt_view(s)),
    {
        let start = self.span();
        self.expect(&TokenKind::Continue)?;
        self.expect(&TokenKind::Semicolon)?;
        Ok(Stmt::Continue { span: Span::new(start.start, self.span().start) })
    }

    /// Parse: `match expr { pattern => { body } ... }`
    fn parse_match(&mut self) -> (r: Result<Stmt, CompileError>)
        requires
            old(self).wf(),
            old(self).cur() == TokenKind::Match,
        ensures
            kept(*old(self), *final(self)),
            r is Ok ==> final(self).at() > old(self).at(),
            r matches Ok(st) ==> st is Match,
            result_as(r, final(self).at(), pstmt(old(self).toks(), old(self).at()), |s: Stmt| stmt_view(s)),
        decreases old(self).toks().len() - old(self).at(), 4nat,
    {
        let ghost t = self.toks();
        let ghost i0 = self.at();
        let start = self.span();
        self.expect(&TokenKind::Match)?;
        let subject = self.parse_expr()?;
        let ghost e = self.at();
        self.expect(&TokenKind::LBrace)?;
        let mut arms: Vec<MatchArm> = Vec::new();
        while !self.check(&TokenKind::RBrace)
            invariant
                kept(*old(self), *self),
                self.at() > old(self).at(),
                t == old(self).toks(),
                i0 == old(self).at(),
                e + 1 <= self.at(),
                i0 < e,
                t[i0].kind == TokenKind::Match,
                t[e].kind == TokenKind::LBrace,
                pexpr(t, i0 + 1, 0) == Parsed::Done(expr_view(subject), e),
                parms(t, self.at(), arms_view(arms@)) == parms(t, e + 1, Seq::empty()),
            decreases self.toks().len() - self.at(),
        {
            let arm_start = self.span();
            let pattern = self.parse_pattern()?;
            self.expect(&TokenKind::FatArrow)?;
            let body = self.parse_block()?;
            let a = MatchArm { pattern, body, span: Span::new(arm_start.start, self.span().start) };
            let ghost before = arms@;
            arms.push(a);
            assert(arms@.drop_last() =~= before);
        }
        self.expect(&TokenKind::RBrace)?;
        Ok(Stmt::Match { subject, arms, span: Span::new(start.start, self.span().start) })
    }

    /// Parse a match pattern: integer, boolean, `_` wildcard, or `Enum::Variant`.
    fn parse_pattern(&mut self) -> (r: Result<Pattern, CompileError>)
        requires
            old(self).wf(),
        ensures
            kept(*old(self), *final(self)),
            r is Ok ==> final(self).at() > old(self).at(),
            old(self).cur() matches TokenKind::Int(v) ==> r == Ok::<Pattern, CompileError>(
                Pattern::IntLit(v, old(self).toks()[old(self).at()].span)),
            old(self).cur() == TokenKind::True ==> r == Ok::<Pattern, CompileError>(
                Pattern::BoolLit(true, old(self).toks()[old(self).at()].span)),
            old(self).cur() == TokenKind::False ==> r == Ok::<Pattern, CompileError>(
                Pattern::BoolLit(false, old(self).toks()[old(self).at()].span)),
            result_as(r, final(self).at(), ppattern(old(self).toks(), old(self).at()), |p: Pattern| pattern_view(p)),
    {
        let span = self.span();
        match &self.tokens[self.pos].kind {
            TokenKind::Int(v) => {
                let v = *v;
                self.advance();
                Ok(Pattern::IntLit(v, span))
            },
            TokenKind::True => {
                self.advance();
                Ok(Pattern::BoolLit(true, span))
            },
            TokenKind::False => {
                self.advance();
                Ok(Pattern::BoolLit(false, span))
            },
            TokenKind::Ident(name) => {
                let name = name.clone();
                self.advance();
                if str_is(&name, "_") {
                    return Ok(Pattern::Wildcard(span));
                }
                // Check for `::` — enum variant pattern
                if self.check(&TokenKind::ColonColon) {
                    self.advance();
                    let (variant, end_span) = self.expect_ident()?;
                    Ok(Pattern::EnumVariant(name, variant, Span::new(span.start, end_span.end)))
                } else {
                    let mut msg = string_of("expected pattern (integer, bool, _, or Enum::Variant), found identifier '");
                    push_string(&mut msg, &name);
                    push_str(&mut msg, "'");
                    Err(CompileError::new(msg.as_str(), span))
                }
            },
            _ => Err(self.unexpected("expected pattern (integer, bool, _, or Enum::Variant), found ")),
        }
    }

    /// Parse an expression-statement, assignment, or tail expression.
    /// `expr;` is a statement, `name = expr;` an assignment, and `expr` with no
    /// `;` before `}` a tail (implicit return) expression.
    fn parse_expr_or_assign_stmt(&mut self) -> (r: Result<Stmt, CompileError>)
        requires
            old(self).wf(),
        ensures
            kept(*old(self), *final(self)),
            r is Ok ==> final(self).at() > old(self).at(),
            r matches Ok(st) ==> st is Assign || st is IndexAssign || st is FieldAssign || st is Expr || st is TailExpr,
            r matches Ok(st) && st is TailExpr ==> final(self).cur() == TokenKind::RBrace,
            result_as(r, final(self).at(), pexpr_stmt(old(self).toks(), old(self).at()), |s: Stmt| stmt_view(s)),
        decreases old(self).toks().len() - old(self).at(), 4nat,
    {
        proof {
            reveal_with_fuel(expr_view, 2);
        }
        let start = self.span();
        let expr = self.parse_expr()?;
        // Assignment: `name = expr;`, `name[i] = expr;` or `name.field = expr;`
        if self.check(&TokenKind::Equals) {
            self.advance();
            match expr {
                Expr::Ident { name, .. } => {
                    let value = self.parse_expr()?;
                    self.expect(&TokenKind::Semicolon)?;
                    return Ok(Stmt::Assign { name, value, span: Span::new(start.start, self.span().start) });
                },
                Expr::Index { object, index, .. } => {
                    match *object {
                        Expr::Ident { name, .. } => {
                            let value = self.parse_expr()?;
                            self.expect(&TokenKind::Semicolon)?;
                            return Ok(Stmt::IndexAssign {
                                object: name,
                                index: *index,
                                value,
                                span: Span::new(start.start, self.span().start),
                            });
                        },
                        _ => {
                            return Err(CompileError::new(
                                "invalid index assignment target",
                                Span::new(start.start, self.span().start),
                            ));
                        },
                    }
                },
                Expr::FieldAccess { object, field, .. } => {
                    match *object {
                        Expr::Ident { name, .. } => {
                            let value = self.parse_expr()?;
                            self.expect(&TokenKind::Semicolon)?;
                            return Ok(Stmt::FieldAssign {
                                object: name,
                                field,
                                value,
                                span: Span::new(start.start, self.span().start),
                            });
                        },
                        _ => {
                            return Err(CompileError::new(
                                "invalid field assignment target",
                                Span::new(start.start, self.span().start),
                            ));
                        },
                    }
                },
                _ => {
                    return Err(CompileError::new(
                        "invalid assignment target",
                        Span::new(start.start, self.span().start),
                    ));
                },
            }
        }
        // `}` right after the expression (no semicolon): a tail expression
        if self.check(&TokenKind::RBrace) {
            return Ok(Stmt::TailExpr { expr, span: Span::new(start.start, self.span().start) });
        }
        self.expect(&TokenKind::Semicolon)?;
        Ok(Stmt::Expr { expr, span: Span::new(start.start, self.span().start) })
    }

    // ── Expressions (Pratt parsing) ─────────────────────

    /// Parse an expression.
    pub fn parse_expr(&mut self) -> (r: Result<Expr, CompileError>)
        requires
            old(self).wf(),
        ensures
            kept(*old(self), *final(self)),
            r is Ok ==> final(self).at() > old(self).at() && !continues(final(self).cur(), 0),
            !starts_expr(old(self).cur()) ==> r is Err,
            parsed_as(r, final(self).at(), pexpr(old(self).toks(), old(self).at(), 0)),
        decreases old(self).toks().len() - old(self).at(), 3nat,
    {
        self.parse_expr_bp(0)
    }

    /// Parse an expression whose operators all bind tighter than `min_bp`.
    fn parse_expr_bp(&mut self, min_bp: u8) -> (r: Result<Expr, CompileError>)
        requires
            old(self).wf(),
        ensures
            kept(*old(self), *final(self)),
            r is Ok ==> final(self).at() > old(self).at() && !continues(final(self).cur(), min_bp),
            !starts_expr(old(self).cur()) ==> r is Err,
            parsed_as(r, final(self).at(), pexpr(old(self).toks(), old(self).at(), min_bp)),
        decreases old(self).toks().len() - old(self).at(), 2nat,
    {
        let ghost t = self.toks();
        let ghost i0 = self.at();
        // The left-hand side: literals, identifiers, unary ops, parens
        let mut lhs = self.parse_prefix()?;
        // Then postfix and binary operators, as long as they bind tighter than `min_bp`
        loop
            invariant
                kept(*old(self), *self),
                self.at() > old(self).at(),
                t == old(self).toks(),
                i0 == old(self).at(),
                ploop(t, self.at(), expr_view(lhs), min_bp) == pexpr(t, i0, min_bp),
            ensures
                !continues(self.cur(), min_bp),
                ploop(t, self.at(), expr_view(lhs), min_bp) == pexpr(t, i0, min_bp),
                ploop(t, self.at(), expr_view(lhs), min_bp) == Parsed::Done(expr_view(lhs), self.at()),
            decreases self.toks().len() - self.at(),
        {
            // Postfix: indexing `expr[index]`
            if self.check(&TokenKind::LBracket) {
                let start_span = lhs.span();
                self.advance();
                let index = self.parse_expr()?;
                let end = self.span();
                self.expect(&TokenKind::RBracket)?;
                lhs = Expr::Index { object: Box::new(lhs), index: Box::new(index), span: Span::new(start_span.start, end.end) };
                continue;
            }
            // Postfix: field access `expr.field`
            if self.check(&TokenKind::Dot) {
                let start_span = lhs.span();
                self.advance();
                let (field, end_span) = self.expect_ident()?;
                lhs = Expr::FieldAccess { object: Box::new(lhs), field, span: Span::new(start_span.start, end_span.end) };
                continue;
            }
            // Postfix: type cast `expr as type`
            if self.check(&TokenKind::As) {
                let start_span = lhs.span();
                self.advance();
                let (target, end_span) = self.expect_ident()?;
                lhs = Expr::Cast { expr: Box::new(lhs), target, span: Span::new(start_span.start, end_span.end) };
                continue;
            }
            // Pipe: `a |> f` is `f(a)`, `a |> f(b, c)` is `f(a, b, c)`
            if self.check(&TokenKind::PipeArrow) {
                let pipe_bp: u8 = 1;  // lowest precedence
                if pipe_bp <= min_bp {
                    break;
                }
                self.advance();
                let start_span = lhs.span();
                let rhs = self.parse_prefix()?;
                lhs = match rhs {
                    Expr::Call { name, args, span } => {
                        let mut args = args;
                        let ghost before = args@;
                        let ghost lv = expr_view(lhs);
                        args.insert(0, lhs);
                        proof {
                            grammar::lemma_exprs_view(before);
                            grammar::lemma_exprs_view(args@);
                            assert forall|j: int| 0 <= j < args@.len() implies exprs_view(args@)[j] == (seq![lv]
                                + exprs_view(before))[j] by {
                                assert(exprs_view(args@)[j] == expr_view(args@[j]));
                                if j > 0 {
                                    assert(args@[j] == before[j - 1]);
                                    assert(exprs_view(before)[j - 1] == expr_view(before[j - 1]));
                                }
                            }
                            assert(exprs_view(args@) =~= seq![lv] + exprs_view(before));
                        }
                        Expr::Call { name, args, span: Span::new(start_span.start, span.end) }
                    },
                    Expr::Ident { name, span } => {
                        let mut args: Vec<Expr> = Vec::new();
                        let ghost lv = expr_view(lhs);
                        args.push(lhs);
                        proof {
                            grammar::lemma_exprs_view(args@);
                            assert(exprs_view(args@) =~= seq![lv]);
                        }
                        Expr::Call { name, args, span: Span::new(start_span.start, span.end) }
                    },
                    _ => {
                        return Err(CompileError::new(
                            "right side of |> must be a function name or call",
                            self.span(),
                        ));
                    },
                };
                continue;
            }
            let (op, bp) = match infix_op(&self.tokens[self.pos].kind) {
                Some(x) => x,
                None => {
                    break;  // not a binary operator — stop
                },
            };
            // Left-associative: only continue if binding power is strictly greater
            if bp <= min_bp {
                break;
            }
            self.advance();
            let start_span = lhs.span();
            let rhs = self.parse_expr_bp(bp)?;
            let end_span = rhs.span();
            lhs = Expr::BinaryOp { op, left: Box::new(lhs), right: Box::new(rhs), span: Span::new(start_span.start, end_span.end) };
        }
        Ok(lhs)
    }

    /// Parse a prefix expression: literals, identifiers, calls, unary ops, parens.
    fn parse_prefix(&mut self) -> (r: Result<Expr, CompileError>)
        requires
            old(self).wf(),
        ensures
            kept(*old(self), *final(self)),
            r is Ok ==> final(self).at() > old(self).at(),
            !starts_expr(old(self).cur()) ==> (r matches Err(e) && e.message@ == "expected expression, found "@
                + kind_debug_text(old(self).cur())),
            old(self).cur() matches TokenKind::Int(v) ==> r == Ok::<Expr, CompileError>(
                Expr::IntLit { value: v, span: old(self).toks()[old(self).at()].span }),
            old(self).cur() matches TokenKind::StringLit(v) ==> r == Ok::<Expr, CompileError>(
                Expr::StringLit { value: v, span: old(self).toks()[old(self).at()].span }),
            old(self).cur() == TokenKind::True ==> r == Ok::<Expr, CompileError>(
                Expr::BoolLit { value: true, span: old(self).toks()[old(self).at()].span }),
            old(self).cur() == TokenKind::False ==> r == Ok::<Expr, CompileError>(
                Expr::BoolLit { value: false, span: old(self).toks()[old(self).at()].span }),
            old(self).cur() == TokenKind::Minus ==> (r matches Ok(e) ==> e matches Expr::UnaryOp { op: UnaryOp::Neg, .. }),
            old(self).cur() == TokenKind::Bang ==> (r matches Ok(e) ==> e matches Expr::UnaryOp { op: UnaryOp::Not, .. }),
            old(self).cur() == TokenKind::Try ==> (r matches Ok(e) ==> e is Try),
            old(self).cur() == TokenKind::LBracket ==> (r matches Ok(e) ==> e is ArrayLit),
            parsed_as(r, final(self).at(), pprefix(old(self).toks(), old(self).at())),
        decreases old(self).toks().len() - old(self).at(), 1nat,
    {
        let span = self.span();
        match &self.tokens[self.pos].kind {
            TokenKind::Int(v) => {
                let value = *v;
                self.advance();
                Ok(Expr::IntLit { value, span })
            },
            TokenKind::True => {
                self.advance();
                Ok(Expr::BoolLit { value: true, span })
            },
            TokenKind::False => {
                self.advance();
                Ok(Expr::BoolLit { value: false, span })
            },
            TokenKind::StringLit(v) => {
                let value = v.clone();
                self.advance();
                Ok(Expr::StringLit { value, span })
            },
            TokenKind::Ident(n) => {
                let name = n.clone();
                self.advance();
                // Enum variant: `Name::Variant`
                if self.check(&TokenKind::ColonColon) {
                    self.advance();
                    let (variant, end_span) = self.expect_ident()?;
                    return Ok(Expr::EnumVariant { enum_name: name, variant, span: Span::new(span.start, end_span.end) });
                }
                // Function call: `name(`
                if self.check(&TokenKind::LParen) {
                    self.advance();
                    let mut args: Vec<Expr> = Vec::new();
                    let ghost t = self.toks();
                    let ghost i0 = old(self).at();
                    assert(self.at() == i0 + 2);
                    while !self.check(&TokenKind::RParen)
                        invariant
                            kept(*old(self), *self),
                            self.at() > old(self).at(),
                            old(self).cur() is Ident,
                            t == old(self).toks(),
                            i0 == old(self).at(),
                            t[i0 + 1].kind == TokenKind::LParen,
                            i0 + 2 <= t.len(),
                            exprs_view(args@).len() == args@.len(),
                            pargs(t, self.at(), exprs_view(args@)) == pargs(t, i0 + 2, Seq::empty()),
                        decreases self.toks().len() - self.at(),
                    {
                        if args.len() > 0 {
                            self.expect(&TokenKind::Comma)?;
                        }
                        let e = self.parse_expr()?;
                        let ghost before = args@;
                        args.push(e);
                        assert(args@.drop_last() =~= before);
                    }
                    let end = self.span();
                    self.expect(&TokenKind::RParen)?;
                    Ok(Expr::Call { name, args, span: Span::new(span.start, end.end) })
                } else if self.check(&TokenKind::LBrace) && self.is_struct_literal() {
                    // Struct literal: `Name { field: expr, ... }`
                    self.advance();
                    let mut fields: Vec<(String, Expr)> = Vec::new();
                    let ghost t = self.toks();
                    let ghost i0 = old(self).at();
                    assert(self.at() == i0 + 2);
                    while !self.check(&TokenKind::RBrace)
                        invariant
                            kept(*old(self), *self),
                            self.at() > old(self).at(),
                            old(self).cur() is Ident,
                            t == old(self).toks(),
                            i0 == old(self).at(),
                            t[i0 + 1].kind == TokenKind::LBrace,
                            grammar::struct_literal_at(t, i0 + 1),
                            i0 + 2 <= t.len(),
                            fields_view(fields@).len() == fields@.len(),
                            pfields(t, self.at(), fields_view(fields@)) == pfields(t, i0 + 2, Seq::empty()),
                        ensures
                            self.cur() == TokenKind::RBrace,
                        decreases self.toks().len() - self.at(),
                    {
                        if fields.len() > 0 {
                            self.expect(&TokenKind::Comma)?;
                            if self.check(&TokenKind::RBrace) {
                                break;  // trailing comma
                            }
                        }
                        let (field_name, _) = self.expect_ident()?;
                        self.expect(&TokenKind::Colon)?;
                        let value = self.parse_expr()?;
                        let ghost before = fields@;
                        fields.push((field_name, value));
                        assert(fields@.drop_last() =~= before);
                    }
                    let end = self.span();
                    self.expect(&TokenKind::RBrace)?;
                    Ok(Expr::StructLit { name, fields, span: Span::new(span.start, end.end) })
                } else {
                    Ok(Expr::Ident { name, span })
                }
            },
            // Unary minus: `-expr`
            TokenKind::Minus => {
                self.advance();
                let operand = self.parse_expr_bp(7)?;
                let end = operand.span();
                Ok(Expr::UnaryOp { op: UnaryOp::Neg, operand: Box::new(operand), span: Span::new(span.start, end.end) })
            },
            // Unary not: `!expr`
            TokenKind::Bang => {
                self.advance();
                let operand = self.parse_expr_bp(7)?;
                let end = operand.span();
                Ok(Expr::UnaryOp { op: UnaryOp::Not, operand: Box::new(operand), span: Span::new(span.start, end.end) })
            },
            // Parenthesized expression: `(expr)`
            TokenKind::LParen => {
                self.advance();
                let expr = self.parse_expr()?;
                self.expect(&TokenKind::RParen)?;
                Ok(expr)
            },
            // Try expression: `try expr`
            TokenKind::Try => {
                self.advance();
                let expr = self.parse_expr_bp(7)?;
                let end = expr.span();
                Ok(Expr::Try { expr: Box::new(expr), span: Span::new(span.start, end.end) })
            },
            // Array literal: `[expr, expr, ...]`
            TokenKind::LBracket => {
                self.advance();
                let mut elements: Vec<Expr> = Vec::new();
                let ghost t = self.toks();
                let ghost i0 = old(self).at();
                assert(self.at() == i0 + 1);
                while !self.check(&TokenKind::RBracket)
                    invariant
                        kept(*old(self), *self),
                        self.at() > old(self).at(),
                        old(self).cur() == TokenKind::LBracket,
                        t == old(self).toks(),
                        i0 == old(self).at(),
                        exprs_view(elements@).len() == elements@.len(),
                        pelems(t, self.at(), exprs_view(elements@)) == pelems(t, i0 + 1, Seq::empty()),
                    decreases self.toks().len() - self.at(),
                {
                    if elements.len() > 0 {
                        self.expect(&TokenKind::Comma)?;
                    }
                    let e = self.parse_expr()?;
                    let ghost before = elements@;
                    elements.push(e);
                    assert(elements@.drop_last() =~= before);
                }
                let end = self.span();
                self.expect(&TokenKind::RBracket)?;
                Ok(Expr::ArrayLit { elements, span: Span::new(span.start, end.end) })
            },
            _ => Err(self.unexpected("expected expression, found ")),
        }
    }
}

/// The binary operator and binding power of a token, if it is one.
fn infix_op(k: &TokenKind) -> (r: Option<(BinOp, u8)>)
    ensures
        r == infix_bp(*k),
{
    match k {
        TokenKind::PipePipe => Some((BinOp::Or, 1)),
        TokenKind::AmpAmp => Some((BinOp::And, 2)),
        TokenKind::EqualEqual => Some((BinOp::Eq, 3)),
        TokenKind::BangEqual => Some((BinOp::Neq, 3)),
        TokenKind::Less => Some((BinOp::Lt, 4)),
        TokenKind::Greater => Some((BinOp::Gt, 4)),
        TokenKind::LessEqual => Some((BinOp::Lte, 4)),
        TokenKind::GreaterEqual => Some((BinOp::Gte, 4)),
        TokenKind::Plus => Some((BinOp::Add, 5)),
        TokenKind::Minus => Some((BinOp::Sub, 5)),
        TokenKind::Star => Some((BinOp::Mul, 6)),
        TokenKind::Slash => Some((BinOp::Div, 6)),
        TokenKind::Percent => Some((BinOp::Mod, 6)),
        _ => None,
    }
}

impl Expr {
    /// The span of source this expression covers.
    pub fn span(&self) -> (s: Span)
        ensures
            s == span_of(*self),
    {
        match self {
            Expr::IntLit { span, .. } => *span,
            Expr::BoolLit { span, .. } => *span,
            Expr::StringLit { span, .. } => *span,
            Expr::Ident { span, .. } => *span,
            Expr::BinaryOp { span, .. } => *span,
            Expr::UnaryOp { span, .. } => *span,
            Expr::Call { span, .. } => *span,
            Expr::ArrayLit { span, .. } => *span,
            Expr::Index { span, .. } => *span,
            Expr::EnumVariant { span, .. } => *span,
            Expr::StructLit { span, .. } => *span,
            Expr::FieldAccess { span, .. } => *span,
            Expr::Try { span, .. } => *span,
            Expr::Cast { span, .. } => *span,
        }
    }
}

} // verus!
