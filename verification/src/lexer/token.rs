//! Tokens of the Ferro language.

use vstd::prelude::*;
use crate::error::Span;
use crate::text::{chars_eq, chars_of, debug_string, debug_text, int_text, push_i64, push_str, push_string};

verus! {

/// Every possible token in the Ferro language.
#[derive(Debug, Clone, PartialEq)]
pub enum TokenKind {
    // Literals
    Int(i64),
    StringLit(String),
    // Identifier (variable names, function names, type names)
    Ident(String),
    // Keywords
    Fn,
    Let,
    Mut,
    If,
    Else,
    While,
    Return,
    True,
    False,
    Import,
    Priv,
    Enum,
    Struct,
    Comptime,
    Defer,
    Fail,
    For,
    In,
    Break,
    Continue,
    Match,
    Try,
    As,
    // Operators
    Plus,
    Minus,
    Star,
    Slash,
    Percent,
    Equals,
    EqualEqual,
    BangEqual,
    Less,
    Greater,
    LessEqual,
    GreaterEqual,
    Bang,
    AmpAmp,
    PipePipe,
    Arrow,
    FatArrow,
    PipeArrow,
    // Punctuation
    LParen,
    RParen,
    LBrace,
    RBrace,
    LBracket,
    RBracket,
    Semicolon,
    Colon,
    ColonColon,
    Comma,
    Dot,
    DotDot,
    // Special
    Eof,
}

/// A token with its kind and source location.
#[derive(Debug, Clone, PartialEq)]
pub struct Token {
    pub kind: TokenKind,
    pub span: Span,
}

/// The keyword spelled by `w`, if it is one.
pub open spec fn keyword_kind(w: Seq<char>) -> Option<TokenKind> {
    if w == seq!['f', 'n'] {
        Some(TokenKind::Fn)
    } else if w == seq!['l', 'e', 't'] {
        Some(TokenKind::Let)
    } else if w == seq!['m', 'u', 't'] {
        Some(TokenKind::Mut)
    } else if w == seq!['i', 'f'] {
        Some(TokenKind::If)
    } else if w == seq!['e', 'l', 's', 'e'] {
        Some(TokenKind::Else)
    } else if w == seq!['w', 'h', 'i', 'l', 'e'] {
        Some(TokenKind::While)
    } else if w == seq!['r', 'e', 't', 'u', 'r', 'n'] {
        Some(TokenKind::Return)
    } else if w == seq!['t', 'r', 'u', 'e'] {
        Some(TokenKind::True)
    } else if w == seq!['f', 'a', 'l', 's', 'e'] {
        Some(TokenKind::False)
    } else if w == seq!['i', 'm', 'p', 'o', 'r', 't'] {
        Some(TokenKind::Import)
    } else if w == seq!['p', 'r', 'i', 'v'] {
        Some(TokenKind::Priv)
    } else if w == seq!['e', 'n', 'u', 'm'] {
        Some(TokenKind::Enum)
    } else if w == seq!['s', 't', 'r', 'u', 'c', 't'] {
        Some(TokenKind::Struct)
    } else if w == seq!['c', 'o', 'm', 'p', 't', 'i', 'm', 'e'] {
        Some(TokenKind::Comptime)
    } else if w == seq!['d', 'e', 'f', 'e', 'r'] {
        Some(TokenKind::Defer)
    } else if w == seq!['f', 'a', 'i', 'l'] {
        Some(TokenKind::Fail)
    } else if w == seq!['f', 'o', 'r'] {
        Some(TokenKind::For)
    } else if w == seq!['i', 'n'] {
        Some(TokenKind::In)
    } else if w == seq!['b', 'r', 'e', 'a', 'k'] {
        Some(TokenKind::Break)
    } else if w == seq!['c', 'o', 'n', 't', 'i', 'n', 'u', 'e'] {
        Some(TokenKind::Continue)
    } else if w == seq!['m', 'a', 't', 'c', 'h'] {
        Some(TokenKind::Match)
    } else if w == seq!['t', 'r', 'y'] {
        Some(TokenKind::Try)
    } else if w == seq!['a', 's'] {
        Some(TokenKind::As)
    } else {
        None
    }
}

/// Looks up whether a word (as characters) is a keyword.
pub fn keyword_of(w: &[char]) -> (r: Option<TokenKind>)
    ensures
        r == keyword_kind(w@),
{
    if chars_eq(w, &['f', 'n']) {
        Some(TokenKind::Fn)
    } else if chars_eq(w, &['l', 'e', 't']) {
        Some(TokenKind::Let)
    } else if chars_eq(w, &['m', 'u', 't']) {
        Some(TokenKind::Mut)
    } else if chars_eq(w, &['i', 'f']) {
        Some(TokenKind::If)
    } else if chars_eq(w, &['e', 'l', 's', 'e']) {
        Some(TokenKind::Else)
    } else if chars_eq(w, &['w', 'h', 'i', 'l', 'e']) {
        Some(TokenKind::While)
    } else if chars_eq(w, &['r', 'e', 't', 'u', 'r', 'n']) {
        Some(TokenKind::Return)
    } else if chars_eq(w, &['t', 'r', 'u', 'e']) {
        Some(TokenKind::True)
    } else if chars_eq(w, &['f', 'a', 'l', 's', 'e']) {
        Some(TokenKind::False)
    } else if chars_eq(w, &['i', 'm', 'p', 'o', 'r', 't']) {
        Some(TokenKind::Import)
    } else if chars_eq(w, &['p', 'r', 'i', 'v']) {
        Some(TokenKind::Priv)
    } else if chars_eq(w, &['e', 'n', 'u', 'm']) {
        Some(TokenKind::Enum)
    } else if chars_eq(w, &['s', 't', 'r', 'u', 'c', 't']) {
        Some(TokenKind::Struct)
    } else if chars_eq(w, &['c', 'o', 'm', 'p', 't', 'i', 'm', 'e']) {
        Some(TokenKind::Comptime)
    } else if chars_eq(w, &['d', 'e', 'f', 'e', 'r']) {
        Some(TokenKind::Defer)
    } else if chars_eq(w, &['f', 'a', 'i', 'l']) {
        Some(TokenKind::Fail)
    } else if chars_eq(w, &['f', 'o', 'r']) {
        Some(TokenKind::For)
    } else if chars_eq(w, &['i', 'n']) {
        Some(TokenKind::In)
    } else if chars_eq(w, &['b', 'r', 'e', 'a', 'k']) {
        Some(TokenKind::Break)
    } else if chars_eq(w, &['c', 'o', 'n', 't', 'i', 'n', 'u', 'e']) {
        Some(TokenKind::Continue)
    } else if chars_eq(w, &['m', 'a', 't', 'c', 'h']) {
        Some(TokenKind::Match)
    } else if chars_eq(w, &['t', 'r', 'y']) {
        Some(TokenKind::Try)
    } else if chars_eq(w, &['a', 's']) {
        Some(TokenKind::As)
    } else {
        None
    }
}


/// Looks up whether an identifier is actually a keyword.
pub fn lookup_keyword(word: &str) -> (r: Option<TokenKind>)
    ensures
        r == keyword_kind(word@),
{
    let w = chars_of(word);
    keyword_of(w.as_slice())
}


/// Whether a token kind carries a value (literals and identifiers).
pub open spec fn has_payload(k: TokenKind) -> bool {
    k is Int || k is StringLit || k is Ident
}

/// A number distinguishing each kind of token.
pub open spec fn kind_tag(k: TokenKind) -> int {
    match k {
        TokenKind::Int(_) => 0,
        TokenKind::StringLit(_) => 1,
        TokenKind::Ident(_) => 2,
        TokenKind::Fn => 3,
        TokenKind::Let => 4,
        TokenKind::Mut => 5,
        TokenKind::If => 6,
        TokenKind::Else => 7,
        TokenKind::While => 8,
        TokenKind::Return => 9,
        TokenKind::True => 10,
        TokenKind::False => 11,
        TokenKind::Import => 12,
        TokenKind::Priv => 13,
        TokenKind::Enum => 14,
        TokenKind::Struct => 15,
        TokenKind::Comptime => 16,
        TokenKind::Defer => 17,
        TokenKind::Fail => 18,
        TokenKind::For => 19,
        TokenKind::In => 20,
        TokenKind::Break => 21,
        TokenKind::Continue => 22,
        TokenKind::Match => 23,
        TokenKind::Try => 24,
        TokenKind::As => 25,
        TokenKind::Plus => 26,
        TokenKind::Minus => 27,
        TokenKind::Star => 28,
        TokenKind::Slash => 29,
        TokenKind::Percent => 30,
        TokenKind::Equals => 31,
        TokenKind::EqualEqual => 32,
        TokenKind::BangEqual => 33,
        TokenKind::Less => 34,
        TokenKind::Greater => 35,
        TokenKind::LessEqual => 36,
        TokenKind::GreaterEqual => 37,
        TokenKind::Bang => 38,
        TokenKind::AmpAmp => 39,
        TokenKind::PipePipe => 40,
        TokenKind::Arrow => 41,
        TokenKind::FatArrow => 42,
        TokenKind::PipeArrow => 43,
        TokenKind::LParen => 44,
        TokenKind::RParen => 45,
        TokenKind::LBrace => 46,
        TokenKind::RBrace => 47,
        TokenKind::LBracket => 48,
        TokenKind::RBracket => 49,
        TokenKind::Semicolon => 50,
        TokenKind::Colon => 51,
        TokenKind::ColonColon => 52,
        TokenKind::Comma => 53,
        TokenKind::Dot => 54,
        TokenKind::DotDot => 55,
        TokenKind::Eof => 56,
    }
}

fn tag_of(k: &TokenKind) -> (r: u8)
    ensures
        r as int == kind_tag(*k),
{
    match k {
        TokenKind::Int(_) => 0,
        TokenKind::StringLit(_) => 1,
        TokenKind::Ident(_) => 2,
        TokenKind::Fn => 3,
        TokenKind::Let => 4,
        TokenKind::Mut => 5,
        TokenKind::If => 6,
        TokenKind::Else => 7,
        TokenKind::While => 8,
        TokenKind::Return => 9,
        TokenKind::True => 10,
        TokenKind::False => 11,
        TokenKind::Import => 12,
        TokenKind::Priv => 13,
        TokenKind::Enum => 14,
        TokenKind::Struct => 15,
        TokenKind::Comptime => 16,
        TokenKind::Defer => 17,
        TokenKind::Fail => 18,
        TokenKind::For => 19,
        TokenKind::In => 20,
        TokenKind::Break => 21,
        TokenKind::Continue => 22,
        TokenKind::Match => 23,
        TokenKind::Try => 24,
        TokenKind::As => 25,
        TokenKind::Plus => 26,
        TokenKind::Minus => 27,
        TokenKind::Star => 28,
        TokenKind::Slash => 29,
        TokenKind::Percent => 30,
        TokenKind::Equals => 31,
        TokenKind::EqualEqual => 32,
        TokenKind::BangEqual => 33,
        TokenKind::Less => 34,
        TokenKind::Greater => 35,
        TokenKind::LessEqual => 36,
        TokenKind::GreaterEqual => 37,
        TokenKind::Bang => 38,
        TokenKind::AmpAmp => 39,
        TokenKind::PipePipe => 40,
        TokenKind::Arrow => 41,
        TokenKind::FatArrow => 42,
        TokenKind::PipeArrow => 43,
        TokenKind::LParen => 44,
        TokenKind::RParen => 45,
        TokenKind::LBrace => 46,
        TokenKind::RBrace => 47,
        TokenKind::LBracket => 48,
        TokenKind::RBracket => 49,
        TokenKind::Semicolon => 50,
        TokenKind::Colon => 51,
        TokenKind::ColonColon => 52,
        TokenKind::Comma => 53,
        TokenKind::Dot => 54,
        TokenKind::DotDot => 55,
        TokenKind::Eof => 56,
    }
}

/// Whether `k` is the (value-less) kind `expected`.
pub fn is_kind(k: &TokenKind, expected: &TokenKind) -> (r: bool)
    requires
        !has_payload(*expected),
    ensures
        r == (*k == *expected),
{
    tag_of(k) == tag_of(expected)
}

/// The `Debug` rendering of a token kind.
pub open spec fn kind_debug_text(k: TokenKind) -> Seq<char> {
    match k {
        TokenKind::Int(v) => "Int("@ + int_text(v as int) + ")"@,
        TokenKind::StringLit(s) => "StringLit("@ + debug_text(s@) + ")"@,
        TokenKind::Ident(s) => "Ident("@ + debug_text(s@) + ")"@,
        TokenKind::Fn => "Fn"@,
        TokenKind::Let => "Let"@,
        TokenKind::Mut => "Mut"@,
        TokenKind::If => "If"@,
        TokenKind::Else => "Else"@,
        TokenKind::While => "While"@,
        TokenKind::Return => "Return"@,
        TokenKind::True => "True"@,
        TokenKind::False => "False"@,
        TokenKind::Import => "Import"@,
        TokenKind::Priv => "Priv"@,
        TokenKind::Enum => "Enum"@,
        TokenKind::Struct => "Struct"@,
        TokenKind::Comptime => "Comptime"@,
        TokenKind::Defer => "Defer"@,
        TokenKind::Fail => "Fail"@,
        TokenKind::For => "For"@,
        TokenKind::In => "In"@,
        TokenKind::Break => "Break"@,
        TokenKind::Continue => "Continue"@,
        TokenKind::Match => "Match"@,
        TokenKind::Try => "Try"@,
        TokenKind::As => "As"@,
        TokenKind::Plus => "Plus"@,
        TokenKind::Minus => "Minus"@,
        TokenKind::Star => "Star"@,
        TokenKind::Slash => "Slash"@,
        TokenKind::Percent => "Percent"@,
        TokenKind::Equals => "Equals"@,
        TokenKind::EqualEqual => "EqualEqual"@,
        TokenKind::BangEqual => "BangEqual"@,
        TokenKind::Less => "Less"@,
        TokenKind::Greater => "Greater"@,
        TokenKind::LessEqual => "LessEqual"@,
        TokenKind::GreaterEqual => "GreaterEqual"@,
        TokenKind::Bang => "Bang"@,
        TokenKind::AmpAmp => "AmpAmp"@,
        TokenKind::PipePipe => "PipePipe"@,
        TokenKind::Arrow => "Arrow"@,
        TokenKind::FatArrow => "FatArrow"@,
        TokenKind::PipeArrow => "PipeArrow"@,
        TokenKind::LParen => "LParen"@,
        TokenKind::RParen => "RParen"@,
        TokenKind::LBrace => "LBrace"@,
        TokenKind::RBrace => "RBrace"@,
        TokenKind::LBracket => "LBracket"@,
        TokenKind::RBracket => "RBracket"@,
        TokenKind::Semicolon => "Semicolon"@,
        TokenKind::Colon => "Colon"@,
        TokenKind::ColonColon => "ColonColon"@,
        TokenKind::Comma => "Comma"@,
        TokenKind::Dot => "Dot"@,
        TokenKind::DotDot => "DotDot"@,
        TokenKind::Eof => "Eof"@,
    }
}

/// Appends the `Debug` rendering of a token kind.
pub fn push_kind_debug(out: &mut String, k: &TokenKind)
    ensures
        final(out)@ == old(out)@ + kind_debug_text(*k),
{
    match k {
        TokenKind::Int(v) => {
            push_str(out, "Int(");
            push_i64(out, *v);
            push_str(out, ")");
        },
        TokenKind::StringLit(s) => {
            push_str(out, "StringLit(");
            let d = debug_string(s.as_str());
            push_string(out, &d);
            push_str(out, ")");
        },
        TokenKind::Ident(s) => {
            push_str(out, "Ident(");
            let d = debug_string(s.as_str());
            push_string(out, &d);
            push_str(out, ")");
        },
        _ => {
            push_str(out, simple_kind_name(k));
        },
    }
    assert(out@ =~= old(out)@ + kind_debug_text(*k));
}

fn simple_kind_name(k: &TokenKind) -> (r: &'static str)
    requires
        !has_payload(*k),
    ensures
        r@ == kind_debug_text(*k),
{
    match k {
        TokenKind::Int(_) => "",
        TokenKind::StringLit(_) => "",
        TokenKind::Ident(_) => "",
        TokenKind::Fn => "Fn",
        TokenKind::Let => "Let",
        TokenKind::Mut => "Mut",
        TokenKind::If => "If",
        TokenKind::Else => "Else",
        TokenKind::While => "While",
        TokenKind::Return => "Return",
        TokenKind::True => "True",
        TokenKind::False => "False",
        TokenKind::Import => "Import",
        TokenKind::Priv => "Priv",
        TokenKind::Enum => "Enum",
        TokenKind::Struct => "Struct",
        TokenKind::Comptime => "Comptime",
        TokenKind::Defer => "Defer",
        TokenKind::Fail => "Fail",
        TokenKind::For => "For",
        TokenKind::In => "In",
        TokenKind::Break => "Break",
        TokenKind::Continue => "Continue",
        TokenKind::Match => "Match",
        TokenKind::Try => "Try",
        TokenKind::As => "As",
        TokenKind::Plus => "Plus",
        TokenKind::Minus => "Minus",
        TokenKind::Star => "Star",
        TokenKind::Slash => "Slash",
        TokenKind::Percent => "Percent",
        TokenKind::Equals => "Equals",
        TokenKind::EqualEqual => "EqualEqual",
        TokenKind::BangEqual => "BangEqual",
        TokenKind::Less => "Less",
        TokenKind::Greater => "Greater",
        TokenKind::LessEqual => "LessEqual",
        TokenKind::GreaterEqual => "GreaterEqual",
        TokenKind::Bang => "Bang",
        TokenKind::AmpAmp => "AmpAmp",
        TokenKind::PipePipe => "PipePipe",
        TokenKind::Arrow => "Arrow",
        TokenKind::FatArrow => "FatArrow",
        TokenKind::PipeArrow => "PipeArrow",
        TokenKind::LParen => "LParen",
        TokenKind::RParen => "RParen",
        TokenKind::LBrace => "LBrace",
        TokenKind::RBrace => "RBrace",
        TokenKind::LBracket => "LBracket",
        TokenKind::RBracket => "RBracket",
        TokenKind::Semicolon => "Semicolon",
        TokenKind::Colon => "Colon",
        TokenKind::ColonColon => "ColonColon",
        TokenKind::Comma => "Comma",
        TokenKind::Dot => "Dot",
        TokenKind::DotDot => "DotDot",
        TokenKind::Eof => "Eof",
    }
}

} // verus!
