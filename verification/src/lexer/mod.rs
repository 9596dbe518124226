//! Lexer — tokenizes Ferro source code.

pub mod token;

use vstd::prelude::*;
use crate::error::{CompileError, Pos, Span};
use crate::text::{
    alphabetic, alphanumeric, ascii_digit, char_is_alphabetic, char_is_alphanumeric,
    char_is_whitespace, chars_of, is_digit, push_str, string_from_chars, string_of, whitespace,
};
use token::{keyword_kind, keyword_of, Token, TokenKind};
use crate::sema::rules::count_char;

verus! {

// ── Specification of the lexical structure ───────────────

/// Line and column (both 1-based) of the character at `off`.
pub open spec fn line_col(cs: Seq<char>, off: int) -> (int, int)
    decreases off,
{
    if off <= 0 {
        (1, 1)
    } else {
        let p = line_col(cs, off - 1);
        if cs[off - 1] == '\n' {
            (p.0 + 1, 1)
        } else {
            (p.0, p.1 + 1)
        }
    }
}

/// The source position of offset `off`.
pub open spec fn pos_at(cs: Seq<char>, off: int) -> Pos {
    Pos { offset: off as usize, line: line_col(cs, off).0 as usize, column: line_col(cs, off).1 as usize }
}

/// The first offset at or after `i` that holds a newline (or the end).
pub open spec fn line_end(cs: Seq<char>, i: int) -> int
    decreases cs.len() - i,
{
    if i < 0 || i >= cs.len() || cs[i] == '\n' {
        i
    } else {
        line_end(cs, i + 1)
    }
}

/// The offset after skipping whitespace and `//` comments from `i`.
pub open spec fn skip_trivia(cs: Seq<char>, i: int) -> int
    decreases cs.len() - i,
{
    if i < 0 || i >= cs.len() {
        i
    } else if char_is_whitespace(cs[i]) {
        skip_trivia(cs, i + 1)
    } else if i + 1 < cs.len() && cs[i] == '/' && cs[i + 1] == '/' {
        proof {
            lemma_line_end(cs, i + 2);
        }
        skip_trivia(cs, line_end(cs, i + 2))
    } else {
        i
    }
}

/// The end of the run of decimal digits starting at `i`.
pub open spec fn digits_end(cs: Seq<char>, i: int) -> int
    decreases cs.len() - i,
{
    if 0 <= i < cs.len() && is_digit(cs[i]) {
        digits_end(cs, i + 1)
    } else {
        i
    }
}

/// The value of a string of decimal digits.
pub open spec fn digits_value(s: Seq<char>) -> int
    decreases s.len(),
{
    if s.len() == 0 {
        0
    } else {
        digits_value(s.drop_last()) * 10 + (s.last() as int - '0' as int)
    }
}

/// Whether `c` may continue an identifier.
pub open spec fn is_ident_char(c: char) -> bool {
    char_is_alphanumeric(c) || c == '_'
}

/// The end of the run of identifier characters starting at `i`.
pub open spec fn ident_end(cs: Seq<char>, i: int) -> int
    decreases cs.len() - i,
{
    if 0 <= i < cs.len() && is_ident_char(cs[i]) {
        ident_end(cs, i + 1)
    } else {
        i
    }
}

/// The outcome of scanning the body of a string literal.
pub enum StrScan {
    /// The literal's value and the offset after its closing quote.
    Done(Seq<char>, int),
    /// An unknown escape character, and the offset after it.
    BadEscape(char, int),
    /// The input ended right after a backslash.
    EofInEscape(int),
    /// The input ended before the closing quote.
    Unterminated(int),
}

/// Scans a string literal body from `j`, with `acc` the value so far.
pub open spec fn scan_string(cs: Seq<char>, j: int, acc: Seq<char>) -> StrScan
    decreases cs.len() - j,
{
    if j < 0 || j >= cs.len() {
        StrScan::Unterminated(cs.len() as int)
    } else if cs[j] == '"' {
        StrScan::Done(acc, j + 1)
    } else if cs[j] == '\\' {
        if j + 1 >= cs.len() {
            StrScan::EofInEscape(cs.len() as int)
        } else if cs[j + 1] == 'n' {
            scan_string(cs, j + 2, acc.push('\n'))
        } else if cs[j + 1] == 't' {
            scan_string(cs, j + 2, acc.push('\t'))
        } else if cs[j + 1] == '\\' {
            scan_string(cs, j + 2, acc.push('\\'))
        } else if cs[j + 1] == '"' {
            scan_string(cs, j + 2, acc.push('"'))
        } else {
            StrScan::BadEscape(cs[j + 1], j + 2)
        }
    } else {
        scan_string(cs, j + 1, acc.push(cs[j]))
    }
}

/// Message for a character that starts no token.
pub open spec fn unexpected_char_msg(c: char) -> Seq<char> {
    "unexpected character '"@.push(c) + "'"@
}

/// The operator or punctuation token starting at `i`, with its end offset,
/// or the error message when the character starts none.
pub open spec fn symbol_at(cs: Seq<char>, i: int) -> Result<(TokenKind, int), Seq<char>> {
    let c = cs[i];
    let n: Option<char> = if i + 1 < cs.len() { Some(cs[i + 1]) } else { None };
    if c == '+' {
        Ok((TokenKind::Plus, i + 1))
    } else if c == '*' {
        Ok((TokenKind::Star, i + 1))
    } else if c == '%' {
        Ok((TokenKind::Percent, i + 1))
    } else if c == '(' {
        Ok((TokenKind::LParen, i + 1))
    } else if c == ')' {
        Ok((TokenKind::RParen, i + 1))
    } else if c == '{' {
        Ok((TokenKind::LBrace, i + 1))
    } else if c == '}' {
        Ok((TokenKind::RBrace, i + 1))
    } else if c == '[' {
        Ok((TokenKind::LBracket, i + 1))
    } else if c == ']' {
        Ok((TokenKind::RBracket, i + 1))
    } else if c == ';' {
        Ok((TokenKind::Semicolon, i + 1))
    } else if c == ',' {
        Ok((TokenKind::Comma, i + 1))
    } else if c == '/' {
        Ok((TokenKind::Slash, i + 1))
    } else if c == ':' {
        if n == Some(':') { Ok((TokenKind::ColonColon, i + 2)) } else { Ok((TokenKind::Colon, i + 1)) }
    } else if c == '.' {
        if n == Some('.') { Ok((TokenKind::DotDot, i + 2)) } else { Ok((TokenKind::Dot, i + 1)) }
    } else if c == '-' {
        if n == Some('>') { Ok((TokenKind::Arrow, i + 2)) } else { Ok((TokenKind::Minus, i + 1)) }
    } else if c == '=' {
        if n == Some('=') {
            Ok((TokenKind::EqualEqual, i + 2))
        } else if n == Some('>') {
            Ok((TokenKind::FatArrow, i + 2))
        } else {
            Ok((TokenKind::Equals, i + 1))
        }
    } else if c == '!' {
        if n == Some('=') { Ok((TokenKind::BangEqual, i + 2)) } else { Ok((TokenKind::Bang, i + 1)) }
    } else if c == '<' {
        if n == Some('=') { Ok((TokenKind::LessEqual, i + 2)) } else { Ok((TokenKind::Less, i + 1)) }
    } else if c == '>' {
        if n == Some('=') { Ok((TokenKind::GreaterEqual, i + 2)) } else { Ok((TokenKind::Greater, i + 1)) }
    } else if c == '&' {
        if n == Some('&') {
            Ok((TokenKind::AmpAmp, i + 2))
        } else {
            Err("unexpected character '&' (did you mean '&&'?)"@)
        }
    } else if c == '|' {
        if n == Some('|') {
            Ok((TokenKind::PipePipe, i + 2))
        } else if n == Some('>') {
            Ok((TokenKind::PipeArrow, i + 2))
        } else {
            Err("unexpected character '|' (did you mean '||'?)"@)
        }
    } else {
        Err(unexpected_char_msg(c))
    }
}

/// What a token holds, as mathematical values.
pub enum Lexeme {
    Number(int),
    Text(Seq<char>),
    Word(Seq<char>),
    Symbol(TokenKind),
    End,
}

/// Whether a token kind carries the given lexeme.
pub open spec fn lexeme_kind(l: Lexeme, k: TokenKind) -> bool {
    match l {
        Lexeme::Number(v) => k matches TokenKind::Int(x) && x as int == v,
        Lexeme::Text(s) => k matches TokenKind::StringLit(x) && x@ == s,
        Lexeme::Word(w) => match keyword_kind(w) {
            Some(kw) => k == kw,
            None => k matches TokenKind::Ident(x) && x@ == w,
        },
        Lexeme::Symbol(t) => k == t,
        Lexeme::End => k == TokenKind::Eof,
    }
}

/// The token that starts at offset `i` (no trivia before it): its lexeme and
/// end offset, or the error message and the offset where the error ends.
pub open spec fn lex_at(cs: Seq<char>, i: int) -> Result<(Lexeme, int), (Seq<char>, int)> {
    if i < 0 || i >= cs.len() {
        Ok((Lexeme::End, i))
    } else if is_digit(cs[i]) {
        let e = digits_end(cs, i);
        let v = digits_value(cs.subrange(i, e));
        if v <= i64::MAX {
            Ok((Lexeme::Number(v), e))
        } else {
            Err(("invalid integer literal '"@ + cs.subrange(i, e) + "'"@, e))
        }
    } else if char_is_alphabetic(cs[i]) || cs[i] == '_' {
        let e = ident_end(cs, i + 1);
        Ok((Lexeme::Word(cs.subrange(i, e)), e))
    } else if cs[i] == '"' {
        match scan_string(cs, i + 1, Seq::empty()) {
            StrScan::Done(v, e) => Ok((Lexeme::Text(v), e)),
            StrScan::BadEscape(c, e) => Err(("unknown escape sequence '\\"@.push(c) + "'"@, e)),
            StrScan::EofInEscape(e) => Err(("unexpected end of file in escape sequence"@, e)),
            StrScan::Unterminated(e) => Err(("unterminated string literal"@, e)),
        }
    } else {
        match symbol_at(cs, i) {
            Ok((k, e)) => Ok((Lexeme::Symbol(k), e)),
            Err(m) => Err((m, i + 1)),
        }
    }
}

/// The whole token stream from offset `i`: each lexeme with its start and end
/// offsets, ending with `End`; or the first error with its start and end.
pub open spec fn lex_from(cs: Seq<char>, i: int) -> Result<Seq<(Lexeme, int, int)>, (Seq<char>, int, int)>
    decreases cs.len() - i,
{
    if i < 0 || i > cs.len() {
        Ok(seq![(Lexeme::End, i, i)])
    } else {
        let s = skip_trivia(cs, i);
        proof {
            lemma_skip_trivia(cs, i);
            lemma_lex_at_progress(cs, s);
        }
        match lex_at(cs, s) {
            Err((m, e)) => Err((m, s, e)),
            Ok((Lexeme::End, e)) => Ok(seq![(Lexeme::End, s, s)]),
            Ok((l, e)) => match lex_from(cs, e) {
                Ok(rest) => Ok(seq![(l, s, e)] + rest),
                Err(x) => Err(x),
            },
        }
    }
}

/// A token agrees with a lexeme spanning `s..e` of the source.
pub open spec fn token_is(cs: Seq<char>, t: Token, l: (Lexeme, int, int)) -> bool {
    &&& lexeme_kind(l.0, t.kind)
    &&& t.span.start == pos_at(cs, l.1)
    &&& t.span.end == pos_at(cs, l.2)
}

/// An error agrees with an error message spanning `s..e`.
pub open spec fn error_is(cs: Seq<char>, err: CompileError, x: (Seq<char>, int, int)) -> bool {
    &&& err.message@ == x.0
    &&& err.span == Some(Span { start: pos_at(cs, x.1), end: pos_at(cs, x.2) })
}


// ── The lexer ────────────────────────────────────────────

/// One lexing step from `s`: the token or error agrees with `lex_at`, and on
/// success the cursor `p` stands right after the token.
pub open spec fn step_is(cs: Seq<char>, s: int, r: Result<Token, CompileError>, p: int) -> bool {
    match (r, lex_at(cs, s)) {
        (Ok(t), Ok((l, e))) => token_is(cs, t, (l, s, e)) && p == e,
        (Err(err), Err((m, e))) => error_is(cs, err, (m, s, e)),
        _ => false,
    }
}

/// The lexer: walks through source text and produces tokens.
pub struct Lexer {
    /// The full source code as a vector of characters.
    chars: Vec<char>,
    /// Current position in the chars vector.
    pos: usize,
    /// Current line number (1-based).
    line: usize,
    /// Current column number (1-based).
    column: usize,
}

impl Lexer {
    /// The source text being lexed.
    pub closed spec fn source(&self) -> Seq<char> {
        self.chars@
    }

    /// The offset of the cursor in the source.
    pub closed spec fn offset(&self) -> int {
        self.pos as int
    }

    /// The cursor lies within the source and line/column track it.
    pub closed spec fn wf(&self) -> bool {
        &&& self.pos <= self.chars@.len()
        &&& self.chars@.len() < usize::MAX
        &&& self.line as int == line_col(self.chars@, self.pos as int).0
        &&& self.column as int == line_col(self.chars@, self.pos as int).1
    }

    /// Create a new lexer for the given source code.
    pub fn new(source: &str) -> (l: Self)
        requires
            source@.len() < usize::MAX,
        ensures
            l.wf(),
            l.source() == source@,
            l.offset() == 0,
    {
        Lexer { chars: chars_of(source), pos: 0, line: 1, column: 1 }
    }

    /// Tokenize the entire source code into a list of tokens.
    pub fn tokenize(&mut self) -> (r: Result<Vec<Token>, CompileError>)
        requires
            old(self).wf(),
        ensures
            final(self).wf(),
            final(self).source() == old(self).source(),
            match (r, lex_from(old(self).source(), old(self).offset())) {
                (Ok(toks), Ok(ls)) => toks@.len() == ls.len() && forall|k: int|
                    0 <= k < ls.len() ==> token_is(old(self).source(), #[trigger] toks@[k], ls[k]),
                (Err(e), Err(x)) => error_is(old(self).source(), e, x),
                _ => false,
            },
    {
        let ghost cs = self.chars@;
        let ghost start = self.pos as int;
        let ghost mut done: Seq<(Lexeme, int, int)> = Seq::empty();
        let mut tokens: Vec<Token> = Vec::new();
        loop
            invariant_except_break
                lex_from(cs, start) == match lex_from(cs, self.pos as int) {
                    Ok(rest) => Ok(done + rest),
                    Err(x) => Err(x),
                },
            invariant
                self.wf(),
                self.chars@ == cs,
                cs == old(self).chars@,
                start == old(self).pos,
                start <= self.pos,
                tokens@.len() == done.len(),
                forall|k: int| 0 <= k < done.len() ==> token_is(cs, #[trigger] tokens@[k], done[k]),
            ensures
                lex_from(cs, start) == Ok::<_, (Seq<char>, int, int)>(done),
            decreases cs.len() - self.pos,
        {
            let ghost p = self.pos as int;
            proof {
                lemma_skip_trivia(cs, p);
                lemma_lex_at_progress(cs, skip_trivia(cs, p));
            }
            let token = match self.next_token() {
                Ok(t) => t,
                Err(e) => {
                    return Err(e);
                },
            };
            let is_eof = matches!(token.kind, TokenKind::Eof);
            let ghost s = skip_trivia(cs, p);
            let ghost l = match lex_at(cs, s) { Ok(x) => x.0, Err(_) => Lexeme::End };
            let ghost e = match lex_at(cs, s) { Ok(x) => x.1, Err(_) => 0 };
            let ghost prev = done;
            tokens.push(token);
            proof {
                done = done.push((l, s, e));
            }
            if is_eof {
                assert(l == Lexeme::End);
                assert(lex_from(cs, p) == Ok::<_, (Seq<char>, int, int)>(seq![(l, s, e)]));
                assert(done =~= prev + seq![(l, s, e)]);
                break;
            }
            assert(l != Lexeme::End);
            proof {
                match lex_from(cs, e) {
                    Ok(rest) => {
                        assert(prev + (seq![(l, s, e)] + rest) =~= done + rest);
                    },
                    Err(x) => {},
                }
            }
        }
        Ok(tokens)
    }

    // -- Character helpers --

    /// Whether the current character is `c`.
    fn at(&self, c: char) -> (r: bool)
        requires
            self.wf(),
        ensures
            r == (self.pos < self.chars@.len() && self.chars@[self.pos as int] == c),
    {
        self.pos < self.chars.len() && self.chars[self.pos] == c
    }

    /// Consume the current character and advance the cursor.
    fn advance(&mut self) -> (r: Option<char>)
        requires
            old(self).wf(),
        ensures
            final(self).wf(),
            final(self).chars@ == old(self).chars@,
            old(self).pos < old(self).chars@.len() ==> r == Some(old(self).chars@[old(self).pos as int])
                && final(self).pos == old(self).pos + 1,
            old(self).pos >= old(self).chars@.len() ==> r.is_none() && final(self).pos == old(self).pos,
    {
        if self.pos < self.chars.len() {
            proof {
                lemma_line_col_bounds(self.chars@, self.pos as int);
            }
            let ch = self.chars[self.pos];
            self.pos += 1;
            if ch == '\n' {
                self.line += 1;
                self.column = 1;
            } else {
                self.column += 1;
            }
            Some(ch)
        } else {
            None
        }
    }

    /// Get the current source position.
    fn current_pos(&self) -> (p: Pos)
        requires
            self.wf(),
        ensures
            p == pos_at(self.chars@, self.pos as int),
    {
        Pos { offset: self.pos, line: self.line, column: self.column }
    }

    // -- Whitespace & comments --

    /// Skip whitespace and comments, return when we hit real content.
    fn skip_whitespace_and_comments(&mut self)
        requires
            old(self).wf(),
        ensures
            final(self).wf(),
            final(self).chars@ == old(self).chars@,
            final(self).pos == skip_trivia(old(self).chars@, old(self).pos as int),
    {
        let ghost cs = self.chars@;
        let ghost p0 = self.pos as int;
        loop
            invariant
                self.wf(),
                self.chars@ == cs,
                p0 <= self.pos,
                skip_trivia(cs, self.pos as int) == skip_trivia(cs, p0),
            ensures
                self.pos == skip_trivia(cs, p0),
            decreases cs.len() - self.pos,
        {
            if self.pos < self.chars.len() && whitespace(self.chars[self.pos]) {
                self.advance();
            } else if self.pos + 1 < self.chars.len() && self.chars[self.pos] == '/'
                && self.chars[self.pos + 1] == '/' {
                let ghost i = self.pos as int;
                proof {
                    lemma_line_end(cs, i + 2);
                    assert(line_end(cs, i) == line_end(cs, i + 1));
                    assert(line_end(cs, i + 1) == line_end(cs, i + 2));
                }
                while self.pos < self.chars.len() && self.chars[self.pos] != '\n'
                    invariant
                        self.wf(),
                        self.chars@ == cs,
                        i <= self.pos,
                        line_end(cs, self.pos as int) == line_end(cs, i),
                    decreases cs.len() - self.pos,
                {
                    self.advance();
                }
                assert(self.pos as int == line_end(cs, i));
                assert(self.pos >= i + 2);
            } else {
                break;
            }
        }
    }

    // -- Token readers --

    /// Read a number literal (integers only).
    fn read_number(&mut self, start: Pos) -> (r: Result<Token, CompileError>)
        requires
            old(self).wf(),
            old(self).pos < old(self).chars@.len(),
            is_digit(old(self).chars@[old(self).pos as int]),
            start == pos_at(old(self).chars@, old(self).pos as int),
        ensures
            final(self).wf(),
            final(self).chars@ == old(self).chars@,
            step_is(old(self).chars@, old(self).pos as int, r, final(self).pos as int),
    {
        let ghost cs = self.chars@;
        let s = self.pos;
        let mut value: i64 = 0;
        let mut overflow = false;
        proof {
            lemma_digits_end(cs, s as int);
            assert(cs.subrange(s as int, s as int) =~= Seq::<char>::empty());
        }
        while self.pos < self.chars.len() && ascii_digit(self.chars[self.pos])
            invariant
                self.wf(),
                self.chars@ == cs,
                s <= self.pos <= digits_end(cs, s as int),
                digits_end(cs, self.pos as int) == digits_end(cs, s as int),
                !overflow ==> value as int == digits_value(cs.subrange(s as int, self.pos as int)),
                !overflow ==> value >= 0,
                overflow ==> digits_value(cs.subrange(s as int, self.pos as int)) > i64::MAX,
                digits_end(cs, s as int) <= cs.len(),
                forall|k: int| s <= k < digits_end(cs, s as int) ==> is_digit(#[trigger] cs[k]),
            decreases cs.len() - self.pos,
        {
            let ghost p = self.pos as int;
            let ch = self.chars[self.pos];
            proof {
                lemma_digits_end(cs, p + 1);
                assert(digits_end(cs, p) == digits_end(cs, p + 1));
            }
            let d: i64 = (ch as u32 - '0' as u32) as i64;
            assert(0 <= d <= 9);
            assert(cs.subrange(s as int, p + 1).drop_last() =~= cs.subrange(s as int, p));
            assert(digits_value(cs.subrange(s as int, p + 1)) == digits_value(cs.subrange(s as int, p)) * 10 + d);
            if !overflow {
                match value.checked_mul(10) {
                    Some(v10) => match v10.checked_add(d) {
                        Some(v) => {
                            value = v;
                        },
                        None => {
                            overflow = true;
                        },
                    },
                    None => {
                        overflow = true;
                    },
                }
            }
            self.advance();
        }
        let end = self.current_pos();
        let e = self.pos;
        if overflow {
            let mut msg = string_of("invalid integer literal '");
            let digits = string_from_chars(&self.chars, s, e);
            msg.append(digits.as_str());
            push_str(&mut msg, "'");
            return Err(CompileError::new(msg.as_str(), Span::new(start, end)));
        }
        Ok(Token { kind: TokenKind::Int(value), span: Span::new(start, end) })
    }

    /// Read an identifier or keyword.
    fn read_identifier(&mut self, start: Pos) -> (t: Token)
        requires
            old(self).wf(),
            old(self).pos < old(self).chars@.len(),
            char_is_alphabetic(old(self).chars@[old(self).pos as int]) || old(self).chars@[old(self).pos as int] == '_',
            is_ident_char(old(self).chars@[old(self).pos as int]),
            !is_digit(old(self).chars@[old(self).pos as int]),
            start == pos_at(old(self).chars@, old(self).pos as int),
        ensures
            final(self).wf(),
            final(self).chars@ == old(self).chars@,
            step_is(old(self).chars@, old(self).pos as int, Ok(t), final(self).pos as int),
    {
        let ghost cs = self.chars@;
        let s = self.pos;
        let mut word: Vec<char> = Vec::new();
        proof {
            lemma_ident_end(cs, s as int + 1);
        }
        while self.pos < self.chars.len() && (alphanumeric(self.chars[self.pos]) || self.chars[self.pos] == '_')
            invariant
                self.wf(),
                self.chars@ == cs,
                s <= self.pos <= ident_end(cs, s as int + 1),
                self.pos > s ==> ident_end(cs, self.pos as int) == ident_end(cs, s as int + 1),
                word@ == cs.subrange(s as int, self.pos as int),
                is_ident_char(cs[s as int]),
            decreases cs.len() - self.pos,
        {
            let ch = self.chars[self.pos];
            proof {
                lemma_ident_end(cs, self.pos as int + 1);
                if self.pos > s {
                    assert(ident_end(cs, self.pos as int) == ident_end(cs, self.pos as int + 1));
                }
            }
            word.push(ch);
            self.advance();
            assert(word@ =~= cs.subrange(s as int, self.pos as int));
        }
        let end = self.current_pos();
        let kind = match keyword_of(word.as_slice()) {
            Some(k) => k,
            None => TokenKind::Ident(string_from_chars(&word, 0, word.len())),
        };
        assert(word@.subrange(0, word@.len() as int) =~= word@);
        Token { kind, span: Span::new(start, end) }
    }

    /// Read a string literal (everything between double quotes); the opening
    /// quote has been consumed.
    fn read_string(&mut self, start: Pos) -> (r: Result<Token, CompileError>)
        requires
            old(self).wf(),
            old(self).pos >= 1,
            old(self).chars@[old(self).pos - 1] == '"',
            !char_is_alphabetic(old(self).chars@[old(self).pos - 1]),
            start == pos_at(old(self).chars@, old(self).pos - 1),
        ensures
            final(self).wf(),
            final(self).chars@ == old(self).chars@,
            step_is(old(self).chars@, old(self).pos - 1, r, final(self).pos as int),
    {
        let ghost cs = self.chars@;
        let ghost s = self.pos - 1;
        let mut value = String::new();
        loop
            invariant
                self.wf(),
                self.chars@ == cs,
                cs == old(self).chars@,
                s == old(self).pos - 1,
                start == pos_at(cs, s),
                0 <= s < cs.len(),
                cs[s] == '"',
                !char_is_alphabetic(cs[s]),
                s < self.pos,
                scan_string(cs, s + 1, Seq::empty()) == scan_string(cs, self.pos as int, value@),
            decreases cs.len() - self.pos,
        {
            let ghost p = self.pos as int;
            assert(lex_at(cs, s) == match scan_string(cs, s + 1, Seq::empty()) {
                StrScan::Done(v, e) => Ok((Lexeme::Text(v), e)),
                StrScan::BadEscape(c, e) => Err(("unknown escape sequence '\\"@.push(c) + "'"@, e)),
                StrScan::EofInEscape(e) => Err(("unexpected end of file in escape sequence"@, e)),
                StrScan::Unterminated(e) => Err(("unterminated string literal"@, e)),
            });
            match self.advance() {
                Some('"') => {
                    let end = self.current_pos();
                    return Ok(Token { kind: TokenKind::StringLit(value), span: Span::new(start, end) });
                },
                Some('\\') => {
                    match self.advance() {
                        Some('n') => value.push('\n'),
                        Some('t') => value.push('\t'),
                        Some('\\') => value.push('\\'),
                        Some('"') => value.push('"'),
                        Some(ch) => {
                            let end = self.current_pos();
                            let mut msg = string_of("unknown escape sequence '\\");
                            msg.push(ch);
                            push_str(&mut msg, "'");
                            return Err(CompileError::new(msg.as_str(), Span::new(start, end)));
                        },
                        None => {
                            let end = self.current_pos();
                            return Err(
                                CompileError::new(
                                    "unexpected end of file in escape sequence",
                                    Span::new(start, end),
                                ),
                            );
                        },
                    }
                },
                Some(ch) => value.push(ch),
                None => {
                    let end = self.current_pos();
                    return Err(CompileError::new("unterminated string literal", Span::new(start, end)));
                },
            }
        }
    }

    // -- Main tokenizer --

    /// The operator or punctuation token whose first character `ch` has just
    /// been consumed.
    fn read_symbol(&mut self, ch: char, start: Pos) -> (r: Result<Token, CompileError>)
        requires
            old(self).wf(),
            old(self).pos >= 1,
            old(self).chars@[old(self).pos - 1] == ch,
            !is_digit(ch),
            !(char_is_alphabetic(ch) || ch == '_'),
            ch != '"',
            start == pos_at(old(self).chars@, old(self).pos - 1),
        ensures
            final(self).wf(),
            final(self).chars@ == old(self).chars@,
            step_is(old(self).chars@, old(self).pos - 1, r, final(self).pos as int),
    {
        let kind = if ch == '+' {
            TokenKind::Plus
        } else if ch == '*' {
            TokenKind::Star
        } else if ch == '%' {
            TokenKind::Percent
        } else if ch == '(' {
            TokenKind::LParen
        } else if ch == ')' {
            TokenKind::RParen
        } else if ch == '{' {
            TokenKind::LBrace
        } else if ch == '}' {
            TokenKind::RBrace
        } else if ch == '[' {
            TokenKind::LBracket
        } else if ch == ']' {
            TokenKind::RBracket
        } else if ch == ';' {
            TokenKind::Semicolon
        } else if ch == ',' {
            TokenKind::Comma
        } else if ch == '/' {
            TokenKind::Slash
        } else if ch == ':' {
            if self.at(':') {
                self.advance();
                TokenKind::ColonColon
            } else {
                TokenKind::Colon
            }
        } else if ch == '.' {
            if self.at('.') {
                self.advance();
                TokenKind::DotDot
            } else {
                TokenKind::Dot
            }
        } else if ch == '-' {
            if self.at('>') {
                self.advance();
                TokenKind::Arrow
            } else {
                TokenKind::Minus
            }
        } else if ch == '=' {
            if self.at('=') {
                self.advance();
                TokenKind::EqualEqual
            } else if self.at('>') {
                self.advance();
                TokenKind::FatArrow
            } else {
                TokenKind::Equals
            }
        } else if ch == '!' {
            if self.at('=') {
                self.advance();
                TokenKind::BangEqual
            } else {
                TokenKind::Bang
            }
        } else if ch == '<' {
            if self.at('=') {
                self.advance();
                TokenKind::LessEqual
            } else {
                TokenKind::Less
            }
        } else if ch == '>' {
            if self.at('=') {
                self.advance();
                TokenKind::GreaterEqual
            } else {
                TokenKind::Greater
            }
        } else if ch == '&' {
            if self.at('&') {
                self.advance();
                TokenKind::AmpAmp
            } else {
                let end = self.current_pos();
                return Err(
                    CompileError::new(
                        "unexpected character '&' (did you mean '&&'?)",
                        Span::new(start, end),
                    ),
                );
            }
        } else if ch == '|' {
            if self.at('|') {
                self.advance();
                TokenKind::PipePipe
            } else if self.at('>') {
                self.advance();
                TokenKind::PipeArrow
            } else {
                let end = self.current_pos();
                return Err(
                    CompileError::new(
                        "unexpected character '|' (did you mean '||'?)",
                        Span::new(start, end),
                    ),
                );
            }
        } else {
            let end = self.current_pos();
            let mut msg = string_of("unexpected character '");
            msg.push(ch);
            push_str(&mut msg, "'");
            return Err(CompileError::new(msg.as_str(), Span::new(start, end)));
        };
        let end = self.current_pos();
        Ok(Token { kind, span: Span::new(start, end) })
    }

    /// Read the next token from the source.
    fn next_token(&mut self) -> (r: Result<Token, CompileError>)
        requires
            old(self).wf(),
        ensures
            final(self).wf(),
            final(self).chars@ == old(self).chars@,
            step_is(
                old(self).chars@,
                skip_trivia(old(self).chars@, old(self).pos as int),
                r,
                final(self).pos as int,
            ),
    {
        self.skip_whitespace_and_comments();
        let start = self.current_pos();
        if self.pos >= self.chars.len() {
            return Ok(Token { kind: TokenKind::Eof, span: Span::new(start, start) });
        }
        let ch = self.chars[self.pos];
        // Numbers
        if ascii_digit(ch) {
            return self.read_number(start);
        }
        // Identifiers and keywords
        if alphabetic(ch) || ch == '_' {
            return Ok(self.read_identifier(start));
        }
        // String literals
        if ch == '"' {
            self.advance();
            return self.read_string(start);
        }
        // Operators and punctuation
        self.advance();
        self.read_symbol(ch, start)
    }
}

// ── Lemmas ───────────────────────────────────────────────

/// A prefix of a string of digits is worth at most the whole string.
pub proof fn lemma_digits_value_prefix(s: Seq<char>, k: int)
    requires
        0 <= k <= s.len(),
        forall|i: int| 0 <= i < s.len() ==> is_digit(#[trigger] s[i]),
    ensures
        0 <= digits_value(s.subrange(0, k)) <= digits_value(s),
    decreases s.len(),
{
    if k < s.len() {
        assert forall|i: int| 0 <= i < s.drop_last().len() implies is_digit(#[trigger] s.drop_last()[i]) by {
            assert(s.drop_last()[i] == s[i]);
        }
        lemma_digits_value_prefix(s.drop_last(), k);
        assert(s.drop_last().subrange(0, k) =~= s.subrange(0, k));
        lemma_digits_value_prefix(s.drop_last(), s.len() - 1);
        assert(s.drop_last().subrange(0, s.len() - 1) =~= s.drop_last());
        assert(is_digit(s.last()));
    } else {
        assert(s.subrange(0, k) =~= s);
        if s.len() > 0 {
            assert forall|i: int| 0 <= i < s.drop_last().len() implies is_digit(#[trigger] s.drop_last()[i]) by {
                assert(s.drop_last()[i] == s[i]);
            }
            lemma_digits_value_prefix(s.drop_last(), s.len() - 1);
            assert(s.drop_last().subrange(0, s.len() - 1) =~= s.drop_last());
            assert(is_digit(s.last()));
        }
    }
}

pub proof fn lemma_line_end(cs: Seq<char>, i: int)
    ensures
        line_end(cs, i) >= i,
        0 <= i ==> line_end(cs, i) <= cs.len() || line_end(cs, i) == i,
    decreases cs.len() - i,
{
    if !(i < 0 || i >= cs.len() || cs[i] == '\n') {
        lemma_line_end(cs, i + 1);
    }
}

pub proof fn lemma_skip_trivia(cs: Seq<char>, i: int)
    requires
        0 <= i <= cs.len(),
    ensures
        i <= skip_trivia(cs, i) <= cs.len(),
    decreases cs.len() - i,
{
    if i < cs.len() {
        if char_is_whitespace(cs[i]) {
            lemma_skip_trivia(cs, i + 1);
        } else if i + 1 < cs.len() && cs[i] == '/' && cs[i + 1] == '/' {
            lemma_line_end(cs, i + 2);
            lemma_skip_trivia(cs, line_end(cs, i + 2));
        }
    }
}

pub proof fn lemma_digits_end(cs: Seq<char>, i: int)
    requires
        0 <= i <= cs.len(),
    ensures
        i <= digits_end(cs, i) <= cs.len(),
        forall|k: int| i <= k < digits_end(cs, i) ==> is_digit(#[trigger] cs[k]),
    decreases cs.len() - i,
{
    if i < cs.len() && is_digit(cs[i]) {
        lemma_digits_end(cs, i + 1);
    }
}

pub proof fn lemma_ident_end(cs: Seq<char>, i: int)
    requires
        0 <= i <= cs.len(),
    ensures
        i <= ident_end(cs, i) <= cs.len(),
    decreases cs.len() - i,
{
    if i < cs.len() && is_ident_char(cs[i]) {
        lemma_ident_end(cs, i + 1);
    }
}

pub proof fn lemma_scan_string(cs: Seq<char>, j: int, acc: Seq<char>)
    requires
        0 <= j,
    ensures
        match scan_string(cs, j, acc) {
            StrScan::Done(_, e) => j < e <= cs.len(),
            StrScan::BadEscape(_, e) => j < e <= cs.len(),
            StrScan::EofInEscape(e) => e == cs.len(),
            StrScan::Unterminated(e) => e == cs.len(),
        },
    decreases cs.len() - j,
{
    if j < cs.len() && cs[j] != '"' {
        if cs[j] == '\\' {
            if j + 1 < cs.len() {
                let c = cs[j + 1];
                if c == 'n' {
                    lemma_scan_string(cs, j + 2, acc.push('\n'));
                } else if c == 't' {
                    lemma_scan_string(cs, j + 2, acc.push('\t'));
                } else if c == '\\' {
                    lemma_scan_string(cs, j + 2, acc.push('\\'));
                } else if c == '"' {
                    lemma_scan_string(cs, j + 2, acc.push('"'));
                }
            }
        } else {
            lemma_scan_string(cs, j + 1, acc.push(cs[j]));
        }
    }
}

/// A token that is not the end consumes at least one character.
pub proof fn lemma_lex_at_progress(cs: Seq<char>, i: int)
    requires
        0 <= i <= cs.len(),
    ensures
        match lex_at(cs, i) {
            Ok((Lexeme::End, e)) => e == i && i == cs.len(),
            Ok((_, e)) => i < e <= cs.len(),
            Err((_, e)) => i < e <= cs.len(),
        },
{
    if i < cs.len() {
        if is_digit(cs[i]) {
            lemma_digits_end(cs, i + 1);
            assert(digits_end(cs, i) == digits_end(cs, i + 1));
        } else if char_is_alphabetic(cs[i]) || cs[i] == '_' {
            lemma_ident_end(cs, i + 1);
        } else if cs[i] == '"' {
            lemma_scan_string(cs, i + 1, Seq::empty());
        }
    }
}

pub proof fn lemma_line_col_bounds(cs: Seq<char>, off: int)
    requires
        0 <= off,
    ensures
        1 <= line_col(cs, off).0 <= off + 1,
        1 <= line_col(cs, off).1 <= off + 1,
    decreases off,
{
    if off > 0 {
        lemma_line_col_bounds(cs, off - 1);
    }
}

/// The tokens a source lexes to, one for each lexeme.
pub open spec fn lexes_to(source: Seq<char>, toks: Seq<Token>) -> bool {
    match lex_from(source, 0) {
        Ok(ls) => toks.len() == ls.len() && forall|k: int| 0 <= k < ls.len() ==> token_is(source, #[trigger] toks[k], ls[k]),
        Err(_) => false,
    }
}

/// A successful run ends with the end token and yields at most one token per
/// character besides it; an error starts inside the source.
pub proof fn lemma_lex_from_shape(cs: Seq<char>, i: int)
    requires
        0 <= i <= cs.len(),
    ensures
        lex_from(cs, i) matches Ok(ls) ==> ls.len() >= 1 && ls.last().0 is End && ls.len() <= cs.len() - i + 1,
        lex_from(cs, i) matches Err(x) ==> i <= x.1 <= cs.len(),
    decreases cs.len() - i,
{
    let s = skip_trivia(cs, i);
    lemma_skip_trivia(cs, i);
    lemma_lex_at_progress(cs, s);
    match lex_at(cs, s) {
        Ok((Lexeme::End, e)) => {},
        Ok((l, e)) => {
            lemma_lex_from_shape(cs, e);
            match lex_from(cs, e) {
                Ok(rest) => {
                    assert((seq![(l, s, e)] + rest).last() == rest.last());
                },
                Err(x) => {},
            }
        },
        Err(_) => {},
    }
}

// ── Laws of the token stream ─────────────────────────────

/// How a character is written inside a string literal: a double quote,
/// a backslash, a newline and a tab as a backslash followed by `"`, `\`,
/// `n` and `t`; any other character as itself.
pub open spec fn escape_char(c: char) -> Seq<char> {
    if c == '"' {
        seq!['\\', '"']
    } else if c == '\\' {
        seq!['\\', '\\']
    } else if c == '\n' {
        seq!['\\', 'n']
    } else if c == '\t' {
        seq!['\\', 't']
    } else {
        seq![c]
    }
}

/// A text written as the body of a string literal, character by character.
pub open spec fn escaped(v: Seq<char>) -> Seq<char>
    decreases v.len(),
{
    if v.len() == 0 {
        Seq::empty()
    } else {
        escape_char(v[0]) + escaped(v.drop_first())
    }
}

/// Scanning the written form of a text, up to a closing quote, gives back
/// the text.
pub proof fn lemma_scan_escaped(cs: Seq<char>, j: int, acc: Seq<char>, v: Seq<char>)
    requires
        0 <= j,
        j + escaped(v).len() < cs.len(),
        cs.subrange(j, j + escaped(v).len()) == escaped(v),
        cs[j + escaped(v).len()] == '"',
    ensures
        scan_string(cs, j, acc) == StrScan::Done(acc + v, j + escaped(v).len() + 1),
    decreases v.len(),
{
    if v.len() == 0 {
        assert(acc + v =~= acc);
    } else {
        let c = v[0];
        let ec = escape_char(c);
        let rest = v.drop_first();
        let n = ec.len() as int;
        assert(escaped(v) == ec + escaped(rest));
        assert(cs[j] == escaped(v)[0]);
        assert(cs.subrange(j + n, j + n + escaped(rest).len()) =~= escaped(rest)) by {
            assert forall|k: int| 0 <= k < escaped(rest).len() implies cs.subrange(j + n, j + n + escaped(rest).len())[k]
                == escaped(rest)[k] by {
                assert(cs[j + n + k] == cs.subrange(j, j + escaped(v).len())[n + k]);
                assert(escaped(v)[n + k] == escaped(rest)[k]);
            }
        }
        if n == 2 {
            assert(cs[j + 1] == escaped(v)[1]);
        }
        lemma_scan_escaped(cs, j + n, acc.push(c), rest);
        assert(acc.push(c) + rest =~= acc + v);
    }
}

/// String literals read back what was written: for every text, a double
/// quote, the text written with `escape_char`, and a closing quote lex to
/// one string token holding exactly that text, which ends after the
/// closing quote. So `\"` stands for one double quote, `\\` for one
/// backslash, `\n` and `\t` for a newline and a tab.
pub proof fn lemma_string_literal_round_trip(cs: Seq<char>, i: int, v: Seq<char>)
    requires
        0 <= i,
        cs[i] == '"',
        i + 1 + escaped(v).len() < cs.len(),
        cs.subrange(i + 1, i + 1 + escaped(v).len()) == escaped(v),
        cs[i + 1 + escaped(v).len()] == '"',
    ensures
        lex_at(cs, i) == Ok::<(Lexeme, int), (Seq<char>, int)>((Lexeme::Text(v), i + escaped(v).len() + 2)),
{
    lemma_scan_escaped(cs, i + 1, Seq::empty(), v);
    assert(Seq::<char>::empty() + v =~= v);
}

/// The operator that two characters make together, when they make one.
pub open spec fn two_char_operator(a: char, b: char) -> Option<TokenKind> {
    if a == '=' && b == '=' {
        Some(TokenKind::EqualEqual)
    } else if a == '!' && b == '=' {
        Some(TokenKind::BangEqual)
    } else if a == '<' && b == '=' {
        Some(TokenKind::LessEqual)
    } else if a == '>' && b == '=' {
        Some(TokenKind::GreaterEqual)
    } else if a == '&' && b == '&' {
        Some(TokenKind::AmpAmp)
    } else if a == '|' && b == '|' {
        Some(TokenKind::PipePipe)
    } else if a == '-' && b == '>' {
        Some(TokenKind::Arrow)
    } else {
        None
    }
}

/// Where a token starts with `==`, `!=`, `<=`, `>=`, `&&`, `||` or `->`,
/// the two characters make one operator token two characters long, never
/// a one-character token followed by another.
pub proof fn lemma_two_char_operators(cs: Seq<char>, i: int)
    requires
        0 <= i,
        i + 1 < cs.len(),
        two_char_operator(cs[i], cs[i + 1]) is Some,
    ensures
        lex_at(cs, i) == Ok::<(Lexeme, int), (Seq<char>, int)>(
            (Lexeme::Symbol(two_char_operator(cs[i], cs[i + 1])->Some_0), i + 2),
        ),
{
}


/// The offset where the line holding offset `off` starts: just after the
/// last newline before `off`, or 0 on the first line.
pub open spec fn line_start_before(cs: Seq<char>, off: int) -> int
    decreases off,
{
    if off <= 0 {
        0
    } else if cs[off - 1] == '\n' {
        off
    } else {
        line_start_before(cs, off - 1)
    }
}

/// Lines and columns count from 1: the line of an offset is one more than
/// the newlines before it, and its column is one more than its distance from
/// the start of its line.
pub proof fn lemma_line_col_law(cs: Seq<char>, off: int)
    requires
        0 <= off <= cs.len(),
    ensures
        line_col(cs, off).0 == 1 + count_char(cs.subrange(0, off), '\n'),
        line_col(cs, off).1 == off - line_start_before(cs, off) + 1,
    decreases off,
{
    if off > 0 {
        lemma_line_col_law(cs, off - 1);
        assert(cs.subrange(0, off).drop_last() =~= cs.subrange(0, off - 1));
    }
}

/// Only the end lexeme is an end-of-file token.
proof fn lemma_lex_at_not_eof(cs: Seq<char>, i: int)
    requires
        0 <= i <= cs.len(),
    ensures
        lex_at(cs, i) matches Ok((l, _)) ==> (l is End || !lexeme_kind(l, TokenKind::Eof)),
{
    if 0 <= i < cs.len() && !is_digit(cs[i]) && !(char_is_alphabetic(cs[i]) || cs[i] == '_') && cs[i] != '"' {
        assert(symbol_at(cs, i) matches Ok((k, _)) ==> k != TokenKind::Eof);
    }
}

/// The lexemes from offset `i` come in source order without overlapping:
/// each but the last is not the end and covers at least one character at or
/// after `i`, each ends before the next starts, and the end lexeme stands
/// at the end of the source.
pub proof fn lemma_lex_spans(cs: Seq<char>, i: int)
    requires
        0 <= i <= cs.len(),
    ensures
        lex_from(cs, i) matches Ok(ls) ==> {
            &&& ls.len() >= 1
            &&& ls.last().0 is End
            &&& ls.last().1 == cs.len()
            &&& forall|k: int| 0 <= k < ls.len() ==> i <= (#[trigger] ls[k]).1 <= ls[k].2 <= cs.len()
            &&& forall|k: int| 0 <= k < ls.len() - 1 ==> !((#[trigger] ls[k]).0 is End) && ls[k].1 < ls[k].2
            &&& forall|k: int| 0 <= k < ls.len() - 1 ==> !lexeme_kind((#[trigger] ls[k]).0, TokenKind::Eof)
            &&& forall|k: int, j: int| 0 <= k < j < ls.len() ==> (#[trigger] ls[k]).2 <= (#[trigger] ls[j]).1
        },
    decreases cs.len() - i,
{
    let s = skip_trivia(cs, i);
    lemma_skip_trivia(cs, i);
    lemma_lex_at_progress(cs, s);
    match lex_at(cs, s) {
        Ok((Lexeme::End, e)) => {},
        Ok((l, e)) => {
            lemma_lex_spans(cs, e);
            match lex_from(cs, e) {
                Ok(rest) => {
                    let ls = seq![(l, s, e)] + rest;
                    assert(ls.last() == rest.last());
                    assert forall|k: int| 0 <= k < ls.len() implies i <= (#[trigger] ls[k]).1 <= ls[k].2 <= cs.len() by {
                        if k > 0 {
                            assert(ls[k] == rest[k - 1]);
                        }
                    }
                    assert forall|k: int| 0 <= k < ls.len() - 1 implies !((#[trigger] ls[k]).0 is End) && ls[k].1
                        < ls[k].2 by {
                        if k > 0 {
                            assert(ls[k] == rest[k - 1]);
                        }
                    }
                    lemma_lex_at_not_eof(cs, s);
                    assert forall|k: int| 0 <= k < ls.len() - 1 implies !lexeme_kind(
                        (#[trigger] ls[k]).0,
                        TokenKind::Eof,
                    ) by {
                        if k > 0 {
                            assert(ls[k] == rest[k - 1]);
                        }
                    }
                    assert forall|k: int, j: int| 0 <= k < j < ls.len() implies (#[trigger] ls[k]).2
                        <= (#[trigger] ls[j]).1 by {
                        assert(ls[j] == rest[j - 1]);
                        if k > 0 {
                            assert(ls[k] == rest[k - 1]);
                        }
                    }
                },
                Err(_) => {},
            }
        },
        Err(_) => {},
    }
}

/// The tokens of a source come in source order without overlapping: the
/// stream ends with the one end-of-file token, which stands at the end of
/// the source; every other token covers at least one character and ends
/// before the next starts; and every start has the line and column that
/// its offset has in the source.
pub proof fn lemma_token_spans(source: Seq<char>, toks: Seq<Token>)
    requires
        source.len() < usize::MAX,
        lexes_to(source, toks),
    ensures
        toks.len() >= 1,
        toks.last().kind == TokenKind::Eof,
        toks.last().span.start.offset == source.len(),
        forall|k: int| 0 <= k < toks.len() - 1 ==> (#[trigger] toks[k]).kind != TokenKind::Eof,
        forall|k: int|
            0 <= k < toks.len() - 1 ==> (#[trigger] toks[k]).span.start.offset < toks[k].span.end.offset,
        forall|k: int, j: int|
            0 <= k < j < toks.len() ==> (#[trigger] toks[k]).span.end.offset <= (#[trigger] toks[j]).span.start.offset,
        forall|k: int|
            0 <= k < toks.len() ==> (#[trigger] toks[k]).span.start == pos_at(
                source,
                toks[k].span.start.offset as int,
            ),
{
    lemma_lex_spans(source, 0);
    let ls = lex_from(source, 0)->Ok_0;
    assert(token_is(source, toks[toks.len() - 1], ls[ls.len() - 1]));
    assert forall|k: int| 0 <= k < toks.len() - 1 implies (#[trigger] toks[k]).kind != TokenKind::Eof by {
        assert(token_is(source, toks[k], ls[k]));
        assert(!(ls[k].0 is End));
    }
    assert forall|k: int| 0 <= k < toks.len() - 1 implies (#[trigger] toks[k]).span.start.offset
        < toks[k].span.end.offset by {
        assert(token_is(source, toks[k], ls[k]));
    }
    assert forall|k: int, j: int| 0 <= k < j < toks.len() implies (#[trigger] toks[k]).span.end.offset
        <= (#[trigger] toks[j]).span.start.offset by {
        assert(token_is(source, toks[k], ls[k]));
        assert(token_is(source, toks[j], ls[j]));
    }
    assert forall|k: int| 0 <= k < toks.len() implies (#[trigger] toks[k]).span.start == pos_at(
        source,
        toks[k].span.start.offset as int,
    ) by {
        assert(token_is(source, toks[k], ls[k]));
    }
}

} // verus!
