//! Source locations and compiler errors.

use vstd::prelude::*;
use crate::text::{chars_of, nat_text, push_str, push_string, push_usize, string_from_chars, string_of};

verus! {

/// A position in the source code.
#[derive(Debug, Clone, Copy, PartialEq, Eq, Structural)]
pub struct Pos {
    pub offset: usize,
    pub line: usize,
    pub column: usize,
}

/// A span of source code (start..end).
#[derive(Debug, Clone, Copy, PartialEq, Eq, Structural)]
pub struct Span {
    pub start: Pos,
    pub end: Pos,
}

impl Span {
    pub fn new(start: Pos, end: Pos) -> (s: Self)
        ensures
            s.start == start,
            s.end == end,
    {
        Span { start, end }
    }
}

/// A compiler error with a message and an optional source location.
#[derive(Debug)]
pub struct CompileError {
    pub message: String,
    pub span: Option<Span>,
}

impl CompileError {
    pub fn new(message: &str, span: Span) -> (e: Self)
        ensures
            e.message@ == message@,
            e.span == Some(span),
    {
        CompileError { message: string_of(message), span: Some(span) }
    }

    pub fn no_span(message: &str) -> (e: Self)
        ensures
            e.message@ == message@,
            e.span.is_none(),
    {
        CompileError { message: string_of(message), span: None }
    }
}


// ── Lines of source text ─────────────────────────────────

/// The index of the first `'\n'` at or after `i` (or the length).
pub open spec fn next_newline(s: Seq<char>, i: int) -> int
    decreases s.len() - i,
{
    if i < 0 || i >= s.len() {
        s.len() as int
    } else if s[i] == '\n' {
        i
    } else {
        next_newline(s, i + 1)
    }
}

/// Where line `k` (counted from 0) starts, when the text has such a line
/// (`str::lines`: a final line ending does not start another line).
pub open spec fn line_start(s: Seq<char>, k: nat) -> Option<int>
    decreases k,
{
    if k == 0 {
        if s.len() > 0 { Some(0) } else { None }
    } else {
        match line_start(s, (k - 1) as nat) {
            Some(a) => {
                let e = next_newline(s, a);
                if e + 1 < s.len() { Some(e + 1) } else { None }
            },
            None => None,
        }
    }
}

/// Line `k` of the text without its line ending (`"\n"` or `"\r\n"`).
pub open spec fn nth_line(s: Seq<char>, k: nat) -> Option<Seq<char>> {
    match line_start(s, k) {
        Some(a) => {
            let e = next_newline(s, a);
            let end = if e < s.len() && e > a && s[e - 1] == '\r' { e - 1 } else { e };
            Some(s.subrange(a, end))
        },
        None => None,
    }
}

/// `n` copies of `c`.
pub open spec fn repeat(c: char, n: nat) -> Seq<char> {
    Seq::new(n, |i: int| c)
}

/// The report of an error: its message and place, then the offending
/// line with the span underlined.
pub open spec fn report_text(e: CompileError, source: Seq<char>, filename: Seq<char>) -> Seq<char> {
    match e.span {
        Some(sp) => "error: "@ + e.message@ + " --> "@ + filename + ":"@ + nat_text(sp.start.line as nat) + ":"@
            + nat_text(sp.start.column as nat) + "\n"@ + match nth_line(source, (sp.start.line - 1) as nat) {
            Some(l) => "  |\n"@ + "  | "@ + l + "\n"@ + "  | "@ + repeat(' ', (sp.start.column - 1) as nat)
                + repeat(
                '^',
                if sp.end.column - sp.start.column >= 1 {
                    (sp.end.column - sp.start.column) as nat
                } else {
                    1
                },
            ) + "\n"@,
            None => Seq::empty(),
        },
        None => "error: "@ + e.message@ + "\n"@,
    }
}

proof fn lemma_no_later_line(s: Seq<char>, j: nat, m: nat)
    requires
        j <= m,
        line_start(s, j) is None,
    ensures
        line_start(s, m) is None,
    decreases m - j,
{
    if j < m {
        lemma_no_later_line(s, j, (m - 1) as nat);
    }
}

/// The range of line `k` of `cs`.
fn line_range(cs: &Vec<char>, k: usize) -> (r: Option<(usize, usize)>)
    ensures
        match r {
            Some((a, b)) => a <= b <= cs@.len() && nth_line(cs@, k as nat) == Some(cs@.subrange(a as int, b as int)),
            None => nth_line(cs@, k as nat) is None,
        },
{
    let n = cs.len();
    if n == 0 {
        return None;
    }
    let mut start: usize = 0;
    let mut j: usize = 0;
    while j < k
        invariant
            j <= k,
            start < n == cs@.len(),
            line_start(cs@, j as nat) == Some(start as int),
        decreases k - j,
    {
        let mut e = start;
        while e < n && cs[e] != '\n'
            invariant
                start <= e <= n,
                n == cs@.len(),
                next_newline(cs@, start as int) == next_newline(cs@, e as int),
            decreases n - e,
        {
            e += 1;
        }
        if e >= n - 1 {
            proof {
                lemma_no_later_line(cs@, (j + 1) as nat, k as nat);
            }
            return None;
        }
        start = e + 1;
        j += 1;
    }
    let mut e = start;
    while e < n && cs[e] != '\n'
        invariant
            start <= e <= n,
            n == cs@.len(),
            next_newline(cs@, start as int) == next_newline(cs@, e as int),
        decreases n - e,
    {
        e += 1;
    }
    let end = if e < n && e > start && cs[e - 1] == '\r' {
        e - 1
    } else {
        e
    };
    Some((start, end))
}

impl CompileError {
    /// The report `report` prints: the message and place, then the
    /// offending source line with the span underlined.
    pub fn report_text(&self, source: &str, filename: &str) -> (r: String)
        requires
            self.span matches Some(sp) ==> sp.start.line >= 1 && (nth_line(source@, (sp.start.line - 1) as nat) is Some
                ==> sp.start.column >= 1 && sp.end.column >= sp.start.column),
        ensures
            r@ == report_text(*self, source@, filename@),
    {
        let mut out = String::new();
        push_str(&mut out, "error: ");
        push_string(&mut out, &self.message);
        match &self.span {
            Some(sp) => {
                push_str(&mut out, " --> ");
                push_str(&mut out, filename);
                push_str(&mut out, ":");
                push_usize(&mut out, sp.start.line);
                push_str(&mut out, ":");
                push_usize(&mut out, sp.start.column);
                push_str(&mut out, "\n");
                let ghost head = out@;
                let cs = chars_of(source);
                match line_range(&cs, sp.start.line - 1) {
                    Some((a, b)) => {
                        push_str(&mut out, "  |\n");
                        push_str(&mut out, "  | ");
                        push_string(&mut out, &string_from_chars(&cs, a, b));
                        push_str(&mut out, "\n");
                        push_str(&mut out, "  | ");
                        let ghost before_marks = out@;
                        let mut i: usize = 0;
                        while i < sp.start.column - 1
                            invariant
                                i <= sp.start.column - 1,
                                out@ == before_marks + repeat(' ', i as nat),
                            decreases sp.start.column - 1 - i,
                        {
                            out.push(' ');
                            assert(out@ =~= before_marks + repeat(' ', (i + 1) as nat));
                            i += 1;
                        }
                        let carets = if sp.end.column - sp.start.column >= 1 {
                            sp.end.column - sp.start.column
                        } else {
                            1
                        };
                        let ghost before_carets = out@;
                        let mut j: usize = 0;
                        while j < carets
                            invariant
                                j <= carets,
                                out@ == before_carets + repeat('^', j as nat),
                            decreases carets - j,
                        {
                            out.push('^');
                            assert(out@ =~= before_carets + repeat('^', (j + 1) as nat));
                            j += 1;
                        }
                        push_str(&mut out, "\n");
                        assert(out@ =~= head + ("  |\n"@ + "  | "@ + cs@.subrange(a as int, b as int) + "\n"@ + "  | "@
                            + repeat(' ', (sp.start.column - 1) as nat) + repeat('^', carets as nat) + "\n"@));
                    },
                    None => {},
                }
            },
            None => {
                push_str(&mut out, "\n");
            },
        }
        out
    }
}

} // verus!
