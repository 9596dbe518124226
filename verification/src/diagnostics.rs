//! Diagnostics for editors: the JSON array that `ferro check` prints, the
//! few JSON lookups the language server needs, and the Language Server
//! Protocol messages built from them.

use vstd::prelude::*;
use crate::ast::pretty::{functions_depth, nesting_depth};
use crate::error::CompileError;
use crate::lexer::{
    digits_value, error_is, lemma_lex_from_shape, lemma_line_col_bounds, lex_from, lexes_to, token_is, Lexer,
};
use crate::lexer::token::Token;
use crate::parser::Parser;
use crate::parser::grammar::{empty_sprogram, pprogram, program_view, Parsed};
use crate::ast::Program;
use crate::sema::checker::{empty_tables, parse_usize_range, trim_range, Checker};
use crate::sema::rules::{all_digits, parse_usize, program_ok, trim, trim_start};
use crate::sema::faults::program_fault;
use crate::text::{
    ascii_digit, chars_of, int_text, is_digit, nat_text, push_i64, push_str, push_string, push_u64, push_usize,
    str_is, string_of, whitespace,
};

verus! {

// ── Searching text ───────────────────────────────────────

/// The index of the first occurrence of `p` in `s` at or after `from`
/// (`str::find`).
pub open spec fn find_from(s: Seq<char>, p: Seq<char>, from: int) -> Option<int>
    decreases s.len() + 1 - from,
{
    if from < 0 || from + p.len() > s.len() {
        None
    } else if s.subrange(from, from + p.len()) == p {
        Some(from)
    } else {
        find_from(s, p, from + 1)
    }
}

/// A match found at or after `from` lies there and inside `s`.
pub proof fn lemma_find_from(s: Seq<char>, p: Seq<char>, from: int)
    ensures
        find_from(s, p, from) matches Some(k) ==> from <= k && k + p.len() <= s.len(),
    decreases s.len() + 1 - from,
{
    if !(from < 0 || from + p.len() > s.len()) && s.subrange(from, from + p.len()) != p {
        lemma_find_from(s, p, from + 1);
    }
}

/// `s` with every occurrence of the non-empty `p` replaced by `r`, left to
/// right (`str::replace`).
pub open spec fn replace_all(s: Seq<char>, p: Seq<char>, r: Seq<char>) -> Seq<char>
    decreases s.len(),
{
    if s.len() == 0 {
        Seq::empty()
    } else if p.len() > 0 && p.len() <= s.len() && s.subrange(0, p.len() as int) == p {
        r + replace_all(s.subrange(p.len() as int, s.len() as int), p, r)
    } else {
        seq![s[0]] + replace_all(s.drop_first(), p, r)
    }
}

/// Whether `p` occurs in `s` at `i`.
fn occurs_at(s: &Vec<char>, p: &Vec<char>, i: usize) -> (r: bool)
    requires
        i <= s@.len(),
    ensures
        r == (i + p@.len() <= s@.len() && s@.subrange(i as int, i + p@.len()) == p@),
{
    if p.len() > s.len() - i {
        return false;
    }
    let n = s.len();
    let mut k: usize = 0;
    while k < p.len()
        invariant
            n == s@.len(),
            i + p@.len() <= s@.len(),
            k <= p@.len(),
            forall|m: int| 0 <= m < k ==> s@[i + m] == p@[m],
        decreases p@.len() - k,
    {
        let j = i + k;
        if s[j] != p[k] {
            assert(s@.subrange(i as int, i + p@.len())[k as int] != p@[k as int]);
            return false;
        }
        k += 1;
    }
    assert(s@.subrange(i as int, i + p@.len()) =~= p@);
    true
}

/// The index of the first occurrence of `p` in `s` at or after `from`.
fn find_in(s: &Vec<char>, p: &Vec<char>, from: usize) -> (r: Option<usize>)
    requires
        from <= s@.len(),
    ensures
        match r {
            Some(k) => find_from(s@, p@, from as int) == Some(k as int) && k + p@.len() <= s@.len(),
            None => find_from(s@, p@, from as int) is None,
        },
{
    let mut i = from;
    while i < s.len()
        invariant
            from <= i <= s@.len(),
            find_from(s@, p@, from as int) == find_from(s@, p@, i as int),
        decreases s@.len() - i,
    {
        if occurs_at(s, p, i) {
            return Some(i);
        }
        i += 1;
    }
    if occurs_at(s, p, i) {
        return Some(i);
    }
    assert(find_from(s@, p@, i + 1) is None);
    None
}

/// `s` with every occurrence of the non-empty `p` replaced by `r`.
fn replace_chars(s: &Vec<char>, p: &Vec<char>, r: &Vec<char>) -> (out: Vec<char>)
    requires
        p@.len() > 0,
    ensures
        out@ == replace_all(s@, p@, r@),
{
    let mut out: Vec<char> = Vec::new();
    let mut i: usize = 0;
    assert(s@.subrange(0, s@.len() as int) =~= s@);
    assert(out@ + replace_all(s@, p@, r@) =~= replace_all(s@, p@, r@));
    while i < s.len()
        invariant
            i <= s@.len(),
            p@.len() > 0,
            replace_all(s@, p@, r@) == out@ + replace_all(s@.subrange(i as int, s@.len() as int), p@, r@),
        decreases s@.len() - i,
    {
        let ghost rest = s@.subrange(i as int, s@.len() as int);
        if occurs_at(s, p, i) {
            assert(rest.subrange(0, p@.len() as int) =~= s@.subrange(i as int, i + p@.len()));
            assert(rest.subrange(p@.len() as int, rest.len() as int) =~= s@.subrange(i + p@.len(), s@.len() as int));
            let mut k: usize = 0;
            let ghost before = out@;
            while k < r.len()
                invariant
                    k <= r@.len(),
                    out@ == before + r@.take(k as int),
                decreases r@.len() - k,
            {
                out.push(r[k]);
                assert(out@ =~= before + r@.take(k + 1));
                k += 1;
            }
            assert(r@.take(k as int) =~= r@);
            i += p.len();
        } else {
            proof {
                if p@.len() <= rest.len() {
                    assert(rest.subrange(0, p@.len() as int) =~= s@.subrange(i as int, i + p@.len()));
                }
            }
            assert(rest.drop_first() =~= s@.subrange(i + 1, s@.len() as int));
            out.push(s[i]);
            assert(out@ + replace_all(rest.drop_first(), p@, r@) =~= (out@.drop_last() + seq![s@[i as int]])
                + replace_all(rest.drop_first(), p@, r@));
            i += 1;
        }
    }
    assert(s@.subrange(i as int, s@.len() as int) =~= Seq::<char>::empty());
    assert(out@ + Seq::<char>::empty() =~= out@);
    out
}

/// The index of the first character of `s[from..]` that is not whitespace
/// (`str::trim_start`).
fn skip_whitespace(s: &Vec<char>, from: usize) -> (r: usize)
    requires
        from <= s@.len(),
    ensures
        from <= r <= s@.len(),
        s@.subrange(r as int, s@.len() as int) == trim_start(s@.subrange(from as int, s@.len() as int)),
{
    let mut i = from;
    while i < s.len() && whitespace(s[i])
        invariant
            from <= i <= s@.len(),
            trim_start(s@.subrange(from as int, s@.len() as int)) == trim_start(s@.subrange(i as int, s@.len() as int)),
        decreases s@.len() - i,
    {
        assert(s@.subrange(i as int, s@.len() as int).drop_first() =~= s@.subrange(i + 1, s@.len() as int));
        i += 1;
    }
    if i < s.len() {
        assert(s@.subrange(i as int, s@.len() as int)[0] == s@[i as int]);
    }
    i
}

// ── The JSON of an error ─────────────────────────────────

/// A character as it appears inside a JSON string (only `\` and `"` are
/// escaped).
pub open spec fn escape_char(c: char) -> Seq<char> {
    if c == '\\' {
        seq!['\\', '\\']
    } else if c == '"' {
        seq!['\\', '"']
    } else {
        seq![c]
    }
}

/// A message as it appears inside a JSON string.
pub open spec fn escape_json(s: Seq<char>) -> Seq<char>
    decreases s.len(),
{
    if s.len() == 0 {
        Seq::empty()
    } else {
        escape_json(s.drop_last()) + escape_char(s.last())
    }
}

/// Append `s` escaped for a JSON string.
fn push_escaped(out: &mut String, s: &Vec<char>)
    ensures
        final(out)@ == old(out)@ + escape_json(s@),
{
    let mut i: usize = 0;
    while i < s.len()
        invariant
            i <= s@.len(),
            out@ == old(out)@ + escape_json(s@.take(i as int)),
        decreases s@.len() - i,
    {
        let c = s[i];
        assert(s@.take(i + 1).drop_last() =~= s@.take(i as int));
        if c == '\\' {
            out.push('\\');
            out.push('\\');
        } else if c == '"' {
            out.push('\\');
            out.push('"');
        } else {
            out.push(c);
        }
        assert(out@ =~= old(out)@ + escape_json(s@.take(i + 1)));
        i += 1;
    }
    assert(s@.take(i as int) =~= s@);
}

/// The place an error marks: start line and column, end line and column
/// (the end column at least one past the start); (1, 1, 1, 2) without a span.
pub open spec fn error_place(e: CompileError) -> (nat, nat, nat, nat) {
    match e.span {
        Some(s) => (
            s.start.line as nat,
            s.start.column as nat,
            s.end.line as nat,
            if s.end.column > s.start.column { s.end.column as nat } else { (s.start.column + 1) as nat },
        ),
        None => (1, 1, 1, 2),
    }
}

/// An error as a JSON object.
pub open spec fn error_json(e: CompileError) -> Seq<char> {
    let (line, col, end_line, end_col) = error_place(e);
    "{\"message\":\""@ + escape_json(e.message@) + "\",\"line\":"@ + nat_text(line) + ",\"column\":"@ + nat_text(col)
        + ",\"end_line\":"@ + nat_text(end_line) + ",\"end_column\":"@ + nat_text(end_col) + "}"@
}

/// An error as a JSON object with its message and place.
pub fn error_to_json(e: &CompileError) -> (r: String)
    requires
        e.span matches Some(s) ==> s.start.column < usize::MAX,
    ensures
        r@ == error_json(*e),
{
    let (line, col, end_line, end_col) = match &e.span {
        Some(s) => (
            s.start.line,
            s.start.column,
            s.end.line,
            if s.end.column > s.start.column {
                s.end.column
            } else {
                s.start.column + 1
            },
        ),
        None => (1, 1, 1, 2),
    };
    let msg = chars_of(e.message.as_str());
    let mut out = String::new();
    push_str(&mut out, "{\"message\":\"");
    push_escaped(&mut out, &msg);
    push_str(&mut out, "\",\"line\":");
    push_usize(&mut out, line);
    push_str(&mut out, ",\"column\":");
    push_usize(&mut out, col);
    push_str(&mut out, ",\"end_line\":");
    push_usize(&mut out, end_line);
    push_str(&mut out, ",\"end_column\":");
    push_usize(&mut out, end_col);
    push_str(&mut out, "}");
    out
}


// ── Looking up values in JSON text ───────────────────────

/// `key` in double quotes.
pub open spec fn quoted(key: Seq<char>) -> Seq<char> {
    seq!['"'] + key + seq!['"']
}

/// Where the value of `key` begins in `json`: after the first `"key"`, the
/// first `:` after it, and any whitespace.
pub open spec fn value_start(json: Seq<char>, key: Seq<char>) -> Option<int> {
    match find_from(json, quoted(key), 0) {
        Some(start) => match find_from(json, seq![':'], start + quoted(key).len()) {
            Some(colon) => Some(json.len() - trim_start(json.subrange(colon + 1, json.len() as int)).len()),
            None => None,
        },
        None => None,
    }
}

/// Where a JSON string body starting at `i` ends: at the first `"` not
/// escaped by a `\` (a `\` skips the next character).
pub open spec fn string_end(c: Seq<char>, i: int) -> int
    decreases c.len() + 2 - i,
{
    if i < 0 || i >= c.len() {
        i
    } else if c[i] == '\\' {
        string_end(c, i + 2)
    } else if c[i] == '"' {
        i
    } else {
        string_end(c, i + 1)
    }
}

/// The escapes a string value is read with, replaced in this order:
/// `\n`, `\t`, `\"`, then `\\`.
pub open spec fn unescape(v: Seq<char>) -> Seq<char> {
    replace_all(
        replace_all(replace_all(replace_all(v, seq!['\\', 'n'], seq!['\n']), seq!['\\', 't'], seq!['\t']), seq!['\\', '"'], seq!['"']),
        seq!['\\', '\\'],
        seq!['\\'],
    )
}

/// The body of the string value of `key` (`None` when there is no such key
/// or its value is not a string).
pub open spec fn string_body(json: Seq<char>, key: Seq<char>) -> Option<Seq<char>> {
    match value_start(json, key) {
        Some(v) => if v < json.len() && json[v] == '"' {
            Some(json.subrange(v + 1, json.len() as int))
        } else {
            None
        },
        None => None,
    }
}

/// Reading the string value of `key` stays inside the text: the value does
/// not end in a lone `\`.
pub open spec fn string_readable(json: Seq<char>, key: Seq<char>) -> bool {
    match string_body(json, key) {
        Some(b) => string_end(b, 0) <= b.len(),
        None => true,
    }
}

/// The string value of `key`, unescaped.
pub open spec fn string_value(json: Seq<char>, key: Seq<char>) -> Option<Seq<char>> {
    match string_body(json, key) {
        Some(b) => Some(unescape(b.subrange(0, string_end(b, 0)))),
        None => None,
    }
}

/// The end of the run of `-` and digits starting at `i`.
pub open spec fn number_end(s: Seq<char>, i: int) -> int
    decreases s.len() - i,
{
    if 0 <= i < s.len() && (s[i] == '-' || is_digit(s[i])) {
        number_end(s, i + 1)
    } else {
        i
    }
}

/// The `i64` that `t` spells (`str::parse::<i64>` on text of `-` and digits).
pub open spec fn parse_i64(t: Seq<char>) -> Option<i64> {
    if t.len() > 0 && t[0] == '-' {
        let d = t.drop_first();
        if d.len() > 0 && all_digits(d) && digits_value(d) <= 0x8000_0000_0000_0000 {
            Some((-digits_value(d)) as i64)
        } else {
            None
        }
    } else if t.len() > 0 && all_digits(t) && digits_value(t) <= i64::MAX {
        Some(digits_value(t) as i64)
    } else {
        None
    }
}

/// The number value of `key`.
pub open spec fn number_value(json: Seq<char>, key: Seq<char>) -> Option<i64> {
    match value_start(json, key) {
        Some(v) => parse_i64(json.subrange(v, number_end(json, v))),
        None => None,
    }
}

/// The string value of `inner` after the first `open` character that follows
/// `"outer"` in `json`.
pub open spec fn string_after(json: Seq<char>, outer: Seq<char>, open: char, inner: Seq<char>) -> Option<Seq<char>> {
    match find_from(json, quoted(outer), 0) {
        Some(start) => match find_from(json, seq![open], start) {
            Some(b) => string_value(json.subrange(b, json.len() as int), inner),
            None => None,
        },
        None => None,
    }
}

/// Reading `string_after` stays inside the text.
pub open spec fn readable_after(json: Seq<char>, outer: Seq<char>, open: char, inner: Seq<char>) -> bool {
    match find_from(json, quoted(outer), 0) {
        Some(start) => match find_from(json, seq![open], start) {
            Some(b) => string_readable(json.subrange(b, json.len() as int), inner),
            None => true,
        },
        None => true,
    }
}

/// The string value of `inner` in the first object after `"outer"`.
pub open spec fn nested_string(json: Seq<char>, outer: Seq<char>, inner: Seq<char>) -> Option<Seq<char>> {
    string_after(json, outer, '{', inner)
}

/// Reading `nested_string` stays inside the text.
pub open spec fn nested_readable(json: Seq<char>, outer: Seq<char>, inner: Seq<char>) -> bool {
    readable_after(json, outer, '{', inner)
}

/// The text of the first content change: the string value of `text` after
/// the first `[` that follows `"contentChanges"`.
pub open spec fn content_change_text(json: Seq<char>) -> Option<Seq<char>> {
    string_after(json, "contentChanges"@, '[', "text"@)
}

/// Reading `content_change_text` stays inside the text.
pub open spec fn content_change_readable(json: Seq<char>) -> bool {
    readable_after(json, "contentChanges"@, '[', "text"@)
}

fn one_char(a: char) -> (v: Vec<char>)
    ensures
        v@ == seq![a],
{
    let mut v: Vec<char> = Vec::new();
    v.push(a);
    assert(v@ =~= seq![a]);
    v
}

fn two_chars(a: char, b: char) -> (v: Vec<char>)
    ensures
        v@ == seq![a, b],
{
    let mut v: Vec<char> = Vec::new();
    v.push(a);
    v.push(b);
    assert(v@ =~= seq![a, b]);
    v
}

/// `cs[from..to]` as a new vector.
fn slice_chars(cs: &Vec<char>, from: usize, to: usize) -> (v: Vec<char>)
    requires
        from <= to <= cs@.len(),
    ensures
        v@ == cs@.subrange(from as int, to as int),
{
    let mut v: Vec<char> = Vec::new();
    let mut i = from;
    while i < to
        invariant
            from <= i <= to <= cs@.len(),
            v@ == cs@.subrange(from as int, i as int),
        decreases to - i,
    {
        v.push(cs[i]);
        assert(v@ =~= cs@.subrange(from as int, i + 1));
        i += 1;
    }
    v
}

/// `key` in double quotes.
fn quote(key: &Vec<char>) -> (v: Vec<char>)
    ensures
        v@ == quoted(key@),
{
    let mut v = one_char('"');
    let mut i: usize = 0;
    while i < key.len()
        invariant
            i <= key@.len(),
            v@ == seq!['"'] + key@.take(i as int),
        decreases key@.len() - i,
    {
        v.push(key[i]);
        assert(v@ =~= seq!['"'] + key@.take(i + 1));
        i += 1;
    }
    v.push('"');
    assert(v@ =~= quoted(key@));
    v
}

/// Where the value of `key` begins in `json`.
fn find_value(json: &Vec<char>, key: &Vec<char>) -> (r: Option<usize>)
    ensures
        match r {
            Some(v) => value_start(json@, key@) == Some(v as int) && v <= json@.len(),
            None => value_start(json@, key@) is None,
        },
{
    let pattern = quote(key);
    let n = json.len();
    let start = match find_in(json, &pattern, 0) {
        Some(k) => k,
        None => {
            return None;
        },
    };
    assert(start + pattern@.len() <= n);
    let colon_pattern = one_char(':');
    let colon = match find_in(json, &colon_pattern, start + pattern.len()) {
        Some(c) => c,
        None => {
            return None;
        },
    };
    let v = skip_whitespace(json, colon + 1);
    Some(v)
}

/// The end of the string body `c`, or `None` when a final `\\` escapes
/// past its end.
fn scan_string(c: &Vec<char>) -> (e: Option<usize>)
    ensures
        match e {
            Some(k) => k == string_end(c@, 0) && k <= c@.len(),
            None => string_end(c@, 0) > c@.len(),
        },
{
    let mut i: usize = 0;
    while i < c.len()
        invariant
            i <= c@.len(),
            string_end(c@, 0) == string_end(c@, i as int),
        decreases c@.len() - i,
    {
        if c[i] == '\\' {
            if i + 1 >= c.len() {
                assert(string_end(c@, i + 2) == i + 2);
                return None;
            }
            i += 2;
        } else if c[i] == '"' {
            return Some(i);
        } else {
            i += 1;
        }
    }
    Some(i)
}

/// Undo the escapes of a string value.
fn unescape_chars(v: &Vec<char>) -> (r: Vec<char>)
    ensures
        r@ == unescape(v@),
{
    let a = replace_chars(v, &two_chars('\\', 'n'), &one_char('\n'));
    let b = replace_chars(&a, &two_chars('\\', 't'), &one_char('\t'));
    let c = replace_chars(&b, &two_chars('\\', '"'), &one_char('"'));
    replace_chars(&c, &two_chars('\\', '\\'), &one_char('\\'))
}

/// The string value of `key` in `json`; `None` when reading it would run
/// past the end of the text.
fn read_string_value(json: &Vec<char>, key: &Vec<char>) -> (r: Option<Option<Vec<char>>>)
    ensures
        match r {
            Some(Some(v)) => string_readable(json@, key@) && string_value(json@, key@) == Some(v@),
            Some(None) => string_readable(json@, key@) && string_value(json@, key@) is None,
            None => !string_readable(json@, key@),
        },
{
    let v = match find_value(json, key) {
        Some(v) => v,
        None => {
            return Some(None);
        },
    };
    if v >= json.len() || json[v] != '"' {
        return Some(None);
    }
    let body = slice_chars(json, v + 1, json.len());
    let e = match scan_string(&body) {
        Some(e) => e,
        None => {
            return None;
        },
    };
    let raw = slice_chars(&body, 0, e);
    Some(Some(unescape_chars(&raw)))
}

/// A string made of all of `v`.
fn string_of_chars(v: &Vec<char>) -> (r: String)
    ensures
        r@ == v@,
{
    let r = crate::text::string_from_chars(v, 0, v.len());
    assert(v@.subrange(0, v@.len() as int) =~= v@);
    r
}

/// The string value of `key` in a JSON text, with its escapes undone.
pub fn json_get_string(json: &str, key: &str) -> (r: Option<String>)
    requires
        string_readable(json@, key@),
    ensures
        match r {
            Some(v) => string_value(json@, key@) == Some(v@),
            None => string_value(json@, key@) is None,
        },
{
    match read_string_value(&chars_of(json), &chars_of(key)) {
        Some(Some(v)) => Some(string_of_chars(&v)),
        _ => None,
    }
}

/// The `i64` that `t` spells.
fn parse_i64_chars(t: &Vec<char>, from: usize, to: usize) -> (r: Option<i64>)
    requires
        from <= to <= t@.len(),
    ensures
        r == parse_i64(t@.subrange(from as int, to as int)),
{
    let ghost s = t@.subrange(from as int, to as int);
    if from == to {
        return None;
    }
    let negative = t[from] == '-';
    let start = if negative {
        from + 1
    } else {
        from
    };
    let ghost d = t@.subrange(start as int, to as int);
    if negative {
        assert(s.drop_first() =~= d);
    } else {
        assert(s =~= d);
    }
    if start == to {
        return None;
    }
    let mut mag: u64 = 0;
    let mut j = start;
    assert(d.subrange(0, 0) =~= Seq::<char>::empty());
    while j < to
        invariant
            from <= start <= j <= to <= t@.len(),
            s == t@.subrange(from as int, to as int),
            d == t@.subrange(start as int, to as int),
            negative ==> (s.len() > 0 && s[0] == '-' && s.drop_first() == d),
            !negative ==> (s == d && (s.len() > 0 ==> s[0] != '-')),
            forall|k: int| start <= k < j ==> is_digit(#[trigger] t@[k]),
            mag as int == digits_value(d.subrange(0, j - start)),
            mag <= 0x8000_0000_0000_0000,
        decreases to - j,
    {
        let ch = t[j];
        if !ascii_digit(ch) {
            assert(d[j - start] == ch);
            assert(!all_digits(d));
            return None;
        }
        let dv: u64 = (ch as u32 - '0' as u32) as u64;
        assert(d.subrange(0, j + 1 - start).drop_last() =~= d.subrange(0, j - start));
        assert(digits_value(d.subrange(0, j + 1 - start)) == mag * 10 + dv);
        if mag > (0x8000_0000_0000_0000u64 - dv) / 10 {
            assert(mag * 10 + dv > 0x8000_0000_0000_0000) by (nonlinear_arith)
                requires
                    mag > (0x8000_0000_0000_0000u64 - dv) / 10,
                    dv <= 9,
            ;
            proof {
                if all_digits(d) {
                    crate::lexer::lemma_digits_value_prefix(d, j + 1 - start);
                }
            }
            return None;
        }
        mag = mag * 10 + dv;
        j += 1;
    }
    assert(d.subrange(0, j - start) =~= d);
    assert(all_digits(d)) by {
        assert forall|k: int| 0 <= k < d.len() implies is_digit(#[trigger] d[k]) by {
            assert(d[k] == t@[start + k]);
        }
    }
    if negative {
        if mag == 0x8000_0000_0000_0000u64 {
            Some(i64::MIN)
        } else {
            Some(0i64 - mag as i64)
        }
    } else if mag > 0x7fff_ffff_ffff_ffffu64 {
        None
    } else {
        Some(mag as i64)
    }
}

/// The number value of `key` in `cs`.
fn number_of(cs: &Vec<char>, key: &Vec<char>) -> (r: Option<i64>)
    ensures
        r == number_value(cs@, key@),
{
    let v = match find_value(cs, key) {
        Some(v) => v,
        None => {
            return None;
        },
    };
    let mut e = v;
    while e < cs.len() && (cs[e] == '-' || ascii_digit(cs[e]))
        invariant
            v <= e <= cs@.len(),
            number_end(cs@, v as int) == number_end(cs@, e as int),
        decreases cs@.len() - e,
    {
        e += 1;
    }
    parse_i64_chars(cs, v, e)
}

/// The number value of `key` in a JSON text.
pub fn json_get_number(json: &str, key: &str) -> (r: Option<i64>)
    ensures
        r == number_value(json@, key@),
{
    number_of(&chars_of(json), &chars_of(key))
}

/// The string value of `inner` after the first `open` that follows
/// `"outer"`; `None` when reading it would run past the end of the text.
fn read_string_after(json: &Vec<char>, outer: &Vec<char>, open: char, inner: &Vec<char>) -> (r: Option<Option<Vec<char>>>)
    ensures
        match r {
            Some(Some(v)) => readable_after(json@, outer@, open, inner@) && string_after(json@, outer@, open, inner@)
                == Some(v@),
            Some(None) => readable_after(json@, outer@, open, inner@) && string_after(json@, outer@, open, inner@) is None,
            None => !readable_after(json@, outer@, open, inner@),
        },
{
    let start = match find_in(json, &quote(outer), 0) {
        Some(k) => k,
        None => {
            return Some(None);
        },
    };
    proof {
        lemma_find_from(json@, quoted(outer@), 0);
    }
    let b = match find_in(json, &one_char(open), start) {
        Some(b) => b,
        None => {
            return Some(None);
        },
    };
    let nested = slice_chars(json, b, json.len());
    read_string_value(&nested, inner)
}

/// The string value of `inner` in the first object after `"outer"`.
pub fn json_get_nested_string(json: &str, outer: &str, inner: &str) -> (r: Option<String>)
    requires
        nested_readable(json@, outer@, inner@),
    ensures
        match r {
            Some(v) => nested_string(json@, outer@, inner@) == Some(v@),
            None => nested_string(json@, outer@, inner@) is None,
        },
{
    match read_string_after(&chars_of(json), &chars_of(outer), '{', &chars_of(inner)) {
        Some(Some(v)) => Some(string_of_chars(&v)),
        _ => None,
    }
}

/// The full text of a document change: `contentChanges[0].text`.
pub fn json_get_content_change_text(json: &str) -> (r: Option<String>)
    requires
        content_change_readable(json@),
    ensures
        match r {
            Some(v) => content_change_text(json@) == Some(v@),
            None => content_change_text(json@) is None,
        },
{
    match read_string_after(&chars_of(json), &chars_of("contentChanges"), '[', &chars_of("text")) {
        Some(Some(v)) => Some(string_of_chars(&v)),
        _ => None,
    }
}


// ── From check diagnostics to LSP diagnostics ────────────

/// The pieces of `s[from..]` between the occurrences of `p`, found left to
/// right (`str::split`).
pub open spec fn split_from(s: Seq<char>, p: Seq<char>, from: int) -> Seq<Seq<char>>
    decreases s.len() - from,
{
    if p.len() == 0 || from < 0 || from > s.len() {
        seq![s.subrange(from, s.len() as int)]
    } else {
        match find_from(s, p, from) {
            Some(k) => {
                proof {
                    lemma_find_from(s, p, from);
                }
                seq![s.subrange(from, k)] + split_from(s, p, k + p.len())
            },
            None => seq![s.subrange(from, s.len() as int)],
        }
    }
}

/// The `i`-th of `n` pieces with the braces that splitting at `},{` took
/// from it put back.
pub open spec fn rebraced(e: Seq<char>, i: int, n: int) -> Seq<char> {
    (if i > 0 { seq!['{'] } else { Seq::empty() }) + e + (if i < n - 1 { seq!['}'] } else { Seq::empty() })
}

/// The entries of a diagnostics array: the text inside its brackets split at
/// `},{`, each with its braces put back.
pub open spec fn lsp_entries(check_json: Seq<char>) -> Seq<Seq<char>> {
    let parts = split_from(check_json.subrange(1, check_json.len() - 1), seq!['}', ',', '{'], 0);
    Seq::new(parts.len(), |i: int| rebraced(parts[i], i, parts.len() as int))
}

/// The number value of `key`, or `d` when there is none.
pub open spec fn number_or(json: Seq<char>, key: Seq<char>, d: i64) -> i64 {
    match number_value(json, key) {
        Some(n) => n,
        None => d,
    }
}

/// A 1-based position taken as a 64-bit unsigned number and made 0-based,
/// stopping at 0.
pub open spec fn zero_based(n: i64) -> nat {
    let u: int = if n >= 0 { n as int } else { n + 0x1_0000_0000_0000_0000 };
    if u > 0 { (u - 1) as nat } else { 0 }
}

/// A message with `\` and `"` escaped, one replacement after the other.
pub open spec fn escape_quotes(m: Seq<char>) -> Seq<char> {
    replace_all(replace_all(m, seq!['\\'], seq!['\\', '\\']), seq!['"'], seq!['\\', '"'])
}

/// The 0-based start line, start character, end line and end character of
/// an entry (the end defaults to the start line and the character after the
/// start).
pub open spec fn lsp_range(e: Seq<char>) -> (nat, nat, nat, nat) {
    let line = number_or(e, "line"@, 1);
    let col = number_or(e, "column"@, 1);
    let end_line = number_or(e, "end_line"@, line);
    let end_col = number_or(e, "end_column"@, (col + 1) as i64);
    (zero_based(line), zero_based(col), zero_based(end_line), zero_based(end_col))
}

/// The message of an entry, escaped again (empty when it has none).
pub open spec fn lsp_message(e: Seq<char>) -> Seq<char> {
    escape_quotes(
        match string_value(e, "message"@) {
            Some(m) => m,
            None => Seq::empty(),
        },
    )
}

/// The LSP diagnostic for one entry of a diagnostics array: its range made
/// 0-based, severity 1 (error), source `ferro` and its message.
pub open spec fn lsp_diagnostic(e: Seq<char>) -> Seq<char> {
    let (l, c, el, ec) = lsp_range(e);
    "{\"range\":{\"start\":{\"line\":"@ + nat_text(l) + ",\"character\":"@ + nat_text(c) + "},\"end\":{\"line\":"@
        + nat_text(el) + ",\"character\":"@ + nat_text(ec) + "}},\"severity\":1,\"source\":\"ferro\",\"message\":\""@
        + lsp_message(e) + "\"}"@
}

/// Texts joined with commas.
pub open spec fn join_comma(xs: Seq<Seq<char>>) -> Seq<char>
    decreases xs.len(),
{
    if xs.len() == 0 {
        Seq::empty()
    } else if xs.len() == 1 {
        xs[0]
    } else {
        join_comma(xs.drop_last()) + seq![','] + xs.last()
    }
}

/// The LSP diagnostics array for a diagnostics array of `ferro check`.
pub open spec fn lsp_diagnostics(check_json: Seq<char>) -> Seq<char> {
    if check_json == seq!['[', ']'] {
        seq!['[', ']']
    } else {
        seq!['['] + join_comma(lsp_entries(check_json).map_values(|e: Seq<char>| lsp_diagnostic(e))) + seq![']']
    }
}

/// An entry can be read: its message does not run past its end, and its
/// column is not `i64::MAX` (the column after it is computed).
pub open spec fn entry_convertible(e: Seq<char>) -> bool {
    string_readable(e, "message"@) && number_value(e, "column"@) != Some(i64::MAX)
}

/// The conversion reads every entry without running past its end or
/// overflowing.
pub open spec fn lsp_convertible(check_json: Seq<char>) -> bool {
    check_json == seq!['[', ']'] || (check_json.len() >= 2 && forall|i: int|
        0 <= i < lsp_entries(check_json).len() ==> entry_convertible(#[trigger] lsp_entries(check_json)[i]))
}

/// The views of a list of character vectors.
pub open spec fn views(v: Seq<Vec<char>>) -> Seq<Seq<char>> {
    v.map_values(|x: Vec<char>| x@)
}

/// The pieces of `s` between the occurrences of the non-empty `p`.
fn split_chars(s: &Vec<char>, p: &Vec<char>) -> (parts: Vec<Vec<char>>)
    requires
        p@.len() > 0,
    ensures
        views(parts@) == split_from(s@, p@, 0),
{
    let mut parts: Vec<Vec<char>> = Vec::new();
    let mut from: usize = 0;
    let plen = p.len();
    let n = s.len();
    assert(views(parts@) + split_from(s@, p@, 0) =~= split_from(s@, p@, 0));
    loop
        invariant
            n == s@.len(),
            from <= s@.len(),
            p@.len() > 0,
            plen == p@.len(),
            split_from(s@, p@, 0) == views(parts@) + split_from(s@, p@, from as int),
        decreases s@.len() - from,
    {
        proof {
            lemma_find_from(s@, p@, from as int);
        }
        match find_in(s, p, from) {
            Some(k) => {
                let piece = slice_chars(s, from, k);
                let ghost before = parts@;
                assert(k + plen <= n);
                parts.push(piece);
                assert(views(parts@) =~= views(before).push(piece@));
                assert(views(parts@) + split_from(s@, p@, k + p@.len()) =~= views(before) + (seq![piece@]
                    + split_from(s@, p@, k + p@.len())));
                from = k + plen;
            },
            None => {
                let piece = slice_chars(s, from, s.len());
                let ghost before = parts@;
                parts.push(piece);
                assert(views(parts@) =~= views(before) + split_from(s@, p@, from as int));
                return parts;
            },
        }
    }
}

/// `e` with the braces of the `i`-th of `n` pieces put back.
fn rebrace(e: &Vec<char>, i: usize, n: usize) -> (r: Vec<char>)
    ensures
        r@ == rebraced(e@, i as int, n as int),
{
    let mut r: Vec<char> = Vec::new();
    if i > 0 {
        r.push('{');
    }
    let ghost head = r@;
    let mut k: usize = 0;
    while k < e.len()
        invariant
            k <= e@.len(),
            r@ == head + e@.take(k as int),
        decreases e@.len() - k,
    {
        r.push(e[k]);
        assert(r@ =~= head + e@.take(k + 1));
        k += 1;
    }
    assert(e@.take(k as int) =~= e@);
    if n > 0 && i < n - 1 {
        r.push('}');
    }
    assert(r@ =~= rebraced(e@, i as int, n as int));
    r
}

/// The entries of a diagnostics array (at least two characters long).
fn entries_of(cs: &Vec<char>) -> (es: Vec<Vec<char>>)
    requires
        cs@.len() >= 2,
    ensures
        views(es@) == lsp_entries(cs@),
{
    let inner = slice_chars(cs, 1, cs.len() - 1);
    let mut sep: Vec<char> = Vec::new();
    sep.push('}');
    sep.push(',');
    sep.push('{');
    assert(sep@ =~= seq!['}', ',', '{']);
    let parts = split_chars(&inner, &sep);
    let ghost ps = split_from(cs@.subrange(1, cs@.len() - 1), seq!['}', ',', '{'], 0);
    assert(ps.len() == parts@.len()) by {
        assert(views(parts@).len() == parts@.len());
    }
    let n = parts.len();
    let mut es: Vec<Vec<char>> = Vec::new();
    let mut i: usize = 0;
    while i < n
        invariant
            n == parts@.len(),
            views(parts@) == ps,
            i <= n,
            es@.len() == i,
            forall|j: int| 0 <= j < i ==> (#[trigger] es@[j])@ == rebraced(ps[j], j, n as int),
        decreases n - i,
    {
        assert(parts@[i as int]@ == views(parts@)[i as int]);
        let e = rebrace(&parts[i], i, n);
        es.push(e);
        i += 1;
    }
    assert(views(es@) =~= lsp_entries(cs@));
    es
}

/// Appends `v`.
fn push_chars(out: &mut String, v: &Vec<char>)
    ensures
        final(out)@ == old(out)@ + v@,
{
    let mut k: usize = 0;
    while k < v.len()
        invariant
            k <= v@.len(),
            out@ == old(out)@ + v@.take(k as int),
        decreases v@.len() - k,
    {
        out.push(v[k]);
        assert(out@ =~= old(out)@ + v@.take(k + 1));
        k += 1;
    }
    assert(v@.take(k as int) =~= v@);
}

/// A 1-based position made 0-based as `zero_based` says.
fn zero_based_of(n: i64) -> (r: u64)
    ensures
        r as nat == zero_based(n),
{
    let u: u64 = if n >= 0 {
        n as u64
    } else {
        let a: i64 = n + 0x7fff_ffff_ffff_ffffi64 + 1;
        a as u64 + 0x8000_0000_0000_0000u64
    };
    if u > 0 {
        u - 1
    } else {
        0
    }
}

/// Whether an entry can be read.
fn entry_readable(e: &Vec<char>) -> (b: bool)
    ensures
        b == entry_convertible(e@),
{
    let readable = match read_string_value(e, &chars_of("message")) {
        Some(_) => true,
        None => false,
    };
    let col = number_of(e, &chars_of("column"));
    readable && !(col == Some(0x7fff_ffff_ffff_ffffi64))
}

/// The range numbers of an entry.
fn range_of(e: &Vec<char>) -> (r: (u64, u64, u64, u64))
    requires
        entry_convertible(e@),
    ensures
        (r.0 as nat, r.1 as nat, r.2 as nat, r.3 as nat) == lsp_range(e@),
{
    let line = match number_of(e, &chars_of("line")) {
        Some(n) => n,
        None => 1,
    };
    let col = match number_of(e, &chars_of("column")) {
        Some(n) => n,
        None => 1,
    };
    let end_line = match number_of(e, &chars_of("end_line")) {
        Some(n) => n,
        None => line,
    };
    let end_col = match number_of(e, &chars_of("end_column")) {
        Some(n) => n,
        None => col + 1,
    };
    (zero_based_of(line), zero_based_of(col), zero_based_of(end_line), zero_based_of(end_col))
}

/// The escaped message of an entry.
fn message_of(e: &Vec<char>) -> (r: Vec<char>)
    requires
        string_readable(e@, "message"@),
    ensures
        r@ == lsp_message(e@),
{
    let msg = match read_string_value(e, &chars_of("message")) {
        Some(Some(m)) => m,
        _ => Vec::new(),
    };
    assert(msg@ == (match string_value(e@, "message"@) {
        Some(m) => m,
        None => Seq::<char>::empty(),
    }));
    replace_chars(&replace_chars(&msg, &one_char('\\'), &two_chars('\\', '\\')), &one_char('"'), &two_chars('\\', '"'))
}

/// Appends the LSP diagnostic for one entry.
fn push_lsp_diagnostic(out: &mut String, e: &Vec<char>)
    requires
        entry_convertible(e@),
    ensures
        final(out)@ == old(out)@ + lsp_diagnostic(e@),
{
    let (l, c, el, ec) = range_of(e);
    let msg = message_of(e);
    push_str(out, "{\"range\":{\"start\":{\"line\":");
    push_u64(out, l);
    push_str(out, ",\"character\":");
    push_u64(out, c);
    push_str(out, "},\"end\":{\"line\":");
    push_u64(out, el);
    push_str(out, ",\"character\":");
    push_u64(out, ec);
    push_str(out, "}},\"severity\":1,\"source\":\"ferro\",\"message\":\"");
    push_chars(out, &msg);
    push_str(out, "\"}");
    assert(out@ =~= old(out)@ + lsp_diagnostic(e@));
}

/// Whether `cs` is the empty array `[]`.
fn is_empty_array(cs: &Vec<char>) -> (b: bool)
    ensures
        b == (cs@ == seq!['[', ']']),
{
    if cs.len() == 2 && cs[0] == '[' && cs[1] == ']' {
        assert(cs@ =~= seq!['[', ']']);
        true
    } else {
        false
    }
}

/// Whether `diagnostics_to_lsp` can convert a diagnostics array.
pub fn lsp_convertible_text(check_json: &str) -> (b: bool)
    ensures
        b == lsp_convertible(check_json@),
{
    let cs = chars_of(check_json);
    if is_empty_array(&cs) {
        return true;
    }
    if cs.len() < 2 {
        return false;
    }
    let es = entries_of(&cs);
    let ghost ls = lsp_entries(cs@);
    let mut i: usize = 0;
    while i < es.len()
        invariant
            views(es@) == ls,
            ls == lsp_entries(cs@),
            cs@ == check_json@,
            cs@ != seq!['[', ']'],
            i <= es@.len(),
            forall|j: int| 0 <= j < i ==> entry_convertible(#[trigger] ls[j]),
        decreases es@.len() - i,
    {
        assert(es@[i as int]@ == views(es@)[i as int]);
        if !entry_readable(&es[i]) {
            assert(!entry_convertible(ls[i as int]));
            return false;
        }
        i += 1;
    }
    true
}

/// Joining one more text adds a comma (but before the first) and the text.
pub proof fn lemma_join_comma_step(ds: Seq<Seq<char>>, i: int)
    requires
        0 <= i < ds.len(),
    ensures
        join_comma(ds.take(i + 1)) == join_comma(ds.take(i)) + (if i > 0 { seq![','] } else { Seq::empty() }) + ds[i],
{
    assert(ds.take(i + 1).drop_last() =~= ds.take(i));
    if i == 0 {
        assert(join_comma(ds.take(0)) =~= Seq::<char>::empty());
        assert(Seq::<char>::empty() + Seq::<char>::empty() + ds[0] =~= ds[0]);
    }
}

/// Convert a diagnostics array of `ferro check` into LSP diagnostics: each
/// entry's range made 0-based, with severity 1 and source `ferro`.
pub fn diagnostics_to_lsp(check_json: &str) -> (r: String)
    requires
        lsp_convertible(check_json@),
    ensures
        r@ == lsp_diagnostics(check_json@),
{
    let cs = chars_of(check_json);
    if is_empty_array(&cs) {
        let mut out = String::new();
        out.push('[');
        out.push(']');
        assert(out@ =~= seq!['[', ']']);
        return out;
    }
    let es = entries_of(&cs);
    let ghost ls = lsp_entries(cs@);
    let ghost ds = ls.map_values(|e: Seq<char>| lsp_diagnostic(e));
    let mut out = String::new();
    out.push('[');
    let mut i: usize = 0;
    assert(ds.take(0) =~= Seq::<Seq<char>>::empty());
    while i < es.len()
        invariant
            views(es@) == ls,
            ls == lsp_entries(cs@),
            ds == ls.map_values(|e: Seq<char>| lsp_diagnostic(e)),
            lsp_convertible(cs@),
            cs@ != seq!['[', ']'],
            i <= es@.len(),
            out@ == seq!['['] + join_comma(ds.take(i as int)),
        decreases es@.len() - i,
    {
        assert(es@[i as int]@ == views(es@)[i as int]);
        assert(entry_convertible(ls[i as int]));
        let ghost before = out@;
        if i > 0 {
            out.push(',');
        }
        push_lsp_diagnostic(&mut out, &es[i]);
        proof {
            lemma_join_comma_step(ds, i as int);
            assert(ds[i as int] == lsp_diagnostic(ls[i as int]));
            assert(out@ =~= seq!['['] + join_comma(ds.take(i + 1)));
        }
        i += 1;
    }
    assert(ds.take(i as int) =~= ds);
    out.push(']');
    assert(out@ =~= lsp_diagnostics(cs@));
    out
}


// ── Checking a source text ───────────────────────────────

/// The diagnostics array for at most one error.
pub open spec fn diagnostics_text(e: Option<CompileError>) -> Seq<char> {
    match e {
        Some(err) => seq!['['] + error_json(err) + seq![']'],
        None => seq!['[', ']'],
    }
}

/// The first error of a source, if any: the lexer's where it fails; else the
/// parser's where it fails; else none exactly when the parsed program passes
/// the checker.
pub open spec fn check_outcome(source: Seq<char>, e: Option<CompileError>) -> bool {
    match lex_from(source, 0) {
        Err(x) => e matches Some(err) && error_is(source, err, x),
        Ok(_) => exists|toks: Seq<Token>|
            #![trigger lexes_to(source, toks)]
            lexes_to(source, toks) && match pprogram(toks, 0, empty_sprogram()) {
                Parsed::Failed(m, s) => e matches Some(err) && err.message@ == m && err.span == Some(s),
                Parsed::Done(sp, _) => exists|p: Program|
                    #![trigger program_view(p)]
                    program_view(p) == sp && (e is None <==> program_ok(empty_tables(), Seq::empty(), 0, p)) && (
                    e matches Some(err) ==> (err.message@, err.span) == program_fault(
                        empty_tables(),
                        Seq::empty(),
                        0,
                        p,
                    )),
            },
    }
}

/// An error whose start column is the largest `usize`.
pub open spec fn error_at_last_column(e: CompileError) -> bool {
    e.span matches Some(s) && s.start.column == usize::MAX
}

/// A source that lexes, but whose first error sits at the largest `usize`
/// column (the column after it does not fit), or whose statements nest as
/// deep as a `usize` counts.
pub open spec fn beyond_limits(source: Seq<char>) -> bool {
    &&& lex_from(source, 0) is Ok
    &&& exists|toks: Seq<Token>|
        #![trigger lexes_to(source, toks)]
        lexes_to(source, toks) && match pprogram(toks, 0, empty_sprogram()) {
            Parsed::Failed(_, s) => s.start.column == usize::MAX,
            Parsed::Done(sp, _) => exists|p: Program|
                #![trigger program_view(p)]
                program_view(p) == sp && (functions_depth(p.functions@) >= usize::MAX || exists|e: CompileError|
                    check_outcome(source, Some(e)) && error_at_last_column(e)),
        }
}

/// The diagnostics array for one error, or `None` when its column is the
/// largest `usize` (the column after it does not fit).
fn one_error(e: &CompileError) -> (r: Option<String>)
    ensures
        match r {
            Some(t) => t@ == diagnostics_text(Some(*e)),
            None => e.span matches Some(s) && s.start.column == usize::MAX,
        },
{
    match &e.span {
        Some(s) => {
            if s.start.column == usize::MAX {
                return None;
            }
        },
        None => {},
    }
    let mut out = String::new();
    out.push('[');
    let j = error_to_json(e);
    push_string(&mut out, &j);
    out.push(']');
    assert(out@ =~= diagnostics_text(Some(*e)));
    Some(out)
}

/// Run the lexer, the parser and the checker on a source text and give the
/// diagnostics array of `ferro check`: empty, or the first error found.
/// `None` only past the machine's limits: when an error's column is the
/// largest `usize`, or statements nest deeper than a `usize` counts.
pub fn check_source(source: &str) -> (r: Option<String>)
    requires
        source@.len() + 1 < usize::MAX,
    ensures
        r matches Some(t) ==> exists|e: Option<CompileError>| t@ == diagnostics_text(e) && check_outcome(source@, e),
        r is None ==> beyond_limits(source@),
{
    let mut lexer = Lexer::new(source);
    let tokens = match lexer.tokenize() {
        Ok(t) => t,
        Err(e) => {
            proof {
                lemma_lex_from_shape(source@, 0);
                let x = lex_from(source@, 0)->Err_0;
                lemma_line_col_bounds(source@, x.1);
            }
            let r = one_error(&e);
            assert(r matches Some(t) && t@ == diagnostics_text(Some(e)) && check_outcome(source@, Some(e)));
            return r;
        },
    };
    let ghost toks = tokens@;
    proof {
        lemma_lex_from_shape(source@, 0);
        let ls = lex_from(source@, 0)->Ok_0;
        assert(token_is(source@, tokens@[tokens@.len() - 1], ls[ls.len() - 1]));
        assert(lexes_to(source@, toks));
    }
    let mut parser = Parser::new(tokens);
    let program = match parser.parse_program() {
        Ok(p) => p,
        Err(e) => {
            let r = one_error(&e);
            proof {
                assert(lexes_to(source@, toks));
                if r is Some {
                    assert(check_outcome(source@, Some(e)));
                } else {
                    assert(pprogram(toks, 0, empty_sprogram()) matches Parsed::Failed(_, s) && s.start.column == usize::MAX);
                    assert(beyond_limits(source@));
                }
            }
            return r;
        },
    };
    assert(pprogram(toks, 0, empty_sprogram()) matches Parsed::Done(sp, _) && program_view(program) == sp);
    let depth = match nesting_depth(&program.functions) {
        Some(d) => d,
        None => {
            assert(beyond_limits(source@)) by {
                assert(lexes_to(source@, toks));
                assert(program_view(program) == program_view(program));
            }
            return None;
        },
    };
    if depth == usize::MAX {
        assert(beyond_limits(source@)) by {
            assert(lexes_to(source@, toks));
            assert(program_view(program) == program_view(program));
        }
        return None;
    }
    let mut checker = Checker::new();
    match checker.check_program(&program) {
        Ok(()) => {
            let mut out = String::new();
            out.push('[');
            out.push(']');
            assert(out@ =~= diagnostics_text(None));
            assert(lexes_to(source@, toks) && program_view(program) == program_view(program));
            assert(check_outcome(source@, None));
            Some(out)
        },
        Err(e) => {
            let r = one_error(&e);
            proof {
                assert(lexes_to(source@, toks) && program_view(program) == program_view(program));
                assert(check_outcome(source@, Some(e)));
                if r is None {
                    assert(error_at_last_column(e));
                    assert(pprogram(toks, 0, empty_sprogram()) matches Parsed::Done(sp, _) && program_view(program)
                        == sp);
                    assert(beyond_limits(source@));
                }
            }
            r
        },
    }
}

/// The diagnostics array `ferro check` prints when it cannot read the file:
/// one error at line 1, column 1 whose message carries the reason as it is.
pub fn unreadable_file_json(reason: &str) -> (r: String)
    ensures
        r@ == "[{\"message\":\"could not read file: "@ + reason@
            + "\",\"line\":1,\"column\":1,\"end_line\":1,\"end_column\":1}]"@,
{
    let mut out = String::new();
    push_str(&mut out, "[{\"message\":\"could not read file: ");
    push_str(&mut out, reason);
    push_str(&mut out, "\",\"line\":1,\"column\":1,\"end_line\":1,\"end_column\":1}]");
    out
}


// ── The language server ──────────────────────────────────

/// What one header line of a message means.
pub enum HeaderLine {
    /// The empty line that ends the header.
    End,
    /// `Content-Length: ` and a number.
    Length(usize),
    /// `Content-Length: ` and no number.
    BadLength,
    /// Any other header.
    Other,
}

/// What reading one more header line leads to.
pub enum HeaderStep {
    /// Read on, with this content length so far.
    Continue(usize),
    /// The header is over: the content length, or `None` when there is
    /// no usable one.
    Done(Option<usize>),
}

/// The meaning of a header line (without its line end).
pub open spec fn header_line(line: Seq<char>) -> HeaderLine {
    let prefix = "Content-Length: "@;
    if line.len() == 0 {
        HeaderLine::End
    } else if prefix.len() <= line.len() && line.subrange(0, prefix.len() as int) == prefix {
        match parse_usize(trim(line.subrange(prefix.len() as int, line.len() as int))) {
            Some(n) => HeaderLine::Length(n as usize),
            None => HeaderLine::BadLength,
        }
    } else {
        HeaderLine::Other
    }
}

/// The content length a header ends with: none when it is 0.
pub open spec fn header_result(length: usize) -> Option<usize> {
    if length == 0 { None } else { Some(length) }
}

/// One step of reading a header, with the content length read so far.
pub open spec fn header_step_spec(length: usize, line: Seq<char>) -> HeaderStep {
    match header_line(line) {
        HeaderLine::End => HeaderStep::Done(header_result(length)),
        HeaderLine::Length(n) => HeaderStep::Continue(n),
        HeaderLine::BadLength => HeaderStep::Done(None),
        HeaderLine::Other => HeaderStep::Continue(length),
    }
}

/// What a header line means.
pub fn classify_header_line(line: &str) -> (r: HeaderLine)
    ensures
        r == header_line(line@),
{
    let cs = chars_of(line);
    let prefix = chars_of("Content-Length: ");
    if cs.len() == 0 {
        return HeaderLine::End;
    }
    if !occurs_at(&cs, &prefix, 0) {
        return HeaderLine::Other;
    }
    let (a, b) = trim_range(&cs, prefix.len(), cs.len());
    match parse_usize_range(&cs, a, b) {
        Some(n) => HeaderLine::Length(n),
        None => HeaderLine::BadLength,
    }
}

/// Read one header line: the empty line ends the header with the length
/// read so far (none when 0); a `Content-Length` line sets the length, or
/// ends the header without one when its number is not a `usize`; other
/// lines are passed over.
pub fn header_step(length: usize, line: &str) -> (r: HeaderStep)
    ensures
        r == header_step_spec(length, line@),
{
    match classify_header_line(line) {
        HeaderLine::End => HeaderStep::Done(header_end(length)),
        HeaderLine::Length(n) => HeaderStep::Continue(n),
        HeaderLine::BadLength => HeaderStep::Done(None),
        HeaderLine::Other => HeaderStep::Continue(length),
    }
}

/// The content length a header ends with, when the input ends or the empty
/// line comes.
pub fn header_end(length: usize) -> (r: Option<usize>)
    ensures
        r == header_result(length),
{
    if length == 0 {
        None
    } else {
        Some(length)
    }
}

/// The number of bytes of `c` in UTF-8.
pub open spec fn utf8_width(c: char) -> nat {
    if (c as u32) < 0x80 {
        1
    } else if (c as u32) < 0x800 {
        2
    } else if (c as u32) < 0x10000 {
        3
    } else {
        4
    }
}

/// The number of bytes of `s` in UTF-8.
pub open spec fn utf8_len(s: Seq<char>) -> nat
    decreases s.len(),
{
    if s.len() == 0 {
        0
    } else {
        utf8_len(s.drop_last()) + utf8_width(s.last())
    }
}

/// A message framed for the client: a `Content-Length` header with its
/// length in bytes, an empty line, and the message.
pub open spec fn lsp_frame_text(msg: Seq<char>) -> Seq<char> {
    "Content-Length: "@ + nat_text(utf8_len(msg)) + "\r\n\r\n"@ + msg
}

/// Frame a message for the client.
pub fn lsp_frame(msg: &str) -> (r: String)
    requires
        utf8_len(msg@) <= u64::MAX,
    ensures
        r@ == lsp_frame_text(msg@),
{
    let cs = chars_of(msg);
    let mut n: u64 = 0;
    let mut i: usize = 0;
    while i < cs.len()
        invariant
            i <= cs@.len(),
            cs@ == msg@,
            utf8_len(msg@) <= u64::MAX,
            n == utf8_len(cs@.take(i as int)),
        decreases cs@.len() - i,
    {
        let c = cs[i];
        let w: u64 = if (c as u32) < 0x80 {
            1
        } else if (c as u32) < 0x800 {
            2
        } else if (c as u32) < 0x10000 {
            3
        } else {
            4
        };
        assert(cs@.take(i + 1).drop_last() =~= cs@.take(i as int));
        proof {
            lemma_utf8_len_prefix(cs@, i + 1);
        }
        n = n + w;
        i += 1;
    }
    assert(cs@.take(i as int) =~= cs@);
    let mut out = String::new();
    push_str(&mut out, "Content-Length: ");
    push_u64(&mut out, n);
    push_str(&mut out, "\r\n\r\n");
    push_str(&mut out, msg);
    out
}

/// The UTF-8 length of a prefix is at most that of the whole.
pub proof fn lemma_utf8_len_prefix(s: Seq<char>, k: int)
    requires
        0 <= k <= s.len(),
    ensures
        utf8_len(s.take(k)) <= utf8_len(s),
    decreases s.len() - k,
{
    if k < s.len() {
        lemma_utf8_len_prefix(s, k + 1);
        assert(s.take(k + 1).drop_last() =~= s.take(k));
    } else {
        assert(s.take(k) =~= s);
    }
}

/// What the server does with one message.
pub enum LspAction {
    /// Send this message to the client.
    Send(String),
    /// Write this line to the log.
    Log(String),
    /// Stop the server.
    Exit,
    /// Nothing.
    Ignore,
}

/// What the server answers a message with; `Publish` stands for the
/// diagnostics of a document text, sent for its URI.
pub enum LspReply {
    Send(Seq<char>),
    Log(Seq<char>),
    Exit,
    Ignore,
    Publish(Seq<char>, Seq<char>),
}

/// The answer to `initialize`: the server's capabilities and name.
pub open spec fn initialize_reply(id: i64) -> Seq<char> {
    "{\"jsonrpc\":\"2.0\",\"id\":"@ + int_text(id as int)
        + ",\"result\":{\"capabilities\":{\"textDocumentSync\":1,\"diagnosticProvider\":{\"interFileDependencies\":false,\"workspaceDiagnostics\":false}},\"serverInfo\":{\"name\":\"ferro-lsp\",\"version\":\"0.1.0\"}}}"@
}

/// An answer with a `null` result.
pub open spec fn null_reply(id: i64) -> Seq<char> {
    "{\"jsonrpc\":\"2.0\",\"id\":"@ + int_text(id as int) + ",\"result\":null}"@
}

/// The notification that publishes diagnostics for a document.
pub open spec fn publish_text(uri: Seq<char>, diagnostics: Seq<char>) -> Seq<char> {
    "{\"jsonrpc\":\"2.0\",\"method\":\"textDocument/publishDiagnostics\",\"params\":{\"uri\":\""@ + uri
        + "\",\"diagnostics\":"@ + diagnostics + "}}"@
}

/// The number value of `id`, or 0.
pub open spec fn id_or_zero(body: Seq<char>) -> i64 {
    match number_value(body, "id"@) {
        Some(n) => n,
        None => 0,
    }
}

/// The URI of the document a message is about.
pub open spec fn document_uri(body: Seq<char>) -> Option<Seq<char>> {
    nested_string(body, "textDocument"@, "uri"@)
}

/// Reading what a message needs stays inside its text: its method, and the
/// document fields that method reads.
pub open spec fn lsp_readable(body: Seq<char>) -> bool {
    &&& string_readable(body, "method"@)
    &&& match string_value(body, "method"@) {
        Some(m) => if m == "textDocument/didOpen"@ {
            nested_readable(body, "textDocument"@, "uri"@) && nested_readable(body, "textDocument"@, "text"@)
        } else if m == "textDocument/didChange"@ {
            nested_readable(body, "textDocument"@, "uri"@) && (document_uri(body) is Some
                ==> content_change_readable(body))
        } else if m == "textDocument/didClose"@ {
            nested_readable(body, "textDocument"@, "uri"@)
        } else {
            true
        },
        None => true,
    }
}

/// The answer to a message, by its method.
pub open spec fn lsp_reply(body: Seq<char>) -> LspReply {
    let method = string_value(body, "method"@);
    let id = number_value(body, "id"@);
    if method == Some("initialize"@) {
        LspReply::Send(initialize_reply(id_or_zero(body)))
    } else if method == Some("initialized"@) {
        LspReply::Log("Ferro LSP initialized"@)
    } else if method == Some("textDocument/didOpen"@) {
        match (document_uri(body), nested_string(body, "textDocument"@, "text"@)) {
            (Some(u), Some(t)) => LspReply::Publish(u, t),
            _ => LspReply::Ignore,
        }
    } else if method == Some("textDocument/didChange"@) {
        match document_uri(body) {
            Some(u) => match content_change_text(body) {
                Some(t) => LspReply::Publish(u, t),
                None => LspReply::Ignore,
            },
            None => LspReply::Ignore,
        }
    } else if method == Some("textDocument/didClose"@) {
        match document_uri(body) {
            Some(u) => LspReply::Send(publish_text(u, seq!['[', ']'])),
            None => LspReply::Ignore,
        }
    } else if method == Some("shutdown"@) {
        LspReply::Send(null_reply(id_or_zero(body)))
    } else if method == Some("exit"@) {
        LspReply::Exit
    } else {
        match id {
            Some(i) => LspReply::Send(null_reply(i)),
            None => LspReply::Ignore,
        }
    }
}

/// An action carries out a reply that is not `Publish`.
pub open spec fn action_is(a: LspAction, reply: LspReply) -> bool {
    match (a, reply) {
        (LspAction::Send(m), LspReply::Send(t)) => m@ == t,
        (LspAction::Log(m), LspReply::Log(t)) => m@ == t,
        (LspAction::Exit, LspReply::Exit) => true,
        (LspAction::Ignore, LspReply::Ignore) => true,
        _ => false,
    }
}

/// The diagnostics message for a document: the diagnostics of its text
/// (as `check_source` gives them) converted for the client.
pub open spec fn published(m: Seq<char>, uri: Seq<char>, text: Seq<char>) -> bool {
    exists|e: Option<CompileError>|
        check_outcome(text, e) && lsp_convertible(diagnostics_text(e)) && m == publish_text(
            uri,
            lsp_diagnostics(diagnostics_text(e)),
        )
}

/// The string value of `key`, or `None` when reading it runs past the end.
fn read_string(json: &Vec<char>, key: &str) -> (r: Option<Option<String>>)
    ensures
        match r {
            Some(Some(v)) => string_readable(json@, key@) && string_value(json@, key@) == Some(v@),
            Some(None) => string_readable(json@, key@) && string_value(json@, key@) is None,
            None => !string_readable(json@, key@),
        },
{
    match read_string_value(json, &chars_of(key)) {
        Some(Some(v)) => Some(Some(string_of_chars(&v))),
        Some(None) => Some(None),
        None => None,
    }
}

/// The string value of `inner` after the first `open` following `"outer"`,
/// or `None` when reading it runs past the end.
fn read_after(json: &Vec<char>, outer: &str, open: char, inner: &str) -> (r: Option<Option<String>>)
    ensures
        match r {
            Some(Some(v)) => readable_after(json@, outer@, open, inner@) && string_after(json@, outer@, open, inner@)
                == Some(v@),
            Some(None) => readable_after(json@, outer@, open, inner@) && string_after(json@, outer@, open, inner@) is None,
            None => !readable_after(json@, outer@, open, inner@),
        },
{
    match read_string_after(json, &chars_of(outer), open, &chars_of(inner)) {
        Some(Some(v)) => Some(Some(string_of_chars(&v))),
        Some(None) => Some(None),
        None => None,
    }
}

/// The answer with the given id and a `null` result.
fn null_reply_text(id: i64) -> (r: String)
    ensures
        r@ == null_reply(id),
{
    let mut out = String::new();
    push_str(&mut out, "{\"jsonrpc\":\"2.0\",\"id\":");
    push_i64(&mut out, id);
    push_str(&mut out, ",\"result\":null}");
    out
}

/// The notification publishing `diagnostics` for `uri`.
fn publish_message(uri: &String, diagnostics: &String) -> (r: String)
    ensures
        r@ == publish_text(uri@, diagnostics@),
{
    let mut out = String::new();
    push_str(&mut out, "{\"jsonrpc\":\"2.0\",\"method\":\"textDocument/publishDiagnostics\",\"params\":{\"uri\":\"");
    push_string(&mut out, uri);
    push_str(&mut out, "\",\"diagnostics\":");
    push_string(&mut out, diagnostics);
    push_str(&mut out, "}}");
    out
}

/// A document text whose diagnostics cannot be published: one too long to
/// count with a `usize`, one past the checker's limits, or one whose
/// diagnostics the conversion cannot read.
pub open spec fn publish_blocked(text: Seq<char>) -> bool {
    ||| text.len() + 1 >= usize::MAX
    ||| beyond_limits(text)
    ||| exists|e: Option<CompileError>| check_outcome(text, e) && !lsp_convertible(diagnostics_text(e))
}

/// The diagnostics message for a document text; `None` past the machine's
/// limits or where the conversion cannot read the diagnostics.
fn publish_for(uri: &String, text: &String) -> (r: Option<String>)
    ensures
        r matches Some(m) ==> published(m@, uri@, text@),
        r is None ==> publish_blocked(text@),
{
    let n = chars_of(text.as_str()).len();
    if n >= usize::MAX - 1 {
        return None;
    }
    let diags = match check_source(text.as_str()) {
        Some(d) => d,
        None => {
            return None;
        },
    };
    if !lsp_convertible_text(diags.as_str()) {
        proof {
            let e = choose|e: Option<CompileError>| diags@ == diagnostics_text(e) && check_outcome(text@, e);
            assert(check_outcome(text@, e) && !lsp_convertible(diagnostics_text(e)));
        }
        return None;
    }
    let lsp = diagnostics_to_lsp(diags.as_str());
    let m = publish_message(uri, &lsp);
    proof {
        let e = choose|e: Option<CompileError>| diags@ == diagnostics_text(e) && check_outcome(text@, e);
        assert(check_outcome(text@, e) && lsp_convertible(diagnostics_text(e)) && m@ == publish_text(
            uri@,
            lsp_diagnostics(diagnostics_text(e)),
        ));
    }
    Some(m)
}

/// Decide what to do with one message of a client. `None` where reading the
/// message runs past its end, or where checking a document goes past the
/// machine's limits; otherwise the action the method calls for, with the
/// diagnostics of a document opened or changed published for its URI.
pub fn lsp_handle(body: &str) -> (r: Option<LspAction>)
    ensures
        !lsp_readable(body@) ==> r is None,
        lsp_readable(body@) ==> match lsp_reply(body@) {
            LspReply::Publish(u, t) => (r is None ==> publish_blocked(t)) && (r is None || (r matches Some(
                LspAction::Send(m),
            ) && published(m@, u, t))),
            reply => r matches Some(a) && action_is(a, reply),
        },
{
    proof {
        reveal_strlit("initialize");
        reveal_strlit("initialized");
        reveal_strlit("textDocument/didOpen");
        reveal_strlit("textDocument/didChange");
        reveal_strlit("textDocument/didClose");
        reveal_strlit("shutdown");
        reveal_strlit("exit");
        assert("initialize"@.len() == 10);
        assert("initialized"@.len() == 11);
        assert("textDocument/didOpen"@.len() == 20);
        assert("textDocument/didChange"@.len() == 22);
        assert("textDocument/didClose"@.len() == 21);
    }
    let cs = chars_of(body);
    let method = match read_string(&cs, "method") {
        Some(m) => m,
        None => {
            return None;
        },
    };
    let id = number_of(&cs, &chars_of("id"));
    let id0: i64 = match id {
        Some(n) => n,
        None => 0,
    };
    let m = match method {
        Some(m) => m,
        None => {
            return Some(match id {
                Some(i) => LspAction::Send(null_reply_text(i)),
                None => LspAction::Ignore,
            });
        },
    };
    if str_is(&m, "initialize") {
        let mut out = String::new();
        push_str(&mut out, "{\"jsonrpc\":\"2.0\",\"id\":");
        push_i64(&mut out, id0);
        push_str(
            &mut out,
            ",\"result\":{\"capabilities\":{\"textDocumentSync\":1,\"diagnosticProvider\":{\"interFileDependencies\":false,\"workspaceDiagnostics\":false}},\"serverInfo\":{\"name\":\"ferro-lsp\",\"version\":\"0.1.0\"}}}",
        );
        Some(LspAction::Send(out))
    } else if str_is(&m, "initialized") {
        Some(LspAction::Log(string_of("Ferro LSP initialized")))
    } else if str_is(&m, "textDocument/didOpen") {
        let uri = match read_after(&cs, "textDocument", '{', "uri") {
            Some(u) => u,
            None => {
                return None;
            },
        };
        let text = match read_after(&cs, "textDocument", '{', "text") {
            Some(t) => t,
            None => {
                return None;
            },
        };
        match (uri, text) {
            (Some(u), Some(t)) => match publish_for(&u, &t) {
                Some(msg) => Some(LspAction::Send(msg)),
                None => None,
            },
            _ => Some(LspAction::Ignore),
        }
    } else if str_is(&m, "textDocument/didChange") {
        let uri = match read_after(&cs, "textDocument", '{', "uri") {
            Some(u) => u,
            None => {
                return None;
            },
        };
        match uri {
            Some(u) => {
                let text = match read_after(&cs, "contentChanges", '[', "text") {
                    Some(t) => t,
                    None => {
                        return None;
                    },
                };
                match text {
                    Some(t) => match publish_for(&u, &t) {
                        Some(msg) => Some(LspAction::Send(msg)),
                        None => None,
                    },
                    None => Some(LspAction::Ignore),
                }
            },
            None => Some(LspAction::Ignore),
        }
    } else if str_is(&m, "textDocument/didClose") {
        let uri = match read_after(&cs, "textDocument", '{', "uri") {
            Some(u) => u,
            None => {
                return None;
            },
        };
        match uri {
            Some(u) => {
                let mut empty = String::new();
                empty.push('[');
                empty.push(']');
                assert(empty@ =~= seq!['[', ']']);
                Some(LspAction::Send(publish_message(&u, &empty)))
            },
            None => Some(LspAction::Ignore),
        }
    } else if str_is(&m, "shutdown") {
        Some(LspAction::Send(null_reply_text(id0)))
    } else if str_is(&m, "exit") {
        Some(LspAction::Exit)
    } else {
        Some(match id {
            Some(i) => LspAction::Send(null_reply_text(i)),
            None => LspAction::Ignore,
        })
    }
}

} // verus!
