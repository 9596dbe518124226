//! Character and string helpers shared by every phase.

use vstd::prelude::*;
use vstd::std_specs::iter::IteratorSpec;

verus! {

/// `String::push` appends one character.
pub assume_specification[ std::string::String::push ](s: &mut String, ch: char)
    ensures
        final(s)@ == old(s)@.push(ch),
;

/// An owned copy of a string slice.
pub fn string_of(s: &str) -> (r: String)
    ensures
        r@ == s@,
{
    String::from_str(s)
}

/// The characters of a string slice, in order.
pub fn chars_of(s: &str) -> (v: Vec<char>)
    ensures
        v@ == s@,
{
    broadcast use {vstd::string::axiom_spec_iter, vstd::string::next_postcondition};
    let mut v: Vec<char> = Vec::new();
    let mut it = s.chars();
    assert(it.remaining() == s@);
    loop
        invariant
            v@ + it.remaining() == s@,
            it.obeys_prophetic_iter_laws(),
        ensures
            v@ == s@,
        decreases s@.len() - v@.len(),
    {
        let ghost before = it.remaining();
        match it.next() {
            Some(c) => {
                v.push(c);
                assert(v@ + it.remaining() =~= s@);
            },
            None => {
                assert(v@ =~= s@);
                break;
            },
        }
    }
    v
}


/// A string made of the characters `v[lo..hi]`.
pub fn string_from_chars(v: &Vec<char>, lo: usize, hi: usize) -> (r: String)
    requires
        lo <= hi <= v@.len(),
    ensures
        r@ == v@.subrange(lo as int, hi as int),
{
    let mut r = String::new();
    let mut i = lo;
    while i < hi
        invariant
            lo <= i <= hi <= v@.len(),
            r@ == v@.subrange(lo as int, i as int),
        decreases hi - i,
    {
        r.push(v[i]);
        assert(r@ =~= v@.subrange(lo as int, i + 1));
        i += 1;
    }
    r
}

/// Whether two character sequences are equal.
pub fn chars_eq(a: &[char], b: &[char]) -> (r: bool)
    ensures
        r == (a@ == b@),
{
    if a.len() != b.len() {
        return false;
    }
    let mut i: usize = 0;
    while i < a.len()
        invariant
            a@.len() == b@.len(),
            i <= a@.len(),
            forall|j: int| 0 <= j < i ==> a@[j] == b@[j],
        decreases a@.len() - i,
    {
        if a[i] != b[i] {
            return false;
        }
        i += 1;
    }
    assert(a@ =~= b@);
    true
}

/// Whether a string equals a string slice.
pub fn str_is(s: &String, lit: &str) -> (r: bool)
    ensures
        r == (s@ == lit@),
{
    *s == String::from_str(lit)
}

/// Appends a string slice.
pub fn push_str(out: &mut String, t: &str)
    ensures
        final(out)@ == old(out)@ + t@,
{
    out.append(t);
}

/// Appends the characters of a string.
pub fn push_string(out: &mut String, t: &String)
    ensures
        final(out)@ == old(out)@ + t@,
{
    out.append(t.as_str());
}

// ── Character classes ────────────────────────────────────

/// An ASCII decimal digit.
pub open spec fn is_digit(c: char) -> bool {
    '0' <= c && c <= '9'
}

/// Whether `c` is an ASCII decimal digit (`char::is_ascii_digit`).
pub fn ascii_digit(c: char) -> (b: bool)
    ensures
        b == is_digit(c),
{
    '0' <= c && c <= '9'
}

/// The Unicode White_Space property, which `char::is_whitespace` answers:
/// tab through carriage return, space, next line, no-break space, ogham
/// space mark, en quad through hair space, the line and paragraph
/// separators, narrow no-break space, medium mathematical space and
/// ideographic space.
pub open spec fn char_is_whitespace(c: char) -> bool {
    let u = c as u32;
    ||| 0x9 <= u <= 0xD
    ||| u == 0x20
    ||| u == 0x85
    ||| u == 0xA0
    ||| u == 0x1680
    ||| 0x2000 <= u <= 0x200A
    ||| u == 0x2028
    ||| u == 0x2029
    ||| u == 0x202F
    ||| u == 0x205F
    ||| u == 0x3000
}

/// An ASCII letter.
pub open spec fn is_ascii_letter(c: char) -> bool {
    ('a' <= c && c <= 'z') || ('A' <= c && c <= 'Z')
}

/// What `char::is_alphabetic` answers beyond ASCII (the Unicode Alphabetic
/// property).
pub uninterp spec fn alphabetic_beyond_ascii(c: char) -> bool;

/// What `char::is_alphanumeric` answers beyond ASCII (Alphabetic or Numeric).
pub uninterp spec fn alphanumeric_beyond_ascii(c: char) -> bool;

/// What `char::is_alphabetic` answers: among ASCII characters the letters
/// alone have the Alphabetic property.
pub open spec fn char_is_alphabetic(c: char) -> bool {
    if (c as u32) < 128 {
        is_ascii_letter(c)
    } else {
        alphabetic_beyond_ascii(c)
    }
}

/// What `char::is_alphanumeric` answers: among ASCII characters the letters
/// and the decimal digits alone are Alphabetic or Numeric.
pub open spec fn char_is_alphanumeric(c: char) -> bool {
    if (c as u32) < 128 {
        is_ascii_letter(c) || is_digit(c)
    } else {
        alphanumeric_beyond_ascii(c)
    }
}

/// Whether `c` has the White_Space property (what `char::is_whitespace`
/// answers), decided over the property's code points.
pub fn whitespace(c: char) -> (b: bool)
    ensures
        b == char_is_whitespace(c),
{
    let u = c as u32;
    (0x9 <= u && u <= 0xD) || u == 0x20 || u == 0x85 || u == 0xA0 || u == 0x1680 || (0x2000 <= u && u <= 0x200A)
        || u == 0x2028 || u == 0x2029 || u == 0x202F || u == 0x205F || u == 0x3000
}

/// Calls `char::is_alphabetic`: the ASCII letters, and beyond ASCII what
/// `alphabetic_beyond_ascii` names. An alphabetic character is also
/// alphanumeric (`is_alphanumeric` is documented as
/// `is_alphabetic() || is_numeric()`).
#[verifier::external_body]
pub fn alphabetic(c: char) -> (b: bool)
    ensures
        b == char_is_alphabetic(c),
        (c as u32) >= 128 ==> b == alphabetic_beyond_ascii(c),
        b ==> char_is_alphanumeric(c),
{
    c.is_alphabetic()
}

/// Calls `char::is_alphanumeric`: the ASCII letters and digits, and beyond
/// ASCII what `alphanumeric_beyond_ascii` names.
#[verifier::external_body]
pub fn alphanumeric(c: char) -> (b: bool)
    ensures
        b == char_is_alphanumeric(c),
        (c as u32) >= 128 ==> b == alphanumeric_beyond_ascii(c),
{
    c.is_alphanumeric()
}

// ── Decimal text of integers ─────────────────────────────

/// The character of a decimal digit `0..=9`.
pub open spec fn digit_char(d: int) -> char {
    ((d + '0' as int) as u32) as char
}

/// The decimal digits of a natural number, most significant first.
pub open spec fn nat_text(n: nat) -> Seq<char>
    decreases n,
{
    if n < 10 {
        seq![digit_char(n as int)]
    } else {
        nat_text(n / 10).push(digit_char((n % 10) as int))
    }
}

/// The decimal text of an integer, with a leading `-` when negative.
pub open spec fn int_text(i: int) -> Seq<char> {
    if i < 0 {
        seq!['-'] + nat_text((-i) as nat)
    } else {
        nat_text(i as nat)
    }
}

/// Appends the decimal digits of `n`.
pub fn push_u64(out: &mut String, n: u64)
    ensures
        final(out)@ == old(out)@ + nat_text(n as nat),
{
    let mut digits: Vec<char> = Vec::new();
    let mut m = n;
    // digits collected least significant first
    loop
        invariant_except_break
            m <= n,
            nat_text(n as nat) == nat_text(m as nat) + digits@.reverse(),
        ensures
            nat_text(n as nat) == digits@.reverse(),
        decreases m,
    {
        let d = m % 10;
        let c = char_of_digit(d);
        if m < 10 {
            let ghost prev = digits@;
            digits.push(c);
            assert(nat_text(m as nat) =~= seq![c]);
            assert(digits@.reverse() =~= seq![c] + prev.reverse());
            break;
        }
        let ghost old_digits = digits@;
        digits.push(c);
        assert(nat_text(m as nat) == nat_text((m / 10) as nat).push(c));
        assert(digits@.reverse() =~= seq![c] + old_digits.reverse());
        assert(nat_text(m as nat) + old_digits.reverse() =~= nat_text((m / 10) as nat) + digits@.reverse());
        m = m / 10;
    }
    let mut i = digits.len();
    let ghost start = out@;
    while i > 0
        invariant
            i <= digits@.len(),
            nat_text(n as nat) == digits@.reverse(),
            out@ == start + digits@.reverse().take((digits@.len() - i) as int),
        decreases i,
    {
        i -= 1;
        out.push(digits[i]);
        assert(digits@.reverse()[(digits@.len() - 1 - i) as int] == digits@[i as int]);
        assert(out@ =~= start + digits@.reverse().take((digits@.len() - i) as int));
    }
    assert(digits@.reverse().take(digits@.len() as int) =~= digits@.reverse());
}

fn char_of_digit(d: u64) -> (c: char)
    requires
        d < 10,
    ensures
        c == digit_char(d as int),
{
    if d == 0 { '0' }
    else if d == 1 { '1' }
    else if d == 2 { '2' }
    else if d == 3 { '3' }
    else if d == 4 { '4' }
    else if d == 5 { '5' }
    else if d == 6 { '6' }
    else if d == 7 { '7' }
    else if d == 8 { '8' }
    else { '9' }
}

/// Appends the decimal text of a signed integer.
pub fn push_i64(out: &mut String, v: i64)
    ensures
        final(out)@ == old(out)@ + int_text(v as int),
{
    if v < 0 {
        out.push('-');
        let mag: u64 = if v == i64::MIN {
            9223372036854775808u64
        } else {
            (0 - v) as u64
        };
        push_u64(out, mag);
        assert(old(out)@ + int_text(v as int) =~= old(out)@.push('-') + nat_text(mag as nat));
    } else {
        push_u64(out, v as u64);
    }
}

/// Appends the decimal text of a `usize`.
pub fn push_usize(out: &mut String, v: usize)
    ensures
        final(out)@ == old(out)@ + nat_text(v as nat),
{
    push_u64(out, v as u64);
}

/// What `format!("{:?}", s)` gives for a string: the quoted, escaped form.
pub uninterp spec fn debug_text(s: Seq<char>) -> Seq<char>;

/// Calls the `Debug` formatting of `str`; its result is named by `debug_text`.
#[verifier::external_body]
pub fn debug_string(s: &str) -> (r: String)
    ensures
        r@ == debug_text(s@),
{
    format!("{:?}", s)
}

} // verus!
