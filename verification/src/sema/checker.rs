//! Semantic analysis — name resolution and type checking.
//!
//! Walks the AST and checks that every variable is declared before use, that
//! every called function exists and gets the right number and types of
//! arguments, that operand types match, that conditions are booleans, and
//! that returned values match the function's signature. Each check is proved
//! to answer exactly what the rules in `rules.rs` say.

use vstd::prelude::*;
use crate::ast::{
    stmt_depth, stmts_depth, block_depth, arms_depth, BinOp, Block, ComptimeDef, EnumDef, Expr, Function,
    MatchArm, Param, Pattern, Program, Stmt, StructDef, StructField, UnaryOp,
};
use crate::ast::pretty::{functions_depth, lemma_arms_depth, lemma_functions_depth, lemma_stmts_depth};
use crate::error::{CompileError, Span};
use crate::text::{
    ascii_digit, chars_of, push_str, push_string, push_usize, str_is, string_from_chars, string_of, whitespace,
};
use crate::sema::types::{push_type, same_type, type_text, Type};
use crate::sema::rules::{
    builtin_sig, count_char, fn_sig, has_name, index_of, lemma_index_of, lookup, lookup_first, parse_usize,
    resolve_builtin, resolve_named, all_digits, unsigned_digits, sig, args_ok, elems_ok, fields_ok,
    declared_given, expr_type, len_of_array, stmt_check, stmts_check, block_check, arms_check, restore, abs, div_trunc,
    rem_trunc, comptime_value, params_types, param_vars, ret_type, fn_ctx, func_ok, with_enums, fields_types,
    with_structs, with_comptimes, with_fns, funcs_ok, program_ok, declared_env, trim, trim_end, trim_start, Ctx, FnSig, Tables,
};
use crate::lexer::{digits_value, lemma_digits_value_prefix};
use crate::sema::faults::{
    args_fault, arms_fault, at, binop_text, block_fault, comptime_fault, elems_fault, expr_fault, fields_fault,
    fields_types_fault, func_fault, funcs_fault, is_given, missing_fault, params_fault, program_fault,
    resolve_builtin_fault, resolve_fault, ret_fault, stmt_fault, stmts_fault, with_comptimes_fault, with_fns_fault,
    with_structs_fault,
};
use crate::text::is_digit;

verus! {

// ── Finding entries by name ──────────────────────────────

/// The index of the last entry named `k`.
pub(crate) fn find_last<V>(t: &Vec<(String, V)>, k: &String) -> (r: Option<usize>)
    ensures
        match r {
            Some(i) => i < t@.len() && t@[i as int].0@ == k@ && forall|j: int|
                i < j < t@.len() ==> #[trigger] t@[j].0@ != k@,
            None => forall|j: int| 0 <= j < t@.len() ==> #[trigger] t@[j].0@ != k@,
        },
{
    let mut i = t.len();
    while i > 0
        invariant
            i <= t@.len(),
            forall|j: int| i <= j < t@.len() ==> #[trigger] t@[j].0@ != k@,
        decreases i,
    {
        if t[i - 1].0 == *k {
            return Some(i - 1);
        }
        i -= 1;
    }
    None
}

/// The index of the first entry named `k`.
pub(crate) fn find_first<V>(t: &Vec<(String, V)>, k: &String) -> (r: Option<usize>)
    ensures
        match r {
            Some(i) => i < t@.len() && t@[i as int].0@ == k@ && forall|j: int|
                0 <= j < i ==> #[trigger] t@[j].0@ != k@,
            None => forall|j: int| 0 <= j < t@.len() ==> #[trigger] t@[j].0@ != k@,
        },
{
    let mut i: usize = 0;
    while i < t.len()
        invariant
            i <= t@.len(),
            forall|j: int| 0 <= j < i ==> #[trigger] t@[j].0@ != k@,
        decreases t@.len() - i,
    {
        if t[i].0 == *k {
            return Some(i);
        }
        i += 1;
    }
    None
}

/// Whether a list of names holds `k`.
pub(crate) fn contains_name(v: &Vec<String>, k: &String) -> (r: bool)
    ensures
        r == has_name(v@, k@),
{
    let mut i: usize = 0;
    while i < v.len()
        invariant
            i <= v@.len(),
            forall|j: int| 0 <= j < i ==> #[trigger] v@[j]@ != k@,
        decreases v@.len() - i,
    {
        if v[i] == *k {
            return true;
        }
        i += 1;
    }
    false
}

pub proof fn lemma_lookup_at<V>(t: Seq<(String, V)>, k: Seq<char>, i: int)
    requires
        0 <= i < t.len(),
        t[i].0@ == k,
        forall|j: int| i < j < t.len() ==> #[trigger] t[j].0@ != k,
    ensures
        lookup(t, k) == Some(t[i].1),
    decreases t.len(),
{
    if i < t.len() - 1 {
        assert(t.last().0@ != k);
        lemma_lookup_at(t.drop_last(), k, i);
    }
}

pub proof fn lemma_lookup_none<V>(t: Seq<(String, V)>, k: Seq<char>)
    requires
        forall|j: int| 0 <= j < t.len() ==> #[trigger] t[j].0@ != k,
    ensures
        lookup(t, k) is None,
    decreases t.len(),
{
    if t.len() > 0 {
        assert(t.last().0@ != k);
        lemma_lookup_none(t.drop_last(), k);
    }
}

pub proof fn lemma_lookup_first_at<V>(t: Seq<(String, V)>, k: Seq<char>, i: int)
    requires
        0 <= i < t.len(),
        t[i].0@ == k,
        forall|j: int| 0 <= j < i ==> #[trigger] t[j].0@ != k,
    ensures
        lookup_first(t, k) == Some(t[i].1),
    decreases t.len(),
{
    if i > 0 {
        assert(t[0].0@ != k);
        assert forall|j: int| 0 <= j < i - 1 implies #[trigger] t.drop_first()[j].0@ != k by {
            assert(t.drop_first()[j] == t[j + 1]);
        }
        lemma_lookup_first_at(t.drop_first(), k, i - 1);
    }
}

pub proof fn lemma_lookup_first_none<V>(t: Seq<(String, V)>, k: Seq<char>)
    requires
        forall|j: int| 0 <= j < t.len() ==> #[trigger] t[j].0@ != k,
    ensures
        lookup_first(t, k) is None,
    decreases t.len(),
{
    if t.len() > 0 {
        assert(t[0].0@ != k);
        assert forall|j: int| 0 <= j < t.len() - 1 implies #[trigger] t.drop_first()[j].0@ != k by {
            assert(t.drop_first()[j] == t[j + 1]);
        }
        lemma_lookup_first_none(t.drop_first(), k);
    }
}

// ── The checker's state ──────────────────────────────────

/// Information about a declared function.
struct FuncInfo {
    param_types: Vec<Type>,
    return_type: Type,
    can_fail: bool,
}

impl FuncInfo {
    spec fn sig(&self) -> FnSig {
        FnSig { params: self.param_types@, ret: self.return_type, can_fail: self.can_fail }
    }

    /// An equal copy.
    fn copy(&self) -> (r: FuncInfo)
        ensures
            r.sig() == self.sig(),
    {
        let mut ps: Vec<Type> = Vec::new();
        let mut i: usize = 0;
        while i < self.param_types.len()
            invariant
                i <= self.param_types@.len(),
                ps@ == self.param_types@.take(i as int),
            decreases self.param_types@.len() - i,
        {
            ps.push(self.param_types[i].copy());
            assert(ps@ =~= self.param_types@.take(i + 1));
            i += 1;
        }
        assert(ps@ =~= self.param_types@);
        FuncInfo { param_types: ps, return_type: self.return_type.copy(), can_fail: self.can_fail }
    }
}

fn func(param_types: Vec<Type>, return_type: Type, can_fail: bool) -> (f: FuncInfo)
    ensures
        f.sig() == sig(param_types@, return_type, can_fail),
{
    FuncInfo { param_types, return_type, can_fail }
}

fn types0() -> (v: Vec<Type>)
    ensures
        v@ == Seq::<Type>::empty(),
{
    let v: Vec<Type> = Vec::new();
    assert(v@ =~= Seq::<Type>::empty());
    v
}

fn types1(a: Type) -> (v: Vec<Type>)
    ensures
        v@ == seq![a],
{
    let mut v: Vec<Type> = Vec::new();
    v.push(a);
    assert(v@ =~= seq![a]);
    v
}

fn types2(a: Type, b: Type) -> (v: Vec<Type>)
    ensures
        v@ == seq![a, b],
{
    let mut v: Vec<Type> = Vec::new();
    v.push(a);
    v.push(b);
    assert(v@ =~= seq![a, b]);
    v
}

fn types3(a: Type, b: Type, c: Type) -> (v: Vec<Type>)
    ensures
        v@ == seq![a, b, c],
{
    let mut v: Vec<Type> = Vec::new();
    v.push(a);
    v.push(b);
    v.push(c);
    assert(v@ =~= seq![a, b, c]);
    v
}

/// The signature of a built-in function.
fn builtin(name: &String) -> (r: Option<FuncInfo>)
    ensures
        match r {
            Some(f) => builtin_sig(name@) == Some(f.sig()),
            None => builtin_sig(name@) is None,
        },
{
    if str_is(name, "print") {
        Some(func(types1(Type::I64), Type::Void, false))
    } else if str_is(name, "len") {
        Some(func(types1(Type::Str), Type::I64, false))
    } else if str_is(name, "abs") {
        Some(func(types1(Type::I64), Type::I64, false))
    } else if str_is(name, "min") {
        Some(func(types2(Type::I64, Type::I64), Type::I64, false))
    } else if str_is(name, "max") {
        Some(func(types2(Type::I64, Type::I64), Type::I64, false))
    } else if str_is(name, "pow") {
        Some(func(types2(Type::I64, Type::I64), Type::I64, false))
    } else if str_is(name, "rand") {
        Some(func(types0(), Type::I64, false))
    } else if str_is(name, "to_str") {
        Some(func(types1(Type::I64), Type::Str, false))
    } else if str_is(name, "parse_int") {
        Some(func(types1(Type::Str), Type::I64, true))
    } else if str_is(name, "char_at") {
        Some(func(types2(Type::Str, Type::I64), Type::I64, false))
    } else if str_is(name, "contains") {
        Some(func(types2(Type::Str, Type::Str), Type::Bool, false))
    } else if str_is(name, "starts_with") {
        Some(func(types2(Type::Str, Type::Str), Type::Bool, false))
    } else if str_is(name, "substr") {
        Some(func(types3(Type::Str, Type::I64, Type::I64), Type::Str, false))
    } else if str_is(name, "trim") {
        Some(func(types1(Type::Str), Type::Str, false))
    } else if str_is(name, "read_line") {
        Some(func(types0(), Type::Str, false))
    } else if str_is(name, "read_file") {
        Some(func(types1(Type::Str), Type::Str, true))
    } else if str_is(name, "write_file") {
        Some(func(types2(Type::Str, Type::Str), Type::Void, true))
    } else if str_is(name, "file_exists") {
        Some(func(types1(Type::Str), Type::Bool, false))
    } else if str_is(name, "eprint") {
        Some(func(types1(Type::Str), Type::Void, false))
    } else if str_is(name, "exit") {
        Some(func(types1(Type::I64), Type::Void, false))
    } else if str_is(name, "time") {
        Some(func(types0(), Type::I64, false))
    } else if str_is(name, "sleep") {
        Some(func(types1(Type::I64), Type::Void, false))
    } else if str_is(name, "alloc") {
        Some(func(types1(Type::I64), Type::I64, false))
    } else if str_is(name, "free") {
        Some(func(types1(Type::I64), Type::Void, false))
    } else {
        None
    }
}

/// The names of the private items in a list of (name, is private) pairs.
pub open spec fn private_names(s: Seq<(String, bool)>) -> Seq<String>
    decreases s.len(),
{
    if s.len() == 0 {
        Seq::empty()
    } else if s.last().1 {
        private_names(s.drop_last()).push(s.last().0)
    } else {
        private_names(s.drop_last())
    }
}

/// The tables of a checker that has seen nothing yet.
pub open spec fn empty_tables() -> Tables {
    Tables {
        fns: Seq::empty(),
        enums: Seq::empty(),
        structs: Seq::empty(),
        comptimes: Seq::empty(),
        privates: Seq::empty(),
        imported: Seq::empty(),
    }
}

/// The type checker. Variables live in one list: an inner scope is the tail
/// pushed after its start, and leaving the scope cuts the list back.
pub struct Checker {
    vars: Vec<(String, Type)>,
    functions: Vec<(String, FuncInfo)>,
    enums: Vec<(String, Vec<String>)>,
    structs: Vec<(String, Vec<(String, Type)>)>,
    comptimes: Vec<(String, i64)>,
    private_items: Vec<String>,
    imported_items: Vec<String>,
    check_privacy: bool,
    current_return_type: Type,
    current_can_fail: bool,
    loop_depth: usize,
}


// ── Type names ───────────────────────────────────────────

/// `cs[lo..hi]` without leading and trailing whitespace, as a range.
pub(crate) fn trim_range(cs: &Vec<char>, lo: usize, hi: usize) -> (r: (usize, usize))
    requires
        lo <= hi <= cs@.len(),
    ensures
        lo <= r.0 <= r.1 <= hi,
        cs@.subrange(r.0 as int, r.1 as int) == trim(cs@.subrange(lo as int, hi as int)),
{
    let mut a = lo;
    while a < hi && whitespace(cs[a])
        invariant
            lo <= a <= hi <= cs@.len(),
            trim_start(cs@.subrange(lo as int, hi as int)) == trim_start(cs@.subrange(a as int, hi as int)),
        decreases hi - a,
    {
        assert(cs@.subrange(a as int, hi as int).drop_first() =~= cs@.subrange(a + 1, hi as int));
        a += 1;
    }
    assert(trim_start(cs@.subrange(a as int, hi as int)) == cs@.subrange(a as int, hi as int)) by {
        if a < hi {
            assert(cs@.subrange(a as int, hi as int)[0] == cs@[a as int]);
        }
    }
    let mut b = hi;
    while b > a && whitespace(cs[b - 1])
        invariant
            lo <= a <= b <= hi <= cs@.len(),
            trim_end(cs@.subrange(a as int, hi as int)) == trim_end(cs@.subrange(a as int, b as int)),
        decreases b - a,
    {
        assert(cs@.subrange(a as int, b as int).drop_last() =~= cs@.subrange(a as int, b - 1));
        b -= 1;
    }
    assert(trim_end(cs@.subrange(a as int, b as int)) == cs@.subrange(a as int, b as int)) by {
        if a < b {
            assert(cs@.subrange(a as int, b as int).last() == cs@[b - 1]);
        }
    }
    (a, b)
}

/// The value of the `usize` literal `cs[lo..hi]` (`str::parse::<usize>`).
pub(crate) fn parse_usize_range(cs: &Vec<char>, lo: usize, hi: usize) -> (r: Option<usize>)
    requires
        lo <= hi <= cs@.len(),
    ensures
        match r {
            Some(v) => parse_usize(cs@.subrange(lo as int, hi as int)) == Some(v as nat),
            None => parse_usize(cs@.subrange(lo as int, hi as int)) is None,
        },
{
    let ghost s = cs@.subrange(lo as int, hi as int);
    let mut i = lo;
    if i < hi && cs[i] == '+' {
        assert(s.drop_first() =~= cs@.subrange(lo + 1, hi as int));
        i += 1;
    }
    let ghost d = cs@.subrange(i as int, hi as int);
    assert(d == unsigned_digits(s));
    if i == hi {
        return None;
    }
    let mut value: usize = 0;
    let mut j = i;
    assert(d.subrange(0, 0) =~= Seq::<char>::empty());
    while j < hi
        invariant
            lo <= i <= j <= hi <= cs@.len(),
            d == cs@.subrange(i as int, hi as int),
            s == cs@.subrange(lo as int, hi as int),
            d == unsigned_digits(s),
            forall|k: int| i <= k < j ==> is_digit(#[trigger] cs@[k]),
            value as int == digits_value(d.subrange(0, j - i)),
        decreases hi - j,
    {
        let ch = cs[j];
        if !ascii_digit(ch) {
            assert(d[j - i] == ch);
            assert(!is_digit(d[j - i]));
            return None;
        }
        let dv: usize = (ch as u32 - '0' as u32) as usize;
        assert(d.subrange(0, j + 1 - i).drop_last() =~= d.subrange(0, j - i));
        assert(digits_value(d.subrange(0, j + 1 - i)) == value * 10 + dv);
        let next = match value.checked_mul(10) {
            Some(v10) => v10.checked_add(dv),
            None => None,
        };
        match next {
            Some(v) => {
                value = v;
            },
            None => {
                proof {
                    if all_digits(d) {
                        lemma_digits_value_prefix(d, j + 1 - i);
                    }
                }
                return None;
            },
        }
        j += 1;
    }
    assert(d.subrange(0, j - i) =~= d);
    assert forall|k: int| 0 <= k < d.len() implies is_digit(#[trigger] d[k]) by {
        assert(d[k] == cs@[i + k]);
    }
    Some(value)
}

/// A built-in type or an array type written in `cs[lo..hi]`.
fn resolve_builtin_range(cs: &Vec<char>, lo: usize, hi: usize, span: Span) -> (r: Result<Type, CompileError>)
    requires
        lo <= hi <= cs@.len(),
    ensures
        match r {
            Ok(t) => resolve_builtin(cs@.subrange(lo as int, hi as int)) == Ok::<Type, ()>(t),
            Err(e) => resolve_builtin(cs@.subrange(lo as int, hi as int)) is Err && (e.message@, e.span)
                == resolve_builtin_fault(cs@.subrange(lo as int, hi as int), span),
        },
    decreases hi - lo,
{
    let ghost n = cs@.subrange(lo as int, hi as int);
    if hi > lo && cs[lo] == '[' && cs[hi - 1] == ']' {
        assert(n[0] == cs@[lo as int] && n.last() == cs@[hi - 1]);
        let ghost inner = n.subrange(1, n.len() - 1);
        assert(inner =~= cs@.subrange(lo + 1, hi - 1));
        // Count the separators and find the first one.
        let mut semis: usize = 0;
        let mut first: usize = hi - 1;
        let mut j = lo + 1;
        assert(cs@.subrange(lo + 1, lo + 1) =~= Seq::<char>::empty());
        while j < hi - 1
            invariant
                lo + 1 <= j <= hi - 1,
                hi - 1 < cs@.len(),
                semis as int == count_char(cs@.subrange(lo + 1, j as int), ';'),
                semis <= j - (lo + 1),
                semis == 0 ==> first == hi - 1,
                semis > 0 ==> lo + 1 <= first < j && cs@[first as int] == ';',
                forall|m: int| lo + 1 <= m < j && m < first ==> #[trigger] cs@[m] != ';',
            decreases hi - 1 - j,
        {
            assert(cs@.subrange(lo + 1, j + 1).drop_last() =~= cs@.subrange(lo + 1, j as int));
            if cs[j] == ';' {
                if semis == 0 {
                    first = j;
                }
                semis += 1;
            }
            j += 1;
        }
        if semis != 1 {
            return Err(err_s("invalid array type '", &string_from_chars(cs, lo, hi), "'", span));
        }
        proof {
            lemma_index_of(inner, ';');
            let k = index_of(inner, ';');
            if k < first - (lo + 1) {
                assert(inner[k] == cs@[lo + 1 + k]);
            }
            if k > first - (lo + 1) {
                assert(inner[first - (lo + 1)] == cs@[first as int]);
            }
            assert(k == first - (lo + 1));
            assert(inner.subrange(0, k) =~= cs@.subrange(lo + 1, first as int));
            assert(inner.subrange(k + 1, inner.len() as int) =~= cs@.subrange(first + 1, hi - 1));
        }
        let (sa, sb) = trim_range(cs, first + 1, hi - 1);
        let size = match parse_usize_range(cs, sa, sb) {
            Some(v) => v,
            None => {
                return Err(err_s("invalid array size in '", &string_from_chars(cs, lo, hi), "'", span));
            },
        };
        let (ea, eb) = trim_range(cs, lo + 1, first);
        let elem = match resolve_builtin_range(cs, ea, eb, span) {
            Ok(t) => t,
            Err(e) => {
                return Err(e);
            },
        };
        Ok(Type::Array(Box::new(elem), size))
    } else {
        let name = string_from_chars(cs, lo, hi);
        match Type::from_name(name.as_str()) {
            Some(t) => Ok(t),
            None => Err(err_s("unknown type '", &name, "'", span)),
        }
    }
}


// ── Lists of typed parts ─────────────────────────────────

/// `e` is well typed with a type that is the same as `t`.
spec fn fits(c: Ctx, vars: Seq<(String, Type)>, e: Expr, t: Type) -> bool {
    match expr_type(c, vars, e) {
        Ok(u) => same_type(u, t),
        Err(_) => false,
    }
}

/// A struct-literal field exists in `declared` and its value has the field's type.
spec fn field_fits(c: Ctx, vars: Seq<(String, Type)>, g: (String, Expr), declared: Seq<(String, Type)>) -> bool {
    match lookup_first(declared, g.0@) {
        Some(ft) => fits(c, vars, g.1, ft),
        None => false,
    }
}

proof fn lemma_args_ok(c: Ctx, vars: Seq<(String, Type)>, args: Seq<Expr>, params: Seq<Type>)
    ensures
        args_ok(c, vars, args, params) == forall|j: int|
            0 <= j < args.len() ==> #[trigger] fits(c, vars, args[j], params[j]),
    decreases args.len(),
{
    if args.len() > 0 {
        let dl = args.drop_last();
        lemma_args_ok(c, vars, dl, params);
        if args_ok(c, vars, args, params) {
            assert forall|j: int| 0 <= j < args.len() implies #[trigger] fits(c, vars, args[j], params[j]) by {
                if j < args.len() - 1 {
                    assert(dl[j] == args[j]);
                    assert(fits(c, vars, dl[j], params[j]));
                }
            }
        }
        if forall|j: int| 0 <= j < args.len() ==> #[trigger] fits(c, vars, args[j], params[j]) {
            assert forall|j: int| 0 <= j < dl.len() implies #[trigger] fits(c, vars, dl[j], params[j]) by {
                assert(dl[j] == args[j]);
                assert(fits(c, vars, args[j], params[j]));
            }
            assert(fits(c, vars, args[args.len() - 1], params[args.len() - 1]));
        }
    }
}

proof fn lemma_elems_ok(c: Ctx, vars: Seq<(String, Type)>, es: Seq<Expr>, first: Type)
    ensures
        elems_ok(c, vars, es, first) == forall|j: int| 0 <= j < es.len() ==> #[trigger] fits(c, vars, es[j], first),
    decreases es.len(),
{
    if es.len() > 0 {
        let dl = es.drop_last();
        lemma_elems_ok(c, vars, dl, first);
        if elems_ok(c, vars, es, first) {
            assert forall|j: int| 0 <= j < es.len() implies #[trigger] fits(c, vars, es[j], first) by {
                if j < es.len() - 1 {
                    assert(dl[j] == es[j]);
                    assert(fits(c, vars, dl[j], first));
                }
            }
        }
        if forall|j: int| 0 <= j < es.len() ==> #[trigger] fits(c, vars, es[j], first) {
            assert forall|j: int| 0 <= j < dl.len() implies #[trigger] fits(c, vars, dl[j], first) by {
                assert(dl[j] == es[j]);
                assert(fits(c, vars, es[j], first));
            }
            assert(fits(c, vars, es[es.len() - 1], first));
        }
    }
}

proof fn lemma_fields_ok(
    c: Ctx,
    vars: Seq<(String, Type)>,
    given: Seq<(String, Expr)>,
    declared: Seq<(String, Type)>,
)
    ensures
        fields_ok(c, vars, given, declared) == forall|j: int|
            0 <= j < given.len() ==> #[trigger] field_fits(c, vars, given[j], declared),
    decreases given.len(),
{
    if given.len() > 0 {
        let dl = given.drop_last();
        lemma_fields_ok(c, vars, dl, declared);
        if fields_ok(c, vars, given, declared) {
            assert forall|j: int| 0 <= j < given.len() implies #[trigger] field_fits(c, vars, given[j], declared) by {
                if j < given.len() - 1 {
                    assert(dl[j] == given[j]);
                    assert(field_fits(c, vars, dl[j], declared));
                }
            }
        }
        if forall|j: int| 0 <= j < given.len() ==> #[trigger] field_fits(c, vars, given[j], declared) {
            assert forall|j: int| 0 <= j < dl.len() implies #[trigger] field_fits(c, vars, dl[j], declared) by {
                assert(dl[j] == given[j]);
                assert(field_fits(c, vars, given[j], declared));
            }
            assert(field_fits(c, vars, given[given.len() - 1], declared));
        }
    }
}

proof fn lemma_same_type_refl(t: Type)
    ensures
        same_type(t, t),
    decreases t,
{
    if let Type::Array(e, _) = t {
        lemma_same_type_refl(*e);
    }
}

/// The name `{:?}` gives a binary operator.
fn binop_name(op: BinOp) -> (r: &'static str)
    ensures
        r@ == binop_text(op),
{
    match op {
        BinOp::Add => "Add",
        BinOp::Sub => "Sub",
        BinOp::Mul => "Mul",
        BinOp::Div => "Div",
        BinOp::Mod => "Mod",
        BinOp::Eq => "Eq",
        BinOp::Neq => "Neq",
        BinOp::Lt => "Lt",
        BinOp::Gt => "Gt",
        BinOp::Lte => "Lte",
        BinOp::Gte => "Gte",
        BinOp::And => "And",
        BinOp::Or => "Or",
    }
}

/// An error with message `a` + `x` + `b`.
fn err_s(a: &str, x: &String, b: &str, span: Span) -> (e: CompileError)
    ensures
        (e.message@, e.span) == at(a@ + x@ + b@, span),
{
    let mut m = string_of(a);
    push_string(&mut m, x);
    push_str(&mut m, b);
    CompileError { message: m, span: Some(span) }
}

/// An error with message `a` + `x` + `b` + `y` + `c`.
fn err_ss(a: &str, x: &String, b: &str, y: &String, c: &str, span: Span) -> (e: CompileError)
    ensures
        (e.message@, e.span) == at(a@ + x@ + b@ + y@ + c@, span),
{
    let mut m = string_of(a);
    push_string(&mut m, x);
    push_str(&mut m, b);
    push_string(&mut m, y);
    push_str(&mut m, c);
    CompileError { message: m, span: Some(span) }
}

/// An error with message `a` + the type `t` + `b`.
fn err_t(a: &str, t: &Type, b: &str, span: Span) -> (e: CompileError)
    ensures
        (e.message@, e.span) == at(a@ + type_text(*t) + b@, span),
{
    let mut m = string_of(a);
    push_type(&mut m, t);
    push_str(&mut m, b);
    CompileError { message: m, span: Some(span) }
}

/// An error with message `a` + `t` + `b` + `u` + `c` for two types.
fn err_tt(a: &str, t: &Type, b: &str, u: &Type, c: &str, span: Span) -> (e: CompileError)
    ensures
        (e.message@, e.span) == at(a@ + type_text(*t) + b@ + type_text(*u) + c@, span),
{
    let mut m = string_of(a);
    push_type(&mut m, t);
    push_str(&mut m, b);
    push_type(&mut m, u);
    push_str(&mut m, c);
    CompileError { message: m, span: Some(span) }
}

/// An error with message `a` + `x` + `b` + `t` + `c` + `u` + `d`.
fn err_stt(a: &str, x: &String, b: &str, t: &Type, c: &str, u: &Type, d: &str, span: Span) -> (e: CompileError)
    ensures
        (e.message@, e.span) == at(a@ + x@ + b@ + type_text(*t) + c@ + type_text(*u) + d@, span),
{
    let mut m = string_of(a);
    push_string(&mut m, x);
    push_str(&mut m, b);
    push_type(&mut m, t);
    push_str(&mut m, c);
    push_type(&mut m, u);
    push_str(&mut m, d);
    CompileError { message: m, span: Some(span) }
}

/// An error with a fixed message.
fn err_at(a: &str, span: Span) -> (e: CompileError)
    ensures
        (e.message@, e.span) == at(a@, span),
{
    CompileError { message: string_of(a), span: Some(span) }
}

proof fn lemma_stmts_prefix(c: Ctx, vars: Seq<(String, Type)>, depth: nat, ss: Seq<Stmt>, i: int)
    requires
        0 <= i <= ss.len(),
        stmts_check(c, vars, depth, ss.take(i)) is Err,
    ensures
        stmts_check(c, vars, depth, ss) is Err,
        stmts_fault(c, vars, depth, ss) == stmts_fault(c, vars, depth, ss.take(i)),
    decreases ss.len(),
{
    if i == ss.len() {
        assert(ss.take(i) =~= ss);
    } else {
        assert(ss.drop_last().take(i) =~= ss.take(i));
        lemma_stmts_prefix(c, vars, depth, ss.drop_last(), i);
    }
}

proof fn lemma_arms_prefix(
    c: Ctx,
    vars: Seq<(String, Type)>,
    depth: nat,
    st: Type,
    arms: Seq<MatchArm>,
    i: int,
    span: Span,
)
    requires
        0 <= i <= arms.len(),
        arms_check(c, vars, depth, st, arms.take(i)) is Err,
    ensures
        arms_check(c, vars, depth, st, arms) is Err,
        arms_fault(c, vars, depth, st, arms, span) == arms_fault(c, vars, depth, st, arms.take(i), span),
    decreases arms.len(),
{
    if i == arms.len() {
        assert(arms.take(i) =~= arms);
    } else {
        assert(arms.drop_last().take(i) =~= arms.take(i));
        lemma_arms_prefix(c, vars, depth, st, arms.drop_last(), i, span);
    }
}


proof fn lemma_params_prefix(t: Tables, ps: Seq<Param>, i: int)
    requires
        0 <= i <= ps.len(),
        params_types(t, ps.take(i)) is Err,
    ensures
        params_types(t, ps) is Err,
        params_fault(t, ps) == params_fault(t, ps.take(i)),
    decreases ps.len(),
{
    if i == ps.len() {
        assert(ps.take(i) =~= ps);
    } else {
        assert(ps.drop_last().take(i) =~= ps.take(i));
        lemma_params_prefix(t, ps.drop_last(), i);
    }
}

proof fn lemma_fields_types_prefix(t: Tables, fs: Seq<StructField>, i: int)
    requires
        0 <= i <= fs.len(),
        fields_types(t, fs.take(i)) is Err,
    ensures
        fields_types(t, fs) is Err,
        fields_types_fault(t, fs) == fields_types_fault(t, fs.take(i)),
    decreases fs.len(),
{
    if i == fs.len() {
        assert(fs.take(i) =~= fs);
    } else {
        assert(fs.drop_last().take(i) =~= fs.take(i));
        lemma_fields_types_prefix(t, fs.drop_last(), i);
    }
}

proof fn lemma_with_structs_prefix(t: Tables, ss: Seq<StructDef>, i: int)
    requires
        0 <= i <= ss.len(),
        with_structs(t, ss.take(i)) is Err,
    ensures
        with_structs(t, ss) is Err,
        with_structs_fault(t, ss) == with_structs_fault(t, ss.take(i)),
    decreases ss.len(),
{
    if i == ss.len() {
        assert(ss.take(i) =~= ss);
    } else {
        assert(ss.drop_last().take(i) =~= ss.take(i));
        lemma_with_structs_prefix(t, ss.drop_last(), i);
    }
}

proof fn lemma_with_comptimes_prefix(t: Tables, vars: Seq<(String, Type)>, cs: Seq<ComptimeDef>, i: int)
    requires
        0 <= i <= cs.len(),
        with_comptimes(t, vars, cs.take(i)) is Err,
    ensures
        with_comptimes(t, vars, cs) is Err,
        with_comptimes_fault(t, vars, cs) == with_comptimes_fault(t, vars, cs.take(i)),
    decreases cs.len(),
{
    if i == cs.len() {
        assert(cs.take(i) =~= cs);
    } else {
        assert(cs.drop_last().take(i) =~= cs.take(i));
        lemma_with_comptimes_prefix(t, vars, cs.drop_last(), i);
    }
}

proof fn lemma_with_fns_prefix(t: Tables, fs: Seq<Function>, i: int)
    requires
        0 <= i <= fs.len(),
        with_fns(t, fs.take(i)) is Err,
    ensures
        with_fns(t, fs) is Err,
        with_fns_fault(t, fs) == with_fns_fault(t, fs.take(i)),
    decreases fs.len(),
{
    if i == fs.len() {
        assert(fs.take(i) =~= fs);
    } else {
        assert(fs.drop_last().take(i) =~= fs.take(i));
        lemma_with_fns_prefix(t, fs.drop_last(), i);
    }
}

proof fn lemma_funcs_ok_prefix(t: Tables, vars: Seq<(String, Type)>, depth: nat, fs: Seq<Function>, i: int)
    requires
        0 <= i <= fs.len(),
        !funcs_ok(t, vars, depth, fs.take(i)),
    ensures
        !funcs_ok(t, vars, depth, fs),
        funcs_fault(t, vars, depth, fs) == funcs_fault(t, vars, depth, fs.take(i)),
    decreases fs.len(),
{
    if i == fs.len() {
        assert(fs.take(i) =~= fs);
    } else {
        assert(fs.drop_last().take(i) =~= fs.take(i));
        lemma_funcs_ok_prefix(t, vars, depth, fs.drop_last(), i);
    }
}

// ── Compile-time arithmetic ──────────────────────────────

/// The magnitude of an `i64`.
fn magnitude(v: i64) -> (m: u64)
    ensures
        m as int == abs(v as int),
{
    if v < 0 {
        (0i128 - v as i128) as u64
    } else {
        v as u64
    }
}

/// Division rounding toward zero; `i64::MIN / -1` wraps to `i64::MIN`.
pub(crate) fn div_toward_zero(l: i64, r: i64) -> (q: i64)
    requires
        r != 0,
    ensures
        q == div_trunc(l, r),
{
    let q = magnitude(l) / magnitude(r);
    if (l < 0) != (r < 0) {
        if q == 0x8000_0000_0000_0000u64 {
            i64::MIN
        } else {
            0i64 - q as i64
        }
    } else if q > i64::MAX as u64 {
        i64::MIN
    } else {
        q as i64
    }
}

/// The remainder of `div_toward_zero`, with the sign of `l`.
pub(crate) fn rem_toward_zero(l: i64, r: i64) -> (m: i64)
    requires
        r != 0,
    ensures
        m == rem_trunc(l, r),
{
    let m = magnitude(l) % magnitude(r);
    assert(m < 0x8000_0000_0000_0000u64);
    if l < 0 {
        0i64 - m as i64
    } else {
        m as i64
    }
}

/// An equal copy of a list of names.
fn clone_names(v: &Vec<String>) -> (r: Vec<String>)
    ensures
        r@ == v@,
{
    let mut r: Vec<String> = Vec::new();
    let mut i: usize = 0;
    while i < v.len()
        invariant
            i <= v@.len(),
            r@ == v@.take(i as int),
        decreases v@.len() - i,
    {
        r.push(v[i].clone());
        assert(r@ =~= v@.take(i + 1));
        i += 1;
    }
    assert(r@ =~= v@);
    r
}


proof fn lemma_params_len(t: Tables, ps: Seq<Param>)
    ensures
        params_types(t, ps) is Ok ==> params_types(t, ps)->Ok_0.len() == ps.len(),
    decreases ps.len(),
{
    if ps.len() > 0 {
        lemma_params_len(t, ps.drop_last());
    }
}

// ── Scopes ───────────────────────────────────────────────

/// Checking a block leaves the variables in scope as it found them.
pub proof fn lemma_block_scope(c: Ctx, vars: Seq<(String, Type)>, depth: nat, b: Block)
    ensures
        block_check(c, vars, depth, b) is Ok ==> block_check(c, vars, depth, b) == Ok::<
            Seq<(String, Type)>,
            (),
        >(vars),
    decreases b,
{
    lemma_stmts_scope(c, vars, depth, b.stmts@);
    match stmts_check(c, vars, depth, b.stmts@) {
        Ok(v1) => {
            assert(restore(v1, vars.len() as int) =~= vars);
        },
        Err(_) => {},
    }
}

/// Checking statements only adds variables after those already in scope.
pub proof fn lemma_stmts_scope(c: Ctx, vars: Seq<(String, Type)>, depth: nat, ss: Seq<Stmt>)
    ensures
        match stmts_check(c, vars, depth, ss) {
            Ok(v) => vars.len() <= v.len() && v.subrange(0, vars.len() as int) == vars,
            Err(_) => true,
        },
    decreases ss,
{
    if ss.len() == 0 {
        assert(vars.subrange(0, vars.len() as int) =~= vars);
    } else {
        lemma_stmts_scope(c, vars, depth, ss.drop_last());
        match stmts_check(c, vars, depth, ss.drop_last()) {
            Ok(v) => {
                lemma_stmt_scope(c, v, depth, ss.last());
                match stmt_check(c, v, depth, ss.last()) {
                    Ok(w) => {
                        assert(w.subrange(0, vars.len() as int) =~= w.subrange(0, v.len() as int).subrange(
                            0,
                            vars.len() as int,
                        ));
                    },
                    Err(_) => {},
                }
            },
            Err(_) => {},
        }
    }
}

/// Checking a statement only adds variables after those already in scope.
pub proof fn lemma_stmt_scope(c: Ctx, vars: Seq<(String, Type)>, depth: nat, s: Stmt)
    ensures
        match stmt_check(c, vars, depth, s) {
            Ok(v) => vars.len() <= v.len() && v.subrange(0, vars.len() as int) == vars,
            Err(_) => true,
        },
    decreases s,
{
    assert(vars.subrange(0, vars.len() as int) =~= vars);
    match s {
        Stmt::Let { name, ty_name, value, .. } => {
            match expr_type(c, vars, value) {
                Ok(vt) => {
                    assert(vars.push((name, vt)).subrange(0, vars.len() as int) =~= vars);
                    match ty_name {
                        Some(tn) => match resolve_named(c.tables, tn) {
                            Ok(dt) => {
                                assert(vars.push((name, dt)).subrange(0, vars.len() as int) =~= vars);
                            },
                            Err(_) => {},
                        },
                        None => {},
                    }
                },
                Err(_) => {},
            }
        },
        Stmt::If { then_block, else_block, .. } => {
            lemma_block_scope(c, vars, depth, then_block);
            match else_block {
                Some(eb) => lemma_block_scope(c, vars, depth, eb),
                None => {},
            }
        },
        Stmt::While { body, .. } => {
            lemma_block_scope(c, vars, depth + 1, body);
        },
        Stmt::For { var, body, .. } => {
            let vp = vars.push((var, Type::I64));
            lemma_stmts_scope(c, vp, depth + 1, body.stmts@);
            match stmts_check(c, vp, depth + 1, body.stmts@) {
                Ok(v1) => {
                    assert(v1.subrange(0, vars.len() as int) =~= v1.subrange(0, vp.len() as int).subrange(
                        0,
                        vars.len() as int,
                    ));
                    assert(vp.subrange(0, vars.len() as int) =~= vars);
                },
                Err(_) => {},
            }
        },
        Stmt::Match { subject, arms, .. } => {
            match expr_type(c, vars, subject) {
                Ok(st) => lemma_arms_scope(c, vars, depth, st, arms@),
                Err(_) => {},
            }
        },
        _ => {},
    }
}

/// Checking match arms leaves the variables in scope as it found them.
pub proof fn lemma_arms_scope(c: Ctx, vars: Seq<(String, Type)>, depth: nat, st: Type, arms: Seq<MatchArm>)
    ensures
        arms_check(c, vars, depth, st, arms) is Ok ==> arms_check(c, vars, depth, st, arms) == Ok::<
            Seq<(String, Type)>,
            (),
        >(vars),
    decreases arms,
{
    if arms.len() > 0 {
        lemma_arms_scope(c, vars, depth, st, arms.drop_last());
        lemma_block_scope(c, vars, depth, arms.last().body);
    }
}

impl Checker {
    /// The program-wide tables.
    pub closed spec fn tables(&self) -> Tables {
        Tables {
            fns: self.functions@.map_values(|p: (String, FuncInfo)| (p.0, p.1.sig())),
            enums: self.enums@.map_values(|p: (String, Vec<String>)| (p.0, p.1@)),
            structs: self.structs@.map_values(|p: (String, Vec<(String, Type)>)| (p.0, p.1@)),
            comptimes: self.comptimes@,
            privates: self.private_items@,
            imported: self.imported_items@,
        }
    }

    /// The variables in scope, outermost first.
    pub closed spec fn scope(&self) -> Seq<(String, Type)> {
        self.vars@
    }

    /// The number of loops around the statement being checked.
    pub closed spec fn depth(&self) -> nat {
        self.loop_depth as nat
    }

    closed spec fn ctx(&self) -> Ctx {
        Ctx {
            tables: self.tables(),
            privacy: self.check_privacy,
            ret: self.current_return_type,
            can_fail: self.current_can_fail,
        }
    }

    pub fn new() -> (c: Self)
        ensures
            c.tables() == empty_tables(),
            c.scope() == Seq::<(String, Type)>::empty(),
            c.depth() == 0,
    {
        let c = Checker {
            vars: Vec::new(),
            functions: Vec::new(),
            enums: Vec::new(),
            structs: Vec::new(),
            comptimes: Vec::new(),
            private_items: Vec::new(),
            imported_items: Vec::new(),
            check_privacy: false,
            current_return_type: Type::Void,
            current_can_fail: false,
            loop_depth: 0,
        };
        assert(c.tables().fns =~= Seq::empty());
        assert(c.tables().enums =~= Seq::empty());
        assert(c.tables().structs =~= Seq::empty());
        c
    }

    /// Mark items as coming from imported modules, and which of them are
    /// private. Must be called before `check_program`.
    pub fn set_imported_privates(&mut self, privates: &[(String, bool)])
        ensures
            final(self).tables() == (Tables {
                imported: old(self).tables().imported + privates@.map_values(|p: (String, bool)| p.0),
                privates: old(self).tables().privates + private_names(privates@),
                ..old(self).tables()
            }),
            final(self).scope() == old(self).scope(),
            final(self).depth() == old(self).depth(),
    {
        let mut i: usize = 0;
        while i < privates.len()
            invariant
                i <= privates@.len(),
                self.imported_items@ == old(self).imported_items@ + privates@.take(i as int).map_values(
                    |p: (String, bool)| p.0,
                ),
                self.private_items@ == old(self).private_items@ + private_names(privates@.take(i as int)),
                self.vars == old(self).vars,
                self.functions == old(self).functions,
                self.enums == old(self).enums,
                self.structs == old(self).structs,
                self.comptimes == old(self).comptimes,
                self.loop_depth == old(self).loop_depth,
            decreases privates@.len() - i,
        {
            let ghost before = privates@.take(i as int);
            assert(privates@.take(i + 1).drop_last() =~= before);
            self.imported_items.push(privates[i].0.clone());
            if privates[i].1 {
                self.private_items.push(privates[i].0.clone());
            }
            assert(self.imported_items@ =~= old(self).imported_items@ + privates@.take(i + 1).map_values(
                |p: (String, bool)| p.0,
            ));
            assert(self.private_items@ =~= old(self).private_items@ + private_names(privates@.take(i + 1)));
            i += 1;
        }
        assert(privates@.take(i as int) =~= privates@);
    }

    /// The signature a call of `name` uses: built-ins shadow user functions.
    fn call_sig(&self, name: &String) -> (r: Option<FuncInfo>)
        ensures
            match r {
                Some(f) => fn_sig(self.tables(), name@) == Some(f.sig()),
                None => fn_sig(self.tables(), name@) is None,
            },
    {
        match builtin(name) {
            Some(f) => Some(f),
            None => match find_last(&self.functions, name) {
                Some(i) => {
                    proof {
                        lemma_lookup_at(self.tables().fns, name@, i as int);
                    }
                    Some(self.functions[i].1.copy())
                },
                None => {
                    proof {
                        lemma_lookup_none(self.tables().fns, name@);
                    }
                    None
                },
            },
        }
    }

    /// The type a name denotes in a declaration: an array or built-in type,
    /// or a known enum or struct.
    fn resolve_type_or_enum(&self, name: &String, span: Span) -> (r: Result<Type, CompileError>)
        ensures
            match r {
                Ok(t) => resolve_named(self.tables(), *name) == Ok::<Type, ()>(t),
                Err(e) => resolve_named(self.tables(), *name) is Err && (e.message@, e.span) == resolve_fault(
                    self.tables(),
                    *name,
                    span,
                ),
            },
    {
        let cs = chars_of(name.as_str());
        let n = cs.len();
        assert(cs@.subrange(0, n as int) =~= name@);
        if n > 0 && cs[0] == '[' && cs[n - 1] == ']' {
            return resolve_builtin_range(&cs, 0, n, span);
        }
        match find_last(&self.enums, name) {
            Some(i) => {
                proof {
                    lemma_lookup_at(self.tables().enums, name@, i as int);
                }
                return Ok(Type::Enum(name.clone()));
            },
            None => {
                proof {
                    lemma_lookup_none(self.tables().enums, name@);
                }
            },
        }
        match find_last(&self.structs, name) {
            Some(i) => {
                proof {
                    lemma_lookup_at(self.tables().structs, name@, i as int);
                }
                Ok(Type::Struct(name.clone()))
            },
            None => {
                proof {
                    lemma_lookup_none(self.tables().structs, name@);
                }
                resolve_builtin_range(&cs, 0, n, span)
            },
        }
    }

    /// The type of an expression.
    fn check_expr(&self, expr: &Expr) -> (r: Result<Type, CompileError>)
        ensures
            match r {
                Ok(t) => expr_type(self.ctx(), self.vars@, *expr) == Ok::<Type, ()>(t),
                Err(e) => expr_type(self.ctx(), self.vars@, *expr) is Err && (e.message@, e.span) == expr_fault(
                    self.ctx(),
                    self.vars@,
                    *expr,
                ),
            },
        decreases expr, 1nat,
    {
        match expr {
            Expr::IntLit { .. } => Ok(Type::I64),
            Expr::BoolLit { .. } => Ok(Type::Bool),
            Expr::StringLit { .. } => Ok(Type::Str),
            Expr::Ident { name, span } => match find_last(&self.vars, name) {
                Some(i) => {
                    proof {
                        lemma_lookup_at(self.vars@, name@, i as int);
                    }
                    Ok(self.vars[i].1.copy())
                },
                None => {
                    proof {
                        lemma_lookup_none(self.vars@, name@);
                    }
                    Err(err_s("undeclared variable '", name, "'", *span))
                },
            },
            Expr::UnaryOp { op, operand, span } => {
                let t = match self.check_expr(operand) {
                    Ok(t) => t,
                    Err(e) => {
                        return Err(e);
                    },
                };
                match op {
                    UnaryOp::Neg => if matches!(t, Type::I64) {
                        Ok(Type::I64)
                    } else {
                        Err(err_t("cannot negate type '", &t, "'", *span))
                    },
                    UnaryOp::Not => if matches!(t, Type::Bool) {
                        Ok(Type::Bool)
                    } else {
                        Err(err_t("cannot apply '!' to type '", &t, "'", *span))
                    },
                }
            },
            Expr::BinaryOp { op, left, right, span } => {
                let lt = match self.check_expr(left) {
                    Ok(t) => t,
                    Err(e) => {
                        return Err(e);
                    },
                };
                let rt = match self.check_expr(right) {
                    Ok(t) => t,
                    Err(e) => {
                        return Err(e);
                    },
                };
                match op {
                    BinOp::Add | BinOp::Sub | BinOp::Mul | BinOp::Div | BinOp::Mod => {
                        if matches!(lt, Type::I64) && matches!(rt, Type::I64) {
                            Ok(Type::I64)
                        } else {
                            let mut m = string_of("cannot apply '");
                            push_str(&mut m, binop_name(*op));
                            push_str(&mut m, "' to '");
                            push_type(&mut m, &lt);
                            push_str(&mut m, "' and '");
                            push_type(&mut m, &rt);
                            push_str(&mut m, "'");
                            Err(CompileError { message: m, span: Some(*span) })
                        }
                    },
                    BinOp::Lt | BinOp::Gt | BinOp::Lte | BinOp::Gte => {
                        if matches!(lt, Type::I64) && matches!(rt, Type::I64) {
                            Ok(Type::Bool)
                        } else {
                            Err(err_tt("cannot compare '", &lt, "' and '", &rt, "'", *span))
                        }
                    },
                    BinOp::Eq | BinOp::Neq => {
                        if lt.same(&rt) {
                            Ok(Type::Bool)
                        } else {
                            Err(err_tt("cannot compare '", &lt, "' and '", &rt, "' for equality", *span))
                        }
                    },
                    BinOp::And | BinOp::Or => {
                        if matches!(lt, Type::Bool) && matches!(rt, Type::Bool) {
                            Ok(Type::Bool)
                        } else {
                            let mut m = string_of("cannot apply '");
                            push_str(&mut m, binop_name(*op));
                            push_str(&mut m, "' to '");
                            push_type(&mut m, &lt);
                            push_str(&mut m, "' and '");
                            push_type(&mut m, &rt);
                            push_str(&mut m, "'");
                            Err(CompileError { message: m, span: Some(*span) })
                        }
                    },
                }
            },
            Expr::Call { name, args, span } => self.check_call(name, args, *span),
            Expr::ArrayLit { elements, span } => {
                if elements.len() == 0 {
                    return Err(err_at("empty array literals are not allowed", *span));
                }
                let first = match self.check_elems(elements, *span) {
                    Ok(t) => t,
                    Err(e) => {
                        return Err(e);
                    },
                };
                Ok(Type::Array(Box::new(first), elements.len()))
            },
            Expr::Index { object, index, span } => {
                let ot = match self.check_expr(object) {
                    Ok(t) => t,
                    Err(e) => {
                        return Err(e);
                    },
                };
                let elem = match ot {
                    Type::Array(elem, _) => elem,
                    _ => {
                        return Err(err_t("cannot index into non-array type '", &ot, "'", *span));
                    },
                };
                let it = match self.check_expr(index) {
                    Ok(t) => t,
                    Err(e) => {
                        return Err(e);
                    },
                };
                if !matches!(it, Type::I64) {
                    return Err(err_t("array index must be 'i64', got '", &it, "'", *span));
                }
                Ok(*elem)
            },
            Expr::EnumVariant { enum_name, variant, span } => {
                let i = match find_last(&self.enums, enum_name) {
                    Some(i) => i,
                    None => {
                        proof {
                            lemma_lookup_none(self.tables().enums, enum_name@);
                        }
                        return Err(err_s("unknown enum '", enum_name, "'", *span));
                    },
                };
                proof {
                    lemma_lookup_at(self.tables().enums, enum_name@, i as int);
                }
                if self.check_privacy && contains_name(&self.private_items, enum_name) {
                    return Err(err_s("enum '", enum_name, "' is private in its module", *span));
                }
                if !contains_name(&self.enums[i].1, variant) {
                    return Err(err_ss("unknown variant '", enum_name, "::", variant, "'", *span));
                }
                Ok(Type::Enum(enum_name.clone()))
            },
            Expr::StructLit { name, fields, span } => self.check_struct_lit(name, fields, *span),
            Expr::FieldAccess { object, field, span } => {
                let ot = match self.check_expr(object) {
                    Ok(t) => t,
                    Err(e) => {
                        return Err(e);
                    },
                };
                let sname = match ot {
                    Type::Struct(sname) => sname,
                    _ => {
                        return Err(err_t("field access on non-struct type '", &ot, "'", *span));
                    },
                };
                let i = match find_last(&self.structs, &sname) {
                    Some(i) => i,
                    None => {
                        proof {
                            lemma_lookup_none(self.tables().structs, sname@);
                        }
                        return Err(err_s("unknown struct '", &sname, "'", *span));
                    },
                };
                proof {
                    lemma_lookup_at(self.tables().structs, sname@, i as int);
                }
                match find_first(&self.structs[i].1, field) {
                    Some(k) => {
                        proof {
                            lemma_lookup_first_at(self.structs@[i as int].1@, field@, k as int);
                        }
                        Ok(self.structs[i].1[k].1.copy())
                    },
                    None => {
                        proof {
                            lemma_lookup_first_none(self.structs@[i as int].1@, field@);
                        }
                        Err(err_ss("struct '", &sname, "' has no field '", field, "'", *span))
                    },
                }
            },
            Expr::Try { expr: inner, span } => {
                if !self.current_can_fail {
                    return Err(
                        err_at("'try' can only be used in failable functions (-> T ! str)", *span),
                    );
                }
                match &**inner {
                    Expr::Call { name, .. } => {
                        match self.call_sig(name) {
                            Some(info) => {
                                if !info.can_fail {
                                    return Err(err_s("'try' used on non-failable function '", name, "'", *span));
                                }
                            },
                            None => {},
                        }
                        self.check_expr(inner)
                    },
                    _ => Err(err_at("'try' must be used with a function call", *span)),
                }
            },
            Expr::Cast { expr: inner, target, span } => {
                let from = match self.check_expr(inner) {
                    Ok(t) => t,
                    Err(e) => {
                        return Err(e);
                    },
                };
                let to = match Type::from_name(target.as_str()) {
                    Some(t) => t,
                    None => {
                        return Err(err_s("unknown cast target type '", target, "'", *span));
                    },
                };
                let valid = (matches!(from, Type::I64) && matches!(to, Type::Str)) || (matches!(from, Type::I64)
                    && matches!(to, Type::Bool)) || (matches!(from, Type::Bool) && matches!(to, Type::I64)) || (
                matches!(from, Type::Str) && matches!(to, Type::I64));
                if !valid {
                    return Err(err_tt("cannot cast '", &from, "' to '", &to, "'", *span));
                }
                Ok(to)
            },
        }
    }

    /// The type of a call.
    fn check_call(&self, name: &String, args: &Vec<Expr>, span: Span) -> (r: Result<Type, CompileError>)
        ensures
            match r {
                Ok(t) => expr_type(self.ctx(), self.vars@, Expr::Call { name: *name, args: *args, span })
                    == Ok::<Type, ()>(t),
                Err(e) => expr_type(self.ctx(), self.vars@, Expr::Call { name: *name, args: *args, span }) is Err
                    && (e.message@, e.span) == expr_fault(
                    self.ctx(),
                    self.vars@,
                    Expr::Call { name: *name, args: *args, span },
                ),
            },
        decreases args, 2nat,
    {
        if str_is(name, "print") {
            if args.len() != 1 {
                let mut m = string_of("print() takes 1 argument, got ");
                push_usize(&mut m, args.len());
                return Err(CompileError { message: m, span: Some(span) });
            }
            return match self.check_expr(&args[0]) {
                Ok(_) => Ok(Type::Void),
                Err(e) => Err(e),
            };
        }
        let info = match self.call_sig(name) {
            Some(info) => info,
            None => {
                return Err(err_s("undeclared function '", name, "'", span));
            },
        };
        if self.check_privacy && contains_name(&self.private_items, name) {
            return Err(err_s("function '", name, "' is private in its module", span));
        }
        if args.len() != info.param_types.len() {
            let mut m = string_of("function '");
            push_string(&mut m, name);
            push_str(&mut m, "' takes ");
            push_usize(&mut m, info.param_types.len());
            push_str(&mut m, " argument(s), got ");
            push_usize(&mut m, args.len());
            return Err(CompileError { message: m, span: Some(span) });
        }
        if str_is(name, "len") {
            // `len` takes an array as well as a string.
            match self.check_expr(&args[0]) {
                Ok(Type::Array(_, _)) => {
                    assert(len_of_array(self.ctx(), self.vars@, name@, args@));
                    assert(fn_sig(self.tables(), name@) == Some(sig(seq![Type::Str], Type::I64, false)));
                    return Ok(Type::I64);
                },
                _ => {},
            }
        }
        assert(!len_of_array(self.ctx(), self.vars@, name@, args@));
        match self.check_args(name, args, &info.param_types, span) {
            Ok(()) => Ok(info.return_type),
            Err(e) => Err(e),
        }
    }

    /// Every argument has the type of its parameter.
    fn check_args(&self, name: &String, args: &Vec<Expr>, params: &Vec<Type>, span: Span) -> (r: Result<
        (),
        CompileError,
    >)
        requires
            args@.len() == params@.len(),
        ensures
            r is Ok <==> args_ok(self.ctx(), self.vars@, args@, params@),
            r matches Err(e) ==> (e.message@, e.span) == args_fault(
                self.ctx(),
                self.vars@,
                args@,
                params@,
                name@,
                span,
                0,
            ),
        decreases args, 1nat,
    {
        proof {
            lemma_args_ok(self.ctx(), self.vars@, args@, params@);
        }
        let mut i: usize = 0;
        while i < args.len()
            invariant
                i <= args@.len() == params@.len(),
                args_ok(self.ctx(), self.vars@, args@, params@) == forall|j: int|
                    0 <= j < args@.len() ==> #[trigger] fits(self.ctx(), self.vars@, args@[j], params@[j]),
                forall|j: int| 0 <= j < i ==> #[trigger] fits(self.ctx(), self.vars@, args@[j], params@[j]),
                args_fault(self.ctx(), self.vars@, args@, params@, name@, span, 0) == args_fault(
                    self.ctx(),
                    self.vars@,
                    args@,
                    params@,
                    name@,
                    span,
                    i as int,
                ),
            decreases args@.len() - i,
        {
            let t = match self.check_expr(&args[i]) {
                Ok(t) => t,
                Err(e) => {
                    assert(!fits(self.ctx(), self.vars@, args@[i as int], params@[i as int]));
                    return Err(e);
                },
            };
            if !t.same(&params[i]) {
                let mut m = string_of("argument ");
                push_usize(&mut m, i + 1);
                push_str(&mut m, " of '");
                push_string(&mut m, name);
                push_str(&mut m, "': expected '");
                push_type(&mut m, &params[i]);
                push_str(&mut m, "', got '");
                push_type(&mut m, &t);
                push_str(&mut m, "'");
                assert(!fits(self.ctx(), self.vars@, args@[i as int], params@[i as int]));
                return Err(CompileError { message: m, span: Some(span) });
            }
            i += 1;
        }
        Ok(())
    }

    /// The type of the first element, when every element has that type.
    fn check_elems(&self, elements: &Vec<Expr>, span: Span) -> (r: Result<Type, CompileError>)
        requires
            elements@.len() > 0,
        ensures
            match r {
                Ok(t) => expr_type(self.ctx(), self.vars@, elements@[0]) == Ok::<Type, ()>(t) && elems_ok(
                    self.ctx(),
                    self.vars@,
                    elements@,
                    t,
                ),
                Err(e) => (match expr_type(self.ctx(), self.vars@, elements@[0]) {
                    Ok(f) => !elems_ok(self.ctx(), self.vars@, elements@, f),
                    Err(_) => true,
                }) && (e.message@, e.span) == expr_fault(
                    self.ctx(),
                    self.vars@,
                    Expr::ArrayLit { elements: *elements, span },
                ),
            },
        decreases elements, 1nat,
    {
        let first = match self.check_expr(&elements[0]) {
            Ok(t) => t,
            Err(e) => {
                return Err(e);
            },
        };
        proof {
            lemma_elems_ok(self.ctx(), self.vars@, elements@, first);
            lemma_same_type_refl(first);
        }
        let mut i: usize = 1;
        while i < elements.len()
            invariant
                1 <= i <= elements@.len(),
                elems_ok(self.ctx(), self.vars@, elements@, first) == forall|j: int|
                    0 <= j < elements@.len() ==> #[trigger] fits(self.ctx(), self.vars@, elements@[j], first),
                expr_type(self.ctx(), self.vars@, elements@[0]) == Ok::<Type, ()>(first),
                same_type(first, first),
                forall|j: int| 0 <= j < i ==> #[trigger] fits(self.ctx(), self.vars@, elements@[j], first),
                elems_fault(self.ctx(), self.vars@, elements@, first, span, 1) == elems_fault(
                    self.ctx(),
                    self.vars@,
                    elements@,
                    first,
                    span,
                    i as int,
                ),
            decreases elements@.len() - i,
        {
            let t = match self.check_expr(&elements[i]) {
                Ok(t) => t,
                Err(e) => {
                    assert(!fits(self.ctx(), self.vars@, elements@[i as int], first));
                    return Err(e);
                },
            };
            if !t.same(&first) {
                let mut m = string_of("array element ");
                push_usize(&mut m, i);
                push_str(&mut m, " has type '");
                push_type(&mut m, &t);
                push_str(&mut m, "', expected '");
                push_type(&mut m, &first);
                push_str(&mut m, "'");
                assert(!fits(self.ctx(), self.vars@, elements@[i as int], first));
                return Err(CompileError { message: m, span: Some(span) });
            }
            i += 1;
        }
        Ok(first)
    }

    /// The type of a struct literal.
    fn check_struct_lit(&self, name: &String, fields: &Vec<(String, Expr)>, span: Span) -> (r: Result<
        Type,
        CompileError,
    >)
        ensures
            match r {
                Ok(t) => expr_type(self.ctx(), self.vars@, Expr::StructLit { name: *name, fields: *fields, span })
                    == Ok::<Type, ()>(t),
                Err(e) => expr_type(
                    self.ctx(),
                    self.vars@,
                    Expr::StructLit { name: *name, fields: *fields, span },
                ) is Err && (e.message@, e.span) == expr_fault(
                    self.ctx(),
                    self.vars@,
                    Expr::StructLit { name: *name, fields: *fields, span },
                ),
            },
        decreases fields, 2nat,
    {
        let i = match find_last(&self.structs, name) {
            Some(i) => i,
            None => {
                proof {
                    lemma_lookup_none(self.tables().structs, name@);
                }
                return Err(err_s("unknown struct '", name, "'", span));
            },
        };
        proof {
            lemma_lookup_at(self.tables().structs, name@, i as int);
        }
        if self.check_privacy && contains_name(&self.private_items, name) {
            return Err(err_s("struct '", name, "' is private in its module", span));
        }
        let declared = &self.structs[i].1;
        match self.check_fields(name, fields, declared, span) {
            Ok(()) => {},
            Err(e) => {
                return Err(e);
            },
        }
        let mut k: usize = 0;
        while k < declared.len()
            invariant
                k <= declared@.len(),
                lookup(self.tables().structs, name@) == Some(declared@),
                !(self.check_privacy && has_name(self.private_items@, name@)),
                fields_ok(self.ctx(), self.vars@, fields@, declared@),
                forall|d: int|
                    0 <= d < k ==> exists|j: int|
                        0 <= j < fields@.len() && #[trigger] fields@[j].0@ == #[trigger] declared@[d].0@,
                missing_fault(name@, declared@, fields@, span, 0) == missing_fault(
                    name@,
                    declared@,
                    fields@,
                    span,
                    k as int,
                ),
            decreases declared@.len() - k,
        {
            match find_first(fields, &declared[k].0) {
                Some(j) => {
                    assert(fields@[j as int].0@ == declared@[k as int].0@);
                    assert(is_given(fields@, declared@[k as int].0@));
                },
                None => {
                    assert(!declared_given(declared@, fields@));
                    assert(!is_given(fields@, declared@[k as int].0@));
                    return Err(err_ss("missing field '", &declared[k].0, "' in struct '", name, "'", span));
                },
            }
            k += 1;
        }
        Ok(Type::Struct(name.clone()))
    }

    /// Every given field exists in the struct and has its declared type.
    fn check_fields(
        &self,
        sname: &String,
        given: &Vec<(String, Expr)>,
        declared: &Vec<(String, Type)>,
        span: Span,
    ) -> (r: Result<(), CompileError>)
        ensures
            r is Ok <==> fields_ok(self.ctx(), self.vars@, given@, declared@),
            r matches Err(e) ==> (e.message@, e.span) == fields_fault(
                self.ctx(),
                self.vars@,
                sname@,
                given@,
                declared@,
                span,
                0,
            ),
        decreases given, 1nat,
    {
        proof {
            lemma_fields_ok(self.ctx(), self.vars@, given@, declared@);
        }
        let mut i: usize = 0;
        while i < given.len()
            invariant
                i <= given@.len(),
                fields_ok(self.ctx(), self.vars@, given@, declared@) == forall|j: int|
                    0 <= j < given@.len() ==> #[trigger] field_fits(self.ctx(), self.vars@, given@[j], declared@),
                forall|j: int| 0 <= j < i ==> #[trigger] field_fits(self.ctx(), self.vars@, given@[j], declared@),
                fields_fault(self.ctx(), self.vars@, sname@, given@, declared@, span, 0) == fields_fault(
                    self.ctx(),
                    self.vars@,
                    sname@,
                    given@,
                    declared@,
                    span,
                    i as int,
                ),
            decreases given@.len() - i,
        {
            let k = match find_first(declared, &given[i].0) {
                Some(k) => k,
                None => {
                    proof {
                        lemma_lookup_first_none(declared@, given@[i as int].0@);
                    }
                    assert(!field_fits(self.ctx(), self.vars@, given@[i as int], declared@));
                    return Err(err_ss("struct '", sname, "' has no field '", &given[i].0, "'", span));
                },
            };
            proof {
                lemma_lookup_first_at(declared@, given@[i as int].0@, k as int);
            }
            let t = match self.check_expr(&given[i].1) {
                Ok(t) => t,
                Err(e) => {
                    assert(!field_fits(self.ctx(), self.vars@, given@[i as int], declared@));
                    return Err(e);
                },
            };
            if !t.same(&declared[k].1) {
                assert(!field_fits(self.ctx(), self.vars@, given@[i as int], declared@));
                return Err(
                    err_stt("field '", &given[i].0, "' expected type '", &declared[k].1, "', got '", &t, "'", span),
                );
            }
            i += 1;
        }
        Ok(())
    }

    /// Check a statement; its declarations stay in scope.
    fn check_stmt(&mut self, stmt: &Stmt) -> (r: Result<(), CompileError>)
        requires
            old(self).loop_depth + stmt_depth(*stmt) < usize::MAX,
        ensures
            final(self).ctx() == old(self).ctx(),
            match r {
                Ok(()) => stmt_check(old(self).ctx(), old(self).vars@, old(self).loop_depth as nat, *stmt)
                    == Ok::<Seq<(String, Type)>, ()>(final(self).vars@) && final(self).loop_depth
                    == old(self).loop_depth,
                Err(e) => stmt_check(old(self).ctx(), old(self).vars@, old(self).loop_depth as nat, *stmt) is Err
                    && (e.message@, e.span) == stmt_fault(
                    old(self).ctx(),
                    old(self).vars@,
                    old(self).loop_depth as nat,
                    *stmt,
                ),
            },
        decreases stmt,
    {
        match stmt {
            Stmt::Let { name, ty_name, value, span, .. } => {
                let vt = match self.check_expr(value) {
                    Ok(t) => t,
                    Err(e) => {
                        return Err(e);
                    },
                };
                match ty_name {
                    Some(tn) => {
                        let dt = match self.resolve_type_or_enum(tn, *span) {
                            Ok(t) => t,
                            Err(e) => {
                                return Err(e);
                            },
                        };
                        if !dt.same(&vt) {
                            return Err(
                                err_tt(
                                    "type mismatch: declared type '",
                                    &dt,
                                    "' but value has type '",
                                    &vt,
                                    "'",
                                    *span,
                                ),
                            );
                        }
                        self.vars.push((name.clone(), dt));
                    },
                    None => {
                        self.vars.push((name.clone(), vt));
                    },
                }
                Ok(())
            },
            Stmt::Assign { name, value, span } => {
                let i = match find_last(&self.vars, name) {
                    Some(i) => i,
                    None => {
                        proof {
                            lemma_lookup_none(self.vars@, name@);
                        }
                        return Err(err_s("undeclared variable '", name, "'", *span));
                    },
                };
                proof {
                    lemma_lookup_at(self.vars@, name@, i as int);
                }
                let vt = match self.check_expr(value) {
                    Ok(t) => t,
                    Err(e) => {
                        return Err(e);
                    },
                };
                if !self.vars[i].1.same(&vt) {
                    return Err(
                        err_stt(
                            "type mismatch in assignment: '",
                            name,
                            "' has type '",
                            &self.vars[i].1,
                            "' but got '",
                            &vt,
                            "'",
                            *span,
                        ),
                    );
                }
                Ok(())
            },
            Stmt::IndexAssign { object, index, value, span } => {
                let i = match find_last(&self.vars, object) {
                    Some(i) => i,
                    None => {
                        proof {
                            lemma_lookup_none(self.vars@, object@);
                        }
                        return Err(err_s("undeclared variable '", object, "'", *span));
                    },
                };
                proof {
                    lemma_lookup_at(self.vars@, object@, i as int);
                }
                let elem = match &self.vars[i].1 {
                    Type::Array(elem, _) => elem.copy(),
                    _ => {
                        return Err(err_t("cannot index into non-array type '", &self.vars[i].1, "'", *span));
                    },
                };
                let it = match self.check_expr(index) {
                    Ok(t) => t,
                    Err(e) => {
                        return Err(e);
                    },
                };
                if !matches!(it, Type::I64) {
                    return Err(err_t("array index must be 'i64', got '", &it, "'", *span));
                }
                let vt = match self.check_expr(value) {
                    Ok(t) => t,
                    Err(e) => {
                        return Err(e);
                    },
                };
                if !vt.same(&elem) {
                    return Err(
                        err_tt(
                            "type mismatch in index assignment: expected '",
                            &elem,
                            "', got '",
                            &vt,
                            "'",
                            *span,
                        ),
                    );
                }
                Ok(())
            },
            Stmt::FieldAssign { object, field, value, span } => {
                let i = match find_last(&self.vars, object) {
                    Some(i) => i,
                    None => {
                        proof {
                            lemma_lookup_none(self.vars@, object@);
                        }
                        return Err(err_s("undeclared variable '", object, "'", *span));
                    },
                };
                proof {
                    lemma_lookup_at(self.vars@, object@, i as int);
                }
                let sname = match &self.vars[i].1 {
                    Type::Struct(sname) => sname.clone(),
                    _ => {
                        return Err(
                            err_t("field assignment on non-struct type '", &self.vars[i].1, "'", *span),
                        );
                    },
                };
                let si = match find_last(&self.structs, &sname) {
                    Some(si) => si,
                    None => {
                        proof {
                            lemma_lookup_none(self.tables().structs, sname@);
                        }
                        return Err(err_s("unknown struct '", &sname, "'", *span));
                    },
                };
                proof {
                    lemma_lookup_at(self.tables().structs, sname@, si as int);
                }
                let k = match find_first(&self.structs[si].1, field) {
                    Some(k) => k,
                    None => {
                        proof {
                            lemma_lookup_first_none(self.structs@[si as int].1@, field@);
                        }
                        return Err(err_ss("struct '", &sname, "' has no field '", field, "'", *span));
                    },
                };
                proof {
                    lemma_lookup_first_at(self.structs@[si as int].1@, field@, k as int);
                }
                let vt = match self.check_expr(value) {
                    Ok(t) => t,
                    Err(e) => {
                        return Err(e);
                    },
                };
                if !vt.same(&self.structs[si].1[k].1) {
                    return Err(
                        err_stt(
                            "field '",
                            field,
                            "' expected type '",
                            &self.structs[si].1[k].1,
                            "', got '",
                            &vt,
                            "'",
                            *span,
                        ),
                    );
                }
                Ok(())
            },
            Stmt::Return { value, span } => {
                let rt = match value {
                    Some(v) => match self.check_expr(v) {
                        Ok(t) => t,
                        Err(e) => {
                            return Err(e);
                        },
                    },
                    None => Type::Void,
                };
                if !rt.same(&self.current_return_type) {
                    return Err(
                        err_tt(
                            "return type mismatch: function returns '",
                            &self.current_return_type,
                            "' but got '",
                            &rt,
                            "'",
                            *span,
                        ),
                    );
                }
                Ok(())
            },
            Stmt::Defer { expr, .. } => match self.check_expr(expr) {
                Ok(_) => Ok(()),
                Err(e) => Err(e),
            },
            Stmt::Fail { message, span } => {
                if !self.current_can_fail {
                    return Err(
                        err_at("'fail' can only be used in failable functions (-> T ! str)", *span),
                    );
                }
                let t = match self.check_expr(message) {
                    Ok(t) => t,
                    Err(e) => {
                        return Err(e);
                    },
                };
                if !matches!(t, Type::Str) {
                    return Err(err_t("'fail' expects a string message, got '", &t, "'", *span));
                }
                Ok(())
            },
            Stmt::Expr { expr, .. } => match self.check_expr(expr) {
                Ok(_) => Ok(()),
                Err(e) => Err(e),
            },
            Stmt::TailExpr { expr, span } => {
                let t = match self.check_expr(expr) {
                    Ok(t) => t,
                    Err(e) => {
                        return Err(e);
                    },
                };
                if !t.same(&self.current_return_type) {
                    return Err(
                        err_tt(
                            "implicit return type mismatch: function returns '",
                            &self.current_return_type,
                            "' but tail expression has type '",
                            &t,
                            "'",
                            *span,
                        ),
                    );
                }
                Ok(())
            },
            Stmt::If { condition, then_block, else_block, span } => {
                let ct = match self.check_expr(condition) {
                    Ok(t) => t,
                    Err(e) => {
                        return Err(e);
                    },
                };
                if !matches!(ct, Type::Bool) {
                    return Err(err_t("if condition must be 'bool', got '", &ct, "'", *span));
                }
                match self.check_block(then_block) {
                    Ok(()) => {},
                    Err(e) => {
                        return Err(e);
                    },
                }
                match else_block {
                    Some(eb) => self.check_block(eb),
                    None => Ok(()),
                }
            },
            Stmt::While { condition, body, span } => {
                let ct = match self.check_expr(condition) {
                    Ok(t) => t,
                    Err(e) => {
                        return Err(e);
                    },
                };
                if !matches!(ct, Type::Bool) {
                    return Err(err_t("while condition must be 'bool', got '", &ct, "'", *span));
                }
                self.loop_depth = self.loop_depth + 1;
                match self.check_block(body) {
                    Ok(()) => {},
                    Err(e) => {
                        return Err(e);
                    },
                }
                self.loop_depth = self.loop_depth - 1;
                Ok(())
            },
            Stmt::For { var, start, end, body, span } => {
                let st = match self.check_expr(start) {
                    Ok(t) => t,
                    Err(e) => {
                        return Err(e);
                    },
                };
                let et = match self.check_expr(end) {
                    Ok(t) => t,
                    Err(e) => {
                        return Err(e);
                    },
                };
                if !matches!(st, Type::I64) {
                    return Err(err_t("for range start must be 'i64', got '", &st, "'", *span));
                }
                if !matches!(et, Type::I64) {
                    return Err(err_t("for range end must be 'i64', got '", &et, "'", *span));
                }
                let mark = self.vars.len();
                self.vars.push((var.clone(), Type::I64));
                self.loop_depth = self.loop_depth + 1;
                match self.check_stmts(&body.stmts) {
                    Ok(()) => {},
                    Err(e) => {
                        return Err(e);
                    },
                }
                self.loop_depth = self.loop_depth - 1;
                self.vars.truncate(mark);
                Ok(())
            },
            Stmt::Break { span } => {
                if self.loop_depth == 0 {
                    return Err(err_at("break outside of loop", *span));
                }
                Ok(())
            },
            Stmt::Continue { span } => {
                if self.loop_depth == 0 {
                    return Err(err_at("continue outside of loop", *span));
                }
                Ok(())
            },
            Stmt::Match { subject, arms, span } => {
                let st = match self.check_expr(subject) {
                    Ok(t) => t,
                    Err(e) => {
                        return Err(e);
                    },
                };
                self.check_arms(&st, arms, *span)
            },
        }
    }

    /// Check the arms of a match on a subject of type `st`.
    fn check_arms(&mut self, st: &Type, arms: &Vec<MatchArm>, span: Span) -> (r: Result<(), CompileError>)
        requires
            old(self).loop_depth + arms_depth(arms@) < usize::MAX,
        ensures
            final(self).ctx() == old(self).ctx(),
            match r {
                Ok(()) => arms_check(old(self).ctx(), old(self).vars@, old(self).loop_depth as nat, *st, arms@)
                    == Ok::<Seq<(String, Type)>, ()>(final(self).vars@) && final(self).loop_depth
                    == old(self).loop_depth,
                Err(e) => arms_check(
                    old(self).ctx(),
                    old(self).vars@,
                    old(self).loop_depth as nat,
                    *st,
                    arms@,
                ) is Err && (e.message@, e.span) == arms_fault(
                    old(self).ctx(),
                    old(self).vars@,
                    old(self).loop_depth as nat,
                    *st,
                    arms@,
                    span,
                ),
            },
        decreases arms,
    {
        let ghost c0 = self.ctx();
        let ghost v0 = self.vars@;
        let ghost d0 = self.loop_depth as nat;
        let mut i: usize = 0;
        assert(arms@.take(0) =~= Seq::<MatchArm>::empty());
        while i < arms.len()
            invariant
                i <= arms@.len(),
                self.ctx() == c0,
                self.loop_depth as nat == d0,
                c0 == old(self).ctx(),
                v0 == old(self).vars@,
                d0 == old(self).loop_depth as nat,
                self.loop_depth + arms_depth(arms@) < usize::MAX,
                arms_check(c0, v0, d0, *st, arms@.take(i as int)) == Ok::<Seq<(String, Type)>, ()>(self.vars@),
            decreases arms@.len() - i,
        {
            let arm = &arms[i];
            assert(arms@.take(i + 1).drop_last() =~= arms@.take(i as int));
            let ok = match &arm.pattern {
                Pattern::IntLit(..) => {
                    if !matches!(st, Type::I64) {
                        Err(err_t("integer pattern in match on '", st, "'", span))
                    } else {
                        Ok(())
                    }
                },
                Pattern::BoolLit(..) => {
                    if !matches!(st, Type::Bool) {
                        Err(err_t("boolean pattern in match on '", st, "'", span))
                    } else {
                        Ok(())
                    }
                },
                Pattern::Wildcard(..) => Ok(()),
                Pattern::EnumVariant(en, v, pspan) => {
                    match find_last(&self.enums, en) {
                        None => {
                            proof {
                                lemma_lookup_none(self.tables().enums, en@);
                            }
                            Err(err_s("unknown enum '", en, "'", *pspan))
                        },
                        Some(ei) => {
                            proof {
                                lemma_lookup_at(self.tables().enums, en@, ei as int);
                            }
                            if !contains_name(&self.enums[ei].1, v) {
                                Err(err_ss("unknown variant '", en, "::", v, "' ", *pspan))
                            } else if !st.same(&Type::Enum(en.clone())) {
                                let mut m = string_of("enum pattern '");
                                push_string(&mut m, en);
                                push_str(&mut m, "::");
                                push_string(&mut m, v);
                                push_str(&mut m, "' in match on '");
                                push_type(&mut m, st);
                                push_str(&mut m, "'");
                                Err(CompileError { message: m, span: Some(*pspan) })
                            } else {
                                Ok(())
                            }
                        },
                    }
                },
            };
            match ok {
                Ok(()) => {},
                Err(e) => {
                    proof {
                        lemma_arms_prefix(c0, v0, d0, *st, arms@, i + 1, span);
                    }
                    return Err(e);
                },
            }
            proof {
                lemma_arms_depth(arms@, i as int);
            }
            match self.check_block(&arm.body) {
                Ok(()) => {},
                Err(e) => {
                    proof {
                        lemma_arms_prefix(c0, v0, d0, *st, arms@, i + 1, span);
                    }
                    return Err(e);
                },
            }
            i += 1;
        }
        assert(arms@.take(i as int) =~= arms@);
        Ok(())
    }

    /// Check statements in order.
    fn check_stmts(&mut self, stmts: &Vec<Stmt>) -> (r: Result<(), CompileError>)
        requires
            old(self).loop_depth + stmts_depth(stmts@) < usize::MAX,
        ensures
            final(self).ctx() == old(self).ctx(),
            match r {
                Ok(()) => stmts_check(old(self).ctx(), old(self).vars@, old(self).loop_depth as nat, stmts@)
                    == Ok::<Seq<(String, Type)>, ()>(final(self).vars@) && final(self).loop_depth
                    == old(self).loop_depth,
                Err(e) => stmts_check(old(self).ctx(), old(self).vars@, old(self).loop_depth as nat, stmts@) is Err
                    && (e.message@, e.span) == stmts_fault(
                    old(self).ctx(),
                    old(self).vars@,
                    old(self).loop_depth as nat,
                    stmts@,
                ),
            },
        decreases stmts,
    {
        let ghost c0 = self.ctx();
        let ghost v0 = self.vars@;
        let ghost d0 = self.loop_depth as nat;
        let mut i: usize = 0;
        assert(stmts@.take(0) =~= Seq::<Stmt>::empty());
        while i < stmts.len()
            invariant
                i <= stmts@.len(),
                self.ctx() == c0,
                self.loop_depth as nat == d0,
                c0 == old(self).ctx(),
                v0 == old(self).vars@,
                d0 == old(self).loop_depth as nat,
                self.loop_depth + stmts_depth(stmts@) < usize::MAX,
                stmts_check(c0, v0, d0, stmts@.take(i as int)) == Ok::<Seq<(String, Type)>, ()>(self.vars@),
            decreases stmts@.len() - i,
        {
            assert(stmts@.take(i + 1).drop_last() =~= stmts@.take(i as int));
            proof {
                lemma_stmts_depth(stmts@, i as int);
            }
            match self.check_stmt(&stmts[i]) {
                Ok(()) => {},
                Err(e) => {
                    proof {
                        lemma_stmts_prefix(c0, v0, d0, stmts@, i + 1);
                    }
                    return Err(e);
                },
            }
            i += 1;
        }
        assert(stmts@.take(i as int) =~= stmts@);
        Ok(())
    }

    /// Check a block; its declarations go out of scope at its end.
    fn check_block(&mut self, block: &Block) -> (r: Result<(), CompileError>)
        requires
            old(self).loop_depth + block_depth(*block) < usize::MAX,
        ensures
            final(self).ctx() == old(self).ctx(),
            match r {
                Ok(()) => block_check(old(self).ctx(), old(self).vars@, old(self).loop_depth as nat, *block)
                    == Ok::<Seq<(String, Type)>, ()>(final(self).vars@) && final(self).loop_depth
                    == old(self).loop_depth,
                Err(e) => block_check(old(self).ctx(), old(self).vars@, old(self).loop_depth as nat, *block) is Err
                    && (e.message@, e.span) == block_fault(
                    old(self).ctx(),
                    old(self).vars@,
                    old(self).loop_depth as nat,
                    *block,
                ),
            },
        decreases block,
    {
        let mark = self.vars.len();
        match self.check_stmts(&block.stmts) {
            Ok(()) => {
                self.vars.truncate(mark);
                Ok(())
            },
            Err(e) => Err(e),
        }
    }

    /// The value of a comptime expression.
    fn eval_comptime(&self, expr: &Expr, span: Span) -> (r: Result<i64, CompileError>)
        ensures
            match r {
                Ok(v) => comptime_value(self.comptimes@, *expr) == Ok::<i64, ()>(v),
                Err(e) => comptime_value(self.comptimes@, *expr) is Err && (e.message@, e.span) == comptime_fault(
                    self.comptimes@,
                    *expr,
                    span,
                ),
            },
        decreases expr,
    {
        match expr {
            Expr::IntLit { value, .. } => Ok(*value),
            Expr::BoolLit { value, .. } => Ok(if *value { 1 } else { 0 }),
            Expr::Ident { name, .. } => match find_last(&self.comptimes, name) {
                Some(i) => {
                    proof {
                        lemma_lookup_at(self.comptimes@, name@, i as int);
                    }
                    Ok(self.comptimes[i].1)
                },
                None => {
                    proof {
                        lemma_lookup_none(self.comptimes@, name@);
                    }
                    Err(err_s("'", name, "' is not a comptime constant", span))
                },
            },
            Expr::UnaryOp { op, operand, .. } => {
                let v = match self.eval_comptime(operand, span) {
                    Ok(v) => v,
                    Err(e) => {
                        return Err(e);
                    },
                };
                match op {
                    UnaryOp::Neg => Ok(0i64.wrapping_sub(v)),
                    UnaryOp::Not => Ok(if v == 0 { 1 } else { 0 }),
                }
            },
            Expr::BinaryOp { op, left, right, .. } => {
                let l = match self.eval_comptime(left, span) {
                    Ok(v) => v,
                    Err(e) => {
                        return Err(e);
                    },
                };
                let r = match self.eval_comptime(right, span) {
                    Ok(v) => v,
                    Err(e) => {
                        return Err(e);
                    },
                };
                match op {
                    BinOp::Add => Ok(l.wrapping_add(r)),
                    BinOp::Sub => Ok(l.wrapping_sub(r)),
                    BinOp::Mul => Ok(l.wrapping_mul(r)),
                    BinOp::Div => if r == 0 {
                        Err(err_at("division by zero in comptime", span))
                    } else {
                        Ok(div_toward_zero(l, r))
                    },
                    BinOp::Mod => if r == 0 {
                        Err(err_at("modulo by zero in comptime", span))
                    } else {
                        Ok(rem_toward_zero(l, r))
                    },
                    BinOp::Eq => Ok(if l == r { 1 } else { 0 }),
                    BinOp::Neq => Ok(if l != r { 1 } else { 0 }),
                    BinOp::Lt => Ok(if l < r { 1 } else { 0 }),
                    BinOp::Gt => Ok(if l > r { 1 } else { 0 }),
                    BinOp::Lte => Ok(if l <= r { 1 } else { 0 }),
                    BinOp::Gte => Ok(if l >= r { 1 } else { 0 }),
                    BinOp::And => Ok(if l != 0 && r != 0 { 1 } else { 0 }),
                    BinOp::Or => Ok(if l != 0 || r != 0 { 1 } else { 0 }),
                }
            },
            _ => Err(
                err_at("comptime expressions must be constant (literals, arithmetic, other comptime values)", span),
            ),
        }
    }

    /// The types of a parameter list.
    fn resolve_params(&self, params: &Vec<Param>) -> (r: Result<Vec<Type>, CompileError>)
        ensures
            match r {
                Ok(v) => params_types(self.tables(), params@) == Ok::<Seq<Type>, ()>(v@),
                Err(e) => params_types(self.tables(), params@) is Err && (e.message@, e.span) == params_fault(
                    self.tables(),
                    params@,
                ),
            },
    {
        let mut tys: Vec<Type> = Vec::new();
        let mut i: usize = 0;
        assert(params@.take(0) =~= Seq::<Param>::empty());
        while i < params.len()
            invariant
                i <= params@.len(),
                params_types(self.tables(), params@.take(i as int)) == Ok::<Seq<Type>, ()>(tys@),
            decreases params@.len() - i,
        {
            assert(params@.take(i + 1).drop_last() =~= params@.take(i as int));
            let ty = match self.resolve_type_or_enum(&params[i].ty_name, params[i].span) {
                Ok(t) => t,
                Err(e) => {
                    proof {
                        lemma_params_prefix(self.tables(), params@, i + 1);
                    }
                    return Err(e);
                },
            };
            tys.push(ty);
            i += 1;
        }
        assert(params@.take(i as int) =~= params@);
        Ok(tys)
    }

    /// The declared return type of a function.
    fn resolve_return(&self, func: &Function) -> (r: Result<Type, CompileError>)
        ensures
            match r {
                Ok(t) => ret_type(self.tables(), *func) == Ok::<Type, ()>(t),
                Err(e) => ret_type(self.tables(), *func) is Err && (e.message@, e.span) == ret_fault(
                    self.tables(),
                    *func,
                ),
            },
    {
        match &func.return_type {
            Some(name) => self.resolve_type_or_enum(name, func.span),
            None => Ok(Type::Void),
        }
    }

    /// Check a function body in a scope holding its parameters.
    fn check_function(&mut self, func: &Function) -> (r: Result<(), CompileError>)
        requires
            old(self).check_privacy == !has_name(old(self).tables().imported, func.name@),
            old(self).loop_depth + block_depth(func.body) < usize::MAX,
        ensures
            final(self).tables() == old(self).tables(),
            r is Ok <==> func_ok(old(self).tables(), old(self).vars@, old(self).loop_depth as nat, *func),
            r is Ok ==> final(self).vars@ == old(self).vars@ && final(self).loop_depth == old(self).loop_depth,
            r matches Err(e) ==> (e.message@, e.span) == func_fault(
                old(self).tables(),
                old(self).vars@,
                old(self).loop_depth as nat,
                *func,
            ),
    {
        let ghost t = self.tables();
        let rt = match self.resolve_return(func) {
            Ok(t) => t,
            Err(e) => {
                return Err(e);
            },
        };
        let tys = match self.resolve_params(&func.params) {
            Ok(v) => v,
            Err(e) => {
                return Err(e);
            },
        };
        proof {
            lemma_params_len(t, func.params@);
        }
        self.current_return_type = rt;
        self.current_can_fail = func.can_fail;
        assert(self.ctx() == fn_ctx(t, *func, rt));
        let mark = self.vars.len();
        let mut i: usize = 0;
        assert(self.vars@ =~= old(self).vars@ + param_vars(func.params@.take(0), tys@.take(0)));
        while i < func.params.len()
            invariant
                i <= func.params@.len() == tys@.len(),
                mark == old(self).vars@.len(),
                self.ctx() == fn_ctx(t, *func, rt),
                self.tables() == t,
                self.loop_depth == old(self).loop_depth,
                self.vars@ == old(self).vars@ + param_vars(func.params@.take(i as int), tys@.take(i as int)),
            decreases func.params@.len() - i,
        {
            self.vars.push((func.params[i].name.clone(), tys[i].copy()));
            assert(self.vars@ =~= old(self).vars@ + param_vars(
                func.params@.take(i + 1),
                tys@.take(i + 1),
            ));
            i += 1;
        }
        assert(func.params@.take(i as int) =~= func.params@);
        assert(tys@.take(i as int) =~= tys@);
        let ghost inner = self.vars@;
        let r = self.check_block(&func.body);
        proof {
            lemma_block_scope(self.ctx(), inner, self.loop_depth as nat, func.body);
        }
        match r {
            Ok(()) => {
                self.vars.truncate(mark);
                assert(inner.subrange(0, mark as int) =~= old(self).vars@);
                assert(self.vars@ =~= old(self).vars@);
                Ok(())
            },
            Err(e) => Err(e),
        }
    }

    /// Register enum definitions.
    fn register_enums(&mut self, enums: &Vec<EnumDef>)
        ensures
            final(self).tables() == with_enums(old(self).tables(), enums@),
            final(self).vars@ == old(self).vars@,
            final(self).loop_depth == old(self).loop_depth,
    {
        let ghost t0 = self.tables();
        let mut i: usize = 0;
        assert(enums@.take(0).map_values(|e: EnumDef| (e.name, e.variants@)) =~= Seq::<
            (String, Seq<String>),
        >::empty());
        assert(self.tables() =~= with_enums(t0, enums@.take(0)));
        while i < enums.len()
            invariant
                i <= enums@.len(),
                t0 == old(self).tables(),
                self.tables() == with_enums(t0, enums@.take(i as int)),
                self.vars@ == old(self).vars@,
                self.loop_depth == old(self).loop_depth,
            decreases enums@.len() - i,
        {
            let ed = &enums[i];
            let ghost before = self.tables().enums;
            self.enums.push((ed.name.clone(), clone_names(&ed.variants)));
            assert(self.tables().enums =~= before.push((ed.name, ed.variants@)));
            assert(enums@.take(i + 1).map_values(|e: EnumDef| (e.name, e.variants@)) =~= enums@.take(
                i as int,
            ).map_values(|e: EnumDef| (e.name, e.variants@)).push((ed.name, ed.variants@)));
            assert(self.tables().enums =~= with_enums(t0, enums@.take(i + 1)).enums);
            i += 1;
        }
        assert(enums@.take(i as int) =~= enums@);
    }

    /// The fields of a struct with their resolved types.
    fn resolve_fields(&self, fields: &Vec<StructField>) -> (r: Result<Vec<(String, Type)>, CompileError>)
        ensures
            match r {
                Ok(v) => fields_types(self.tables(), fields@) == Ok::<Seq<(String, Type)>, ()>(v@),
                Err(e) => fields_types(self.tables(), fields@) is Err && (e.message@, e.span) == fields_types_fault(
                    self.tables(),
                    fields@,
                ),
            },
    {
        let mut out: Vec<(String, Type)> = Vec::new();
        let mut j: usize = 0;
        assert(fields@.take(0) =~= Seq::<StructField>::empty());
        while j < fields.len()
            invariant
                j <= fields@.len(),
                fields_types(self.tables(), fields@.take(j as int)) == Ok::<Seq<(String, Type)>, ()>(out@),
            decreases fields@.len() - j,
        {
            assert(fields@.take(j + 1).drop_last() =~= fields@.take(j as int));
            let ty = match self.resolve_type_or_enum(&fields[j].ty_name, fields[j].span) {
                Ok(t) => t,
                Err(e) => {
                    proof {
                        lemma_fields_types_prefix(self.tables(), fields@, j + 1);
                    }
                    return Err(e);
                },
            };
            out.push((fields[j].name.clone(), ty));
            j += 1;
        }
        assert(fields@.take(j as int) =~= fields@);
        Ok(out)
    }

    /// Register struct definitions in order.
    fn register_structs(&mut self, structs: &Vec<StructDef>) -> (r: Result<(), CompileError>)
        ensures
            match r {
                Ok(()) => with_structs(old(self).tables(), structs@) == Ok::<Tables, ()>(final(self).tables()),
                Err(e) => with_structs(old(self).tables(), structs@) is Err && (e.message@, e.span)
                    == with_structs_fault(old(self).tables(), structs@),
            },
            final(self).vars@ == old(self).vars@,
            final(self).loop_depth == old(self).loop_depth,
    {
        let ghost t0 = self.tables();
        let mut i: usize = 0;
        assert(structs@.take(0) =~= Seq::<StructDef>::empty());
        while i < structs.len()
            invariant
                i <= structs@.len(),
                t0 == old(self).tables(),
                with_structs(t0, structs@.take(i as int)) == Ok::<Tables, ()>(self.tables()),
                self.vars@ == old(self).vars@,
                self.loop_depth == old(self).loop_depth,
            decreases structs@.len() - i,
        {
            let sd = &structs[i];
            assert(structs@.take(i + 1).drop_last() =~= structs@.take(i as int));
            let fields = match self.resolve_fields(&sd.fields) {
                Ok(v) => v,
                Err(e) => {
                    proof {
                        lemma_with_structs_prefix(t0, structs@, i + 1);
                    }
                    return Err(e);
                },
            };
            let ghost before = self.tables().structs;
            self.structs.push((sd.name.clone(), fields));
            assert(self.tables().structs =~= before.push((sd.name, fields@)));
            i += 1;
        }
        assert(structs@.take(i as int) =~= structs@);
        Ok(())
    }

    /// Evaluate comptime constants in order; each also becomes a variable.
    fn eval_comptimes(&mut self, cts: &Vec<ComptimeDef>) -> (r: Result<(), CompileError>)
        ensures
            match r {
                Ok(()) => with_comptimes(old(self).tables(), old(self).vars@, cts@) == Ok::<
                    (Tables, Seq<(String, Type)>),
                    (),
                >((final(self).tables(), final(self).vars@)),
                Err(e) => with_comptimes(old(self).tables(), old(self).vars@, cts@) is Err && (e.message@, e.span)
                    == with_comptimes_fault(old(self).tables(), old(self).vars@, cts@),
            },
            final(self).loop_depth == old(self).loop_depth,
    {
        let ghost t0 = self.tables();
        let ghost v0 = self.vars@;
        let mut i: usize = 0;
        assert(cts@.take(0) =~= Seq::<ComptimeDef>::empty());
        while i < cts.len()
            invariant
                i <= cts@.len(),
                t0 == old(self).tables(),
                v0 == old(self).vars@,
                with_comptimes(t0, v0, cts@.take(i as int)) == Ok::<(Tables, Seq<(String, Type)>), ()>(
                    (self.tables(), self.vars@),
                ),
                self.loop_depth == old(self).loop_depth,
            decreases cts@.len() - i,
        {
            let ct = &cts[i];
            assert(cts@.take(i + 1).drop_last() =~= cts@.take(i as int));
            let val = match self.eval_comptime(&ct.value, ct.span) {
                Ok(v) => v,
                Err(e) => {
                    proof {
                        lemma_with_comptimes_prefix(t0, v0, cts@, i + 1);
                    }
                    return Err(e);
                },
            };
            let ty = match &ct.value {
                Expr::BoolLit { .. } => Type::Bool,
                _ => Type::I64,
            };
            self.comptimes.push((ct.name.clone(), val));
            self.vars.push((ct.name.clone(), ty));
            i += 1;
        }
        assert(cts@.take(i as int) =~= cts@);
        Ok(())
    }

    /// Register function signatures in order.
    fn register_functions(&mut self, fs: &Vec<Function>) -> (r: Result<(), CompileError>)
        ensures
            match r {
                Ok(()) => with_fns(old(self).tables(), fs@) == Ok::<Tables, ()>(final(self).tables()),
                Err(e) => with_fns(old(self).tables(), fs@) is Err && (e.message@, e.span) == with_fns_fault(
                    old(self).tables(),
                    fs@,
                ),
            },
            final(self).vars@ == old(self).vars@,
            final(self).loop_depth == old(self).loop_depth,
    {
        let ghost t0 = self.tables();
        let mut i: usize = 0;
        assert(fs@.take(0) =~= Seq::<Function>::empty());
        while i < fs.len()
            invariant
                i <= fs@.len(),
                t0 == old(self).tables(),
                with_fns(t0, fs@.take(i as int)) == Ok::<Tables, ()>(self.tables()),
                self.vars@ == old(self).vars@,
                self.loop_depth == old(self).loop_depth,
            decreases fs@.len() - i,
        {
            let f = &fs[i];
            assert(fs@.take(i + 1).drop_last() =~= fs@.take(i as int));
            let tys = match self.resolve_params(&f.params) {
                Ok(v) => v,
                Err(e) => {
                    proof {
                        lemma_with_fns_prefix(t0, fs@, i + 1);
                    }
                    return Err(e);
                },
            };
            let rt = match self.resolve_return(f) {
                Ok(t) => t,
                Err(e) => {
                    proof {
                        lemma_with_fns_prefix(t0, fs@, i + 1);
                    }
                    return Err(e);
                },
            };
            let info = FuncInfo { param_types: tys, return_type: rt, can_fail: f.can_fail };
            let ghost before = self.tables().fns;
            self.functions.push((f.name.clone(), info));
            assert(self.tables().fns =~= before.push((f.name, sig(tys@, rt, f.can_fail))));
            i += 1;
        }
        assert(fs@.take(i as int) =~= fs@);
        Ok(())
    }

    /// Check every function body, each from the same global scope.
    fn check_bodies(&mut self, fs: &Vec<Function>) -> (r: Result<(), CompileError>)
        requires
            old(self).loop_depth + functions_depth(fs@) < usize::MAX,
        ensures
            r is Ok <==> funcs_ok(old(self).tables(), old(self).vars@, old(self).loop_depth as nat, fs@),
            r matches Err(e) ==> (e.message@, e.span) == funcs_fault(
                old(self).tables(),
                old(self).vars@,
                old(self).loop_depth as nat,
                fs@,
            ),
            final(self).tables() == old(self).tables(),
            r is Ok ==> final(self).vars@ == old(self).vars@ && final(self).loop_depth == old(self).loop_depth,
    {
        let ghost t0 = self.tables();
        let ghost v0 = self.vars@;
        let ghost d0 = self.loop_depth as nat;
        let mut i: usize = 0;
        assert(fs@.take(0) =~= Seq::<Function>::empty());
        while i < fs.len()
            invariant
                i <= fs@.len(),
                t0 == old(self).tables(),
                v0 == old(self).vars@,
                d0 == old(self).loop_depth as nat,
                self.tables() == t0,
                self.vars@ == v0,
                self.loop_depth as nat == d0,
                d0 + functions_depth(fs@) < usize::MAX,
                funcs_ok(t0, v0, d0, fs@.take(i as int)),
            decreases fs@.len() - i,
        {
            let f = &fs[i];
            assert(fs@.take(i + 1).drop_last() =~= fs@.take(i as int));
            proof {
                lemma_functions_depth(fs@, i as int);
            }
            self.check_privacy = !contains_name(&self.imported_items, &f.name);
            match self.check_function(f) {
                Ok(()) => {},
                Err(e) => {
                    proof {
                        lemma_funcs_ok_prefix(t0, v0, d0, fs@, i + 1);
                    }
                    return Err(e);
                },
            }
            i += 1;
        }
        assert(fs@.take(i as int) =~= fs@);
        self.check_privacy = false;
        Ok(())
    }

    /// Check an entire program: register its enums, structs, comptime
    /// constants and function signatures, then check every function body.
    pub fn check_program(&mut self, program: &Program) -> (r: Result<(), CompileError>)
        requires
            old(self).depth() + functions_depth(program.functions@) < usize::MAX,
        ensures
            r is Ok <==> program_ok(old(self).tables(), old(self).scope(), old(self).depth(), *program),
            r matches Err(e) ==> (e.message@, e.span) == program_fault(
                old(self).tables(),
                old(self).scope(),
                old(self).depth(),
                *program,
            ),
            r is Ok ==> declared_env(old(self).tables(), old(self).scope(), *program) == Ok::<
                (Tables, Seq<(String, Type)>),
                (),
            >((final(self).tables(), final(self).scope())) && final(self).depth() == old(self).depth(),
    {
        self.register_enums(&program.enums);
        match self.register_structs(&program.structs) {
            Ok(()) => {},
            Err(e) => {
                return Err(e);
            },
        }
        match self.eval_comptimes(&program.comptimes) {
            Ok(()) => {},
            Err(e) => {
                return Err(e);
            },
        }
        match self.register_functions(&program.functions) {
            Ok(()) => {},
            Err(e) => {
                return Err(e);
            },
        }
        self.check_bodies(&program.functions)
    }
}

} // verus!
