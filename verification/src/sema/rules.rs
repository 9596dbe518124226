//! The typing rules of Ferro, as mathematical functions over the AST.
//!
//! A program is well typed when every variable is declared before use, every
//! called function exists and gets the right number and types of arguments,
//! operand types match, conditions are booleans, and returned values match the
//! function's signature. The checker in `checker.rs` decides exactly these rules.

use vstd::prelude::*;
use crate::ast::{
    BinOp, Block, ComptimeDef, EnumDef, Expr, Function, MatchArm, Param, Pattern, Program, Stmt, StructDef,
    StructField, UnaryOp,
};
use crate::lexer::digits_value;
use crate::text::{char_is_whitespace, is_digit};
use crate::sema::types::{same_type, type_named, Type};

verus! {

// ── The typing environment, as mathematical values ───────

/// A function's signature.
pub struct FnSig {
    pub params: Seq<Type>,
    pub ret: Type,
    pub can_fail: bool,
}

/// The program-wide tables the checker builds.
pub struct Tables {
    /// User functions by name (later entries shadow earlier ones).
    pub fns: Seq<(String, FnSig)>,
    /// Enums by name, with their variants.
    pub enums: Seq<(String, Seq<String>)>,
    /// Structs by name, with their fields in order.
    pub structs: Seq<(String, Seq<(String, Type)>)>,
    /// Comptime constants by name, with their values.
    pub comptimes: Seq<(String, i64)>,
    /// Names that are private in imported modules.
    pub privates: Seq<String>,
    /// Names that come from imported modules.
    pub imported: Seq<String>,
}

/// What checking a function body depends on.
pub struct Ctx {
    pub tables: Tables,
    /// Whether privacy of imported items is enforced (main-module code).
    pub privacy: bool,
    /// The declared return type of the current function.
    pub ret: Type,
    /// Whether the current function is failable.
    pub can_fail: bool,
}

/// The value for the latest entry named `k`.
pub open spec fn lookup<V>(t: Seq<(String, V)>, k: Seq<char>) -> Option<V>
    decreases t.len(),
{
    if t.len() == 0 {
        None
    } else if t.last().0@ == k {
        Some(t.last().1)
    } else {
        lookup(t.drop_last(), k)
    }
}

/// The value for the first entry named `k`.
pub open spec fn lookup_first<V>(t: Seq<(String, V)>, k: Seq<char>) -> Option<V>
    decreases t.len(),
{
    if t.len() == 0 {
        None
    } else if t[0].0@ == k {
        Some(t[0].1)
    } else {
        lookup_first(t.drop_first(), k)
    }
}

/// Whether a list of names holds `k`.
pub open spec fn has_name(s: Seq<String>, k: Seq<char>) -> bool {
    exists|i: int| 0 <= i < s.len() && #[trigger] s[i]@ == k
}

pub open spec fn sig(params: Seq<Type>, ret: Type, can_fail: bool) -> FnSig {
    FnSig { params, ret, can_fail }
}

/// The signatures of the built-in functions (`len` also takes an array,
/// see `len_of_array`).
pub open spec fn builtin_sig(k: Seq<char>) -> Option<FnSig> {
    if k == "print"@ {
        Some(sig(seq![Type::I64], Type::Void, false))
    } else if k == "len"@ {
        Some(sig(seq![Type::Str], Type::I64, false))
    } else if k == "abs"@ {
        Some(sig(seq![Type::I64], Type::I64, false))
    } else if k == "min"@ {
        Some(sig(seq![Type::I64, Type::I64], Type::I64, false))
    } else if k == "max"@ {
        Some(sig(seq![Type::I64, Type::I64], Type::I64, false))
    } else if k == "pow"@ {
        Some(sig(seq![Type::I64, Type::I64], Type::I64, false))
    } else if k == "rand"@ {
        Some(sig(seq![], Type::I64, false))
    } else if k == "to_str"@ {
        Some(sig(seq![Type::I64], Type::Str, false))
    } else if k == "parse_int"@ {
        Some(sig(seq![Type::Str], Type::I64, true))
    } else if k == "char_at"@ {
        Some(sig(seq![Type::Str, Type::I64], Type::I64, false))
    } else if k == "contains"@ {
        Some(sig(seq![Type::Str, Type::Str], Type::Bool, false))
    } else if k == "starts_with"@ {
        Some(sig(seq![Type::Str, Type::Str], Type::Bool, false))
    } else if k == "substr"@ {
        Some(sig(seq![Type::Str, Type::I64, Type::I64], Type::Str, false))
    } else if k == "trim"@ {
        Some(sig(seq![Type::Str], Type::Str, false))
    } else if k == "read_line"@ {
        Some(sig(seq![], Type::Str, false))
    } else if k == "read_file"@ {
        Some(sig(seq![Type::Str], Type::Str, true))
    } else if k == "write_file"@ {
        Some(sig(seq![Type::Str, Type::Str], Type::Void, true))
    } else if k == "file_exists"@ {
        Some(sig(seq![Type::Str], Type::Bool, false))
    } else if k == "eprint"@ {
        Some(sig(seq![Type::Str], Type::Void, false))
    } else if k == "exit"@ {
        Some(sig(seq![Type::I64], Type::Void, false))
    } else if k == "time"@ {
        Some(sig(seq![], Type::I64, false))
    } else if k == "sleep"@ {
        Some(sig(seq![Type::I64], Type::Void, false))
    } else if k == "alloc"@ {
        Some(sig(seq![Type::I64], Type::I64, false))
    } else if k == "free"@ {
        Some(sig(seq![Type::I64], Type::Void, false))
    } else {
        None
    }
}

/// The signature of a function name: built-ins shadow user functions.
pub open spec fn fn_sig(t: Tables, k: Seq<char>) -> Option<FnSig> {
    match builtin_sig(k) {
        Some(s) => Some(s),
        None => lookup(t.fns, k),
    }
}

/// Whether using the item `k` breaks privacy.
pub open spec fn private_use(c: Ctx, k: Seq<char>) -> bool {
    c.privacy && has_name(c.tables.privates, k)
}

// ── Typing of expressions ────────────────────────────────

/// The type a binary operator gives to operands of types `l` and `r`.
pub open spec fn binop_type(op: BinOp, l: Type, r: Type) -> Result<Type, ()> {
    match op {
        BinOp::Add | BinOp::Sub | BinOp::Mul | BinOp::Div | BinOp::Mod => {
            if l is I64 && r is I64 { Ok(Type::I64) } else { Err(()) }
        },
        BinOp::Lt | BinOp::Gt | BinOp::Lte | BinOp::Gte => {
            if l is I64 && r is I64 { Ok(Type::Bool) } else { Err(()) }
        },
        BinOp::Eq | BinOp::Neq => {
            if same_type(l, r) { Ok(Type::Bool) } else { Err(()) }
        },
        BinOp::And | BinOp::Or => {
            if l is Bool && r is Bool { Ok(Type::Bool) } else { Err(()) }
        },
    }
}

/// Whether a cast between two types is allowed.
pub open spec fn cast_ok(from: Type, to: Type) -> bool {
    ||| (from is I64 && to is Str)
    ||| (from is I64 && to is Bool)
    ||| (from is Bool && to is I64)
    ||| (from is Str && to is I64)
}

/// The type of an expression, or `Err` when it is ill-typed.
pub open spec fn expr_type(c: Ctx, vars: Seq<(String, Type)>, e: Expr) -> Result<Type, ()>
    decreases e,
{
    match e {
        Expr::IntLit { .. } => Ok(Type::I64),
        Expr::BoolLit { .. } => Ok(Type::Bool),
        Expr::StringLit { .. } => Ok(Type::Str),
        Expr::Ident { name, .. } => match lookup(vars, name@) {
            Some(t) => Ok(t),
            None => Err(()),
        },
        Expr::UnaryOp { op, operand, .. } => match expr_type(c, vars, *operand) {
            Ok(t) => match op {
                UnaryOp::Neg => if t is I64 { Ok(Type::I64) } else { Err(()) },
                UnaryOp::Not => if t is Bool { Ok(Type::Bool) } else { Err(()) },
            },
            Err(_) => Err(()),
        },
        Expr::BinaryOp { op, left, right, .. } => match (expr_type(c, vars, *left), expr_type(c, vars, *right)) {
            (Ok(l), Ok(r)) => binop_type(op, l, r),
            _ => Err(()),
        },
        Expr::Call { name, args, .. } => {
            if name@ == "print"@ {
                if args.len() == 1 && expr_type(c, vars, args@[0]) is Ok {
                    Ok(Type::Void)
                } else {
                    Err(())
                }
            } else {
                match fn_sig(c.tables, name@) {
                    Some(s) => if !private_use(c, name@) && args@.len() == s.params.len() && (args_ok(
                        c,
                        vars,
                        args@,
                        s.params,
                    ) || len_of_array(c, vars, name@, args@)) {
                        Ok(s.ret)
                    } else {
                        Err(())
                    },
                    None => Err(()),
                }
            }
        },
        Expr::ArrayLit { elements, .. } => {
            if elements@.len() == 0 {
                Err(())
            } else {
                match expr_type(c, vars, elements@[0]) {
                    Ok(first) => if elems_ok(c, vars, elements@, first) {
                        Ok(Type::Array(Box::new(first), elements@.len() as usize))
                    } else {
                        Err(())
                    },
                    Err(_) => Err(()),
                }
            }
        },
        Expr::Index { object, index, .. } => match expr_type(c, vars, *object) {
            Ok(Type::Array(elem, _)) => match expr_type(c, vars, *index) {
                Ok(Type::I64) => Ok(*elem),
                _ => Err(()),
            },
            _ => Err(()),
        },
        Expr::EnumVariant { enum_name, variant, .. } => match lookup(c.tables.enums, enum_name@) {
            Some(vs) => if !private_use(c, enum_name@) && has_name(vs, variant@) {
                Ok(Type::Enum(enum_name))
            } else {
                Err(())
            },
            None => Err(()),
        },
        Expr::StructLit { name, fields, .. } => match lookup(c.tables.structs, name@) {
            Some(fs) => if !private_use(c, name@) && fields_ok(c, vars, fields@, fs) && declared_given(
                fs,
                fields@,
            ) {
                Ok(Type::Struct(name))
            } else {
                Err(())
            },
            None => Err(()),
        },
        Expr::FieldAccess { object, field, .. } => match expr_type(c, vars, *object) {
            Ok(Type::Struct(sname)) => match lookup(c.tables.structs, sname@) {
                Some(fs) => match lookup_first(fs, field@) {
                    Some(t) => Ok(t),
                    None => Err(()),
                },
                None => Err(()),
            },
            _ => Err(()),
        },
        Expr::Try { expr, .. } => {
            if !c.can_fail {
                Err(())
            } else {
                match *expr {
                    Expr::Call { name, .. } => match fn_sig(c.tables, name@) {
                        Some(s) => if s.can_fail { expr_type(c, vars, *expr) } else { Err(()) },
                        None => expr_type(c, vars, *expr),
                    },
                    _ => Err(()),
                }
            }
        },
        Expr::Cast { expr, target, .. } => match expr_type(c, vars, *expr) {
            Ok(from) => match type_named(target@) {
                Some(to) => if cast_ok(from, to) { Ok(to) } else { Err(()) },
                None => Err(()),
            },
            Err(_) => Err(()),
        },
    }
}

/// A call of `len` on an array: besides a string, `len` takes any array.
pub open spec fn len_of_array(c: Ctx, vars: Seq<(String, Type)>, name: Seq<char>, args: Seq<Expr>) -> bool
    decreases args,
{
    name == "len"@ && args.len() == 1 && expr_type(c, vars, args[0]) matches Ok(Type::Array(_, _))
}

/// Every argument has the type of its parameter.
pub open spec fn args_ok(c: Ctx, vars: Seq<(String, Type)>, args: Seq<Expr>, params: Seq<Type>) -> bool
    decreases args,
{
    if args.len() == 0 {
        true
    } else {
        args_ok(c, vars, args.drop_last(), params) && match expr_type(c, vars, args.last()) {
            Ok(t) => same_type(t, params[args.len() - 1]),
            Err(_) => false,
        }
    }
}

/// Every element is well typed with the type `first`.
pub open spec fn elems_ok(c: Ctx, vars: Seq<(String, Type)>, es: Seq<Expr>, first: Type) -> bool
    decreases es,
{
    if es.len() == 0 {
        true
    } else {
        elems_ok(c, vars, es.drop_last(), first) && match expr_type(c, vars, es.last()) {
            Ok(t) => same_type(t, first),
            Err(_) => false,
        }
    }
}

/// Every given field exists in the struct and has its declared type.
pub open spec fn fields_ok(
    c: Ctx,
    vars: Seq<(String, Type)>,
    given: Seq<(String, Expr)>,
    declared: Seq<(String, Type)>,
) -> bool
    decreases given,
{
    if given.len() == 0 {
        true
    } else {
        fields_ok(c, vars, given.drop_last(), declared) && match lookup_first(declared, given.last().0@) {
            Some(ft) => match expr_type(c, vars, given.last().1) {
                Ok(t) => same_type(t, ft),
                Err(_) => false,
            },
            None => false,
        }
    }
}

/// Every declared field is given.
pub open spec fn declared_given(declared: Seq<(String, Type)>, given: Seq<(String, Expr)>) -> bool {
    forall|i: int| 0 <= i < declared.len() ==> exists|j: int| 0 <= j < given.len() && #[trigger] given[j].0@ == #[trigger] declared[i].0@
}


// ── Type names ───────────────────────────────────────────

/// Whether a type name has the array form `[...]`.
pub open spec fn is_array_name(n: Seq<char>) -> bool {
    n.len() > 0 && n[0] == '[' && n.last() == ']'
}

/// How many times `c` occurs in `s`.
pub open spec fn count_char(s: Seq<char>, c: char) -> nat
    decreases s.len(),
{
    if s.len() == 0 {
        0
    } else {
        count_char(s.drop_last(), c) + if s.last() == c { 1nat } else { 0nat }
    }
}

/// The index of the first `c` in `s` (or `s.len()`).
pub open spec fn index_of(s: Seq<char>, c: char) -> int
    decreases s.len(),
{
    if s.len() == 0 {
        0
    } else if s[0] == c {
        0
    } else {
        1 + index_of(s.drop_first(), c)
    }
}

/// `s` without leading whitespace.
pub open spec fn trim_start(s: Seq<char>) -> Seq<char>
    decreases s.len(),
{
    if s.len() > 0 && char_is_whitespace(s[0]) {
        trim_start(s.drop_first())
    } else {
        s
    }
}

/// `s` without trailing whitespace.
pub open spec fn trim_end(s: Seq<char>) -> Seq<char>
    decreases s.len(),
{
    if s.len() > 0 && char_is_whitespace(s.last()) {
        trim_end(s.drop_last())
    } else {
        s
    }
}

/// `s` without leading and trailing whitespace (`str::trim`).
pub open spec fn trim(s: Seq<char>) -> Seq<char> {
    trim_end(trim_start(s))
}

/// Every character is a decimal digit.
pub open spec fn all_digits(s: Seq<char>) -> bool {
    forall|i: int| 0 <= i < s.len() ==> is_digit(#[trigger] s[i])
}

/// The digits of a `usize` literal: `s` without one leading `+`.
pub open spec fn unsigned_digits(s: Seq<char>) -> Seq<char> {
    if s.len() > 0 && s[0] == '+' { s.drop_first() } else { s }
}

/// The value of a decimal `usize` literal with an optional `+` sign
/// (what `str::parse::<usize>` accepts).
pub open spec fn parse_usize(s: Seq<char>) -> Option<nat> {
    let d = unsigned_digits(s);
    if d.len() > 0 && all_digits(d) && digits_value(d) <= usize::MAX {
        Some(digits_value(d) as nat)
    } else {
        None
    }
}

/// A built-in type or an array type written `[elem; N]`.
pub open spec fn resolve_builtin(n: Seq<char>) -> Result<Type, ()>
    decreases n.len(),
{
    if is_array_name(n) && n.len() >= 2 {
        let inner = n.subrange(1, n.len() - 1);
        if count_char(inner, ';') != 1 {
            Err(())
        } else {
            let k = index_of(inner, ';');
            proof {
                lemma_index_of(inner, ';');
                lemma_trim_len(inner.subrange(0, k));
            }
            match parse_usize(trim(inner.subrange(k + 1, inner.len() as int))) {
                None => Err(()),
                Some(size) => match resolve_builtin(trim(inner.subrange(0, k))) {
                    Ok(t) => Ok(Type::Array(Box::new(t), size as usize)),
                    Err(_) => Err(()),
                },
            }
        }
    } else {
        match type_named(n) {
            Some(t) => Ok(t),
            None => Err(()),
        }
    }
}

/// The type a type name denotes: arrays and built-ins, or a known enum or struct.
pub open spec fn resolve_named(t: Tables, name: String) -> Result<Type, ()> {
    if is_array_name(name@) {
        resolve_builtin(name@)
    } else if lookup(t.enums, name@) is Some {
        Ok(Type::Enum(name))
    } else if lookup(t.structs, name@) is Some {
        Ok(Type::Struct(name))
    } else {
        resolve_builtin(name@)
    }
}

pub proof fn lemma_index_of(s: Seq<char>, c: char)
    ensures
        0 <= index_of(s, c) <= s.len(),
        index_of(s, c) < s.len() ==> s[index_of(s, c)] == c,
        forall|i: int| 0 <= i < index_of(s, c) ==> s[i] != c,
    decreases s.len(),
{
    if s.len() > 0 && s[0] != c {
        lemma_index_of(s.drop_first(), c);
        assert forall|i: int| 0 <= i < index_of(s, c) implies s[i] != c by {
            if i > 0 {
                assert(s[i] == s.drop_first()[i - 1]);
            }
        }
    }
}

pub proof fn lemma_trim_len(s: Seq<char>)
    ensures
        trim(s).len() <= s.len(),
{
    lemma_trim_start_len(s);
    lemma_trim_end_len(trim_start(s));
}

pub proof fn lemma_trim_start_len(s: Seq<char>)
    ensures
        trim_start(s).len() <= s.len(),
    decreases s.len(),
{
    if s.len() > 0 && char_is_whitespace(s[0]) {
        lemma_trim_start_len(s.drop_first());
    }
}

pub proof fn lemma_trim_end_len(s: Seq<char>)
    ensures
        trim_end(s).len() <= s.len(),
    decreases s.len(),
{
    if s.len() > 0 && char_is_whitespace(s.last()) {
        lemma_trim_end_len(s.drop_last());
    }
}

// ── Compile-time evaluation ──────────────────────────────

/// The magnitude of an integer.
pub open spec fn abs(v: int) -> int {
    if v < 0 { -v } else { v }
}

/// Integer division rounding toward zero, wrapping on overflow (`i64::wrapping_div`).
pub open spec fn div_trunc(l: i64, r: i64) -> i64 {
    let q = abs(l as int) / abs(r as int);
    let v = if (l < 0) != (r < 0) { -q } else { q };
    if v > i64::MAX { i64::MIN } else { v as i64 }
}

/// The remainder of `div_trunc`, with the sign of `l` (`i64::wrapping_rem`).
pub open spec fn rem_trunc(l: i64, r: i64) -> i64 {
    let m = abs(l as int) % abs(r as int);
    (if l < 0 { -m } else { m }) as i64
}

/// `0` or `1` for a condition.
pub open spec fn flag(b: bool) -> i64 {
    if b { 1 } else { 0 }
}

/// A binary operator on comptime values (arithmetic wraps on overflow).
pub open spec fn comptime_binop(op: BinOp, l: i64, r: i64) -> Result<i64, ()> {
    match op {
        BinOp::Add => Ok(l.wrapping_add(r)),
        BinOp::Sub => Ok(l.wrapping_sub(r)),
        BinOp::Mul => Ok(l.wrapping_mul(r)),
        BinOp::Div => if r == 0 { Err(()) } else { Ok(div_trunc(l, r)) },
        BinOp::Mod => if r == 0 { Err(()) } else { Ok(rem_trunc(l, r)) },
        BinOp::Eq => Ok(flag(l == r)),
        BinOp::Neq => Ok(flag(l != r)),
        BinOp::Lt => Ok(flag(l < r)),
        BinOp::Gt => Ok(flag(l > r)),
        BinOp::Lte => Ok(flag(l <= r)),
        BinOp::Gte => Ok(flag(l >= r)),
        BinOp::And => Ok(flag(l != 0 && r != 0)),
        BinOp::Or => Ok(flag(l != 0 || r != 0)),
    }
}

/// The value of a comptime expression, given the constants defined so far.
pub open spec fn comptime_value(cts: Seq<(String, i64)>, e: Expr) -> Result<i64, ()>
    decreases e,
{
    match e {
        Expr::IntLit { value, .. } => Ok(value),
        Expr::BoolLit { value, .. } => Ok(flag(value)),
        Expr::Ident { name, .. } => match lookup(cts, name@) {
            Some(v) => Ok(v),
            None => Err(()),
        },
        Expr::UnaryOp { op, operand, .. } => match comptime_value(cts, *operand) {
            Ok(v) => match op {
                UnaryOp::Neg => Ok(0i64.wrapping_sub(v)),
                UnaryOp::Not => Ok(flag(v == 0)),
            },
            Err(_) => Err(()),
        },
        Expr::BinaryOp { op, left, right, .. } => match (comptime_value(cts, *left), comptime_value(cts, *right)) {
            (Ok(l), Ok(r)) => comptime_binop(op, l, r),
            _ => Err(()),
        },
        _ => Err(()),
    }
}

// ── Checking statements ──────────────────────────────────

/// `v` cut back to its first `n` entries (when it has that many).
pub open spec fn restore(v: Seq<(String, Type)>, n: int) -> Seq<(String, Type)> {
    if n <= v.len() { v.subrange(0, n) } else { v }
}

/// The variables after a statement, or `Err` when it is ill-typed; `depth` is
/// the number of enclosing loops.
pub open spec fn stmt_check(c: Ctx, vars: Seq<(String, Type)>, depth: nat, s: Stmt) -> Result<Seq<(String, Type)>, ()>
    decreases s,
{
    match s {
        Stmt::Let { name, ty_name, value, .. } => match expr_type(c, vars, value) {
            Ok(vt) => match ty_name {
                Some(tn) => match resolve_named(c.tables, tn) {
                    Ok(dt) => if same_type(dt, vt) { Ok(vars.push((name, dt))) } else { Err(()) },
                    Err(_) => Err(()),
                },
                None => Ok(vars.push((name, vt))),
            },
            Err(_) => Err(()),
        },
        Stmt::Assign { name, value, .. } => match (lookup(vars, name@), expr_type(c, vars, value)) {
            (Some(vt), Ok(t)) => if same_type(vt, t) { Ok(vars) } else { Err(()) },
            _ => Err(()),
        },
        Stmt::IndexAssign { object, index, value, .. } => match lookup(vars, object@) {
            Some(Type::Array(elem, _)) => match (expr_type(c, vars, index), expr_type(c, vars, value)) {
                (Ok(Type::I64), Ok(vt)) => if same_type(vt, *elem) { Ok(vars) } else { Err(()) },
                _ => Err(()),
            },
            _ => Err(()),
        },
        Stmt::FieldAssign { object, field, value, .. } => match lookup(vars, object@) {
            Some(Type::Struct(sn)) => match lookup(c.tables.structs, sn@) {
                Some(fs) => match lookup_first(fs, field@) {
                    Some(ft) => match expr_type(c, vars, value) {
                        Ok(vt) => if same_type(vt, ft) { Ok(vars) } else { Err(()) },
                        Err(_) => Err(()),
                    },
                    None => Err(()),
                },
                None => Err(()),
            },
            _ => Err(()),
        },
        Stmt::Return { value, .. } => match value {
            Some(v) => match expr_type(c, vars, v) {
                Ok(t) => if same_type(t, c.ret) { Ok(vars) } else { Err(()) },
                Err(_) => Err(()),
            },
            None => if c.ret is Void { Ok(vars) } else { Err(()) },
        },
        Stmt::Defer { expr, .. } => match expr_type(c, vars, expr) {
            Ok(_) => Ok(vars),
            Err(_) => Err(()),
        },
        Stmt::Fail { message, .. } => if !c.can_fail {
            Err(())
        } else {
            match expr_type(c, vars, message) {
                Ok(Type::Str) => Ok(vars),
                _ => Err(()),
            }
        },
        Stmt::Expr { expr, .. } => match expr_type(c, vars, expr) {
            Ok(_) => Ok(vars),
            Err(_) => Err(()),
        },
        Stmt::TailExpr { expr, .. } => match expr_type(c, vars, expr) {
            Ok(t) => if same_type(t, c.ret) { Ok(vars) } else { Err(()) },
            Err(_) => Err(()),
        },
        Stmt::If { condition, then_block, else_block, .. } => match expr_type(c, vars, condition) {
            Ok(Type::Bool) => match block_check(c, vars, depth, then_block) {
                Ok(v1) => match else_block {
                    Some(eb) => block_check(c, v1, depth, eb),
                    None => Ok(v1),
                },
                Err(_) => Err(()),
            },
            _ => Err(()),
        },
        Stmt::While { condition, body, .. } => match expr_type(c, vars, condition) {
            Ok(Type::Bool) => block_check(c, vars, depth + 1, body),
            _ => Err(()),
        },
        Stmt::For { var, start, end, body, .. } => match (expr_type(c, vars, start), expr_type(c, vars, end)) {
            (Ok(Type::I64), Ok(Type::I64)) => match stmts_check(c, vars.push((var, Type::I64)), depth + 1, body.stmts@) {
                Ok(v1) => Ok(restore(v1, vars.len() as int)),
                Err(_) => Err(()),
            },
            _ => Err(()),
        },
        Stmt::Break { .. } => if depth > 0 { Ok(vars) } else { Err(()) },
        Stmt::Continue { .. } => if depth > 0 { Ok(vars) } else { Err(()) },
        Stmt::Match { subject, arms, .. } => match expr_type(c, vars, subject) {
            Ok(st) => arms_check(c, vars, depth, st, arms@),
            Err(_) => Err(()),
        },
    }
}

/// The statements of a block in order, then the block's variables dropped.
pub open spec fn block_check(c: Ctx, vars: Seq<(String, Type)>, depth: nat, b: Block) -> Result<Seq<(String, Type)>, ()>
    decreases b,
{
    match stmts_check(c, vars, depth, b.stmts@) {
        Ok(v1) => Ok(restore(v1, vars.len() as int)),
        Err(_) => Err(()),
    }
}

pub open spec fn stmts_check(c: Ctx, vars: Seq<(String, Type)>, depth: nat, ss: Seq<Stmt>) -> Result<Seq<(String, Type)>, ()>
    decreases ss,
{
    if ss.len() == 0 {
        Ok(vars)
    } else {
        match stmts_check(c, vars, depth, ss.drop_last()) {
            Ok(v) => stmt_check(c, v, depth, ss.last()),
            Err(_) => Err(()),
        }
    }
}

/// A pattern fits a match subject of type `st`.
pub open spec fn pattern_ok(c: Ctx, st: Type, p: Pattern) -> bool {
    match p {
        Pattern::IntLit(..) => st is I64,
        Pattern::BoolLit(..) => st is Bool,
        Pattern::Wildcard(..) => true,
        Pattern::EnumVariant(en, v, _) => match lookup(c.tables.enums, en@) {
            Some(vs) => has_name(vs, v@) && same_type(st, Type::Enum(en)),
            None => false,
        },
    }
}

pub open spec fn arms_check(c: Ctx, vars: Seq<(String, Type)>, depth: nat, st: Type, arms: Seq<MatchArm>) -> Result<Seq<(String, Type)>, ()>
    decreases arms,
{
    if arms.len() == 0 {
        Ok(vars)
    } else {
        match arms_check(c, vars, depth, st, arms.drop_last()) {
            Ok(v) => if pattern_ok(c, st, arms.last().pattern) {
                block_check(c, v, depth, arms.last().body)
            } else {
                Err(())
            },
            Err(_) => Err(()),
        }
    }
}

// ── Checking functions and programs ──────────────────────

/// The types of a parameter list.
pub open spec fn params_types(t: Tables, ps: Seq<Param>) -> Result<Seq<Type>, ()>
    decreases ps.len(),
{
    if ps.len() == 0 {
        Ok(Seq::empty())
    } else {
        match (params_types(t, ps.drop_last()), resolve_named(t, ps.last().ty_name)) {
            (Ok(ts), Ok(ty)) => Ok(ts.push(ty)),
            _ => Err(()),
        }
    }
}

/// The parameters as variables.
pub open spec fn param_vars(ps: Seq<Param>, ts: Seq<Type>) -> Seq<(String, Type)> {
    Seq::new(ps.len(), |i: int| (ps[i].name, ts[i]))
}

/// The declared return type of a function (`void` when none).
pub open spec fn ret_type(t: Tables, f: Function) -> Result<Type, ()> {
    match f.return_type {
        Some(n) => resolve_named(t, n),
        None => Ok(Type::Void),
    }
}

/// The context for checking the body of `f`.
pub open spec fn fn_ctx(t: Tables, f: Function, ret: Type) -> Ctx {
    Ctx { tables: t, privacy: !has_name(t.imported, f.name@), ret, can_fail: f.can_fail }
}

/// A function's signature resolves and its body is well typed.
pub open spec fn func_ok(t: Tables, vars: Seq<(String, Type)>, depth: nat, f: Function) -> bool {
    match (ret_type(t, f), params_types(t, f.params@)) {
        (Ok(rt), Ok(pts)) => block_check(fn_ctx(t, f, rt), vars + param_vars(f.params@, pts), depth, f.body) is Ok,
        _ => false,
    }
}

/// Register enums.
pub open spec fn with_enums(t: Tables, es: Seq<EnumDef>) -> Tables {
    Tables { enums: t.enums + es.map_values(|e: EnumDef| (e.name, e.variants@)), ..t }
}

/// The fields of a struct with their resolved types.
pub open spec fn fields_types(t: Tables, fs: Seq<StructField>) -> Result<Seq<(String, Type)>, ()>
    decreases fs.len(),
{
    if fs.len() == 0 {
        Ok(Seq::empty())
    } else {
        match (fields_types(t, fs.drop_last()), resolve_named(t, fs.last().ty_name)) {
            (Ok(ts), Ok(ty)) => Ok(ts.push((fs.last().name, ty))),
            _ => Err(()),
        }
    }
}

/// Register structs in order; a field type may name enums and earlier structs.
pub open spec fn with_structs(t: Tables, ss: Seq<StructDef>) -> Result<Tables, ()>
    decreases ss.len(),
{
    if ss.len() == 0 {
        Ok(t)
    } else {
        match with_structs(t, ss.drop_last()) {
            Ok(t1) => match fields_types(t1, ss.last().fields@) {
                Ok(fs) => Ok(Tables { structs: t1.structs.push((ss.last().name, fs)), ..t1 }),
                Err(_) => Err(()),
            },
            Err(_) => Err(()),
        }
    }
}

/// The type of a comptime constant: `bool` for a boolean literal, else `i64`.
pub open spec fn comptime_type(e: Expr) -> Type {
    if e is BoolLit { Type::Bool } else { Type::I64 }
}

/// Evaluate comptime constants in order; each also becomes a global variable.
pub open spec fn with_comptimes(t: Tables, vars: Seq<(String, Type)>, cs: Seq<ComptimeDef>) -> Result<(Tables, Seq<(String, Type)>), ()>
    decreases cs.len(),
{
    if cs.len() == 0 {
        Ok((t, vars))
    } else {
        match with_comptimes(t, vars, cs.drop_last()) {
            Ok((t1, v1)) => match comptime_value(t1.comptimes, cs.last().value) {
                Ok(val) => Ok((
                    Tables { comptimes: t1.comptimes.push((cs.last().name, val)), ..t1 },
                    v1.push((cs.last().name, comptime_type(cs.last().value))),
                )),
                Err(_) => Err(()),
            },
            Err(_) => Err(()),
        }
    }
}

/// Register function signatures in order.
pub open spec fn with_fns(t: Tables, fs: Seq<Function>) -> Result<Tables, ()>
    decreases fs.len(),
{
    if fs.len() == 0 {
        Ok(t)
    } else {
        match with_fns(t, fs.drop_last()) {
            Ok(t1) => match (params_types(t1, fs.last().params@), ret_type(t1, fs.last())) {
                (Ok(pts), Ok(rt)) => Ok(Tables { fns: t1.fns.push((fs.last().name, sig(pts, rt, fs.last().can_fail))), ..t1 }),
                _ => Err(()),
            },
            Err(_) => Err(()),
        }
    }
}

/// Every function body checks (each starting from the global variables).
pub open spec fn funcs_ok(t: Tables, vars: Seq<(String, Type)>, depth: nat, fs: Seq<Function>) -> bool
    decreases fs.len(),
{
    fs.len() == 0 || (funcs_ok(t, vars, depth, fs.drop_last()) && func_ok(t, vars, depth, fs.last()))
}

/// The tables and global variables that a program's declarations give,
/// starting from tables `t` and variables `vars`.
pub open spec fn declared_env(t: Tables, vars: Seq<(String, Type)>, p: Program) -> Result<(Tables, Seq<(String, Type)>), ()> {
    match with_structs(with_enums(t, p.enums@), p.structs@) {
        Ok(t1) => match with_comptimes(t1, vars, p.comptimes@) {
            Ok((t2, v2)) => match with_fns(t2, p.functions@) {
                Ok(t3) => Ok((t3, v2)),
                Err(_) => Err(()),
            },
            Err(_) => Err(()),
        },
        Err(_) => Err(()),
    }
}

/// Whether a program passes the checker that starts from tables `t`,
/// variables `vars` and loop depth `depth`.
pub open spec fn program_ok(t: Tables, vars: Seq<(String, Type)>, depth: nat, p: Program) -> bool {
    match with_structs(with_enums(t, p.enums@), p.structs@) {
        Ok(t1) => match with_comptimes(t1, vars, p.comptimes@) {
            Ok((t2, v2)) => match with_fns(t2, p.functions@) {
                Ok(t3) => funcs_ok(t3, v2, depth, p.functions@),
                Err(_) => false,
            },
            Err(_) => false,
        },
        Err(_) => false,
    }
}

} // verus!
