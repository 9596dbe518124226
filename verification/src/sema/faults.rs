//! Which error the checker reports, as mathematical functions over the AST.
//!
//! The rules in `rules.rs` say whether a program is well typed. The
//! functions here say, for an ill-typed one, which message and source span
//! the checker reports: the first rule broken, in the order the checker
//! visits the program. Each is meaningful where the matching rule fails.

use vstd::prelude::*;
use crate::ast::{BinOp, Block, ComptimeDef, Expr, Function, MatchArm, Param, Pattern, Program, Stmt, StructDef, StructField, UnaryOp};
use crate::error::Span;
use crate::text::nat_text;
use crate::sema::types::{same_type, type_named, type_text, Type};
use crate::sema::rules::{
    args_ok, len_of_array, arms_check, block_check, count_char, expr_type, fields_ok, fields_types, fn_ctx, fn_sig, funcs_ok, has_name,
    index_of, lemma_index_of, lemma_trim_len, lookup, cast_ok, stmt_check, lookup_first, param_vars, params_types, parse_usize,
    pattern_ok, private_use, resolve_named, ret_type, stmts_check, trim, with_comptimes, with_enums, with_fns,
    with_structs, comptime_value, is_array_name, Ctx, Tables,
};

verus! {

/// An error as the checker reports it: its message and its place.
pub type Fault = (Seq<char>, Option<Span>);

/// A message at a span.
pub open spec fn at(m: Seq<char>, s: Span) -> Fault {
    (m, Some(s))
}

/// What stands where no rule is broken.
pub open spec fn no_fault() -> Fault {
    (Seq::empty(), None)
}

/// The name `{:?}` gives a binary operator.
pub open spec fn binop_text(op: BinOp) -> Seq<char> {
    match op {
        BinOp::Add => "Add"@,
        BinOp::Sub => "Sub"@,
        BinOp::Mul => "Mul"@,
        BinOp::Div => "Div"@,
        BinOp::Mod => "Mod"@,
        BinOp::Eq => "Eq"@,
        BinOp::Neq => "Neq"@,
        BinOp::Lt => "Lt"@,
        BinOp::Gt => "Gt"@,
        BinOp::Lte => "Lte"@,
        BinOp::Gte => "Gte"@,
        BinOp::And => "And"@,
        BinOp::Or => "Or"@,
    }
}

/// The error for operands of types `l` and `r` that an operator refuses.
pub open spec fn binop_fault(op: BinOp, l: Type, r: Type, span: Span) -> Fault {
    match op {
        BinOp::Lt | BinOp::Gt | BinOp::Lte | BinOp::Gte => at(
            "cannot compare '"@ + type_text(l) + "' and '"@ + type_text(r) + "'"@,
            span,
        ),
        BinOp::Eq | BinOp::Neq => at(
            "cannot compare '"@ + type_text(l) + "' and '"@ + type_text(r) + "' for equality"@,
            span,
        ),
        _ => at(
            "cannot apply '"@ + binop_text(op) + "' to '"@ + type_text(l) + "' and '"@ + type_text(r) + "'"@,
            span,
        ),
    }
}

// ── Expressions ──────────────────────────────────────────

/// The error of an ill-typed expression.
pub open spec fn expr_fault(c: Ctx, vars: Seq<(String, Type)>, e: Expr) -> Fault
    decreases e, 0int,
{
    match e {
        Expr::Ident { name, span } => at("undeclared variable '"@ + name@ + "'"@, span),
        Expr::UnaryOp { op, operand, span } => match expr_type(c, vars, *operand) {
            Ok(t) => match op {
                UnaryOp::Neg => at("cannot negate type '"@ + type_text(t) + "'"@, span),
                UnaryOp::Not => at("cannot apply '!' to type '"@ + type_text(t) + "'"@, span),
            },
            Err(_) => expr_fault(c, vars, *operand),
        },
        Expr::BinaryOp { op, left, right, span } => match expr_type(c, vars, *left) {
            Err(_) => expr_fault(c, vars, *left),
            Ok(l) => match expr_type(c, vars, *right) {
                Err(_) => expr_fault(c, vars, *right),
                Ok(r) => binop_fault(op, l, r, span),
            },
        },
        Expr::Call { name, args, span } => {
            if name@ == "print"@ {
                if args@.len() != 1 {
                    at("print() takes 1 argument, got "@ + nat_text(args@.len()), span)
                } else {
                    expr_fault(c, vars, args@[0])
                }
            } else {
                match fn_sig(c.tables, name@) {
                    None => at("undeclared function '"@ + name@ + "'"@, span),
                    Some(s) => if private_use(c, name@) {
                        at("function '"@ + name@ + "' is private in its module"@, span)
                    } else if args@.len() != s.params.len() {
                        at(
                            "function '"@ + name@ + "' takes "@ + nat_text(s.params.len()) + " argument(s), got "@
                                + nat_text(args@.len()),
                            span,
                        )
                    } else {
                        args_fault(c, vars, args@, s.params, name@, span, 0)
                    },
                }
            }
        },
        Expr::ArrayLit { elements, span } => {
            if elements@.len() == 0 {
                at("empty array literals are not allowed"@, span)
            } else {
                match expr_type(c, vars, elements@[0]) {
                    Err(_) => expr_fault(c, vars, elements@[0]),
                    Ok(first) => elems_fault(c, vars, elements@, first, span, 1),
                }
            }
        },
        Expr::Index { object, index, span } => match expr_type(c, vars, *object) {
            Err(_) => expr_fault(c, vars, *object),
            Ok(Type::Array(_, _)) => match expr_type(c, vars, *index) {
                Err(_) => expr_fault(c, vars, *index),
                Ok(it) => at("array index must be 'i64', got '"@ + type_text(it) + "'"@, span),
            },
            Ok(ot) => at("cannot index into non-array type '"@ + type_text(ot) + "'"@, span),
        },
        Expr::EnumVariant { enum_name, variant, span } => match lookup(c.tables.enums, enum_name@) {
            None => at("unknown enum '"@ + enum_name@ + "'"@, span),
            Some(_) => if private_use(c, enum_name@) {
                at("enum '"@ + enum_name@ + "' is private in its module"@, span)
            } else {
                at("unknown variant '"@ + enum_name@ + "::"@ + variant@ + "'"@, span)
            },
        },
        Expr::StructLit { name, fields, span } => match lookup(c.tables.structs, name@) {
            None => at("unknown struct '"@ + name@ + "'"@, span),
            Some(fs) => if private_use(c, name@) {
                at("struct '"@ + name@ + "' is private in its module"@, span)
            } else if !fields_ok(c, vars, fields@, fs) {
                fields_fault(c, vars, name@, fields@, fs, span, 0)
            } else {
                missing_fault(name@, fs, fields@, span, 0)
            },
        },
        Expr::FieldAccess { object, field, span } => match expr_type(c, vars, *object) {
            Err(_) => expr_fault(c, vars, *object),
            Ok(Type::Struct(sn)) => match lookup(c.tables.structs, sn@) {
                None => at("unknown struct '"@ + sn@ + "'"@, span),
                Some(_) => at("struct '"@ + sn@ + "' has no field '"@ + field@ + "'"@, span),
            },
            Ok(ot) => at("field access on non-struct type '"@ + type_text(ot) + "'"@, span),
        },
        Expr::Try { expr, span } => {
            if !c.can_fail {
                at("'try' can only be used in failable functions (-> T ! str)"@, span)
            } else {
                match *expr {
                    Expr::Call { name, .. } => match fn_sig(c.tables, name@) {
                        Some(s) => if !s.can_fail {
                            at("'try' used on non-failable function '"@ + name@ + "'"@, span)
                        } else {
                            expr_fault(c, vars, *expr)
                        },
                        None => expr_fault(c, vars, *expr),
                    },
                    _ => at("'try' must be used with a function call"@, span),
                }
            }
        },
        Expr::Cast { expr, target, span } => match expr_type(c, vars, *expr) {
            Err(_) => expr_fault(c, vars, *expr),
            Ok(from) => match type_named(target@) {
                None => at("unknown cast target type '"@ + target@ + "'"@, span),
                Some(to) => at("cannot cast '"@ + type_text(from) + "' to '"@ + type_text(to) + "'"@, span),
            },
        },
        _ => no_fault(),
    }
}

/// The error of the first argument, from the `i`-th on, that is ill typed or
/// does not have the type of its parameter.
pub open spec fn args_fault(
    c: Ctx,
    vars: Seq<(String, Type)>,
    args: Seq<Expr>,
    params: Seq<Type>,
    name: Seq<char>,
    span: Span,
    i: int,
) -> Fault
    decreases args, args.len() - i,
{
    if i < 0 || i >= args.len() {
        no_fault()
    } else {
        match expr_type(c, vars, args[i]) {
            Err(_) => expr_fault(c, vars, args[i]),
            Ok(t) => if same_type(t, params[i]) {
                args_fault(c, vars, args, params, name, span, i + 1)
            } else {
                at(
                    "argument "@ + nat_text((i + 1) as nat) + " of '"@ + name + "': expected '"@ + type_text(params[i])
                        + "', got '"@ + type_text(t) + "'"@,
                    span,
                )
            },
        }
    }
}

/// The error of the first element, from the `i`-th on, that is ill typed or
/// does not have the type `first` of the first element.
pub open spec fn elems_fault(
    c: Ctx,
    vars: Seq<(String, Type)>,
    es: Seq<Expr>,
    first: Type,
    span: Span,
    i: int,
) -> Fault
    decreases es, es.len() - i,
{
    if i < 0 || i >= es.len() {
        no_fault()
    } else {
        match expr_type(c, vars, es[i]) {
            Err(_) => expr_fault(c, vars, es[i]),
            Ok(t) => if same_type(t, first) {
                elems_fault(c, vars, es, first, span, i + 1)
            } else {
                at(
                    "array element "@ + nat_text(i as nat) + " has type '"@ + type_text(t) + "', expected '"@
                        + type_text(first) + "'"@,
                    span,
                )
            },
        }
    }
}

/// The error of the first given field, from the `i`-th on, that the struct
/// `sname` lacks or whose value does not have the declared type.
pub open spec fn fields_fault(
    c: Ctx,
    vars: Seq<(String, Type)>,
    sname: Seq<char>,
    given: Seq<(String, Expr)>,
    declared: Seq<(String, Type)>,
    span: Span,
    i: int,
) -> Fault
    decreases given, given.len() - i,
{
    if i < 0 || i >= given.len() {
        no_fault()
    } else {
        match lookup_first(declared, given[i].0@) {
            None => at("struct '"@ + sname + "' has no field '"@ + given[i].0@ + "'"@, span),
            Some(ft) => match expr_type(c, vars, given[i].1) {
                Err(_) => expr_fault(c, vars, given[i].1),
                Ok(t) => if same_type(t, ft) {
                    fields_fault(c, vars, sname, given, declared, span, i + 1)
                } else {
                    at(
                        "field '"@ + given[i].0@ + "' expected type '"@ + type_text(ft) + "', got '"@ + type_text(t)
                            + "'"@,
                        span,
                    )
                },
            },
        }
    }
}

/// Whether a field named `k` is given.
pub open spec fn is_given(given: Seq<(String, Expr)>, k: Seq<char>) -> bool {
    exists|j: int| 0 <= j < given.len() && #[trigger] given[j].0@ == k
}

/// The error for the first declared field, from the `k`-th on, that is not given.
pub open spec fn missing_fault(
    sname: Seq<char>,
    declared: Seq<(String, Type)>,
    given: Seq<(String, Expr)>,
    span: Span,
    k: int,
) -> Fault
    decreases declared.len() - k,
{
    if k < 0 || k >= declared.len() {
        no_fault()
    } else if is_given(given, declared[k].0@) {
        missing_fault(sname, declared, given, span, k + 1)
    } else {
        at("missing field '"@ + declared[k].0@ + "' in struct '"@ + sname + "'"@, span)
    }
}

// ── Type names ───────────────────────────────────────────

/// The error for a type name that is neither built in nor an array type.
pub open spec fn resolve_builtin_fault(n: Seq<char>, span: Span) -> Fault
    decreases n.len(),
{
    if is_array_name(n) && n.len() >= 2 {
        let inner = n.subrange(1, n.len() - 1);
        if count_char(inner, ';') != 1 {
            at("invalid array type '"@ + n + "'"@, span)
        } else {
            let k = index_of(inner, ';');
            proof {
                lemma_index_of(inner, ';');
                lemma_trim_len(inner.subrange(0, k));
            }
            match parse_usize(trim(inner.subrange(k + 1, inner.len() as int))) {
                None => at("invalid array size in '"@ + n + "'"@, span),
                Some(_) => resolve_builtin_fault(trim(inner.subrange(0, k)), span),
            }
        }
    } else {
        at("unknown type '"@ + n + "'"@, span)
    }
}

/// The error for a type name that denotes no type.
pub open spec fn resolve_fault(t: Tables, name: String, span: Span) -> Fault {
    if is_array_name(name@) {
        resolve_builtin_fault(name@, span)
    } else if lookup(t.enums, name@) is Some || lookup(t.structs, name@) is Some {
        no_fault()
    } else {
        resolve_builtin_fault(name@, span)
    }
}

// ── Statements ───────────────────────────────────────────

/// The error of an ill-typed statement.
pub open spec fn stmt_fault(c: Ctx, vars: Seq<(String, Type)>, depth: nat, s: Stmt) -> Fault
    decreases s,
{
    match s {
        Stmt::Let { ty_name, value, span, .. } => match expr_type(c, vars, value) {
            Err(_) => expr_fault(c, vars, value),
            Ok(vt) => match ty_name {
                Some(tn) => match resolve_named(c.tables, tn) {
                    Err(_) => resolve_fault(c.tables, tn, span),
                    Ok(dt) => at(
                        "type mismatch: declared type '"@ + type_text(dt) + "' but value has type '"@ + type_text(vt)
                            + "'"@,
                        span,
                    ),
                },
                None => no_fault(),
            },
        },
        Stmt::Assign { name, value, span } => match lookup(vars, name@) {
            None => at("undeclared variable '"@ + name@ + "'"@, span),
            Some(vt) => match expr_type(c, vars, value) {
                Err(_) => expr_fault(c, vars, value),
                Ok(t) => at(
                    "type mismatch in assignment: '"@ + name@ + "' has type '"@ + type_text(vt) + "' but got '"@
                        + type_text(t) + "'"@,
                    span,
                ),
            },
        },
        Stmt::IndexAssign { object, index, value, span } => match lookup(vars, object@) {
            None => at("undeclared variable '"@ + object@ + "'"@, span),
            Some(Type::Array(elem, _)) => match expr_type(c, vars, index) {
                Err(_) => expr_fault(c, vars, index),
                Ok(Type::I64) => match expr_type(c, vars, value) {
                    Err(_) => expr_fault(c, vars, value),
                    Ok(vt) => at(
                        "type mismatch in index assignment: expected '"@ + type_text(*elem) + "', got '"@
                            + type_text(vt) + "'"@,
                        span,
                    ),
                },
                Ok(it) => at("array index must be 'i64', got '"@ + type_text(it) + "'"@, span),
            },
            Some(t) => at("cannot index into non-array type '"@ + type_text(t) + "'"@, span),
        },
        Stmt::FieldAssign { object, field, value, span } => match lookup(vars, object@) {
            None => at("undeclared variable '"@ + object@ + "'"@, span),
            Some(Type::Struct(sn)) => match lookup(c.tables.structs, sn@) {
                None => at("unknown struct '"@ + sn@ + "'"@, span),
                Some(fs) => match lookup_first(fs, field@) {
                    None => at("struct '"@ + sn@ + "' has no field '"@ + field@ + "'"@, span),
                    Some(ft) => match expr_type(c, vars, value) {
                        Err(_) => expr_fault(c, vars, value),
                        Ok(vt) => at(
                            "field '"@ + field@ + "' expected type '"@ + type_text(ft) + "', got '"@ + type_text(vt)
                                + "'"@,
                            span,
                        ),
                    },
                },
            },
            Some(t) => at("field assignment on non-struct type '"@ + type_text(t) + "'"@, span),
        },
        Stmt::Return { value, span } => match value {
            Some(v) => match expr_type(c, vars, v) {
                Err(_) => expr_fault(c, vars, v),
                Ok(t) => at(
                    "return type mismatch: function returns '"@ + type_text(c.ret) + "' but got '"@ + type_text(t)
                        + "'"@,
                    span,
                ),
            },
            None => at(
                "return type mismatch: function returns '"@ + type_text(c.ret) + "' but got '"@ + type_text(
                    Type::Void,
                ) + "'"@,
                span,
            ),
        },
        Stmt::Defer { expr, .. } => expr_fault(c, vars, expr),
        Stmt::Fail { message, span } => if !c.can_fail {
            at("'fail' can only be used in failable functions (-> T ! str)"@, span)
        } else {
            match expr_type(c, vars, message) {
                Err(_) => expr_fault(c, vars, message),
                Ok(t) => at("'fail' expects a string message, got '"@ + type_text(t) + "'"@, span),
            }
        },
        Stmt::Expr { expr, .. } => expr_fault(c, vars, expr),
        Stmt::TailExpr { expr, span } => match expr_type(c, vars, expr) {
            Err(_) => expr_fault(c, vars, expr),
            Ok(t) => at(
                "implicit return type mismatch: function returns '"@ + type_text(c.ret)
                    + "' but tail expression has type '"@ + type_text(t) + "'"@,
                span,
            ),
        },
        Stmt::If { condition, then_block, else_block, span } => match expr_type(c, vars, condition) {
            Err(_) => expr_fault(c, vars, condition),
            Ok(Type::Bool) => match block_check(c, vars, depth, then_block) {
                Err(_) => block_fault(c, vars, depth, then_block),
                Ok(v1) => match else_block {
                    Some(eb) => block_fault(c, v1, depth, eb),
                    None => no_fault(),
                },
            },
            Ok(t) => at("if condition must be 'bool', got '"@ + type_text(t) + "'"@, span),
        },
        Stmt::While { condition, body, span } => match expr_type(c, vars, condition) {
            Err(_) => expr_fault(c, vars, condition),
            Ok(Type::Bool) => block_fault(c, vars, depth + 1, body),
            Ok(t) => at("while condition must be 'bool', got '"@ + type_text(t) + "'"@, span),
        },
        Stmt::For { var, start, end, body, span } => match expr_type(c, vars, start) {
            Err(_) => expr_fault(c, vars, start),
            Ok(st) => match expr_type(c, vars, end) {
                Err(_) => expr_fault(c, vars, end),
                Ok(et) => if !(st is I64) {
                    at("for range start must be 'i64', got '"@ + type_text(st) + "'"@, span)
                } else if !(et is I64) {
                    at("for range end must be 'i64', got '"@ + type_text(et) + "'"@, span)
                } else {
                    stmts_fault(c, vars.push((var, Type::I64)), depth + 1, body.stmts@)
                },
            },
        },
        Stmt::Break { span } => at("break outside of loop"@, span),
        Stmt::Continue { span } => at("continue outside of loop"@, span),
        Stmt::Match { subject, arms, span } => match expr_type(c, vars, subject) {
            Err(_) => expr_fault(c, vars, subject),
            Ok(st) => arms_fault(c, vars, depth, st, arms@, span),
        },
    }
}

/// The error of an ill-typed block.
pub open spec fn block_fault(c: Ctx, vars: Seq<(String, Type)>, depth: nat, b: Block) -> Fault
    decreases b,
{
    stmts_fault(c, vars, depth, b.stmts@)
}

/// The error of the first ill-typed statement.
pub open spec fn stmts_fault(c: Ctx, vars: Seq<(String, Type)>, depth: nat, ss: Seq<Stmt>) -> Fault
    decreases ss,
{
    if ss.len() == 0 {
        no_fault()
    } else {
        match stmts_check(c, vars, depth, ss.drop_last()) {
            Err(_) => stmts_fault(c, vars, depth, ss.drop_last()),
            Ok(v) => stmt_fault(c, v, depth, ss.last()),
        }
    }
}

/// The error for a pattern that does not fit a match subject of type `st`.
pub open spec fn pattern_fault(c: Ctx, st: Type, p: Pattern, span: Span) -> Fault {
    match p {
        Pattern::IntLit(..) => at("integer pattern in match on '"@ + type_text(st) + "'"@, span),
        Pattern::BoolLit(..) => at("boolean pattern in match on '"@ + type_text(st) + "'"@, span),
        Pattern::Wildcard(..) => no_fault(),
        Pattern::EnumVariant(en, v, pspan) => match lookup(c.tables.enums, en@) {
            None => at("unknown enum '"@ + en@ + "'"@, pspan),
            Some(vs) => if !has_name(vs, v@) {
                at("unknown variant '"@ + en@ + "::"@ + v@ + "' "@, pspan)
            } else {
                at("enum pattern '"@ + en@ + "::"@ + v@ + "' in match on '"@ + type_text(st) + "'"@, pspan)
            },
        },
    }
}

/// The error of the first arm whose pattern does not fit or whose body is ill typed.
pub open spec fn arms_fault(
    c: Ctx,
    vars: Seq<(String, Type)>,
    depth: nat,
    st: Type,
    arms: Seq<MatchArm>,
    span: Span,
) -> Fault
    decreases arms,
{
    if arms.len() == 0 {
        no_fault()
    } else {
        match arms_check(c, vars, depth, st, arms.drop_last()) {
            Err(_) => arms_fault(c, vars, depth, st, arms.drop_last(), span),
            Ok(v) => if pattern_ok(c, st, arms.last().pattern) {
                block_fault(c, v, depth, arms.last().body)
            } else {
                pattern_fault(c, st, arms.last().pattern, span)
            },
        }
    }
}

// ── Compile-time evaluation ──────────────────────────────

/// The error of a comptime expression that has no value; `span` is the
/// definition's.
pub open spec fn comptime_fault(cts: Seq<(String, i64)>, e: Expr, span: Span) -> Fault
    decreases e,
{
    match e {
        Expr::IntLit { .. } => no_fault(),
        Expr::BoolLit { .. } => no_fault(),
        Expr::Ident { name, .. } => at("'"@ + name@ + "' is not a comptime constant"@, span),
        Expr::UnaryOp { operand, .. } => comptime_fault(cts, *operand, span),
        Expr::BinaryOp { op, left, right, .. } => match comptime_value(cts, *left) {
            Err(_) => comptime_fault(cts, *left, span),
            Ok(_) => match comptime_value(cts, *right) {
                Err(_) => comptime_fault(cts, *right, span),
                Ok(_) => match op {
                    BinOp::Div => at("division by zero in comptime"@, span),
                    BinOp::Mod => at("modulo by zero in comptime"@, span),
                    _ => no_fault(),
                },
            },
        },
        _ => at("comptime expressions must be constant (literals, arithmetic, other comptime values)"@, span),
    }
}

// ── Functions and programs ───────────────────────────────

/// The error of the first parameter whose type does not resolve.
pub open spec fn params_fault(t: Tables, ps: Seq<Param>) -> Fault
    decreases ps.len(),
{
    if ps.len() == 0 {
        no_fault()
    } else {
        match params_types(t, ps.drop_last()) {
            Err(_) => params_fault(t, ps.drop_last()),
            Ok(_) => resolve_fault(t, ps.last().ty_name, ps.last().span),
        }
    }
}

/// The error of a return type that does not resolve.
pub open spec fn ret_fault(t: Tables, f: Function) -> Fault {
    match f.return_type {
        Some(n) => resolve_fault(t, n, f.span),
        None => no_fault(),
    }
}

/// The error of a function: its return type, then its parameters, then its body.
pub open spec fn func_fault(t: Tables, vars: Seq<(String, Type)>, depth: nat, f: Function) -> Fault {
    match ret_type(t, f) {
        Err(_) => ret_fault(t, f),
        Ok(rt) => match params_types(t, f.params@) {
            Err(_) => params_fault(t, f.params@),
            Ok(pts) => block_fault(fn_ctx(t, f, rt), vars + param_vars(f.params@, pts), depth, f.body),
        },
    }
}

/// The error of the first function whose body does not check.
pub open spec fn funcs_fault(t: Tables, vars: Seq<(String, Type)>, depth: nat, fs: Seq<Function>) -> Fault
    decreases fs.len(),
{
    if fs.len() == 0 {
        no_fault()
    } else if !funcs_ok(t, vars, depth, fs.drop_last()) {
        funcs_fault(t, vars, depth, fs.drop_last())
    } else {
        func_fault(t, vars, depth, fs.last())
    }
}

/// The error of the first struct field whose type does not resolve.
pub open spec fn fields_types_fault(t: Tables, fs: Seq<StructField>) -> Fault
    decreases fs.len(),
{
    if fs.len() == 0 {
        no_fault()
    } else {
        match fields_types(t, fs.drop_last()) {
            Err(_) => fields_types_fault(t, fs.drop_last()),
            Ok(_) => resolve_fault(t, fs.last().ty_name, fs.last().span),
        }
    }
}

/// The error of the first struct that does not register.
pub open spec fn with_structs_fault(t: Tables, ss: Seq<StructDef>) -> Fault
    decreases ss.len(),
{
    if ss.len() == 0 {
        no_fault()
    } else {
        match with_structs(t, ss.drop_last()) {
            Err(_) => with_structs_fault(t, ss.drop_last()),
            Ok(t1) => fields_types_fault(t1, ss.last().fields@),
        }
    }
}

/// The error of the first comptime constant that has no value.
pub open spec fn with_comptimes_fault(t: Tables, vars: Seq<(String, Type)>, cs: Seq<ComptimeDef>) -> Fault
    decreases cs.len(),
{
    if cs.len() == 0 {
        no_fault()
    } else {
        match with_comptimes(t, vars, cs.drop_last()) {
            Err(_) => with_comptimes_fault(t, vars, cs.drop_last()),
            Ok((t1, _)) => comptime_fault(t1.comptimes, cs.last().value, cs.last().span),
        }
    }
}

/// The error of the first function signature that does not resolve:
/// parameters first, then the return type.
pub open spec fn with_fns_fault(t: Tables, fs: Seq<Function>) -> Fault
    decreases fs.len(),
{
    if fs.len() == 0 {
        no_fault()
    } else {
        match with_fns(t, fs.drop_last()) {
            Err(_) => with_fns_fault(t, fs.drop_last()),
            Ok(t1) => match params_types(t1, fs.last().params@) {
                Err(_) => params_fault(t1, fs.last().params@),
                Ok(_) => ret_fault(t1, fs.last()),
            },
        }
    }
}

/// The error the checker reports for a program: structs, then comptime
/// constants, then signatures, then bodies.
pub open spec fn program_fault(t: Tables, vars: Seq<(String, Type)>, depth: nat, p: Program) -> Fault {
    let t0 = with_enums(t, p.enums@);
    match with_structs(t0, p.structs@) {
        Err(_) => with_structs_fault(t0, p.structs@),
        Ok(t1) => match with_comptimes(t1, vars, p.comptimes@) {
            Err(_) => with_comptimes_fault(t1, vars, p.comptimes@),
            Ok((t2, v2)) => match with_fns(t2, p.functions@) {
                Err(_) => with_fns_fault(t2, p.functions@),
                Ok(t3) => funcs_fault(t3, v2, depth, p.functions@),
            },
        },
    }
}

// ── Privacy ──────────────────────────────────────────────

/// Privacy across modules: in a function of the main module, a call of a
/// function that its own module keeps private is refused, with the message
/// that says so at the call; in a function that was itself imported, the
/// same call is judged by its arguments alone.
pub proof fn lemma_private_call(
    t: Tables,
    f: Function,
    rt: Type,
    vars: Seq<(String, Type)>,
    name: String,
    args: Vec<Expr>,
    span: Span,
)
    requires
        name@ != "print"@,
        fn_sig(t, name@) is Some,
        has_name(t.privates, name@),
    ensures
        !has_name(t.imported, f.name@) ==> {
            &&& expr_type(fn_ctx(t, f, rt), vars, Expr::Call { name, args, span }) is Err
            &&& expr_fault(fn_ctx(t, f, rt), vars, Expr::Call { name, args, span }) == at(
                "function '"@ + name@ + "' is private in its module"@,
                span,
            )
        },
        has_name(t.imported, f.name@) ==> (expr_type(fn_ctx(t, f, rt), vars, Expr::Call { name, args, span }) is Ok
            <==> (args@.len() == fn_sig(t, name@)->Some_0.params.len() && args_ok(
            fn_ctx(t, f, rt),
            vars,
            args@,
            fn_sig(t, name@)->Some_0.params,
        ) || len_of_array(fn_ctx(t, f, rt), vars, name@, args@))),
{
}

/// `break` and `continue` are accepted exactly inside a loop (at a loop
/// depth above 0), where they leave the variables as they are; outside
/// every loop they are refused with a message naming the statement, at its
/// span.
pub proof fn lemma_loop_exits(c: Ctx, vars: Seq<(String, Type)>, depth: nat, span: Span)
    ensures
        stmt_check(c, vars, depth, Stmt::Break { span }) == (if depth > 0 {
            Ok::<Seq<(String, Type)>, ()>(vars)
        } else {
            Err::<Seq<(String, Type)>, ()>(())
        }),
        stmt_check(c, vars, depth, Stmt::Continue { span }) == (if depth > 0 {
            Ok::<Seq<(String, Type)>, ()>(vars)
        } else {
            Err::<Seq<(String, Type)>, ()>(())
        }),
        depth == 0 ==> stmt_fault(c, vars, depth, Stmt::Break { span }) == at("break outside of loop"@, span),
        depth == 0 ==> stmt_fault(c, vars, depth, Stmt::Continue { span }) == at("continue outside of loop"@, span),
{
}

/// The body of a `while` whose condition is a `bool` is checked one loop
/// deeper than the loop itself, and the loop is accepted exactly when its
/// body is; so a `break` or `continue` anywhere in it is inside a loop.
pub proof fn lemma_while_body_depth(c: Ctx, vars: Seq<(String, Type)>, depth: nat, condition: Expr, body: Block, span: Span)
    requires
        expr_type(c, vars, condition) == Ok::<Type, ()>(Type::Bool),
    ensures
        stmt_check(c, vars, depth, Stmt::While { condition, body, span }) == block_check(c, vars, depth + 1, body),
{
}

/// Casts: with an operand of type `from`, `e as target` has the named type
/// `to` exactly when the pair is one of `i64` to `str`, `i64` to `bool`,
/// `bool` to `i64` and `str` to `i64`; an unknown target is refused as
/// unknown, a known one outside these pairs as a cast that cannot be made
/// (so no type casts to itself).
pub proof fn lemma_cast_rule(c: Ctx, vars: Seq<(String, Type)>, operand: Expr, target: String, span: Span)
    requires
        expr_type(c, vars, operand) is Ok,
    ensures
        ({
            let e = Expr::Cast { expr: Box::new(operand), target, span };
            let from = expr_type(c, vars, operand)->Ok_0;
            &&& expr_type(c, vars, e) is Ok <==> (type_named(target@) matches Some(to) && cast_ok(from, to))
            &&& expr_type(c, vars, e) is Ok ==> expr_type(c, vars, e) == Ok::<Type, ()>(type_named(target@)->Some_0)
            &&& (cast_ok(from, type_named(target@)->Some_0) <==> (from == Type::I64 && type_named(target@)->Some_0 == Type::Str)
                || (from == Type::I64 && type_named(target@)->Some_0 == Type::Bool) || (from == Type::Bool
                && type_named(target@)->Some_0 == Type::I64) || (from == Type::Str && type_named(target@)->Some_0
                == Type::I64))
            &&& type_named(target@) is None ==> expr_fault(c, vars, e) == at(
                "unknown cast target type '"@ + target@ + "'"@,
                span,
            )
            &&& (type_named(target@) matches Some(to) && !cast_ok(from, to)) ==> expr_fault(c, vars, e) == at(
                "cannot cast '"@ + type_text(from) + "' to '"@ + type_text(type_named(target@)->Some_0) + "'"@,
                span,
            )
            &&& !cast_ok(from, from)
        }),
{
}

/// The types of binary operations: with two `i64` operands, `+`, `-`,
/// `*`, `/` and `%` give an `i64` and `<`, `>`, `<=`, `>=`, `==`, `!=` give
/// a `bool`, while `&&` and `||` are refused; with two `bool` operands,
/// `&&`, `||`, `==` and `!=` give a `bool` and the others are refused; two
/// strings can only be compared for (in)equality; an `i64` and a `bool`
/// never combine; an ill-typed operand makes the operation ill typed.
pub proof fn lemma_operator_types(c: Ctx, vars: Seq<(String, Type)>, op: BinOp, left: Expr, right: Expr, span: Span)
    ensures
        (expr_type(c, vars, left) == Ok::<Type, ()>(Type::I64) && expr_type(c, vars, right) == Ok::<Type, ()>(Type::I64))
            ==> {
            let e = Expr::BinaryOp { op, left: Box::new(left), right: Box::new(right), span };
            &&& (op == BinOp::Add || op == BinOp::Sub || op == BinOp::Mul || op == BinOp::Div || op == BinOp::Mod)
                ==> expr_type(c, vars, e) == Ok::<Type, ()>(Type::I64)
            &&& (op == BinOp::Lt || op == BinOp::Gt || op == BinOp::Lte || op == BinOp::Gte || op == BinOp::Eq || op
                == BinOp::Neq) ==> expr_type(c, vars, e) == Ok::<Type, ()>(Type::Bool)
            &&& (op == BinOp::And || op == BinOp::Or) ==> expr_type(c, vars, e) is Err
        },
        (expr_type(c, vars, left) == Ok::<Type, ()>(Type::Bool) && expr_type(c, vars, right) == Ok::<Type, ()>(Type::Bool))
            ==> {
            let e = Expr::BinaryOp { op, left: Box::new(left), right: Box::new(right), span };
            &&& (op == BinOp::And || op == BinOp::Or || op == BinOp::Eq || op == BinOp::Neq) ==> expr_type(c, vars, e)
                == Ok::<Type, ()>(Type::Bool)
            &&& (op == BinOp::Add || op == BinOp::Sub || op == BinOp::Mul || op == BinOp::Div || op == BinOp::Mod
                || op == BinOp::Lt || op == BinOp::Gt || op == BinOp::Lte || op == BinOp::Gte) ==> expr_type(c, vars, e) is Err
        },
        (expr_type(c, vars, left) == Ok::<Type, ()>(Type::Str) && expr_type(c, vars, right) == Ok::<Type, ()>(Type::Str))
            ==> {
            let e = Expr::BinaryOp { op, left: Box::new(left), right: Box::new(right), span };
            &&& (op == BinOp::Eq || op == BinOp::Neq) ==> expr_type(c, vars, e) == Ok::<Type, ()>(Type::Bool)
            &&& !(op == BinOp::Eq || op == BinOp::Neq) ==> expr_type(c, vars, e) is Err
        },
        (expr_type(c, vars, left) == Ok::<Type, ()>(Type::I64) && expr_type(c, vars, right) == Ok::<Type, ()>(Type::Bool))
            ==> expr_type(c, vars, Expr::BinaryOp { op, left: Box::new(left), right: Box::new(right), span }) is Err,
        (expr_type(c, vars, left) == Ok::<Type, ()>(Type::Bool) && expr_type(c, vars, right) == Ok::<Type, ()>(Type::I64))
            ==> expr_type(c, vars, Expr::BinaryOp { op, left: Box::new(left), right: Box::new(right), span }) is Err,
        expr_type(c, vars, left) is Err || expr_type(c, vars, right) is Err ==> expr_type(
            c,
            vars,
            Expr::BinaryOp { op, left: Box::new(left), right: Box::new(right), span },
        ) is Err,
{
}

/// The types of unary operations: `-` takes an `i64` to an `i64` and `!` a
/// `bool` to a `bool`; any other operand is refused.
pub proof fn lemma_unary_types(c: Ctx, vars: Seq<(String, Type)>, op: UnaryOp, operand: Expr, span: Span)
    ensures
        expr_type(c, vars, Expr::UnaryOp { op, operand: Box::new(operand), span }) == (match (op, expr_type(c, vars, operand)) {
            (UnaryOp::Neg, Ok(Type::I64)) => Ok::<Type, ()>(Type::I64),
            (UnaryOp::Not, Ok(Type::Bool)) => Ok::<Type, ()>(Type::Bool),
            _ => Err::<Type, ()>(()),
        }),
{
}

} // verus!
