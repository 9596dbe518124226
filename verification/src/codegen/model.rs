//! What the code generator needs to find while it emits a program, as
//! mathematical values: the tables built from the program, the frame of the
//! function being emitted, and when every lookup the generator makes succeeds.

use vstd::prelude::*;
use crate::ast::{BinOp, Block, ComptimeDef, EnumDef, Expr, Function, MatchArm, Param, Pattern, Program, Stmt, StructDef, UnaryOp};
use crate::sema::rules::{comptime_value, flag, lookup};
use crate::codegen::grows;
use crate::text::{int_text, nat_text};
use crate::error::Span;

verus! {

/// The runtime type tag that decides how a value is printed or passed on.
#[derive(Debug, Clone, Copy, PartialEq, Eq, Structural)]
pub enum ValType {
    Int,
    Bool,
    Str,
    Void,
}

/// A local variable's stack slot.
pub struct LocalVar {
    /// Offset from `%rbp` of the slot (of the first element or field).
    pub offset: i64,
    pub ty: ValType,
    /// The length of a fixed-size array, 0 for a scalar.
    pub array_len: usize,
    /// The struct a struct variable holds.
    pub struct_name: Option<String>,
}

/// The value for the latest entry named `k`.
pub open spec fn find<V>(t: Seq<(Seq<char>, V)>, k: Seq<char>) -> Option<V>
    decreases t.len(),
{
    if t.len() == 0 {
        None
    } else if t.last().0 == k {
        Some(t.last().1)
    } else {
        find(t.drop_last(), k)
    }
}

/// The index of the first entry named `k`.
pub open spec fn position<V>(t: Seq<(Seq<char>, V)>, k: Seq<char>) -> Option<nat>
    decreases t.len(),
{
    if t.len() == 0 {
        None
    } else if t[0].0 == k {
        Some(0)
    } else {
        match position(t.drop_first(), k) {
            Some(i) => Some(i + 1),
            None => None,
        }
    }
}

/// The tables the generator builds from the whole program.
pub struct GenEnv {
    /// `Enum::Variant` → discriminant.
    pub enums: Seq<(Seq<char>, i64)>,
    /// Struct name → fields with their types, in order.
    pub structs: Seq<(Seq<char>, Seq<(Seq<char>, ValType)>)>,
    /// Comptime constant → value.
    pub comptimes: Seq<(Seq<char>, i64)>,
    /// Function name → return type.
    pub rets: Seq<(Seq<char>, ValType)>,
}

/// The state of the function being emitted.
pub struct Frame {
    /// Locals by name (later entries shadow earlier ones).
    pub locals: Seq<(Seq<char>, LocalVar)>,
    /// The lowest stack offset in use.
    pub offset: int,
    /// Deferred expressions, in the order they were deferred.
    pub deferred: Seq<Expr>,
}

/// The `ValType` a type name denotes (anything unknown is an integer).
pub open spec fn val_type_named(n: Seq<char>) -> ValType {
    if n == "i64"@ {
        ValType::Int
    } else if n == "bool"@ {
        ValType::Bool
    } else if n == "str"@ {
        ValType::Str
    } else {
        ValType::Int
    }
}

/// The `Enum::Variant` key of an enum variant.
pub open spec fn variant_key(e: Seq<char>, v: Seq<char>) -> Seq<char> {
    e + "::"@ + v
}

/// The runtime type of an expression, for choosing how to print or cast it.
pub open spec fn infer(env: GenEnv, locals: Seq<(Seq<char>, LocalVar)>, e: Expr) -> ValType
    decreases e,
{
    match e {
        Expr::IntLit { .. } => ValType::Int,
        Expr::BoolLit { .. } => ValType::Bool,
        Expr::StringLit { .. } => ValType::Str,
        Expr::Ident { name, .. } => match find(locals, name@) {
            Some(l) => l.ty,
            None => ValType::Int,
        },
        Expr::UnaryOp { op, .. } => match op {
            UnaryOp::Neg => ValType::Int,
            UnaryOp::Not => ValType::Bool,
        },
        Expr::BinaryOp { op, left, .. } => match op {
            BinOp::Add => if infer(env, locals, *left) == ValType::Str {
                ValType::Str
            } else {
                ValType::Int
            },
            BinOp::Sub | BinOp::Mul | BinOp::Div | BinOp::Mod => ValType::Int,
            _ => ValType::Bool,
        },
        Expr::Call { name, .. } => {
            if name@ == "print"@ {
                ValType::Void
            } else if name@ == "len"@ {
                ValType::Int
            } else {
                match find(env.rets, name@) {
                    Some(t) => t,
                    None => ValType::Int,
                }
            }
        },
        Expr::ArrayLit { .. } => ValType::Int,
        Expr::Index { object, .. } => match *object {
            Expr::Ident { name, .. } => match find(locals, name@) {
                Some(l) => l.ty,
                None => ValType::Int,
            },
            _ => ValType::Int,
        },
        Expr::EnumVariant { .. } => ValType::Int,
        Expr::StructLit { .. } => ValType::Int,
        Expr::FieldAccess { object, field, .. } => match *object {
            Expr::Ident { name, .. } => match find(locals, name@) {
                Some(l) => match l.struct_name {
                    Some(sn) => match find(env.structs, sn@) {
                        Some(fs) => match position(fs, field@) {
                            Some(i) => fs[i as int].1,
                            None => ValType::Int,
                        },
                        None => ValType::Int,
                    },
                    None => ValType::Int,
                },
                None => ValType::Int,
            },
            _ => ValType::Int,
        },
        Expr::Try { expr, .. } => infer(env, locals, *expr),
        Expr::Cast { target, .. } => val_type_named(target@),
    }
}

/// How many arguments a built-in generates code for (`None`: not a built-in
/// with fixed code; `print` and `len` are built-ins of one argument).
pub open spec fn builtin_arity(n: Seq<char>) -> Option<nat> {
    if n == "print"@ || n == "abs"@ || n == "to_str"@ || n == "parse_int"@ || n == "read_file"@ || n
        == "file_exists"@ || n == "eprint"@ || n == "exit"@ || n == "sleep"@ || n == "trim"@ || n
        == "alloc"@ || n == "free"@ {
        Some(1)
    } else if n == "min"@ || n == "max"@ || n == "pow"@ || n == "char_at"@ || n == "contains"@ || n
        == "starts_with"@ || n == "write_file"@ {
        Some(2)
    } else if n == "substr"@ {
        Some(3)
    } else if n == "rand"@ || n == "read_line"@ || n == "time"@ {
        Some(0)
    } else {
        None
    }
}

/// `e` names a local array (whose length is known when emitting `len`).
pub open spec fn is_local_array(locals: Seq<(Seq<char>, LocalVar)>, e: Expr) -> bool {
    match e {
        Expr::Ident { name, .. } => match find(locals, name@) {
            Some(l) => l.array_len > 0,
            None => false,
        },
        _ => false,
    }
}

/// Whether emitting `e` reaches a `try` (which emits the deferred
/// expressions): operands that produce no code are not counted.
pub open spec fn emits_try(locals: Seq<(Seq<char>, LocalVar)>, e: Expr) -> bool
    decreases e,
{
    match e {
        Expr::UnaryOp { operand, .. } => emits_try(locals, *operand),
        Expr::BinaryOp { left, right, .. } => emits_try(locals, *left) || emits_try(locals, *right),
        Expr::Call { name, args, .. } => {
            if name@ == "len"@ {
                args.len() >= 1 && !is_local_array(locals, args@[0]) && emits_try(locals, args@[0])
            } else {
                match builtin_arity(name@) {
                    Some(k) => (k >= 1 && args.len() >= 1 && emits_try(locals, args@[0])) || (k >= 2 && args.len()
                        >= 2 && emits_try(locals, args@[1])) || (k >= 3 && args.len() >= 3 && emits_try(
                        locals,
                        args@[2],
                    )),
                    None => exprs_emit_try(locals, args@),
                }
            }
        },
        Expr::Index { index, .. } => emits_try(locals, *index),
        Expr::Try { .. } => true,
        Expr::Cast { expr, .. } => emits_try(locals, *expr),
        _ => false,
    }
}

pub open spec fn exprs_emit_try(locals: Seq<(Seq<char>, LocalVar)>, es: Seq<Expr>) -> bool
    decreases es,
{
    es.len() > 0 && (exprs_emit_try(locals, es.drop_last()) || emits_try(locals, es.last()))
}

pub open spec fn inits_emit_try(locals: Seq<(Seq<char>, LocalVar)>, fs: Seq<(String, Expr)>) -> bool
    decreases fs,
{
    fs.len() > 0 && (inits_emit_try(locals, fs.drop_last()) || emits_try(locals, fs.last().1))
}

/// Every lookup made while emitting `e` succeeds.
pub open spec fn expr_ok(env: GenEnv, locals: Seq<(Seq<char>, LocalVar)>, e: Expr) -> bool
    decreases e,
{
    match e {
        Expr::Ident { name, .. } => find(env.comptimes, name@) is Some || find(locals, name@) is Some,
        Expr::UnaryOp { operand, .. } => expr_ok(env, locals, *operand),
        Expr::BinaryOp { left, right, .. } => expr_ok(env, locals, *left) && expr_ok(
            env,
            locals,
            *right,
        ),
        Expr::Call { name, args, .. } => {
            if name@ == "len"@ {
                args.len() >= 1 && (is_local_array(locals, args@[0]) || expr_ok(env, locals, args@[0]))
            } else {
                match builtin_arity(name@) {
                    Some(k) => args.len() >= k && (k >= 1 ==> expr_ok(env, locals, args@[0])) && (k >= 2
                        ==> expr_ok(env, locals, args@[1])) && (k >= 3 ==> expr_ok(
                        env,
                        locals,
                        args@[2],
                    )),
                    None => exprs_ok(env, locals, args@),
                }
            }
        },
        Expr::Index { object, index, .. } => expr_ok(env, locals, *index) && match *object {
            Expr::Ident { name, .. } => find(locals, name@) is Some,
            _ => true,
        },
        Expr::EnumVariant { enum_name, variant, .. } => find(env.enums, variant_key(enum_name@, variant@)) is Some,
        Expr::FieldAccess { object, field, .. } => match *object {
            Expr::Ident { name, .. } => field_slot(env, locals, name@, field@) is Some,
            _ => true,
        },
        Expr::Try { expr, .. } => expr_ok(env, locals, *expr),
        Expr::Cast { expr, .. } => expr_ok(env, locals, *expr),
        _ => true,
    }
}

pub open spec fn exprs_ok(env: GenEnv, locals: Seq<(Seq<char>, LocalVar)>, es: Seq<Expr>) -> bool
    decreases es,
{
    es.len() == 0 || (exprs_ok(env, locals, es.drop_last()) && expr_ok(env, locals, es.last()))
}

/// Deferred expressions can be emitted with the locals `locals`: none
/// reaches a `try`, and every lookup in them succeeds.
pub open spec fn deferred_ok(env: GenEnv, locals: Seq<(Seq<char>, LocalVar)>, ds: Seq<Expr>) -> bool {
    forall|i: int| 0 <= i < ds.len() ==> !emits_try(locals, #[trigger] ds[i]) && expr_ok(env, locals, ds[i])
}

/// The local struct variable `name` and the index of its field `field`.
pub open spec fn field_slot(env: GenEnv, locals: Seq<(Seq<char>, LocalVar)>, name: Seq<char>, field: Seq<char>) -> Option<(LocalVar, nat)> {
    match find(locals, name) {
        Some(l) => match l.struct_name {
            Some(sn) => match find(env.structs, sn@) {
                Some(fs) => match position(fs, field) {
                    Some(i) => Some((l, i)),
                    None => None,
                },
                None => None,
            },
            None => None,
        },
        None => None,
    }
}

/// Every field of a struct literal is declared.
pub open spec fn inits_ok(
    env: GenEnv,
    locals: Seq<(Seq<char>, LocalVar)>,
    declared: Seq<(Seq<char>, ValType)>,
    fs: Seq<(String, Expr)>,
) -> bool
    decreases fs,
{
    fs.len() == 0 || (inits_ok(env, locals, declared, fs.drop_last()) && position(declared, fs.last().0@)
        is Some && expr_ok(env, locals, fs.last().1))
}

/// Emitting `e` in frame `fr` makes only lookups that succeed; where it
/// holds `try`, the deferred expressions are emitted too.
pub open spec fn emit_ok(env: GenEnv, fr: Frame, e: Expr) -> bool {
    expr_ok(env, fr.locals, e) && (emits_try(fr.locals, e) ==> deferred_ok(env, fr.locals, fr.deferred))
}

/// A new scalar local named `name` below the frame's lowest slot.
pub open spec fn new_slot(fr: Frame, name: Seq<char>, ty: ValType) -> Option<Frame> {
    let o = fr.offset - 8;
    if o < i64::MIN {
        None
    } else {
        Some(
            Frame {
                locals: fr.locals.push((name, LocalVar { offset: o as i64, ty, array_len: 0, struct_name: None })),
                offset: o,
                deferred: fr.deferred,
            },
        )
    }
}

/// The frame after emitting a statement, or `None` when a lookup fails or
/// the stack offset leaves the range of `i64`.
pub open spec fn stmt_gen(env: GenEnv, fr: Frame, s: Stmt) -> Option<Frame>
    decreases s,
{
    match s {
        Stmt::Let { name, value, .. } => match value {
            Expr::ArrayLit { elements, .. } => {
                let base = fr.offset - 8 * elements@.len();
                if base < i64::MIN {
                    None
                } else {
                    let ls = fr.locals.push(
                        (
                            name@,
                            LocalVar {
                                offset: base as i64,
                                ty: ValType::Int,
                                array_len: elements@.len() as usize,
                                struct_name: None,
                            },
                        ),
                    );
                    if exprs_ok(env, ls, elements@) && (exprs_emit_try(ls, elements@) ==> deferred_ok(env, ls, fr.deferred)) {
                        Some(Frame { locals: ls, offset: base, deferred: fr.deferred })
                    } else {
                        None
                    }
                }
            },
            Expr::StructLit { name: sn, fields, .. } => match find(env.structs, sn@) {
                Some(info) => {
                    let base = fr.offset - 8 * info.len();
                    if base < i64::MIN {
                        None
                    } else {
                        let ls = fr.locals.push(
                            (
                                name@,
                                LocalVar { offset: base as i64, ty: ValType::Int, array_len: 0, struct_name: Some(sn) },
                            ),
                        );
                        if inits_ok(env, ls, info, fields@) && (inits_emit_try(ls, fields@) ==> deferred_ok(env, ls, fr.deferred)) {
                            Some(Frame { locals: ls, offset: base, deferred: fr.deferred })
                        } else {
                            None
                        }
                    }
                },
                None => None,
            },
            _ => if emit_ok(env, fr, value) {
                new_slot(fr, name@, infer(env, fr.locals, value))
            } else {
                None
            },
        },
        Stmt::Assign { name, value, .. } => if emit_ok(env, fr, value) && find(
            fr.locals,
            name@,
        ) is Some {
            Some(fr)
        } else {
            None
        },
        Stmt::IndexAssign { object, index, value, .. } => if emit_ok(env, fr, value) && emit_ok(env, fr, index) && find(fr.locals, object@) is Some {
            Some(fr)
        } else {
            None
        },
        Stmt::FieldAssign { object, field, value, .. } => if emit_ok(env, fr, value)
            && field_slot(env, fr.locals, object@, field@) is Some {
            Some(fr)
        } else {
            None
        },
        Stmt::Return { value, .. } => if match value {
            Some(v) => emit_ok(env, fr, v),
            None => true,
        } && deferred_ok(env, fr.locals, fr.deferred) {
            Some(fr)
        } else {
            None
        },
        Stmt::Defer { expr, .. } => Some(Frame { deferred: fr.deferred.push(expr), ..fr }),
        Stmt::Fail { message, .. } => if emit_ok(env, fr, message) && deferred_ok(
            env,
            fr.locals,
            fr.deferred,
        ) {
            Some(fr)
        } else {
            None
        },
        Stmt::Expr { expr, .. } => if emit_ok(env, fr, expr) {
            Some(fr)
        } else {
            None
        },
        Stmt::TailExpr { expr, .. } => if emit_ok(env, fr, expr) && deferred_ok(
            env,
            fr.locals,
            fr.deferred,
        ) {
            Some(fr)
        } else {
            None
        },
        Stmt::If { condition, then_block, else_block, .. } => if emit_ok(env, fr, condition) {
            match block_gen(env, fr, then_block) {
                Some(f1) => match else_block {
                    Some(eb) => block_gen(env, f1, eb),
                    None => Some(f1),
                },
                None => None,
            }
        } else {
            None
        },
        Stmt::While { condition, body, .. } => if emit_ok(env, fr, condition) {
            block_gen(env, fr, body)
        } else {
            None
        },
        Stmt::For { var, start, end, body, .. } => if emit_ok(env, fr, start) {
            match new_slot(fr, var@, ValType::Int) {
                Some(f1) => if emit_ok(env, f1, end) {
                    match new_slot(f1, "__for_end"@, ValType::Int) {
                        Some(f2) => block_gen(env, f2, body),
                        None => None,
                    }
                } else {
                    None
                },
                None => None,
            }
        } else {
            None
        },
        Stmt::Break { .. } => Some(fr),
        Stmt::Continue { .. } => Some(fr),
        Stmt::Match { subject, arms, .. } => if emit_ok(env, fr, subject) {
            arms_gen(env, fr, arms@)
        } else {
            None
        },
    }
}

pub open spec fn block_gen(env: GenEnv, fr: Frame, b: Block) -> Option<Frame>
    decreases b,
{
    stmts_gen(env, fr, b.stmts@)
}

pub open spec fn stmts_gen(env: GenEnv, fr: Frame, ss: Seq<Stmt>) -> Option<Frame>
    decreases ss,
{
    if ss.len() == 0 {
        Some(fr)
    } else {
        match stmts_gen(env, fr, ss.drop_last()) {
            Some(f1) => stmt_gen(env, f1, ss.last()),
            None => None,
        }
    }
}

/// A match arm's pattern can be emitted (an enum variant must be known).
pub open spec fn pattern_gen_ok(env: GenEnv, p: Pattern) -> bool {
    match p {
        Pattern::EnumVariant(en, v, _) => find(env.enums, variant_key(en@, v@)) is Some,
        _ => true,
    }
}

pub open spec fn arms_gen(env: GenEnv, fr: Frame, arms: Seq<MatchArm>) -> Option<Frame>
    decreases arms,
{
    if arms.len() == 0 {
        Some(fr)
    } else {
        match arms_gen(env, fr, arms.drop_last()) {
            Some(f1) => if pattern_gen_ok(env, arms.last().pattern) {
                block_gen(env, f1, arms.last().body)
            } else {
                None
            },
            None => None,
        }
    }
}

// ── Counting stack slots ─────────────────────────────────

/// The slots the frame reserves for the locals declared in a block.
pub open spec fn block_slots(b: Block) -> nat
    decreases b,
{
    stmts_slots(b.stmts@)
}

pub open spec fn stmts_slots(ss: Seq<Stmt>) -> nat
    decreases ss,
{
    if ss.len() == 0 {
        0
    } else {
        stmts_slots(ss.drop_last()) + stmt_slots(ss.last())
    }
}

pub open spec fn stmt_slots(s: Stmt) -> nat
    decreases s,
{
    match s {
        Stmt::Let { value, .. } => match value {
            Expr::ArrayLit { elements, .. } => elements@.len(),
            Expr::StructLit { fields, .. } => fields@.len(),
            _ => 1,
        },
        Stmt::If { then_block, else_block, .. } => block_slots(then_block) + match else_block {
            Some(eb) => block_slots(eb),
            None => 0,
        },
        Stmt::While { body, .. } => block_slots(body),
        Stmt::For { body, .. } => 2 + block_slots(body),
        Stmt::Match { arms, .. } => arms_slots(arms@),
        _ => 0,
    }
}

pub open spec fn arms_slots(arms: Seq<MatchArm>) -> nat
    decreases arms,
{
    if arms.len() == 0 {
        0
    } else {
        arms_slots(arms.drop_last()) + block_slots(arms.last().body)
    }
}

/// The slots of a function: its parameters and every local of its body.
pub open spec fn function_slots(f: Function) -> nat {
    f.params@.len() + block_slots(f.body)
}

/// `n` rounded up to a multiple of 16.
pub open spec fn round16(n: int) -> int {
    n + (16 - n % 16) % 16
}

/// The frame size of a function: its slots plus 32 bytes of shadow space,
/// rounded up to 16.
pub open spec fn frame_size(f: Function) -> int {
    round16((8 * function_slots(f) + 32) as int)
}

// ── Functions and programs ───────────────────────────────

/// The frame after the parameters of a function are stored.
pub open spec fn params_frame(fr: Frame, ps: Seq<Param>) -> Option<Frame>
    decreases ps.len(),
{
    if ps.len() == 0 {
        Some(fr)
    } else {
        match params_frame(fr, ps.drop_last()) {
            Some(f1) => new_slot(f1, ps.last().name@, val_type_named(ps.last().ty_name@)),
            None => None,
        }
    }
}

/// The frame of a function when its whole body has been emitted, or `None`
/// when emitting it fails: a lookup fails, or its frame does not fit.
pub open spec fn func_gen(env: GenEnv, f: Function) -> Option<Frame> {
    if function_slots(f) > usize::MAX || 8 * function_slots(f) + 32 + 15 > i64::MAX {
        None
    } else {
        match params_frame(Frame { locals: Seq::empty(), offset: 0, deferred: Seq::empty() }, f.params@) {
            Some(f1) => match block_gen(env, f1, f.body) {
                Some(f2) => if deferred_ok(env, f2.locals, f2.deferred) {
                    Some(f2)
                } else {
                    None
                },
                None => None,
            },
            None => None,
        }
    }
}

/// The `Enum::Variant` keys of one enum with their discriminants.
pub open spec fn variant_entries(e: EnumDef) -> Seq<(Seq<char>, i64)> {
    Seq::new(e.variants@.len(), |i: int| (variant_key(e.name@, e.variants@[i]@), i as i64))
}

pub open spec fn enum_entries(es: Seq<EnumDef>) -> Seq<(Seq<char>, i64)>
    decreases es.len(),
{
    if es.len() == 0 {
        Seq::empty()
    } else {
        enum_entries(es.drop_last()) + variant_entries(es.last())
    }
}

pub open spec fn struct_entry(s: StructDef) -> (Seq<char>, Seq<(Seq<char>, ValType)>) {
    (s.name@, s.fields@.map_values(|f: crate::ast::StructField| (f.name@, val_type_named(f.ty_name@))))
}

/// A comptime constant's value as the generator computes it: unknown names
/// are 0, division or remainder by 0 is 0, arithmetic wraps.
pub open spec fn const_value(known: Seq<(Seq<char>, i64)>, e: Expr) -> i64
    decreases e,
{
    match e {
        Expr::IntLit { value, .. } => value,
        Expr::BoolLit { value, .. } => flag(value),
        Expr::Ident { name, .. } => match find(known, name@) {
            Some(v) => v,
            None => 0,
        },
        Expr::UnaryOp { op, operand, .. } => {
            let v = const_value(known, *operand);
            match op {
                UnaryOp::Neg => 0i64.wrapping_sub(v),
                UnaryOp::Not => flag(v == 0),
            }
        },
        Expr::BinaryOp { op, left, right, .. } => {
            let l = const_value(known, *left);
            let r = const_value(known, *right);
            match op {
                BinOp::Add => l.wrapping_add(r),
                BinOp::Sub => l.wrapping_sub(r),
                BinOp::Mul => l.wrapping_mul(r),
                BinOp::Div => if r != 0 { crate::sema::rules::div_trunc(l, r) } else { 0 },
                BinOp::Mod => if r != 0 { crate::sema::rules::rem_trunc(l, r) } else { 0 },
                BinOp::Eq => flag(l == r),
                BinOp::Neq => flag(l != r),
                BinOp::Lt => flag(l < r),
                BinOp::Gt => flag(l > r),
                BinOp::Lte => flag(l <= r),
                BinOp::Gte => flag(l >= r),
                BinOp::And => flag(l != 0 && r != 0),
                BinOp::Or => flag(l != 0 || r != 0),
            }
        },
        _ => 0,
    }
}

pub open spec fn comptime_entries(cs: Seq<ComptimeDef>) -> Seq<(Seq<char>, i64)>
    decreases cs.len(),
{
    if cs.len() == 0 {
        Seq::empty()
    } else {
        let known = comptime_entries(cs.drop_last());
        known.push((cs.last().name@, const_value(known, cs.last().value)))
    }
}

/// The return types the generator registers: user functions, then the
/// built-ins (which shadow user functions of the same name).
pub open spec fn builtin_rets() -> Seq<(Seq<char>, ValType)> {
    seq![
        ("print"@, ValType::Void),
        ("len"@, ValType::Int),
        ("abs"@, ValType::Int),
        ("min"@, ValType::Int),
        ("max"@, ValType::Int),
        ("pow"@, ValType::Int),
        ("rand"@, ValType::Int),
        ("to_str"@, ValType::Str),
        ("parse_int"@, ValType::Int),
        ("char_at"@, ValType::Int),
        ("contains"@, ValType::Bool),
        ("starts_with"@, ValType::Bool),
        ("read_line"@, ValType::Str),
        ("read_file"@, ValType::Str),
        ("write_file"@, ValType::Void),
        ("file_exists"@, ValType::Bool),
        ("eprint"@, ValType::Void),
        ("exit"@, ValType::Void),
        ("time"@, ValType::Int),
        ("sleep"@, ValType::Void),
        ("substr"@, ValType::Str),
        ("trim"@, ValType::Str),
        ("alloc"@, ValType::Int),
        ("free"@, ValType::Void),
    ]
}

pub open spec fn return_entry(f: Function) -> (Seq<char>, ValType) {
    (
        f.name@,
        match f.return_type {
            Some(n) => val_type_named(n@),
            None => ValType::Void,
        },
    )
}

/// The tables the generator builds from a program.
pub open spec fn program_env(p: Program) -> GenEnv {
    GenEnv {
        enums: enum_entries(p.enums@),
        structs: p.structs@.map_values(|s: StructDef| struct_entry(s)),
        comptimes: comptime_entries(p.comptimes@),
        rets: p.functions@.map_values(|f: Function| return_entry(f)) + builtin_rets(),
    }
}

/// Every function of the program can be emitted.
pub open spec fn gen_ok(p: Program) -> bool {
    forall|i: int| 0 <= i < p.functions@.len() ==> (#[trigger] func_gen(program_env(p), p.functions@[i])) is Some
}


// ── The code of arithmetic expressions ───────────────────

/// One instruction line.
pub open spec fn asm_line(s: Seq<char>) -> Seq<char> {
    "    "@ + s + "\n"@
}

/// The code that turns RAX into the result of a unary operator.
pub open spec fn unary_code(op: UnaryOp) -> Seq<char> {
    match op {
        UnaryOp::Neg => asm_line("negq %rax"@),
        UnaryOp::Not => asm_line("testq %rax, %rax"@) + asm_line("sete %al"@) + asm_line("movzbq %al, %rax"@),
    }
}

/// A comparison of RAX with RCX whose flag `set` leaves its truth in RAX.
pub open spec fn compare_code(set: Seq<char>) -> Seq<char> {
    asm_line("cmpq %rcx, %rax"@) + asm_line(set) + asm_line("movzbq %al, %rax"@)
}

/// The code that combines RAX (left) and RCX (right) into RAX.
pub open spec fn binop_code(op: BinOp) -> Seq<char> {
    match op {
        BinOp::Add => asm_line("addq %rcx, %rax"@),
        BinOp::Sub => asm_line("subq %rcx, %rax"@),
        BinOp::Mul => asm_line("imulq %rcx, %rax"@),
        BinOp::Div => asm_line("cqto"@) + asm_line("idivq %rcx"@),
        BinOp::Mod => asm_line("cqto"@) + asm_line("idivq %rcx"@) + asm_line("movq %rdx, %rax"@),
        BinOp::Eq => compare_code("sete %al"@),
        BinOp::Neq => compare_code("setne %al"@),
        BinOp::Lt => compare_code("setl %al"@),
        BinOp::Gt => compare_code("setg %al"@),
        BinOp::Lte => compare_code("setle %al"@),
        BinOp::Gte => compare_code("setge %al"@),
        BinOp::And => asm_line("testq %rax, %rax"@) + asm_line("setne %al"@) + asm_line("testq %rcx, %rcx"@)
            + asm_line("setne %cl"@) + asm_line("andb %cl, %al"@) + asm_line("movzbq %al, %rax"@),
        BinOp::Or => asm_line("orq %rcx, %rax"@) + asm_line("testq %rax, %rax"@) + asm_line("setne %al"@)
            + asm_line("movzbq %al, %rax"@),
    }
}

/// After both operands of a string `+`: the right string in RDX, the left
/// one popped into RCX, and a call of the concatenation helper.
pub open spec fn concat_tail() -> Seq<char> {
    asm_line("movq %rax, %rdx"@) + asm_line("popq %rcx"@) + asm_line("subq $32, %rsp"@) + asm_line(
        "call __ferro_str_concat"@,
    ) + asm_line("addq $32, %rsp"@)
}

/// After both operands of another operator: the right value in RCX, the
/// left one popped into RAX, and the operator's code.
pub open spec fn op_tail(op: BinOp) -> Seq<char> {
    asm_line("movq %rax, %rcx"@) + asm_line("popq %rax"@) + binop_code(op)
}

/// The code of an expression made of literals, names, enum variants, field
/// reads of struct locals, array and struct literals (which produce no code
/// as operands) and operators, with the string literals it adds after the
/// `lits` already collected: each operand leaves its value in RAX, a left
/// operand is saved on the stack while the right one is computed, and `+`
/// on a string left operand calls the concatenation helper. `None` for an
/// expression holding a call, an index, a `try` or a cast, or a lookup that
/// fails.
pub open spec fn arith_code(env: GenEnv, locals: Seq<(Seq<char>, LocalVar)>, lits: nat, e: Expr) -> Option<(Seq<char>, Seq<String>)>
    decreases e,
{
    match e {
        Expr::IntLit { value, .. } => Some((asm_line("movq $"@ + int_text(value as int) + ", %rax"@), Seq::empty())),
        Expr::BoolLit { value, .. } => Some(
            (asm_line("movq $"@ + int_text(if value { 1 } else { 0 }) + ", %rax"@), Seq::empty()),
        ),
        Expr::StringLit { value, .. } => Some((asm_line("leaq .Lstr_"@ + nat_text(lits) + "(%rip), %rax"@), seq![value])),
        Expr::Ident { name, .. } => match find(env.comptimes, name@) {
            Some(v) => Some((asm_line("movq $"@ + int_text(v as int) + ", %rax"@), Seq::empty())),
            None => match find(locals, name@) {
                Some(l) => Some((asm_line("movq "@ + int_text(l.offset as int) + "(%rbp), %rax"@), Seq::empty())),
                None => None,
            },
        },
        Expr::EnumVariant { enum_name, variant, .. } => match find(env.enums, variant_key(enum_name@, variant@)) {
            Some(v) => Some((asm_line("movq $"@ + int_text(v as int) + ", %rax"@), Seq::empty())),
            None => None,
        },
        Expr::FieldAccess { object, field, .. } => match *object {
            Expr::Ident { name, .. } => match field_slot(env, locals, name@, field@) {
                Some((l, k)) => Some((asm_line("movq "@ + int_text(l.offset + 8 * k) + "(%rbp), %rax"@), Seq::empty())),
                None => None,
            },
            _ => Some((Seq::empty(), Seq::empty())),
        },
        Expr::ArrayLit { .. } => Some((Seq::empty(), Seq::empty())),
        Expr::StructLit { .. } => Some((Seq::empty(), Seq::empty())),
        Expr::UnaryOp { op, operand, .. } => match arith_code(env, locals, lits, *operand) {
            Some((c, ls)) => Some((c + unary_code(op), ls)),
            None => None,
        },
        Expr::BinaryOp { op, left, right, .. } => match arith_code(env, locals, lits, *left) {
            Some((lc, ll)) => match arith_code(env, locals, lits + ll.len(), *right) {
                Some((rc, rl)) => Some(
                    (
                        lc + asm_line("pushq %rax"@) + rc + if op == BinOp::Add && infer(env, locals, *left) == ValType::Str {
                            concat_tail()
                        } else {
                            op_tail(op)
                        },
                        ll + rl,
                    ),
                ),
                None => None,
            },
            None => None,
        },
        _ => None,
    }
}

/// An expression with arithmetic code makes only lookups that succeed and
/// reaches no `try`.
pub proof fn lemma_arith_ok(env: GenEnv, locals: Seq<(Seq<char>, LocalVar)>, lits: nat, e: Expr)
    ensures
        arith_code(env, locals, lits, e) is Some ==> expr_ok(env, locals, e) && !emits_try(locals, e),
    decreases e,
{
    match e {
        Expr::UnaryOp { operand, .. } => {
            lemma_arith_ok(env, locals, lits, *operand);
        },
        Expr::BinaryOp { left, right, .. } => {
            lemma_arith_ok(env, locals, lits, *left);
            match arith_code(env, locals, lits, *left) {
                Some((lc, ll)) => {
                    lemma_arith_ok(env, locals, lits + ll.len(), *right);
                },
                None => {},
            }
        },
        _ => {},
    }
}

/// Whether an expression has arithmetic code does not depend on how many
/// string literals were collected before it.
pub proof fn lemma_arith_some(env: GenEnv, locals: Seq<(Seq<char>, LocalVar)>, a: nat, b: nat, e: Expr)
    ensures
        arith_code(env, locals, a, e) is Some == arith_code(env, locals, b, e) is Some,
    decreases e,
{
    match e {
        Expr::UnaryOp { operand, .. } => {
            lemma_arith_some(env, locals, a, b, *operand);
        },
        Expr::BinaryOp { left, right, .. } => {
            lemma_arith_some(env, locals, a, b, *left);
            match (arith_code(env, locals, a, *left), arith_code(env, locals, b, *left)) {
                (Some((_, la)), Some((_, lb))) => {
                    lemma_arith_some(env, locals, a + la.len(), b + lb.len(), *right);
                },
                _ => {},
            }
        },
        _ => {},
    }
}

/// Instruction lines, each indented and ended.
pub open spec fn lines_text(ls: Seq<Seq<char>>) -> Seq<char>
    decreases ls.len(),
{
    if ls.len() == 0 {
        Seq::empty()
    } else {
        lines_text(ls.drop_last()) + asm_line(ls.last())
    }
}


/// The label counter after making one more label (it wraps around).
pub open spec fn next_count(c: usize) -> usize {
    if c == usize::MAX { 0 } else { (c + 1) as usize }
}

/// The label `.L<prefix>_<n>`.
pub open spec fn label_text(prefix: Seq<char>, n: nat) -> Seq<char> {
    ".L"@ + prefix + "_"@ + nat_text(n)
}

/// The shape of an `if`, made with label counter `c0`: the condition's code,
/// a jump to the else label when it is zero, the then block, a jump to the
/// end label, the else label, the else block (nothing without one) and the
/// end label.
pub open spec fn if_shape(cond: Seq<char>, then_text: Seq<char>, else_text: Seq<char>, c0: usize) -> Seq<char> {
    let l_else = label_text("else"@, next_count(c0) as nat);
    let l_end = label_text("endif"@, next_count(next_count(c0)) as nat);
    cond + asm_line("testq %rax, %rax"@) + asm_line("je "@ + l_else) + then_text + asm_line("jmp "@ + l_end) + l_else
        + ":\n"@ + else_text + l_end + ":\n"@
}

/// The shape of a `while`, made with label counter `c0`: the loop label, the
/// condition's code, a jump to the end label when it is zero, the body, a
/// jump back to the loop label and the end label.
pub open spec fn while_shape(cond: Seq<char>, body: Seq<char>, c0: usize) -> Seq<char> {
    let l_loop = label_text("while"@, next_count(c0) as nat);
    let l_end = label_text("endwhile"@, next_count(next_count(c0)) as nat);
    l_loop + ":\n"@ + cond + asm_line("testq %rax, %rax"@) + asm_line("je "@ + l_end) + body + asm_line("jmp "@ + l_loop)
        + l_end + ":\n"@
}

/// The code that prints RAX, a value of runtime type `ty`: an integer
/// through `printf` with the format literal numbered `n`, a string through
/// `puts`, a `bool` as the literal numbered `n` or `n + 1` (`true` or
/// `false`) through `puts`, with labels made with label counter `c`.
pub open spec fn print_code(ty: ValType, n: nat, c: usize) -> Seq<char> {
    match ty {
        ValType::Int => asm_line("movq %rax, %rdx"@) + asm_line("leaq .Lstr_"@ + nat_text(n) + "(%rip), "@ + "%rcx"@)
            + asm_line("call printf"@),
        ValType::Str => asm_line("movq %rax, %rcx"@) + asm_line("call puts"@),
        ValType::Bool => {
            let lf = label_text("pf"@, next_count(c) as nat);
            let le = label_text("pe"@, next_count(next_count(c)) as nat);
            asm_line("testq %rax, %rax"@) + asm_line("je "@ + lf) + asm_line(
                "leaq .Lstr_"@ + nat_text(n) + "(%rip), "@ + "%rcx"@,
            ) + asm_line("jmp "@ + le) + (lf + ":\n"@) + asm_line(
                "leaq .Lstr_"@ + nat_text(n + 1) + "(%rip), "@ + "%rcx"@,
            ) + (le + ":\n"@) + asm_line("call puts"@)
        },
        ValType::Void => Seq::empty(),
    }
}

/// The labels `continue` and `break` jump to inside a `while` made with
/// label counter `c0`: its loop label and its end label.
pub open spec fn while_labels(c0: usize) -> (Seq<char>, Seq<char>) {
    (label_text("while"@, next_count(c0) as nat), label_text("endwhile"@, next_count(next_count(c0)) as nat))
}

/// The labels `continue` and `break` jump to inside a `for` made with label
/// counter `c0`: its continue label and its end label.
pub open spec fn for_labels(c0: usize) -> (Seq<char>, Seq<char>) {
    (
        label_text("forcont"@, next_count(next_count(c0)) as nat),
        label_text("endfor"@, next_count(next_count(next_count(c0))) as nat),
    )
}

/// A call of a function of the program: neither `len` nor a built-in.
pub open spec fn is_user_call(name: Seq<char>) -> bool {
    name != "len"@ && builtin_arity(name) is None
}

/// The line that pops the `k`-th argument of a call into its register (the
/// first four go to registers, the others to RAX).
pub open spec fn pop_line(k: nat) -> Seq<char> {
    if k == 0 {
        asm_line("popq %rcx"@)
    } else if k == 1 {
        asm_line("popq %rdx"@)
    } else if k == 2 {
        asm_line("popq %r8"@)
    } else if k == 3 {
        asm_line("popq %r9"@)
    } else {
        asm_line("popq %rax"@)
    }
}

/// The pops of `k` pushed arguments, the last one first.
pub open spec fn pops_text(k: nat) -> Seq<char>
    decreases k,
{
    if k == 0 {
        Seq::empty()
    } else {
        pop_line((k - 1) as nat) + pops_text((k - 1) as nat)
    }
}

/// The code that ends a binary operation once the left operand is on the
/// stack and the right one in RAX: string `+` calls the concatenation
/// helper.
pub open spec fn binary_tail(env: GenEnv, locals: Seq<(Seq<char>, LocalVar)>, op: BinOp, left: Expr) -> Seq<char> {
    if op == BinOp::Add && infer(env, locals, left) == ValType::Str {
        concat_tail()
    } else {
        op_tail(op)
    }
}

/// The conversion of RAX, a value of runtime type `from`, to the type named
/// `target`: an integer to `bool` compares it with zero, an integer to
/// `str` formats it into a fresh buffer with the format literal numbered
/// `n`, a string to `i64` parses it; any other cast emits nothing.
pub open spec fn cast_code(from: ValType, target: Seq<char>, n: nat) -> Seq<char> {
    if from == ValType::Int && target == "bool"@ {
        asm_line("testq %rax, %rax"@) + asm_line("setne %al"@) + asm_line("movzbq %al, %rax"@)
    } else if from == ValType::Int && target == "str"@ {
        asm_line("pushq %rax"@) + asm_line("movq $24, %rcx"@) + asm_line("subq $32, %rsp"@) + asm_line("call malloc"@)
            + asm_line("addq $32, %rsp"@) + asm_line("pushq %rax"@) + asm_line("movq %rax, %rcx"@) + asm_line(
            "leaq .Lstr_"@ + nat_text(n) + "(%rip), "@ + "%rdx"@,
        ) + asm_line("movq 8(%rsp), %r8"@) + asm_line("subq $32, %rsp"@) + asm_line("call sprintf"@) + asm_line(
            "addq $32, %rsp"@,
        ) + asm_line("popq %rax"@) + asm_line("addq $8, %rsp"@)
    } else if from == ValType::Str && target == "i64"@ {
        asm_line("movq %rax, %rcx"@) + asm_line("call atoll"@)
    } else {
        Seq::empty()
    }
}

/// The shape of a `try` made with label counter `c`: its operand's text, a
/// jump past the return when the error flag in RDX is clear, the text `dt`
/// that runs the deferred expressions, the lines that leave the function
/// and the label.
pub open spec fn try_shape(it: Seq<char>, dt: Seq<char>, c: usize) -> Seq<char> {
    let l = label_text("try_ok"@, next_count(c) as nat);
    it + asm_line("testq %rdx, %rdx"@) + asm_line("je "@ + l) + dt + leave_text() + (l + ":\n"@)
}

/// The literal texts `ls` stand in the table `lits` from number `n` on.
pub open spec fn lits_at(lits: Seq<String>, n: nat, ls: Seq<Seq<char>>) -> bool {
    &&& n + ls.len() <= lits.len()
    &&& forall|k: int| 0 <= k < ls.len() ==> lits[n + k]@ == #[trigger] ls[k]
}

/// The texts of literals.
pub open spec fn texts(ls: Seq<String>) -> Seq<Seq<char>> {
    ls.map_values(|s: String| s@)
}

/// The literals a built-in of one argument loads: the format of `to_str`,
/// the mode of `file_exists`, the format of `eprint`.
pub open spec fn builtin1_lits(name: Seq<char>) -> Seq<Seq<char>> {
    if name == "to_str"@ {
        seq!["%lld"@]
    } else if name == "file_exists"@ {
        seq!["r"@]
    } else if name == "eprint"@ {
        seq!["%s\\n"@]
    } else {
        Seq::empty()
    }
}

/// The literals that printing a value of type `ty` loads: the integer
/// format, or the two words of a boolean.
pub open spec fn print_lits(ty: ValType) -> Seq<Seq<char>> {
    match ty {
        ValType::Int => seq!["%lld\\n"@],
        ValType::Bool => seq!["true"@, "false"@],
        _ => Seq::empty(),
    }
}

/// The literal a cast loads: the format that turns an integer into a string.
pub open spec fn cast_lits(from: ValType, target: Seq<char>) -> Seq<Seq<char>> {
    if from == ValType::Int && target == "str"@ {
        seq!["%lld"@]
    } else {
        Seq::empty()
    }
}

/// The line that loads the address of the string literal numbered `n`
/// into `reg`.
pub open spec fn lit_line(n: nat, reg: Seq<char>) -> Seq<char> {
    asm_line("leaq .Lstr_"@ + nat_text(n) + "(%rip), "@ + reg)
}

/// The code of a built-in of one argument (other than `print`), with the
/// argument in RAX, its literal numbered `n` and its labels made with label
/// counter `c`.
pub open spec fn builtin1_code(name: Seq<char>, n: nat, c: usize) -> Seq<char> {
    if name == "abs"@ {
        asm_line("movq %rax, %rcx"@) + asm_line("negq %rcx"@) + asm_line("testq %rax, %rax"@) + asm_line(
            "cmovlq %rcx, %rax"@,
        )
    } else if name == "to_str"@ {
        asm_line("movq %rax, %r8"@) + asm_line("subq $32, %rsp"@) + asm_line("movq %rsp, %rcx"@) + lit_line(n, "%rdx"@)
            + asm_line("call sprintf"@) + asm_line("movq %rsp, %rax"@)
    } else if name == "parse_int"@ {
        asm_line("movq %rax, %rcx"@) + asm_line("call atoll"@) + asm_line("xorl %edx, %edx"@)
    } else if name == "read_file"@ {
        asm_line("movq %rax, %rcx"@) + asm_line("call __ferro_read_file"@)
    } else if name == "file_exists"@ {
        let ly = label_text("fe_yes"@, next_count(c) as nat);
        let ld = label_text("fe_done"@, next_count(next_count(c)) as nat);
        asm_line("movq %rax, %rcx"@) + lit_line(n, "%rdx"@) + asm_line("call fopen"@) + asm_line("testq %rax, %rax"@)
            + asm_line("jnz "@ + ly) + asm_line("xorl %eax, %eax"@) + asm_line("jmp "@ + ld) + (ly + ":\n"@) + asm_line(
            "movq %rax, %rcx"@,
        ) + asm_line("call fclose"@) + asm_line("movq $1, %rax"@) + (ld + ":\n"@)
    } else if name == "eprint"@ {
        asm_line("movq %rax, %r8"@) + lit_line(n, "%rdx"@) + asm_line("pushq %rdx"@) + asm_line("pushq %r8"@) + asm_line(
            "movq $2, %rcx"@,
        ) + asm_line("call __acrt_iob_func"@) + asm_line("movq %rax, %rcx"@) + asm_line("popq %r8"@) + asm_line(
            "popq %rdx"@,
        ) + asm_line("call fprintf"@)
    } else if name == "exit"@ {
        asm_line("movq %rax, %rcx"@) + asm_line("call exit"@)
    } else if name == "sleep"@ {
        asm_line("movq %rax, %rcx"@) + asm_line("call Sleep"@)
    } else if name == "trim"@ {
        asm_line("movq %rax, %rcx"@) + asm_line("subq $32, %rsp"@) + asm_line("call __ferro_trim"@) + asm_line(
            "addq $32, %rsp"@,
        )
    } else if name == "alloc"@ {
        asm_line("movq %rax, %rcx"@) + asm_line("call malloc"@)
    } else if name == "free"@ {
        asm_line("movq %rax, %rcx"@) + asm_line("call free"@)
    } else {
        Seq::empty()
    }
}

/// The code of a built-in of two arguments other than `starts_with`, with
/// the first argument pushed and the second in RAX, its labels made with
/// label counter `c`.
pub open spec fn builtin2_code(name: Seq<char>, c: usize) -> Seq<char> {
    if name == "min"@ {
        asm_line("popq %rcx"@) + asm_line("cmpq %rax, %rcx"@) + asm_line("cmovlq %rcx, %rax"@)
    } else if name == "max"@ {
        asm_line("popq %rcx"@) + asm_line("cmpq %rax, %rcx"@) + asm_line("cmovgq %rcx, %rax"@)
    } else if name == "pow"@ {
        let ll = label_text("pow_loop"@, next_count(c) as nat);
        let ld = label_text("pow_done"@, next_count(next_count(c)) as nat);
        asm_line("movq %rax, %rcx"@) + asm_line("popq %rdx"@) + asm_line("movq $1, %rax"@) + (ll + ":\n"@) + asm_line(
            "testq %rcx, %rcx"@,
        ) + asm_line("jle "@ + ld) + asm_line("imulq %rdx, %rax"@) + asm_line("decq %rcx"@) + asm_line("jmp "@ + ll)
            + (ld + ":\n"@)
    } else if name == "char_at"@ {
        asm_line("movq %rax, %rcx"@) + asm_line("popq %rdx"@) + asm_line("movzbq (%rdx,%rcx,1), %rax"@)
    } else if name == "contains"@ {
        asm_line("movq %rax, %rdx"@) + asm_line("popq %rcx"@) + asm_line("call strstr"@) + asm_line("testq %rax, %rax"@)
            + asm_line("setne %al"@) + asm_line("movzbq %al, %rax"@)
    } else {
        asm_line("movq %rax, %rdx"@) + asm_line("popq %rcx"@) + asm_line("call __ferro_write_file"@)
    }
}

/// The code of `read_line()`, its labels made with label counter `c`:
/// `fgets` into a stack buffer, then a final line feed and carriage return
/// are cut off.
pub open spec fn read_line_code(c: usize) -> Seq<char> {
    read_line_head() + read_line_lf(c) + read_line_cr(c)
}

/// The part of `read_line()`'s code that cuts off a final line feed.
pub open spec fn read_line_lf(c: usize) -> Seq<char> {
    let l_skip = label_text("rl_skip"@, next_count(c) as nat);
    let l_nonl = label_text("rl_no_nl"@, next_count(next_count(c)) as nat);
    asm_line("jz "@ + l_skip) + asm_line("decq %rax"@) + asm_line("movq %rsp, %rcx"@) + asm_line(
        "cmpb $10, (%rcx,%rax,1)"@,
    ) + asm_line("jne "@ + l_nonl) + asm_line("movb $0, (%rcx,%rax,1)"@) + (l_nonl + ":\n"@)
}

/// The part of `read_line()`'s code that cuts off a final carriage return
/// and leaves the buffer's address in RAX.
pub open spec fn read_line_cr(c: usize) -> Seq<char> {
    let l_skip = label_text("rl_skip"@, next_count(c) as nat);
    let l_skipcr = label_text("rl_skip_cr"@, next_count(next_count(next_count(c))) as nat);
    let l_nocr = label_text("rl_no_cr"@, next_count(next_count(next_count(next_count(c)))) as nat);
    asm_line("testq %rax, %rax"@) + asm_line("jz "@ + l_skipcr) + asm_line("decq %rax"@) + asm_line(
        "cmpb $13, (%rcx,%rax,1)"@,
    ) + asm_line("jne "@ + l_nocr) + asm_line("movb $0, (%rcx,%rax,1)"@) + (l_nocr + ":\n"@) + (l_skipcr + ":\n"@)
        + (l_skip + ":\n"@) + asm_line("movq %rsp, %rax"@)
}

/// The start of `read_line()`'s code, up to the test of the length read.
pub open spec fn read_line_head() -> Seq<char> {
    asm_line("subq $1024, %rsp"@) + asm_line("movq %rsp, %rcx"@) + asm_line("movq $1024, %rdx"@) + asm_line(
        "pushq %rcx"@,
    ) + asm_line("pushq %rdx"@) + asm_line("xorl %ecx, %ecx"@) + asm_line("call __acrt_iob_func"@) + asm_line(
        "movq %rax, %r8"@,
    ) + asm_line("popq %rdx"@) + asm_line("popq %rcx"@) + asm_line("call fgets"@) + asm_line("movq %rsp, %rcx"@)
        + asm_line("call strlen"@) + asm_line("testq %rax, %rax"@)
}

/// The text `t` emitted for the value `e` with the locals `locals` is of the
/// kind the value calls for: a literal, a variable, an enum variant or a
/// field is its arithmetic code, where each string literal's label names an
/// entry of the literal table `lits` that holds the literal's text; an
/// operation is its operands' texts, each of this kind, around
/// the operator's code (the left operand saved on the stack while the right
/// one is computed); a call of a function of the program is its arguments'
/// texts, each followed by a push, the pops into the argument registers and
/// the call; an index into a local array is the index's text and the load
/// from the array's slots; a cast is its operand's text and the conversion;
/// a `try` is its operand's text and the test of the error flag that, when
/// set, saves the error value, runs the deferred expressions `dfr` of the
/// frame as `deferred_text_ok` describes (the latest deferred first; `dfr`
/// is empty while a deferred expression is itself emitted), restores the
/// value, sets the flag again and returns; a call of a built-in is as
/// `builtin_text_ok` describes. The formats a cast or a built-in loads stand
/// in `lits` too.
pub open spec fn value_text_ok(env: GenEnv, locals: Seq<(Seq<char>, LocalVar)>, e: Expr, t: Seq<char>, dfr: Seq<Expr>, lits: Seq<String>) -> bool
    decreases dfr.len() as int, e,
{
    match e {
        Expr::UnaryOp { op, operand, .. } => exists|ot: Seq<char>|
            #[trigger] (ot + unary_code(op)) == t && value_text_ok(env, locals, *operand, ot, dfr, lits),
        Expr::BinaryOp { op, left, right, .. } => exists|lt: Seq<char>, rt: Seq<char>|
            #![trigger lt + asm_line("pushq %rax"@) + rt]
            {
                &&& t == lt + asm_line("pushq %rax"@) + rt + binary_tail(env, locals, op, *left)
                &&& value_text_ok(env, locals, *left, lt, dfr, lits)
                &&& value_text_ok(env, locals, *right, rt, dfr, lits)
            },
        Expr::Call { name, args, .. } => if is_user_call(name@) {
            exists|at: Seq<char>|
                #[trigger] (at + pops_text(args.len() as nat)) + asm_line("call "@ + name@) == t && args_text_ok(env, locals, args@, at, dfr, lits)
        } else {
            builtin_text_ok(env, locals, name@, args@, t, dfr, lits)
        },
        Expr::Index { object, index, .. } => match *object {
            Expr::Ident { name, .. } => match find(locals, name@) {
                Some(l) => exists|it: Seq<char>|
                    #[trigger] (it + asm_line("movq "@ + int_text(l.offset as int) + "(%rbp,%rax,8), %rax"@)) == t
                        && value_text_ok(env, locals, *index, it, dfr, lits),
                None => false,
            },
            _ => value_text_ok(env, locals, *index, t, dfr, lits),
        },
        Expr::Cast { expr, target, .. } => exists|it: Seq<char>, n: nat|
            #![trigger it + cast_code(infer(env, locals, *expr), target@, n)]
            t == it + cast_code(infer(env, locals, *expr), target@, n) && value_text_ok(env, locals, *expr, it, dfr, lits)
                && lits_at(lits, n, cast_lits(infer(env, locals, *expr), target@)),
        Expr::Try { expr, .. } => exists|it: Seq<char>, dt: Seq<char>, c: usize|
            #![trigger try_shape(it, dt, c)]
            t == try_shape(it, dt, c) && value_text_ok(env, locals, *expr, it, dfr, lits) && (if dfr.len() == 0 {
                dt == Seq::<char>::empty()
            } else {
                exists|xt: Seq<char>|
                    #[trigger] (asm_line("subq $16, %rsp"@) + asm_line("movq %rax, (%rsp)"@) + xt) + asm_line(
                        "movq (%rsp), %rax"@,
                    ) + asm_line("addq $16, %rsp"@) + asm_line("movq $1, %rdx"@) == dt && deferred_text_ok(
                        env,
                        locals,
                        dfr,
                        xt,
                        lits,
                    )
            }),
        _ => arith_code(env, locals, 0, e) is Some ==> exists|n: nat|
            #[trigger] arith_code(env, locals, n, e) matches Some((c, ls)) && t == c && lits_at(lits, n, texts(ls)),
    }
}

/// The text `t` emitted for a call of the built-in `name` with arguments
/// `args`: `len` of a local array is its length, of another value the
/// value's text and `strlen`; `print` is its argument's text and the code
/// that prints a value of the argument's type, whose formats stand in
/// `lits`; another built-in of one argument is the argument's text and its
/// code; `starts_with` computes its second
/// argument and its length first, then the first argument, and compares
/// with `strncmp`; another built-in of two arguments pushes the first while
/// the second is computed; `substr` pushes the first two; `rand`,
/// `read_line` and `time` take no argument. The argument texts are of the
/// kind `value_text_ok` describes.
pub open spec fn builtin_text_ok(env: GenEnv, locals: Seq<(Seq<char>, LocalVar)>, name: Seq<char>, args: Seq<Expr>, t: Seq<char>, dfr: Seq<Expr>, lits: Seq<String>) -> bool
    decreases dfr.len() as int, args,
{
    if name == "len"@ {
        args.len() >= 1 ==> if is_local_array(locals, args[0]) {
            match args[0] {
                Expr::Ident { name: a, .. } => match find(locals, a@) {
                    Some(l) => t == asm_line("movq $"@ + nat_text(l.array_len as nat) + ", %rax"@),
                    None => false,
                },
                _ => false,
            }
        } else {
            exists|at: Seq<char>|
                #[trigger] (at + asm_line("movq %rax, %rcx"@) + asm_line("call strlen"@)) == t && value_text_ok(env, locals, args[0], at, dfr, lits)
        }
    } else if name == "print"@ {
        args.len() >= 1 ==> exists|vt: Seq<char>, n: nat, c: usize|
            #![trigger vt + print_code(infer(env, locals, args[0]), n, c)]
            {
                &&& t == vt + print_code(infer(env, locals, args[0]), n, c)
                &&& value_text_ok(env, locals, args[0], vt, dfr, lits)
                &&& lits_at(lits, n, print_lits(infer(env, locals, args[0])))
            }
    } else {
        match builtin_arity(name) {
            Some(k) => if k == 1 {
                args.len() >= 1 ==> exists|at: Seq<char>, n: nat, c: usize|
                    #![trigger at + builtin1_code(name, n, c)]
                    t == at + builtin1_code(name, n, c) && value_text_ok(env, locals, args[0], at, dfr, lits) && lits_at(
                        lits,
                        n,
                        builtin1_lits(name),
                    )
            } else if k == 2 {
                if name == "starts_with"@ {
                    args.len() >= 2 ==> exists|a1: Seq<char>, a0: Seq<char>|
                        #![trigger a1 + asm_line("pushq %rax"@) + asm_line("movq %rax, %rcx"@) + asm_line("call strlen"@) + asm_line("pushq %rax"@) + a0]
                        {
                            &&& t == a1 + asm_line("pushq %rax"@) + asm_line("movq %rax, %rcx"@) + asm_line(
                                "call strlen"@,
                            ) + asm_line("pushq %rax"@) + a0 + asm_line("movq %rax, %rcx"@) + asm_line("popq %r8"@)
                                + asm_line("popq %rdx"@) + asm_line("call strncmp"@) + asm_line("testq %rax, %rax"@)
                                + asm_line("sete %al"@) + asm_line("movzbq %al, %rax"@)
                            &&& value_text_ok(env, locals, args[1], a1, dfr, lits)
                            &&& value_text_ok(env, locals, args[0], a0, dfr, lits)
                        }
                } else {
                    args.len() >= 2 ==> exists|a0: Seq<char>, a1: Seq<char>, c: usize|
                        #![trigger a0 + asm_line("pushq %rax"@) + a1 + builtin2_code(name, c)]
                        {
                            &&& t == a0 + asm_line("pushq %rax"@) + a1 + builtin2_code(name, c)
                            &&& value_text_ok(env, locals, args[0], a0, dfr, lits)
                            &&& value_text_ok(env, locals, args[1], a1, dfr, lits)
                        }
                }
            } else if k == 3 {
                args.len() >= 3 ==> exists|a0: Seq<char>, a1: Seq<char>, a2: Seq<char>|
                    #![trigger a0 + asm_line("pushq %rax"@) + a1 + asm_line("pushq %rax"@) + a2]
                    {
                        &&& t == a0 + asm_line("pushq %rax"@) + a1 + asm_line("pushq %rax"@) + a2 + asm_line(
                            "movq %rax, %r8"@,
                        ) + asm_line("popq %rdx"@) + asm_line("popq %rcx"@) + asm_line("subq $32, %rsp"@) + asm_line(
                            "call __ferro_substr"@,
                        ) + asm_line("addq $32, %rsp"@)
                        &&& value_text_ok(env, locals, args[0], a0, dfr, lits)
                        &&& value_text_ok(env, locals, args[1], a1, dfr, lits)
                        &&& value_text_ok(env, locals, args[2], a2, dfr, lits)
                    }
            } else if name == "rand"@ {
                t == asm_line("call rand"@) + asm_line("cltq"@)
            } else if name == "read_line"@ {
                exists|c: usize| #[trigger] read_line_code(c) == t
            } else {
                t == asm_line("xorl %ecx, %ecx"@) + asm_line("call time"@)
            },
            None => true,
        }
    }
}

/// A call of a built-in whose text is as `builtin_text_ok` describes has a
/// text of the kind `value_text_ok` describes.
pub proof fn lemma_builtin_value_text(env: GenEnv, locals: Seq<(Seq<char>, LocalVar)>, name: String, args: Vec<Expr>, span: Span, t: Seq<char>, dfr: Seq<Expr>, lits: Seq<String>)
    requires
        !is_user_call(name@),
        builtin_text_ok(env, locals, name@, args@, t, dfr, lits),
    ensures
        value_text_ok(env, locals, Expr::Call { name, args, span }, t, dfr, lits),
{
    let e = Expr::Call { name, args, span };
    assert(e->Call_args@ == args@);
}

/// The text emitted for the arguments `args` of a call: each argument's
/// text, of the kind `value_text_ok` describes, followed by a push.
pub open spec fn args_text_ok(env: GenEnv, locals: Seq<(Seq<char>, LocalVar)>, args: Seq<Expr>, t: Seq<char>, dfr: Seq<Expr>, lits: Seq<String>) -> bool
    decreases dfr.len() as int, args,
{
    if args.len() == 0 {
        t == Seq::<char>::empty()
    } else {
        exists|t1: Seq<char>, vt: Seq<char>|
            #![trigger t1 + vt]
            {
                &&& t == t1 + vt + asm_line("pushq %rax"@)
                &&& args_text_ok(env, locals, args.drop_last(), t1, dfr, lits)
                &&& value_text_ok(env, locals, args.last(), vt, dfr, lits)
            }
    }
}

/// A value whose text is its arithmetic code has a text of the kind
/// `value_text_ok` describes.
pub proof fn lemma_arith_text_ok(env: GenEnv, locals: Seq<(Seq<char>, LocalVar)>, n: nat, e: Expr, dfr: Seq<Expr>, lits: Seq<String>)
    ensures
        arith_code(env, locals, n, e) matches Some((c, ls)) ==> lits_at(lits, n, texts(ls)) ==> value_text_ok(env, locals, e, c, dfr, lits),
    decreases e,
{
    match e {
        Expr::UnaryOp { op, operand, .. } => {
            lemma_arith_text_ok(env, locals, n, *operand, dfr, lits);
            match arith_code(env, locals, n, *operand) {
                Some((oc, _)) => {
                    assert((oc + unary_code(op)) == oc + unary_code(op));
                },
                None => {},
            }
        },
        Expr::BinaryOp { op, left, right, .. } => {
            lemma_arith_text_ok(env, locals, n, *left, dfr, lits);
            match arith_code(env, locals, n, *left) {
                Some((lc, ll)) => {
                    lemma_arith_text_ok(env, locals, n + ll.len(), *right, dfr, lits);
                    match arith_code(env, locals, n + ll.len(), *right) {
                        Some((rc, rl)) => {
                            lemma_lits_at_split(lits, n, ll, rl);
                            assert(lc + asm_line("pushq %rax"@) + rc == lc + asm_line("pushq %rax"@) + rc);
                        },
                        None => {},
                    }
                },
                None => {},
            }
        },
        _ => {
            lemma_arith_some(env, locals, 0, n, e);
        },
    }
}

/// Literals that stand in a table from `n` on, split in two parts.
pub proof fn lemma_lits_at_split(lits: Seq<String>, n: nat, a: Seq<String>, b: Seq<String>)
    ensures
        lits_at(lits, n, texts(a + b)) ==> lits_at(lits, n, texts(a)) && lits_at(lits, n + a.len(), texts(b)),
{
    if lits_at(lits, n, texts(a + b)) {
        assert forall|k: int| 0 <= k < a.len() implies #[trigger] lits[n + k]@ == texts(a)[k] by {
            assert(texts(a + b)[k] == (a + b)[k]@);
        }
        assert forall|k: int| 0 <= k < b.len() implies #[trigger] lits[(n + a.len()) + k]@ == texts(b)[k] by {
            let j = a.len() + k;
            assert(texts(a + b)[j] == (a + b)[j]@);
            assert((a + b)[j] == b[k]);
            assert(lits[n + j]@ == texts(a + b)[j]);
            assert(n + j == (n + a.len()) + k);
        }
    }
}

/// Appending one more argument's text and its push.
pub proof fn lemma_args_text_step(env: GenEnv, locals: Seq<(Seq<char>, LocalVar)>, args: Seq<Expr>, t1: Seq<char>, vt: Seq<char>, dfr: Seq<Expr>, lits: Seq<String>)
    requires
        args.len() > 0,
        args_text_ok(env, locals, args.drop_last(), t1, dfr, lits),
        value_text_ok(env, locals, args.last(), vt, dfr, lits),
    ensures
        args_text_ok(env, locals, args, t1 + vt + asm_line("pushq %rax"@), dfr, lits),
{
}

/// The lines that restore the caller's frame and return.
pub open spec fn leave_text() -> Seq<char> {
    asm_line("movq %rbp, %rsp"@) + asm_line("popq %rbp"@) + asm_line("ret"@)
}

/// The text that runs the deferred expressions `ds` (in the order they were
/// deferred) with the locals `locals`: the last deferred first, the first
/// deferred last, each its value's text.
pub open spec fn deferred_text_ok(env: GenEnv, locals: Seq<(Seq<char>, LocalVar)>, ds: Seq<Expr>, t: Seq<char>, lits: Seq<String>) -> bool
    decreases 0int, ds,
{
    if ds.len() == 0 {
        t == Seq::<char>::empty()
    } else {
        exists|t1: Seq<char>, t2: Seq<char>|
            #![trigger t1 + t2]
            {
                &&& t == t1 + t2
                &&& deferred_text_ok(env, locals, ds.drop_first(), t1, lits)
                &&& value_text_ok(env, locals, ds.first(), t2, Seq::empty(), lits)
            }
    }
}

/// Running one more deferred expression, deferred before the others, after
/// them.
pub proof fn lemma_deferred_text_step(env: GenEnv, locals: Seq<(Seq<char>, LocalVar)>, ds: Seq<Expr>, t1: Seq<char>, t2: Seq<char>, lits: Seq<String>)
    requires
        ds.len() > 0,
        deferred_text_ok(env, locals, ds.drop_first(), t1, lits),
        value_text_ok(env, locals, ds.first(), t2, Seq::empty(), lits),
    ensures
        deferred_text_ok(env, locals, ds, t1 + t2, lits),
{
}

/// The text that runs the deferred expressions of frame `fr` before a
/// return: nothing without any; else the value in RAX is saved on the
/// stack around their text.
pub open spec fn deferred_run_ok(env: GenEnv, fr: Frame, dt: Seq<char>, lits: Seq<String>) -> bool {
    if fr.deferred.len() == 0 {
        dt == Seq::<char>::empty()
    } else {
        exists|xt: Seq<char>|
            #[trigger] (asm_line("subq $16, %rsp"@) + asm_line("movq %rax, (%rsp)"@) + xt) + asm_line(
                "movq (%rsp), %rax"@,
            ) + asm_line("addq $16, %rsp"@) == dt && deferred_text_ok(env, fr.locals, fr.deferred, xt, lits)
    }
}

/// The shape of a `return`, `fail` or tail expression: the value's text,
/// the deferred expressions' text, the `tail` that sets the error flag,
/// and the lines that leave the function.
pub open spec fn exit_shape(vt: Seq<char>, dt: Seq<char>, tail: Seq<char>) -> Seq<char> {
    vt + dt + tail + leave_text()
}

/// The error flag a `return` or a tail expression clears in a failable
/// function.
pub open spec fn ok_flag_text(failable: bool) -> Seq<char> {
    if failable {
        asm_line("xorl %edx, %edx"@)
    } else {
        Seq::empty()
    }
}

/// The head of the loop of a `for` made with label counter `c0`: the loop
/// label, and a jump to the end label once the variable (in the slot at
/// `off`) reaches the end value (in the slot at `end_off`).
pub open spec fn for_head(off: int, end_off: int, c0: usize) -> Seq<char> {
    (label_text("for"@, next_count(c0) as nat) + ":\n"@) + asm_line("movq "@ + int_text(off) + "(%rbp), %rax"@)
        + asm_line("cmpq "@ + int_text(end_off) + "(%rbp), %rax"@) + asm_line(
        "jge "@ + label_text("endfor"@, next_count(next_count(next_count(c0))) as nat),
    )
}

/// The tail of the loop of a `for` made with label counter `c0`: the
/// continue label, the increment of the variable, a jump back and the end
/// label.
pub open spec fn for_tail(off: int, c0: usize) -> Seq<char> {
    (label_text("forcont"@, next_count(next_count(c0)) as nat) + ":\n"@) + asm_line(
        "movq "@ + int_text(off) + "(%rbp), %rax"@,
    ) + asm_line("addq $1, %rax"@) + asm_line("movq %rax, "@ + int_text(off) + "(%rbp)"@) + asm_line(
        "jmp "@ + label_text("for"@, next_count(c0) as nat),
    ) + (label_text("endfor"@, next_count(next_count(next_count(c0))) as nat) + ":\n"@)
}

/// The loop of a `for` around its body's text.
pub open spec fn for_loop_shape(body: Seq<char>, off: int, end_off: int, c0: usize) -> Seq<char> {
    for_head(off, end_off, c0) + body + for_tail(off, c0)
}

/// The shape of a `for`: the start value's text stored in the variable's
/// slot, the end value's text stored in the slot after it, and the loop.
pub open spec fn for_shape(
    st: Seq<char>,
    et: Seq<char>,
    body: Seq<char>,
    off: int,
    end_off: int,
    c0: usize,
) -> Seq<char> {
    st + asm_line("movq %rax, "@ + int_text(off) + "(%rbp)"@) + et + asm_line("movq %rax, "@ + int_text(end_off) + "(%rbp)"@)
        + for_loop_shape(body, off, end_off, c0)
}

/// The value an arm's pattern is compared with: a literal's value, or an
/// enum variant's discriminant (0 when the variant is unknown).
pub open spec fn pattern_value(env: GenEnv, p: Pattern) -> i64 {
    match p {
        Pattern::IntLit(v, _) => v,
        Pattern::BoolLit(b, _) => if b {
            1
        } else {
            0
        },
        Pattern::EnumVariant(en, v, _) => match find(env.enums, variant_key(en@, v@)) {
            Some(x) => x,
            None => 0,
        },
        Pattern::Wildcard(_) => 0,
    }
}

/// The shape of a match arm around its body's text, jumping to the label
/// `end_l` when done: a wildcard drops the subject and runs the body; any
/// other pattern first compares the subject on the stack with its value and
/// skips to its own label (made with label counter `c`) when they differ.
pub open spec fn arm_shape(env: GenEnv, p: Pattern, body: Seq<char>, end_l: Seq<char>, c: usize) -> Seq<char> {
    match p {
        Pattern::Wildcard(_) => asm_line("addq $8, %rsp"@) + body + asm_line("jmp "@ + end_l),
        _ => asm_line("cmpq $"@ + int_text(pattern_value(env, p) as int) + ", (%rsp)"@) + asm_line(
            "jne "@ + label_text("skip"@, next_count(c) as nat),
        ) + asm_line("addq $8, %rsp"@) + body + asm_line("jmp "@ + end_l) + (label_text(
            "skip"@,
            next_count(c) as nat,
        ) + ":\n"@),
    }
}

/// The shape of a `match`: the subject's text, the subject pushed, the
/// arms' text, the subject dropped and the end label (made with label
/// counter `c0`).
pub open spec fn match_shape(st: Seq<char>, at: Seq<char>, c0: usize) -> Seq<char> {
    st + asm_line("pushq %rax"@) + at + asm_line("addq $8, %rsp"@) + (label_text(
        "matchend"@,
        next_count(c0) as nat,
    ) + ":\n"@)
}

/// The text `t` emitted for statement `s` from frame `fr`, in a function
/// that is `failable` or not, inside the loops whose (continue, break)
/// labels are `loops` (innermost last), is of the kind the statement calls
/// for: a scalar `let` or an assignment is its value's text and the store
/// into the slot (of the new local, the variable, the field or the array
/// element); an `if`, a `while`, a `for` or a `match` is its skeleton (with
/// some label counter) around the texts of its values and of its blocks,
/// each again of this kind; a `return`, a `fail` or a tail expression is its
/// value's text, the text that runs the deferred expressions, the error flag
/// and the lines that leave the function; `break` and `continue` jump to the
/// innermost loop's end and continue labels (and are nothing outside a
/// loop); a `print` is its argument's text and the code that prints a value
/// of its type; any other expression statement is its value's text; `defer`
/// emits nothing; a `let` of an array or a struct literal stores each
/// element or field into its slot of the new local. The texts of values
/// are of the kind `value_text_ok` describes.
pub open spec fn stmt_text_ok(
    env: GenEnv,
    fr: Frame,
    failable: bool,
    loops: Seq<(Seq<char>, Seq<char>)>,
    s: Stmt,
    t: Seq<char>,
    lits: Seq<String>,
) -> bool
    decreases s,
{
    match s {
        Stmt::If { condition, then_block, else_block, .. } => exists|
            ct: Seq<char>,
            tt: Seq<char>,
            et: Seq<char>,
            c0: usize,
        |
            #![trigger if_shape(ct, tt, et, c0)]
            {
                &&& t == if_shape(ct, tt, et, c0)
                &&& value_text_ok(env, fr.locals, condition, ct, fr.deferred, lits)
                &&& block_text_ok(env, fr, failable, loops, then_block, tt, lits)
                &&& match else_block {
                    Some(eb) => match block_gen(env, fr, then_block) {
                        Some(f1) => block_text_ok(env, f1, failable, loops, eb, et, lits),
                        None => true,
                    },
                    None => et == Seq::<char>::empty(),
                }
            },
        Stmt::While { condition, body, .. } => exists|ct: Seq<char>, bt: Seq<char>, c0: usize|
            #![trigger while_shape(ct, bt, c0)]
            {
                &&& t == while_shape(ct, bt, c0)
                &&& value_text_ok(env, fr.locals, condition, ct, fr.deferred, lits)
                &&& block_text_ok(env, fr, failable, loops.push(while_labels(c0)), body, bt, lits)
            },
        Stmt::For { var, start, end, body, .. } => match new_slot(fr, var@, ValType::Int) {
            Some(f1) => match new_slot(f1, "__for_end"@, ValType::Int) {
                Some(f2) => exists|st: Seq<char>, et: Seq<char>, bt: Seq<char>, c0: usize|
                    #![trigger for_shape(st, et, bt, f1.offset, f2.offset, c0)]
                    {
                        &&& t == for_shape(st, et, bt, f1.offset, f2.offset, c0)
                        &&& value_text_ok(env, fr.locals, start, st, fr.deferred, lits)
                        &&& value_text_ok(env, f1.locals, end, et, fr.deferred, lits)
                        &&& block_text_ok(env, f2, failable, loops.push(for_labels(c0)), body, bt, lits)
                    },
                None => true,
            },
            None => true,
        },
        Stmt::Return { value, .. } => match value {
            Some(v) => exists|vt: Seq<char>, dt: Seq<char>|
                #![trigger exit_shape(vt, dt, ok_flag_text(failable))]
                {
                    &&& t == exit_shape(vt, dt, ok_flag_text(failable))
                    &&& deferred_run_ok(env, fr, dt, lits)
                    &&& value_text_ok(env, fr.locals, v, vt, fr.deferred, lits)
                },
            None => exists|dt: Seq<char>|
                #[trigger] exit_shape(Seq::<char>::empty(), dt, ok_flag_text(failable)) == t && deferred_run_ok(
                    env,
                    fr,
                    dt,
                    lits,
                ),
        },
        Stmt::TailExpr { expr, .. } => exists|vt: Seq<char>, dt: Seq<char>|
            #![trigger exit_shape(vt, dt, ok_flag_text(failable))]
            {
                &&& t == exit_shape(vt, dt, ok_flag_text(failable))
                &&& deferred_run_ok(env, fr, dt, lits)
                &&& value_text_ok(env, fr.locals, expr, vt, fr.deferred, lits)
            },
        Stmt::Fail { message, .. } => exists|vt: Seq<char>, dt: Seq<char>|
            #![trigger exit_shape(vt, dt, asm_line("movq $1, %rdx"@))]
            {
                &&& t == exit_shape(vt, dt, asm_line("movq $1, %rdx"@))
                &&& deferred_run_ok(env, fr, dt, lits)
                &&& value_text_ok(env, fr.locals, message, vt, fr.deferred, lits)
            },
        Stmt::Match { subject, arms, .. } => exists|st: Seq<char>, at: Seq<char>, c0: usize|
            #![trigger match_shape(st, at, c0)]
            {
                &&& t == match_shape(st, at, c0)
                &&& value_text_ok(env, fr.locals, subject, st, fr.deferred, lits)
                &&& arms_text_ok(env, fr, failable, loops, arms@, label_text("matchend"@, next_count(c0) as nat), at, lits)
            },
        Stmt::Break { .. } => t == if loops.len() == 0 {
            Seq::<char>::empty()
        } else {
            asm_line("jmp "@ + loops.last().1)
        },
        Stmt::Continue { .. } => t == if loops.len() == 0 {
            Seq::<char>::empty()
        } else {
            asm_line("jmp "@ + loops.last().0)
        },
        Stmt::Expr { expr, .. } => match expr {
            Expr::Call { name, args, .. } => if name@ == "print"@ && args.len() >= 1 {
                exists|vt: Seq<char>, n: nat, c: usize|
                    #![trigger vt + print_code(infer(env, fr.locals, args@[0]), n, c)]
                    t == vt + print_code(infer(env, fr.locals, args@[0]), n, c) && value_text_ok(env, fr.locals, args@[0], vt, fr.deferred, lits) && lits_at(lits, n, print_lits(infer(env, fr.locals, args@[0])))
            } else {
                value_text_ok(env, fr.locals, expr, t, fr.deferred, lits)
            },
            _ => value_text_ok(env, fr.locals, expr, t, fr.deferred, lits),
        },
        Stmt::Let { name, value, .. } => match value {
            Expr::ArrayLit { elements, .. } => match stmt_gen(env, fr, s) {
                Some(f2) => elems_text_ok(env, f2.locals, elements@, f2.offset, t, fr.deferred, lits),
                None => true,
            },
            Expr::StructLit { name: sn, fields, .. } => match (stmt_gen(env, fr, s), find(env.structs, sn@)) {
                (Some(f2), Some(info)) => inits_text_ok(env, f2.locals, info, fields@, f2.offset, t, fr.deferred, lits),
                _ => true,
            },
            _ => match new_slot(fr, name@, infer(env, fr.locals, value)) {
                Some(f2) => exists|vt: Seq<char>|
                    #[trigger] (vt + store_line(f2.offset)) == t && value_text_ok(env, fr.locals, value, vt, fr.deferred, lits),
                None => true,
            },
        },
        Stmt::Assign { name, value, .. } => match find(fr.locals, name@) {
            Some(l) => exists|vt: Seq<char>|
                #[trigger] (vt + store_line(l.offset as int)) == t && value_text_ok(env, fr.locals, value, vt, fr.deferred, lits),
            None => true,
        },
        Stmt::FieldAssign { object, field, value, .. } => match field_slot(env, fr.locals, object@, field@) {
            Some((l, k)) => exists|vt: Seq<char>|
                #[trigger] (vt + store_line(l.offset + 8 * k)) == t && value_text_ok(env, fr.locals, value, vt, fr.deferred, lits),
            None => true,
        },
        Stmt::IndexAssign { object, index, value, .. } => match find(fr.locals, object@) {
            Some(l) => exists|vt: Seq<char>, it: Seq<char>|
                #![trigger vt + asm_line("pushq %rax"@) + it]
                {
                    &&& t == vt + asm_line("pushq %rax"@) + it + asm_line("movq %rax, %rcx"@) + asm_line("popq %rax"@)
                        + asm_line("movq %rax, "@ + int_text(l.offset as int) + "(%rbp,%rcx,8)"@)
                    &&& value_text_ok(env, fr.locals, value, vt, fr.deferred, lits)
                    &&& value_text_ok(env, fr.locals, index, it, fr.deferred, lits)
                },
            None => true,
        },
        Stmt::Defer { .. } => t == Seq::<char>::empty(),
    }
}

/// A scalar `let` whose text is its value's text and the store into the new
/// slot has a text of the kind `stmt_text_ok` describes.
pub proof fn lemma_let_text_ok(
    env: GenEnv,
    fr: Frame,
    failable: bool,
    loops: Seq<(Seq<char>, Seq<char>)>,
    s: Stmt,
    t: Seq<char>,
    vt: Seq<char>,
    f2: Frame,
    lits: Seq<String>,
)
    requires
        s matches Stmt::Let { name, value, .. } && !(value is ArrayLit || value is StructLit) && new_slot(
            fr,
            name@,
            infer(env, fr.locals, value),
        ) == Some(f2) && t == vt + store_line(f2.offset) && value_text_ok(env, fr.locals, value, vt, fr.deferred, lits),
    ensures
        stmt_text_ok(env, fr, failable, loops, s, t, lits),
{
    match s {
        Stmt::Let { name, value, .. } => {
            assert((vt + store_line(f2.offset)) == t);
            assert(stmt_text_ok(env, fr, failable, loops, s, t, lits) == (match new_slot(
                fr,
                name@,
                infer(env, fr.locals, value),
            ) {
                Some(f3) => exists|v: Seq<char>|
                    #[trigger] (v + store_line(f3.offset)) == t && value_text_ok(env, fr.locals, value, v, fr.deferred, lits),
                None => true,
            }));
        },
        _ => {},
    }
}

/// The text that fills the slots of an array from `base` on with the values
/// `es`: each value's text, of the kind `value_text_ok` describes, and the
/// store into its slot.
pub open spec fn elems_text_ok(env: GenEnv, locals: Seq<(Seq<char>, LocalVar)>, es: Seq<Expr>, base: int, t: Seq<char>, dfr: Seq<Expr>, lits: Seq<String>) -> bool
    decreases es.len(),
{
    if es.len() == 0 {
        t == Seq::<char>::empty()
    } else {
        exists|t1: Seq<char>, vt: Seq<char>|
            #![trigger t1 + vt]
            {
                &&& t == t1 + vt + store_line(base + 8 * (es.len() - 1))
                &&& elems_text_ok(env, locals, es.drop_last(), base, t1, dfr, lits)
                &&& value_text_ok(env, locals, es.last(), vt, dfr, lits)
            }
    }
}

/// The text that fills the slots of a struct with fields `info` from `base`
/// on with the initializers `fs`, in the order they are written: each
/// value's text, of the kind `value_text_ok` describes, and the store into
/// its field's slot.
pub open spec fn inits_text_ok(env: GenEnv, locals: Seq<(Seq<char>, LocalVar)>, info: Seq<(Seq<char>, ValType)>, fs: Seq<(String, Expr)>, base: int, t: Seq<char>, dfr: Seq<Expr>, lits: Seq<String>) -> bool
    decreases fs.len(),
{
    if fs.len() == 0 {
        t == Seq::<char>::empty()
    } else {
        match position(info, fs.last().0@) {
            Some(k) => exists|t1: Seq<char>, vt: Seq<char>|
                #![trigger t1 + vt]
                {
                    &&& t == t1 + vt + store_line(base + 8 * k)
                    &&& inits_text_ok(env, locals, info, fs.drop_last(), base, t1, dfr, lits)
                    &&& value_text_ok(env, locals, fs.last().1, vt, dfr, lits)
                },
            None => true,
        }
    }
}

/// Appending one more element's text and store.
pub proof fn lemma_elems_text_step(env: GenEnv, locals: Seq<(Seq<char>, LocalVar)>, es: Seq<Expr>, base: int, t1: Seq<char>, vt: Seq<char>, dfr: Seq<Expr>, lits: Seq<String>)
    requires
        es.len() > 0,
        elems_text_ok(env, locals, es.drop_last(), base, t1, dfr, lits),
        value_text_ok(env, locals, es.last(), vt, dfr, lits),
    ensures
        elems_text_ok(env, locals, es, base, t1 + vt + store_line(base + 8 * (es.len() - 1)), dfr, lits),
{
    assert(t1 + vt == t1 + vt);
}

/// Appending one more field initializer's text and store.
pub proof fn lemma_inits_text_step(env: GenEnv, locals: Seq<(Seq<char>, LocalVar)>, info: Seq<(Seq<char>, ValType)>, fs: Seq<(String, Expr)>, base: int, t1: Seq<char>, vt: Seq<char>, k: nat, dfr: Seq<Expr>, lits: Seq<String>)
    requires
        fs.len() > 0,
        position(info, fs.last().0@) == Some(k),
        inits_text_ok(env, locals, info, fs.drop_last(), base, t1, dfr, lits),
        value_text_ok(env, locals, fs.last().1, vt, dfr, lits),
    ensures
        inits_text_ok(env, locals, info, fs, base, t1 + vt + store_line(base + 8 * k), dfr, lits),
{
    assert(t1 + vt == t1 + vt);
}

/// The line that stores RAX in the slot at `off`.
pub open spec fn store_line(off: int) -> Seq<char> {
    asm_line("movq %rax, "@ + int_text(off) + "(%rbp)"@)
}

/// The text emitted for the arms of a match from frame `fr`, jumping to the
/// label `end_l`: each arm's shape around its body's text, of the kind
/// `block_text_ok` describes, in order.
pub open spec fn arms_text_ok(
    env: GenEnv,
    fr: Frame,
    failable: bool,
    loops: Seq<(Seq<char>, Seq<char>)>,
    arms: Seq<MatchArm>,
    end_l: Seq<char>,
    t: Seq<char>,
    lits: Seq<String>,
) -> bool
    decreases arms,
{
    if arms.len() == 0 {
        t == Seq::<char>::empty()
    } else {
        exists|t1: Seq<char>, bt: Seq<char>, c: usize|
            #![trigger t1 + arm_shape(env, arms.last().pattern, bt, end_l, c)]
            {
                &&& t == t1 + arm_shape(env, arms.last().pattern, bt, end_l, c)
                &&& arms_text_ok(env, fr, failable, loops, arms.drop_last(), end_l, t1, lits)
                &&& match arms_gen(env, fr, arms.drop_last()) {
                    Some(f1) => block_text_ok(env, f1, failable, loops, arms.last().body, bt, lits),
                    None => true,
                }
            }
    }
}

/// A `for` whose text is its shape around texts of the right kinds has a
/// text of the kind `stmt_text_ok` describes.
pub proof fn lemma_for_text_ok(
    env: GenEnv,
    fr: Frame,
    failable: bool,
    loops: Seq<(Seq<char>, Seq<char>)>,
    s: Stmt,
    t: Seq<char>,
    st: Seq<char>,
    et: Seq<char>,
    bt: Seq<char>,
    c0: usize,
    lits: Seq<String>,
)
    requires
        s matches Stmt::For { var, start, end, body, .. } && new_slot(fr, var@, ValType::Int) matches Some(f1)
            && new_slot(f1, "__for_end"@, ValType::Int) matches Some(f2) && t == for_shape(
            st,
            et,
            bt,
            f1.offset,
            f2.offset,
            c0,
        ) && value_text_ok(env, fr.locals, start, st, fr.deferred, lits) && value_text_ok(env, f1.locals, end, et, fr.deferred, lits)
            && block_text_ok(env, f2, failable, loops.push(for_labels(c0)), body, bt, lits),
    ensures
        stmt_text_ok(env, fr, failable, loops, s, t, lits),
{
}

/// The text emitted for a block from frame `fr` is the texts of its
/// statements in order, each of the kind `stmt_text_ok` describes.
pub open spec fn block_text_ok(
    env: GenEnv,
    fr: Frame,
    failable: bool,
    loops: Seq<(Seq<char>, Seq<char>)>,
    b: Block,
    t: Seq<char>,
    lits: Seq<String>,
) -> bool
    decreases b,
{
    stmts_text_ok(env, fr, failable, loops, b.stmts@, t, lits)
}

pub open spec fn stmts_text_ok(
    env: GenEnv,
    fr: Frame,
    failable: bool,
    loops: Seq<(Seq<char>, Seq<char>)>,
    ss: Seq<Stmt>,
    t: Seq<char>,
    lits: Seq<String>,
) -> bool
    decreases ss,
{
    if ss.len() == 0 {
        t == Seq::<char>::empty()
    } else {
        exists|t1: Seq<char>, t2: Seq<char>|
            #![trigger t1 + t2]
            {
                &&& t == t1 + t2
                &&& stmts_text_ok(env, fr, failable, loops, ss.drop_last(), t1, lits)
                &&& match stmts_gen(env, fr, ss.drop_last()) {
                    Some(f1) => stmt_text_ok(env, f1, failable, loops, ss.last(), t2, lits),
                    None => true,
                }
            }
    }
}

/// Appending the text of one more statement, emitted from the frame the
/// earlier ones leave, to the text of the earlier ones.
pub proof fn lemma_stmts_text_step(
    env: GenEnv,
    fr: Frame,
    failable: bool,
    loops: Seq<(Seq<char>, Seq<char>)>,
    ss: Seq<Stmt>,
    t1: Seq<char>,
    t2: Seq<char>,
    lits: Seq<String>,
)
    requires
        ss.len() > 0,
        stmts_text_ok(env, fr, failable, loops, ss.drop_last(), t1, lits),
        stmts_gen(env, fr, ss.drop_last()) matches Some(f1) && stmt_text_ok(env, f1, failable, loops, ss.last(), t2, lits),
    ensures
        stmts_text_ok(env, fr, failable, loops, ss, t1 + t2, lits),
{
    let t = t1 + t2;
    assert(t == t1 + t2);
}

/// Appending the text of one more arm, whose body is emitted from the
/// frame the earlier arms leave, to the text of the earlier ones.
pub proof fn lemma_arms_text_step(
    env: GenEnv,
    fr: Frame,
    failable: bool,
    loops: Seq<(Seq<char>, Seq<char>)>,
    arms: Seq<MatchArm>,
    end_l: Seq<char>,
    t1: Seq<char>,
    bt: Seq<char>,
    c: usize,
    lits: Seq<String>,
)
    requires
        arms.len() > 0,
        arms_text_ok(env, fr, failable, loops, arms.drop_last(), end_l, t1, lits),
        arms_gen(env, fr, arms.drop_last()) matches Some(f1) && block_text_ok(
            env,
            f1,
            failable,
            loops,
            arms.last().body,
            bt,
            lits,
        ),
    ensures
        arms_text_ok(env, fr, failable, loops, arms, end_l, t1 + arm_shape(env, arms.last().pattern, bt, end_l, c), lits),
{
}

/// The store of the `i`-th parameter's register into its slot at `off`:
/// the first four parameters arrive in registers, the others are not
/// stored.
pub open spec fn param_store(i: nat, off: int) -> Seq<char> {
    if i == 0 {
        asm_line("movq %rcx, "@ + int_text(off) + "(%rbp)"@)
    } else if i == 1 {
        asm_line("movq %rdx, "@ + int_text(off) + "(%rbp)"@)
    } else if i == 2 {
        asm_line("movq %r8, "@ + int_text(off) + "(%rbp)"@)
    } else if i == 3 {
        asm_line("movq %r9, "@ + int_text(off) + "(%rbp)"@)
    } else {
        Seq::empty()
    }
}

/// The stores of parameters `ps`, given slots from frame `fr` on, in order.
pub open spec fn params_text(fr: Frame, ps: Seq<Param>) -> Seq<char>
    decreases ps.len(),
{
    if ps.len() == 0 {
        Seq::empty()
    } else {
        params_text(fr, ps.drop_last()) + match params_frame(fr, ps) {
            Some(f) => param_store((ps.len() - 1) as nat, f.offset),
            None => Seq::empty(),
        }
    }
}

/// The body text of a function (between its prologue and its epilogue):
/// the stores of its parameters, the text of its block from the frame the
/// parameters make, of the kind `block_text_ok` describes, and the text
/// that runs the deferred expressions left at its end.
pub open spec fn function_body_ok(env: GenEnv, f: Function, body: Seq<char>, lits: Seq<String>) -> bool {
    match params_frame(Frame { locals: Seq::empty(), offset: 0, deferred: Seq::empty() }, f.params@) {
        Some(fr) => exists|bt: Seq<char>, dt: Seq<char>|
            #![trigger params_text(Frame { locals: Seq::empty(), offset: 0, deferred: Seq::empty() }, f.params@) + bt + dt]
            {
                &&& body == params_text(Frame { locals: Seq::empty(), offset: 0, deferred: Seq::empty() }, f.params@)
                    + bt + dt
                &&& block_text_ok(env, fr, f.can_fail, Seq::empty(), f.body, bt, lits)
                &&& match block_gen(env, fr, f.body) {
                    Some(f2) => deferred_text_ok(env, f2.locals, f2.deferred, dt, lits),
                    None => true,
                }
            },
        None => true,
    }
}

// ── The built-in helper functions ───────────────────────

/// The helper functions emitted after the program's functions, with `n`
/// string literals collected before them (the file helpers add their
/// messages and modes as the next four).
pub open spec fn builtin_helpers_text(n: nat) -> Seq<char> {
    read_file_helper_text(n, n + 1) + write_file_helper_text(n + 2, n + 3) + concat_helper_text()
        + substr_helper_text() + trim_helper_text()
}

#[verifier::opaque]
pub open spec fn read_file_lines_1() -> Seq<Seq<char>> {
    seq![
        "pushq %rbp"@,
        "movq %rsp, %rbp"@,
        "subq $64, %rsp"@,
        "movq %rcx, -8(%rbp)"@,
    ]
}

#[verifier::opaque]
pub open spec fn read_file_lines_2() -> Seq<Seq<char>> {
    seq![
        "call fopen"@,
        "testq %rax, %rax"@,
        "jnz .Lrf_opened"@,
    ]
}

#[verifier::opaque]
pub open spec fn read_file_lines_3() -> Seq<Seq<char>> {
    seq![
        "movq $1, %rdx"@,
        "jmp .Lrf_done"@,
    ]
}

#[verifier::opaque]
pub open spec fn read_file_lines_4() -> Seq<Seq<char>> {
    seq![
        "movq %rax, -16(%rbp)"@,
        "movq %rax, %rcx"@,
        "xorl %edx, %edx"@,
        "movq $2, %r8"@,
        "call fseek"@,
        "movq -16(%rbp), %rcx"@,
        "call ftell"@,
        "movq %rax, -24(%rbp)"@,
        "movq -16(%rbp), %rcx"@,
        "xorl %edx, %edx"@,
        "xorl %r8d, %r8d"@,
        "call fseek"@,
        "movq -24(%rbp), %rcx"@,
        "incq %rcx"@,
        "call malloc"@,
        "movq %rax, -32(%rbp)"@,
        "movq %rax, %rcx"@,
        "movq $1, %rdx"@,
        "movq -24(%rbp), %r8"@,
        "movq -16(%rbp), %r9"@,
        "call fread"@,
        "movq -32(%rbp), %rax"@,
        "movq -24(%rbp), %rcx"@,
        "movb $0, (%rax,%rcx,1)"@,
        "movq -16(%rbp), %rcx"@,
        "pushq %rax"@,
        "call fclose"@,
        "popq %rax"@,
        "xorl %edx, %edx"@,
    ]
}

#[verifier::opaque]
pub open spec fn read_file_lines_5() -> Seq<Seq<char>> {
    seq![
        "movq %rbp, %rsp"@,
        "popq %rbp"@,
        "ret"@,
    ]
}

/// The text of `__ferro_read_file(path) -> (RAX: contents or message, RDX: error flag)`: the whole file in a new buffer, or the message of literal `err` when it cannot be opened (mode: literal `mode`).
#[verifier::opaque]
pub open spec fn read_file_helper_text(err: nat, mode: nat) -> Seq<char> {
    "__ferro_read_file:\n"@
        + lines_text(read_file_lines_1())
        + asm_line("leaq .Lstr_"@ + nat_text(mode) + "(%rip), %rdx"@)
        + lines_text(read_file_lines_2())
        + asm_line("leaq .Lstr_"@ + nat_text(err) + "(%rip), %rax"@)
        + lines_text(read_file_lines_3())
        + ".Lrf_opened:\n"@
        + lines_text(read_file_lines_4())
        + ".Lrf_done:\n"@
        + lines_text(read_file_lines_5())
        + "\n"@
}

#[verifier::opaque]
pub open spec fn write_file_lines_1() -> Seq<Seq<char>> {
    seq![
        "pushq %rbp"@,
        "movq %rsp, %rbp"@,
        "subq $48, %rsp"@,
        "movq %rcx, -8(%rbp)"@,
        "movq %rdx, -16(%rbp)"@,
    ]
}

#[verifier::opaque]
pub open spec fn write_file_lines_2() -> Seq<Seq<char>> {
    seq![
        "call fopen"@,
        "testq %rax, %rax"@,
        "jnz .Lwf_opened"@,
    ]
}

#[verifier::opaque]
pub open spec fn write_file_lines_3() -> Seq<Seq<char>> {
    seq![
        "movq $1, %rdx"@,
        "jmp .Lwf_done"@,
    ]
}

#[verifier::opaque]
pub open spec fn write_file_lines_4() -> Seq<Seq<char>> {
    seq![
        "movq %rax, -24(%rbp)"@,
        "movq -16(%rbp), %rcx"@,
        "movq %rax, %rdx"@,
        "call fputs"@,
        "movq -24(%rbp), %rcx"@,
        "call fclose"@,
        "xorl %eax, %eax"@,
        "xorl %edx, %edx"@,
    ]
}

#[verifier::opaque]
pub open spec fn write_file_lines_5() -> Seq<Seq<char>> {
    seq![
        "movq %rbp, %rsp"@,
        "popq %rbp"@,
        "ret"@,
    ]
}

/// The text of `__ferro_write_file(path, content) -> (RAX: message, RDX: error flag)`: writes the content, or gives the message of literal `err` when the file cannot be opened (mode: literal `mode`).
#[verifier::opaque]
pub open spec fn write_file_helper_text(err: nat, mode: nat) -> Seq<char> {
    "__ferro_write_file:\n"@
        + lines_text(write_file_lines_1())
        + asm_line("leaq .Lstr_"@ + nat_text(mode) + "(%rip), %rdx"@)
        + lines_text(write_file_lines_2())
        + asm_line("leaq .Lstr_"@ + nat_text(err) + "(%rip), %rax"@)
        + lines_text(write_file_lines_3())
        + ".Lwf_opened:\n"@
        + lines_text(write_file_lines_4())
        + ".Lwf_done:\n"@
        + lines_text(write_file_lines_5())
        + "\n"@
}

#[verifier::opaque]
pub open spec fn concat_lines() -> Seq<Seq<char>> {
    seq![
        "pushq %rbp"@,
        "movq %rsp, %rbp"@,
        "subq $48, %rsp"@,
        "movq %rcx, -8(%rbp)"@,
        "movq %rdx, -16(%rbp)"@,
        "call strlen"@,
        "movq %rax, -24(%rbp)"@,
        "movq -16(%rbp), %rcx"@,
        "call strlen"@,
        "movq %rax, -32(%rbp)"@,
        "movq -24(%rbp), %rcx"@,
        "addq %rax, %rcx"@,
        "incq %rcx"@,
        "call malloc"@,
        "movq %rax, -40(%rbp)"@,
        "movq %rax, %rcx"@,
        "movq -8(%rbp), %rdx"@,
        "call strcpy"@,
        "movq -40(%rbp), %rcx"@,
        "movq -16(%rbp), %rdx"@,
        "call strcat"@,
        "movq -40(%rbp), %rax"@,
        "movq %rbp, %rsp"@,
        "popq %rbp"@,
        "ret"@,
    ]
}

/// The text of `__ferro_str_concat(left, right) -> RAX`: a new string holding both.
#[verifier::opaque]
pub open spec fn concat_helper_text() -> Seq<char> {
    "__ferro_str_concat:\n"@
        + lines_text(concat_lines())
        + "\n"@
}

#[verifier::opaque]
pub open spec fn substr_lines() -> Seq<Seq<char>> {
    seq![
        "pushq %rbp"@,
        "movq %rsp, %rbp"@,
        "subq $48, %rsp"@,
        "movq %rcx, -8(%rbp)"@,
        "movq %rdx, -16(%rbp)"@,
        "movq %r8, -24(%rbp)"@,
        "movq %r8, %rcx"@,
        "incq %rcx"@,
        "call malloc"@,
        "movq %rax, -32(%rbp)"@,
        "movq %rax, %rcx"@,
        "movq -8(%rbp), %rdx"@,
        "addq -16(%rbp), %rdx"@,
        "movq -24(%rbp), %r8"@,
        "call memcpy"@,
        "movq -32(%rbp), %rax"@,
        "movq -24(%rbp), %rcx"@,
        "movb $0, (%rax,%rcx,1)"@,
        "movq %rbp, %rsp"@,
        "popq %rbp"@,
        "ret"@,
    ]
}

/// The text of `__ferro_substr(s, start, len) -> RAX`: a new string of `len` bytes.
#[verifier::opaque]
pub open spec fn substr_helper_text() -> Seq<char> {
    "__ferro_substr:\n"@
        + lines_text(substr_lines())
        + "\n"@
}

#[verifier::opaque]
pub open spec fn trim_lines_1() -> Seq<Seq<char>> {
    seq![
        "pushq %rbp"@,
        "movq %rsp, %rbp"@,
        "subq $48, %rsp"@,
        "movq %rcx, -8(%rbp)"@,
    ]
}

#[verifier::opaque]
pub open spec fn trim_lines_2() -> Seq<Seq<char>> {
    seq![
        "movzbl (%rcx), %eax"@,
        "cmpb $32, %al"@,
        "je .Ltrim_lnext"@,
        "cmpb $9, %al"@,
        "je .Ltrim_lnext"@,
        "cmpb $10, %al"@,
        "je .Ltrim_lnext"@,
        "cmpb $13, %al"@,
        "je .Ltrim_lnext"@,
        "jmp .Ltrim_ldone"@,
    ]
}

#[verifier::opaque]
pub open spec fn trim_lines_3() -> Seq<Seq<char>> {
    seq![
        "incq %rcx"@,
        "jmp .Ltrim_lskip"@,
    ]
}

#[verifier::opaque]
pub open spec fn trim_lines_4() -> Seq<Seq<char>> {
    seq![
        "movq %rcx, -16(%rbp)"@,
        "call strlen"@,
        "movq %rax, -24(%rbp)"@,
        "movq -16(%rbp), %rcx"@,
        "addq %rax, %rcx"@,
    ]
}

#[verifier::opaque]
pub open spec fn trim_lines_5() -> Seq<Seq<char>> {
    seq![
        "cmpq -16(%rbp), %rcx"@,
        "jle .Ltrim_rdone"@,
        "movzbl -1(%rcx), %eax"@,
        "cmpb $32, %al"@,
        "je .Ltrim_rnext"@,
        "cmpb $9, %al"@,
        "je .Ltrim_rnext"@,
        "cmpb $10, %al"@,
        "je .Ltrim_rnext"@,
        "cmpb $13, %al"@,
        "je .Ltrim_rnext"@,
        "jmp .Ltrim_rdone"@,
    ]
}

#[verifier::opaque]
pub open spec fn trim_lines_6() -> Seq<Seq<char>> {
    seq![
        "decq %rcx"@,
        "jmp .Ltrim_rskip"@,
    ]
}

#[verifier::opaque]
pub open spec fn trim_lines_7() -> Seq<Seq<char>> {
    seq![
        "subq -16(%rbp), %rcx"@,
        "movq %rcx, -24(%rbp)"@,
        "incq %rcx"@,
        "call malloc"@,
        "movq %rax, -32(%rbp)"@,
        "movq %rax, %rcx"@,
        "movq -16(%rbp), %rdx"@,
        "movq -24(%rbp), %r8"@,
        "call memcpy"@,
        "movq -32(%rbp), %rax"@,
        "movq -24(%rbp), %rcx"@,
        "movb $0, (%rax,%rcx,1)"@,
        "movq %rbp, %rsp"@,
        "popq %rbp"@,
        "ret"@,
    ]
}

/// The text of `__ferro_trim(s) -> RAX`: a new string without leading and trailing spaces, tabs, newlines and carriage returns.
#[verifier::opaque]
pub open spec fn trim_helper_text() -> Seq<char> {
    "__ferro_trim:\n"@
        + lines_text(trim_lines_1())
        + ".Ltrim_lskip:\n"@
        + lines_text(trim_lines_2())
        + ".Ltrim_lnext:\n"@
        + lines_text(trim_lines_3())
        + ".Ltrim_ldone:\n"@
        + lines_text(trim_lines_4())
        + ".Ltrim_rskip:\n"@
        + lines_text(trim_lines_5())
        + ".Ltrim_rnext:\n"@
        + lines_text(trim_lines_6())
        + ".Ltrim_rdone:\n"@
        + lines_text(trim_lines_7())
        + "\n"@
}

/// The checker's comptime constants, keyed by their names' characters.
pub open spec fn known_of(cts: Seq<(String, i64)>) -> Seq<(Seq<char>, i64)> {
    cts.map_values(|p: (String, i64)| (p.0@, p.1))
}

proof fn lemma_find_lookup(cts: Seq<(String, i64)>, k: Seq<char>)
    ensures
        find(known_of(cts), k) == lookup(cts, k),
    decreases cts.len(),
{
    if cts.len() > 0 {
        assert(known_of(cts).drop_last() =~= known_of(cts.drop_last()));
        lemma_find_lookup(cts.drop_last(), k);
    }
}

/// The code generator and the checker agree on comptime constants: wherever
/// the checker gives a comptime expression a value, the generator computes
/// that same value from the same constants.
pub proof fn lemma_comptime_values_agree(cts: Seq<(String, i64)>, e: Expr)
    requires
        comptime_value(cts, e) is Ok,
    ensures
        comptime_value(cts, e) == Ok::<i64, ()>(const_value(known_of(cts), e)),
    decreases e,
{
    match e {
        Expr::Ident { name, .. } => {
            lemma_find_lookup(cts, name@);
        },
        Expr::UnaryOp { operand, .. } => {
            lemma_comptime_values_agree(cts, *operand);
        },
        Expr::BinaryOp { left, right, .. } => {
            lemma_comptime_values_agree(cts, *left);
            lemma_comptime_values_agree(cts, *right);
        },
        _ => {},
    }
}



// ── Texts for every extension of a literal table ────────

/// A table that extends one that extends `a` extends `a`.
pub broadcast proof fn lemma_grows_trans(a: Seq<String>, b: Seq<String>, c: Seq<String>)
    requires
        grows(a, b),
        grows(b, c),
    ensures
        #![trigger grows(a, b), grows(b, c)]
        grows(a, c),
{
    assert forall|i: int| 0 <= i < a.len() implies #[trigger] c[i] == a[i] by {
        assert(c[i] == b[i]);
    }
}

/// The literals `ls` standing in a table from `n` on stand in every table
/// that extends it.
pub proof fn lemma_lits_at_grows(a: Seq<String>, b: Seq<String>, n: nat, ls: Seq<Seq<char>>)
    requires
        lits_at(a, n, ls),
        grows(a, b),
    ensures
        lits_at(b, n, ls),
{
    assert forall|k: int| 0 <= k < ls.len() implies #[trigger] b[n + k]@ == ls[k] by {
        assert(b[n + k] == a[n + k]);
    }
}

/// A value whose text is its arithmetic code, with its literals in the
/// table, has a text of the kind `value_text_ok` describes in every table
/// that extends it.
pub proof fn lemma_arith_text_ok_all(env: GenEnv, locals: Seq<(Seq<char>, LocalVar)>, n: nat, e: Expr, dfr: Seq<Expr>, sl: Seq<String>)
    ensures
        arith_code(env, locals, n, e) matches Some((c, ls)) ==> lits_at(sl, n, texts(ls)) ==> value_text_ok_all(
            env,
            locals,
            e,
            c,
            dfr,
            sl,
        ),
{
    if let Some((c, ls)) = arith_code(env, locals, n, e) {
        if lits_at(sl, n, texts(ls)) {
            assert forall|lits: Seq<String>| grows(sl, lits) implies value_text_ok(env, locals, e, c, dfr, lits) by {
                lemma_lits_at_grows(sl, lits, n, texts(ls));
                lemma_arith_text_ok(env, locals, n, e, dfr, lits);
            }
        }
    }
}

/// `value_text_ok` for every literal table that extends `sl`.
pub open spec fn value_text_ok_all(env: GenEnv, locals: Seq<(Seq<char>, LocalVar)>, e: Expr, t: Seq<char>, dfr: Seq<Expr>, sl: Seq<String>) -> bool {
    forall|lits: Seq<String>| grows(sl, lits) ==> #[trigger] value_text_ok(env, locals, e, t, dfr, lits)
}

/// `builtin_text_ok` for every literal table that extends `sl`.
pub open spec fn builtin_text_ok_all(env: GenEnv, locals: Seq<(Seq<char>, LocalVar)>, name: Seq<char>, args: Seq<Expr>, t: Seq<char>, dfr: Seq<Expr>, sl: Seq<String>) -> bool {
    forall|lits: Seq<String>| grows(sl, lits) ==> #[trigger] builtin_text_ok(env, locals, name, args, t, dfr, lits)
}

/// `args_text_ok` for every literal table that extends `sl`.
pub open spec fn args_text_ok_all(env: GenEnv, locals: Seq<(Seq<char>, LocalVar)>, args: Seq<Expr>, t: Seq<char>, dfr: Seq<Expr>, sl: Seq<String>) -> bool {
    forall|lits: Seq<String>| grows(sl, lits) ==> #[trigger] args_text_ok(env, locals, args, t, dfr, lits)
}

/// `deferred_text_ok` for every literal table that extends `sl`.
pub open spec fn deferred_text_ok_all(env: GenEnv, locals: Seq<(Seq<char>, LocalVar)>, ds: Seq<Expr>, t: Seq<char>, sl: Seq<String>) -> bool {
    forall|lits: Seq<String>| grows(sl, lits) ==> #[trigger] deferred_text_ok(env, locals, ds, t, lits)
}

/// `deferred_run_ok` for every literal table that extends `sl`.
pub open spec fn deferred_run_ok_all(env: GenEnv, fr: Frame, dt: Seq<char>, sl: Seq<String>) -> bool {
    forall|lits: Seq<String>| grows(sl, lits) ==> #[trigger] deferred_run_ok(env, fr, dt, lits)
}

/// `stmt_text_ok` for every literal table that extends `sl`.
pub open spec fn stmt_text_ok_all(env: GenEnv, fr: Frame, failable: bool, loops: Seq<(Seq<char>, Seq<char>)>, s: Stmt, t: Seq<char>, sl: Seq<String>) -> bool {
    forall|lits: Seq<String>| grows(sl, lits) ==> #[trigger] stmt_text_ok(env, fr, failable, loops, s, t, lits)
}

/// `block_text_ok` for every literal table that extends `sl`.
pub open spec fn block_text_ok_all(env: GenEnv, fr: Frame, failable: bool, loops: Seq<(Seq<char>, Seq<char>)>, b: Block, t: Seq<char>, sl: Seq<String>) -> bool {
    forall|lits: Seq<String>| grows(sl, lits) ==> #[trigger] block_text_ok(env, fr, failable, loops, b, t, lits)
}

/// `stmts_text_ok` for every literal table that extends `sl`.
pub open spec fn stmts_text_ok_all(env: GenEnv, fr: Frame, failable: bool, loops: Seq<(Seq<char>, Seq<char>)>, ss: Seq<Stmt>, t: Seq<char>, sl: Seq<String>) -> bool {
    forall|lits: Seq<String>| grows(sl, lits) ==> #[trigger] stmts_text_ok(env, fr, failable, loops, ss, t, lits)
}

/// `arms_text_ok` for every literal table that extends `sl`.
pub open spec fn arms_text_ok_all(env: GenEnv, fr: Frame, failable: bool, loops: Seq<(Seq<char>, Seq<char>)>, arms: Seq<MatchArm>, end_l: Seq<char>, t: Seq<char>, sl: Seq<String>) -> bool {
    forall|lits: Seq<String>| grows(sl, lits) ==> #[trigger] arms_text_ok(env, fr, failable, loops, arms, end_l, t, lits)
}

/// `elems_text_ok` for every literal table that extends `sl`.
pub open spec fn elems_text_ok_all(env: GenEnv, locals: Seq<(Seq<char>, LocalVar)>, es: Seq<Expr>, base: int, t: Seq<char>, dfr: Seq<Expr>, sl: Seq<String>) -> bool {
    forall|lits: Seq<String>| grows(sl, lits) ==> #[trigger] elems_text_ok(env, locals, es, base, t, dfr, lits)
}

/// `inits_text_ok` for every literal table that extends `sl`.
pub open spec fn inits_text_ok_all(env: GenEnv, locals: Seq<(Seq<char>, LocalVar)>, info: Seq<(Seq<char>, ValType)>, fs: Seq<(String, Expr)>, base: int, t: Seq<char>, dfr: Seq<Expr>, sl: Seq<String>) -> bool {
    forall|lits: Seq<String>| grows(sl, lits) ==> #[trigger] inits_text_ok(env, locals, info, fs, base, t, dfr, lits)
}

/// `function_body_ok` for every literal table that extends `sl`.
pub open spec fn function_body_ok_all(env: GenEnv, f: Function, body: Seq<char>, sl: Seq<String>) -> bool {
    forall|lits: Seq<String>| grows(sl, lits) ==> #[trigger] function_body_ok(env, f, body, lits)
}

/// A user call whose arguments have texts of the kind `args_text_ok`
/// describes, followed by the pops and the call, has a text of the kind
/// `value_text_ok` describes, for every literal table that extends `sl`.
pub proof fn lemma_user_call_value_text_all(
    env: GenEnv,
    locals: Seq<(Seq<char>, LocalVar)>,
    name: String,
    args: Vec<Expr>,
    span: Span,
    at: Seq<char>,
    dfr: Seq<Expr>,
    sl: Seq<String>,
)
    requires
        is_user_call(name@),
        args_text_ok_all(env, locals, args@, at, dfr, sl),
    ensures
        value_text_ok_all(env, locals, Expr::Call { name, args, span }, (at + pops_text(args.len() as nat)) + asm_line("call "@ + name@), dfr, sl),
{
    let e = Expr::Call { name, args, span };
    assert(e->Call_args@ == args@);
    assert forall|lits: Seq<String>| grows(sl, lits) implies value_text_ok(env, locals, e, (at + pops_text(args.len() as nat)) + asm_line("call "@ + name@), dfr, lits) by {
        assert(args_text_ok(env, locals, args@, at, dfr, lits));
    }
}

/// `lemma_builtin_value_text` for every literal table that extends `sl`.
pub proof fn lemma_builtin_value_text_all(
    env: GenEnv,
    locals: Seq<(Seq<char>, LocalVar)>,
    name: String,
    args: Vec<Expr>,
    span: Span,
    t: Seq<char>,
    dfr: Seq<Expr>,
    sl: Seq<String>,
)
    requires
        !is_user_call(name@),
        builtin_text_ok_all(env, locals, name@, args@, t, dfr, sl),
    ensures
        value_text_ok_all(env, locals, Expr::Call { name, args, span }, t, dfr, sl),
{
    assert forall|lits: Seq<String>| grows(sl, lits) implies value_text_ok(env, locals, Expr::Call { name, args, span }, t, dfr, lits) by {
        lemma_builtin_value_text(env, locals, name, args, span, t, dfr, lits);
    }
}

/// `lemma_args_text_step` for every literal table that extends `sl`.
pub proof fn lemma_args_text_step_all(
    env: GenEnv,
    locals: Seq<(Seq<char>, LocalVar)>,
    args: Seq<Expr>,
    t1: Seq<char>,
    vt: Seq<char>,
    dfr: Seq<Expr>,
    sl: Seq<String>,
)
    requires
        args.len() > 0,
        args_text_ok_all(env, locals, args.drop_last(), t1, dfr, sl),
        value_text_ok_all(env, locals, args.last(), vt, dfr, sl),
    ensures
        args_text_ok_all(env, locals, args, t1 + vt + asm_line("pushq %rax"@), dfr, sl),
{
    assert forall|lits: Seq<String>| grows(sl, lits) implies args_text_ok(env, locals, args, t1 + vt + asm_line("pushq %rax"@), dfr, lits) by {
        lemma_args_text_step(env, locals, args, t1, vt, dfr, lits);
    }
}

/// `lemma_deferred_text_step` for every literal table that extends `sl`.
pub proof fn lemma_deferred_text_step_all(env: GenEnv, locals: Seq<(Seq<char>, LocalVar)>, ds: Seq<Expr>, t1: Seq<char>, t2: Seq<char>, sl: Seq<String>)
    requires
        ds.len() > 0,
        deferred_text_ok_all(env, locals, ds.drop_first(), t1, sl),
        value_text_ok_all(env, locals, ds.first(), t2, Seq::empty(), sl),
    ensures
        deferred_text_ok_all(env, locals, ds, t1 + t2, sl),
{
    assert forall|lits: Seq<String>| grows(sl, lits) implies deferred_text_ok(env, locals, ds, t1 + t2, lits) by {
        lemma_deferred_text_step(env, locals, ds, t1, t2, lits);
    }
}

/// `lemma_let_text_ok` for every literal table that extends `sl`.
pub proof fn lemma_let_text_ok_all(
    env: GenEnv,
    fr: Frame,
    failable: bool,
    loops: Seq<(Seq<char>, Seq<char>)>,
    s: Stmt,
    t: Seq<char>,
    vt: Seq<char>,
    f2: Frame,
    sl: Seq<String>,
)
    requires
        s matches Stmt::Let { name, value, .. } && !(value is ArrayLit || value is StructLit) && new_slot(
            fr,
            name@,
            infer(env, fr.locals, value),
        ) == Some(f2) && t == vt + store_line(f2.offset) && value_text_ok_all(env, fr.locals, value, vt, fr.deferred, sl),
    ensures
        stmt_text_ok_all(env, fr, failable, loops, s, t, sl),
{
    assert forall|lits: Seq<String>| grows(sl, lits) implies stmt_text_ok(env, fr, failable, loops, s, t, lits) by {
        lemma_let_text_ok(env, fr, failable, loops, s, t, vt, f2, lits);
    }
}

/// `lemma_elems_text_step` for every literal table that extends `sl`.
pub proof fn lemma_elems_text_step_all(
    env: GenEnv,
    locals: Seq<(Seq<char>, LocalVar)>,
    es: Seq<Expr>,
    base: int,
    t1: Seq<char>,
    vt: Seq<char>,
    dfr: Seq<Expr>,
    sl: Seq<String>,
)
    requires
        es.len() > 0,
        elems_text_ok_all(env, locals, es.drop_last(), base, t1, dfr, sl),
        value_text_ok_all(env, locals, es.last(), vt, dfr, sl),
    ensures
        elems_text_ok_all(env, locals, es, base, t1 + vt + store_line(base + 8 * (es.len() - 1)), dfr, sl),
{
    assert forall|lits: Seq<String>| grows(sl, lits) implies elems_text_ok(env, locals, es, base, t1 + vt + store_line(base + 8 * (es.len() - 1)), dfr, lits) by {
        lemma_elems_text_step(env, locals, es, base, t1, vt, dfr, lits);
    }
}

/// `lemma_inits_text_step` for every literal table that extends `sl`.
pub proof fn lemma_inits_text_step_all(
    env: GenEnv,
    locals: Seq<(Seq<char>, LocalVar)>,
    info: Seq<(Seq<char>, ValType)>,
    fs: Seq<(String, Expr)>,
    base: int,
    t1: Seq<char>,
    vt: Seq<char>,
    k: nat,
    dfr: Seq<Expr>,
    sl: Seq<String>,
)
    requires
        fs.len() > 0,
        position(info, fs.last().0@) == Some(k),
        inits_text_ok_all(env, locals, info, fs.drop_last(), base, t1, dfr, sl),
        value_text_ok_all(env, locals, fs.last().1, vt, dfr, sl),
    ensures
        inits_text_ok_all(env, locals, info, fs, base, t1 + vt + store_line(base + 8 * k), dfr, sl),
{
    assert forall|lits: Seq<String>| grows(sl, lits) implies inits_text_ok(env, locals, info, fs, base, t1 + vt + store_line(base + 8 * k), dfr, lits) by {
        lemma_inits_text_step(env, locals, info, fs, base, t1, vt, k, dfr, lits);
    }
}

/// `lemma_for_text_ok` for every literal table that extends `sl`.
pub proof fn lemma_for_text_ok_all(
    env: GenEnv,
    fr: Frame,
    failable: bool,
    loops: Seq<(Seq<char>, Seq<char>)>,
    s: Stmt,
    t: Seq<char>,
    st: Seq<char>,
    et: Seq<char>,
    bt: Seq<char>,
    c0: usize,
    sl: Seq<String>,
)
    requires
        s matches Stmt::For { var, start, end, body, .. } && new_slot(fr, var@, ValType::Int) matches Some(f1)
            && new_slot(f1, "__for_end"@, ValType::Int) matches Some(f2) && t == for_shape(
            st,
            et,
            bt,
            f1.offset,
            f2.offset,
            c0,
        ) && value_text_ok_all(env, fr.locals, start, st, fr.deferred, sl) && value_text_ok_all(env, f1.locals, end, et, fr.deferred, sl)
            && block_text_ok_all(env, f2, failable, loops.push(for_labels(c0)), body, bt, sl),
    ensures
        stmt_text_ok_all(env, fr, failable, loops, s, t, sl),
{
    assert forall|lits: Seq<String>| grows(sl, lits) implies stmt_text_ok(env, fr, failable, loops, s, t, lits) by {
        lemma_for_text_ok(env, fr, failable, loops, s, t, st, et, bt, c0, lits);
    }
}

/// `lemma_stmts_text_step` for every literal table that extends `sl`.
pub proof fn lemma_stmts_text_step_all(
    env: GenEnv,
    fr: Frame,
    failable: bool,
    loops: Seq<(Seq<char>, Seq<char>)>,
    ss: Seq<Stmt>,
    t1: Seq<char>,
    t2: Seq<char>,
    sl: Seq<String>,
)
    requires
        ss.len() > 0,
        stmts_text_ok_all(env, fr, failable, loops, ss.drop_last(), t1, sl),
        stmts_gen(env, fr, ss.drop_last()) matches Some(f1) && stmt_text_ok_all(env, f1, failable, loops, ss.last(), t2, sl),
    ensures
        stmts_text_ok_all(env, fr, failable, loops, ss, t1 + t2, sl),
{
    assert forall|lits: Seq<String>| grows(sl, lits) implies stmts_text_ok(env, fr, failable, loops, ss, t1 + t2, lits) by {
        lemma_stmts_text_step(env, fr, failable, loops, ss, t1, t2, lits);
    }
}

/// `lemma_arms_text_step` for every literal table that extends `sl`.
pub proof fn lemma_arms_text_step_all(
    env: GenEnv,
    fr: Frame,
    failable: bool,
    loops: Seq<(Seq<char>, Seq<char>)>,
    arms: Seq<MatchArm>,
    end_l: Seq<char>,
    t1: Seq<char>,
    bt: Seq<char>,
    c: usize,
    sl: Seq<String>,
)
    requires
        arms.len() > 0,
        arms_text_ok_all(env, fr, failable, loops, arms.drop_last(), end_l, t1, sl),
        arms_gen(env, fr, arms.drop_last()) matches Some(f1) && block_text_ok_all(
            env,
            f1,
            failable,
            loops,
            arms.last().body,
            bt,
            sl,
        ),
    ensures
        arms_text_ok_all(env, fr, failable, loops, arms, end_l, t1 + arm_shape(env, arms.last().pattern, bt, end_l, c), sl),
{
    assert forall|lits: Seq<String>| grows(sl, lits) implies arms_text_ok(env, fr, failable, loops, arms, end_l, t1 + arm_shape(env, arms.last().pattern, bt, end_l, c), lits) by {
        lemma_arms_text_step(env, fr, failable, loops, arms, end_l, t1, bt, c, lits);
    }
}

/// `value_text_ok` in every table that extends `sa` holds in every table that
/// extends a table that extends `sa`.
pub proof fn lemma_value_text_ok_lift(env: GenEnv, locals: Seq<(Seq<char>, LocalVar)>, e: Expr, t: Seq<char>, dfr: Seq<Expr>, sa: Seq<String>, sb: Seq<String>)
    requires
        value_text_ok_all(env, locals, e, t, dfr, sa),
        grows(sa, sb),
    ensures
        value_text_ok_all(env, locals, e, t, dfr, sb),
{
    assert forall|lits: Seq<String>| grows(sb, lits) implies value_text_ok(env, locals, e, t, dfr, lits) by {
        lemma_grows_trans(sa, sb, lits);
    }
}

/// `args_text_ok` in every table that extends `sa` holds in every table that
/// extends a table that extends `sa`.
pub proof fn lemma_args_text_ok_lift(env: GenEnv, locals: Seq<(Seq<char>, LocalVar)>, args: Seq<Expr>, t: Seq<char>, dfr: Seq<Expr>, sa: Seq<String>, sb: Seq<String>)
    requires
        args_text_ok_all(env, locals, args, t, dfr, sa),
        grows(sa, sb),
    ensures
        args_text_ok_all(env, locals, args, t, dfr, sb),
{
    assert forall|lits: Seq<String>| grows(sb, lits) implies args_text_ok(env, locals, args, t, dfr, lits) by {
        lemma_grows_trans(sa, sb, lits);
    }
}

/// `deferred_text_ok` in every table that extends `sa` holds in every table that
/// extends a table that extends `sa`.
pub proof fn lemma_deferred_text_ok_lift(env: GenEnv, locals: Seq<(Seq<char>, LocalVar)>, ds: Seq<Expr>, t: Seq<char>, sa: Seq<String>, sb: Seq<String>)
    requires
        deferred_text_ok_all(env, locals, ds, t, sa),
        grows(sa, sb),
    ensures
        deferred_text_ok_all(env, locals, ds, t, sb),
{
    assert forall|lits: Seq<String>| grows(sb, lits) implies deferred_text_ok(env, locals, ds, t, lits) by {
        lemma_grows_trans(sa, sb, lits);
    }
}

/// `stmt_text_ok` in every table that extends `sa` holds in every table that
/// extends a table that extends `sa`.
pub proof fn lemma_stmt_text_ok_lift(env: GenEnv, fr: Frame, failable: bool, loops: Seq<(Seq<char>, Seq<char>)>, s: Stmt, t: Seq<char>, sa: Seq<String>, sb: Seq<String>)
    requires
        stmt_text_ok_all(env, fr, failable, loops, s, t, sa),
        grows(sa, sb),
    ensures
        stmt_text_ok_all(env, fr, failable, loops, s, t, sb),
{
    assert forall|lits: Seq<String>| grows(sb, lits) implies stmt_text_ok(env, fr, failable, loops, s, t, lits) by {
        lemma_grows_trans(sa, sb, lits);
    }
}

/// `block_text_ok` in every table that extends `sa` holds in every table that
/// extends a table that extends `sa`.
pub proof fn lemma_block_text_ok_lift(env: GenEnv, fr: Frame, failable: bool, loops: Seq<(Seq<char>, Seq<char>)>, b: Block, t: Seq<char>, sa: Seq<String>, sb: Seq<String>)
    requires
        block_text_ok_all(env, fr, failable, loops, b, t, sa),
        grows(sa, sb),
    ensures
        block_text_ok_all(env, fr, failable, loops, b, t, sb),
{
    assert forall|lits: Seq<String>| grows(sb, lits) implies block_text_ok(env, fr, failable, loops, b, t, lits) by {
        lemma_grows_trans(sa, sb, lits);
    }
}

/// `stmts_text_ok` in every table that extends `sa` holds in every table that
/// extends a table that extends `sa`.
pub proof fn lemma_stmts_text_ok_lift(env: GenEnv, fr: Frame, failable: bool, loops: Seq<(Seq<char>, Seq<char>)>, ss: Seq<Stmt>, t: Seq<char>, sa: Seq<String>, sb: Seq<String>)
    requires
        stmts_text_ok_all(env, fr, failable, loops, ss, t, sa),
        grows(sa, sb),
    ensures
        stmts_text_ok_all(env, fr, failable, loops, ss, t, sb),
{
    assert forall|lits: Seq<String>| grows(sb, lits) implies stmts_text_ok(env, fr, failable, loops, ss, t, lits) by {
        lemma_grows_trans(sa, sb, lits);
    }
}

/// `arms_text_ok` in every table that extends `sa` holds in every table that
/// extends a table that extends `sa`.
pub proof fn lemma_arms_text_ok_lift(env: GenEnv, fr: Frame, failable: bool, loops: Seq<(Seq<char>, Seq<char>)>, arms: Seq<MatchArm>, end_l: Seq<char>, t: Seq<char>, sa: Seq<String>, sb: Seq<String>)
    requires
        arms_text_ok_all(env, fr, failable, loops, arms, end_l, t, sa),
        grows(sa, sb),
    ensures
        arms_text_ok_all(env, fr, failable, loops, arms, end_l, t, sb),
{
    assert forall|lits: Seq<String>| grows(sb, lits) implies arms_text_ok(env, fr, failable, loops, arms, end_l, t, lits) by {
        lemma_grows_trans(sa, sb, lits);
    }
}

/// `elems_text_ok` in every table that extends `sa` holds in every table that
/// extends a table that extends `sa`.
pub proof fn lemma_elems_text_ok_lift(env: GenEnv, locals: Seq<(Seq<char>, LocalVar)>, es: Seq<Expr>, base: int, t: Seq<char>, dfr: Seq<Expr>, sa: Seq<String>, sb: Seq<String>)
    requires
        elems_text_ok_all(env, locals, es, base, t, dfr, sa),
        grows(sa, sb),
    ensures
        elems_text_ok_all(env, locals, es, base, t, dfr, sb),
{
    assert forall|lits: Seq<String>| grows(sb, lits) implies elems_text_ok(env, locals, es, base, t, dfr, lits) by {
        lemma_grows_trans(sa, sb, lits);
    }
}

/// `inits_text_ok` in every table that extends `sa` holds in every table that
/// extends a table that extends `sa`.
pub proof fn lemma_inits_text_ok_lift(env: GenEnv, locals: Seq<(Seq<char>, LocalVar)>, info: Seq<(Seq<char>, ValType)>, fs: Seq<(String, Expr)>, base: int, t: Seq<char>, dfr: Seq<Expr>, sa: Seq<String>, sb: Seq<String>)
    requires
        inits_text_ok_all(env, locals, info, fs, base, t, dfr, sa),
        grows(sa, sb),
    ensures
        inits_text_ok_all(env, locals, info, fs, base, t, dfr, sb),
{
    assert forall|lits: Seq<String>| grows(sb, lits) implies inits_text_ok(env, locals, info, fs, base, t, dfr, lits) by {
        lemma_grows_trans(sa, sb, lits);
    }
}

/// `function_body_ok` in every table that extends `sa` holds in every table that
/// extends a table that extends `sa`.
pub proof fn lemma_function_body_ok_lift(env: GenEnv, f: Function, body: Seq<char>, sa: Seq<String>, sb: Seq<String>)
    requires
        function_body_ok_all(env, f, body, sa),
        grows(sa, sb),
    ensures
        function_body_ok_all(env, f, body, sb),
{
    assert forall|lits: Seq<String>| grows(sb, lits) implies function_body_ok(env, f, body, lits) by {
        lemma_grows_trans(sa, sb, lits);
    }
}

} // verus!
