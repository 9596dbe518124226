//! Code generation — emits x86-64 assembly (Windows x64 ABI, AT&T syntax for GCC).
//!
//! Windows x64 calling convention: the first four integer arguments go in
//! RCX, RDX, R8, R9; the result comes back in RAX; the caller reserves 32
//! bytes of shadow space and keeps the stack 16-byte aligned before `call`.
//!
//! Each function gets a stack frame for its locals, addressed as negative
//! offsets from RBP. Expressions evaluate into RAX; a binary operation
//! evaluates its left operand, pushes it, evaluates the right one into RCX
//! after popping the left back into RAX.

pub mod model;
pub mod machine;

use vstd::prelude::*;
use crate::ast::{BinOp, Block, Expr, Function, MatchArm, Pattern, Program, Stmt, UnaryOp};
use crate::error::Span;
use crate::codegen::model::{
    builtin_arity, deferred_ok, emits_try, expr_ok, exprs_emit_try, exprs_ok, find, infer, inits_emit_try,
    inits_ok, is_local_array, position, val_type_named, variant_key, Frame, GenEnv, LocalVar, ValType, new_slot,
    stmt_gen, block_gen, stmts_gen, arms_gen, stmt_slots, stmts_slots, block_slots,
    arms_slots, function_slots, round16, func_gen, params_frame, frame_size, const_value, gen_ok, program_env,
    arith_code, asm_line, binop_code, compare_code, concat_tail, lemma_arith_ok, lines_text, op_tail, unary_code,
    builtin_helpers_text, store_line, lemma_let_text_ok, value_text_ok, args_text_ok, is_user_call, pops_text, pop_line,
    lemma_arith_text_ok, lemma_args_text_step, binary_tail, cast_code, try_shape,
    elems_text_ok, inits_text_ok, lemma_elems_text_step, lemma_inits_text_step,
    builtin1_code, builtin2_code, read_line_code, read_line_head, read_line_lf, read_line_cr, builtin_text_ok, lemma_builtin_value_text, stmt_text_ok, block_text_ok, stmts_text_ok,
    function_body_ok, lemma_stmts_text_step, leave_text, deferred_run_ok, exit_shape,
    deferred_text_ok, lemma_deferred_text_step,
    ok_flag_text, for_loop_shape, for_shape, for_head, for_tail, lemma_for_text_ok, pattern_value, arm_shape,
    match_shape, arms_text_ok, lemma_arms_text_step, while_labels, for_labels, print_code, param_store, params_text, if_shape, label_text, next_count, while_shape, read_file_lines_1, read_file_lines_2, read_file_lines_3, read_file_lines_4, read_file_lines_5, read_file_helper_text, write_file_lines_1, write_file_lines_2, write_file_lines_3, write_file_lines_4, write_file_lines_5, write_file_helper_text, concat_lines, concat_helper_text, substr_lines, substr_helper_text, trim_lines_1, trim_lines_2, trim_lines_3, trim_lines_4, trim_lines_5, trim_lines_6, trim_lines_7, trim_helper_text,
    value_text_ok_all, builtin_text_ok_all, args_text_ok_all, deferred_text_ok_all, deferred_run_ok_all, stmt_text_ok_all, block_text_ok_all, stmts_text_ok_all, arms_text_ok_all, elems_text_ok_all, inits_text_ok_all, function_body_ok_all, lemma_builtin_value_text_all, lemma_user_call_value_text_all, lemma_args_text_step_all, lemma_deferred_text_step_all, lemma_let_text_ok_all, lemma_elems_text_step_all, lemma_inits_text_step_all, lemma_for_text_ok_all, lemma_stmts_text_step_all, lemma_arms_text_step_all, lemma_arith_text_ok_all, lits_at, texts, print_lits, builtin1_lits, cast_lits, lemma_lits_at_grows, lemma_grows_trans, lemma_value_text_ok_lift, lemma_args_text_ok_lift, lemma_deferred_text_ok_lift, lemma_stmt_text_ok_lift, lemma_block_text_ok_lift, lemma_stmts_text_ok_lift, lemma_arms_text_ok_lift, lemma_elems_text_ok_lift, lemma_inits_text_ok_lift, lemma_function_body_ok_lift,
};
use crate::sema::checker::find_last;
use crate::text::{int_text, nat_text, push_i64, push_str, push_string, push_usize, str_is, string_of};

verus! {

/// `a` is a prefix of `b`.
pub open spec fn grows<T>(a: Seq<T>, b: Seq<T>) -> bool {
    a.len() <= b.len() && forall|i: int| 0 <= i < a.len() ==> #[trigger] b[i] == a[i]
}

pub proof fn lemma_find_at<V>(t: Seq<(Seq<char>, V)>, k: Seq<char>, i: int)
    requires
        0 <= i < t.len(),
        t[i].0 == k,
        forall|j: int| i < j < t.len() ==> #[trigger] t[j].0 != k,
    ensures
        find(t, k) == Some(t[i].1),
    decreases t.len(),
{
    if i < t.len() - 1 {
        assert(t.last().0 != k);
        lemma_find_at(t.drop_last(), k, i);
    }
}

pub proof fn lemma_find_none<V>(t: Seq<(Seq<char>, V)>, k: Seq<char>)
    requires
        forall|j: int| 0 <= j < t.len() ==> #[trigger] t[j].0 != k,
    ensures
        find(t, k) is None,
    decreases t.len(),
{
    if t.len() > 0 {
        assert(t.last().0 != k);
        lemma_find_none(t.drop_last(), k);
    }
}

pub proof fn lemma_position_at<V>(t: Seq<(Seq<char>, V)>, k: Seq<char>, i: int)
    requires
        0 <= i < t.len(),
        t[i].0 == k,
        forall|j: int| 0 <= j < i ==> #[trigger] t[j].0 != k,
    ensures
        position(t, k) == Some(i as nat),
    decreases t.len(),
{
    if i > 0 {
        assert(t[0].0 != k);
        assert forall|j: int| 0 <= j < i - 1 implies #[trigger] t.drop_first()[j].0 != k by {
            assert(t.drop_first()[j] == t[j + 1]);
        }
        lemma_position_at(t.drop_first(), k, i - 1);
    }
}

pub proof fn lemma_position_none<V>(t: Seq<(Seq<char>, V)>, k: Seq<char>)
    requires
        forall|j: int| 0 <= j < t.len() ==> #[trigger] t[j].0 != k,
    ensures
        position(t, k) is None,
    decreases t.len(),
{
    if t.len() > 0 {
        assert(t[0].0 != k);
        assert forall|j: int| 0 <= j < t.len() - 1 implies #[trigger] t.drop_first()[j].0 != k by {
            assert(t.drop_first()[j] == t[j + 1]);
        }
        lemma_position_none(t.drop_first(), k);
    }
}

/// The index of the first entry named `k`, when the names are compared by text.
fn first_index<V>(t: &Vec<(String, V)>, k: &String) -> (r: Option<usize>)
    ensures
        match r {
            Some(i) => i < t@.len() && t@[i as int].0@ == k@ && forall|j: int|
                0 <= j < i ==> #[trigger] t@[j].0@ != k@,
            None => forall|j: int| 0 <= j < t@.len() ==> #[trigger] t@[j].0@ != k@,
        },
{
    crate::sema::checker::find_first(t, k)
}


/// Emitting `e` succeeds: its lookups succeed, and where it reaches a `try`
/// the deferred expressions can be emitted (never from inside one of them).
pub open spec fn expr_emits(env: GenEnv, fr: Frame, nested: bool, e: Expr) -> bool {
    expr_ok(env, fr.locals, e) && (emits_try(fr.locals, e) ==> (fr.deferred.len() == 0 || (!nested && deferred_ok(
        env,
        fr.locals,
        fr.deferred,
    ))))
}

pub proof fn lemma_exprs_ok(env: GenEnv, locals: Seq<(Seq<char>, LocalVar)>, es: Seq<Expr>)
    ensures
        exprs_ok(env, locals, es) == forall|j: int| 0 <= j < es.len() ==> #[trigger] expr_ok(env, locals, es[j]),
        exprs_emit_try(locals, es) == exists|j: int| 0 <= j < es.len() && #[trigger] emits_try(locals, es[j]),
    decreases es.len(),
{
    if es.len() > 0 {
        let dl = es.drop_last();
        lemma_exprs_ok(env, locals, dl);
        assert forall|j: int| 0 <= j < dl.len() implies dl[j] == es[j] by {}
        if exprs_ok(env, locals, es) {
            assert forall|j: int| 0 <= j < es.len() implies #[trigger] expr_ok(env, locals, es[j]) by {
                if j < es.len() - 1 {
                    assert(expr_ok(env, locals, dl[j]));
                }
            }
        }
        if forall|j: int| 0 <= j < es.len() ==> #[trigger] expr_ok(env, locals, es[j]) {
            assert forall|j: int| 0 <= j < dl.len() implies #[trigger] expr_ok(env, locals, dl[j]) by {
                assert(expr_ok(env, locals, es[j]));
            }
            assert(expr_ok(env, locals, es[es.len() - 1]));
        }
        if exprs_emit_try(locals, es) {
            if exprs_emit_try(locals, dl) {
                let j = choose|j: int| 0 <= j < dl.len() && #[trigger] emits_try(locals, dl[j]);
                assert(emits_try(locals, es[j]));
            } else {
                assert(emits_try(locals, es[es.len() - 1]));
            }
        }
        if exists|j: int| 0 <= j < es.len() && #[trigger] emits_try(locals, es[j]) {
            let j = choose|j: int| 0 <= j < es.len() && #[trigger] emits_try(locals, es[j]);
            if j < es.len() - 1 {
                assert(emits_try(locals, dl[j]));
            }
        }
    }
}


pub proof fn lemma_inits_ok(
    env: GenEnv,
    locals: Seq<(Seq<char>, LocalVar)>,
    declared: Seq<(Seq<char>, ValType)>,
    fs: Seq<(String, Expr)>,
)
    ensures
        inits_ok(env, locals, declared, fs) == forall|j: int|
            0 <= j < fs.len() ==> position(declared, (#[trigger] fs[j]).0@) is Some && expr_ok(env, locals, fs[j].1),
        inits_emit_try(locals, fs) == exists|j: int| 0 <= j < fs.len() && emits_try(locals, (#[trigger] fs[j]).1),
    decreases fs.len(),
{
    if fs.len() > 0 {
        let dl = fs.drop_last();
        lemma_inits_ok(env, locals, declared, dl);
        assert forall|j: int| 0 <= j < dl.len() implies dl[j] == fs[j] by {}
        if inits_ok(env, locals, declared, fs) {
            assert forall|j: int| 0 <= j < fs.len() implies position(declared, (#[trigger] fs[j]).0@) is Some
                && expr_ok(env, locals, fs[j].1) by {
                if j < fs.len() - 1 {
                    assert(dl[j] == fs[j]);
                }
            }
        }
        if forall|j: int|
            0 <= j < fs.len() ==> position(declared, (#[trigger] fs[j]).0@) is Some && expr_ok(env, locals, fs[j].1) {
            assert forall|j: int| 0 <= j < dl.len() implies position(declared, (#[trigger] dl[j]).0@) is Some
                && expr_ok(env, locals, dl[j].1) by {
                assert(dl[j] == fs[j]);
            }
            assert(fs[fs.len() - 1] == fs.last());
        }
        if inits_emit_try(locals, fs) {
            if inits_emit_try(locals, dl) {
                let j = choose|j: int| 0 <= j < dl.len() && emits_try(locals, (#[trigger] dl[j]).1);
                assert(dl[j] == fs[j]);
            } else {
                assert(fs[fs.len() - 1] == fs.last());
            }
        }
        if exists|j: int| 0 <= j < fs.len() && emits_try(locals, (#[trigger] fs[j]).1) {
            let j = choose|j: int| 0 <= j < fs.len() && emits_try(locals, (#[trigger] fs[j]).1);
            if j < fs.len() - 1 {
                assert(dl[j] == fs[j]);
            }
        }
    }
}


pub proof fn lemma_stmts_gen_prefix(env: GenEnv, fr: Frame, ss: Seq<Stmt>, i: int)
    requires
        0 <= i <= ss.len(),
        stmts_gen(env, fr, ss.take(i)) is None,
    ensures
        stmts_gen(env, fr, ss) is None,
    decreases ss.len(),
{
    if i == ss.len() {
        assert(ss.take(i) =~= ss);
    } else {
        assert(ss.drop_last().take(i) =~= ss.take(i));
        lemma_stmts_gen_prefix(env, fr, ss.drop_last(), i);
    }
}

pub proof fn lemma_arms_gen_prefix(env: GenEnv, fr: Frame, arms: Seq<MatchArm>, i: int)
    requires
        0 <= i <= arms.len(),
        arms_gen(env, fr, arms.take(i)) is None,
    ensures
        arms_gen(env, fr, arms) is None,
    decreases arms.len(),
{
    if i == arms.len() {
        assert(arms.take(i) =~= arms);
    } else {
        assert(arms.drop_last().take(i) =~= arms.take(i));
        lemma_arms_gen_prefix(env, fr, arms.drop_last(), i);
    }
}


// ── Frame sizes ──────────────────────────────────────────

pub proof fn lemma_stmts_slots_prefix(ss: Seq<Stmt>, i: int)
    requires
        0 <= i <= ss.len(),
    ensures
        stmts_slots(ss.take(i)) <= stmts_slots(ss),
    decreases ss.len(),
{
    if i < ss.len() {
        assert(ss.drop_last().take(i) =~= ss.take(i));
        lemma_stmts_slots_prefix(ss.drop_last(), i);
    } else {
        assert(ss.take(i) =~= ss);
    }
}

pub proof fn lemma_arms_slots_prefix(arms: Seq<MatchArm>, i: int)
    requires
        0 <= i <= arms.len(),
    ensures
        arms_slots(arms.take(i)) <= arms_slots(arms),
    decreases arms.len(),
{
    if i < arms.len() {
        assert(arms.drop_last().take(i) =~= arms.take(i));
        lemma_arms_slots_prefix(arms.drop_last(), i);
    } else {
        assert(arms.take(i) =~= arms);
    }
}

/// The slots the locals declared in a statement need (`None` when the
/// count does not fit in `usize`).
fn count_locals_in_stmt(stmt: &Stmt) -> (r: Option<usize>)
    ensures
        match r {
            Some(n) => n == stmt_slots(*stmt),
            None => stmt_slots(*stmt) > usize::MAX,
        },
    decreases stmt,
{
    match stmt {
        Stmt::Let { value, .. } => match value {
            Expr::ArrayLit { elements, .. } => Some(elements.len()),
            Expr::StructLit { fields, .. } => Some(fields.len()),
            _ => Some(1),
        },
        Stmt::If { then_block, else_block, .. } => {
            let a = match count_locals_in_block(then_block) {
                Some(a) => a,
                None => {
                    return None;
                },
            };
            let b = match else_block {
                Some(eb) => match count_locals_in_block(eb) {
                    Some(b) => b,
                    None => {
                        return None;
                    },
                },
                None => 0,
            };
            a.checked_add(b)
        },
        Stmt::While { body, .. } => count_locals_in_block(body),
        Stmt::For { body, .. } => match count_locals_in_block(body) {
            Some(b) => b.checked_add(2),
            None => None,
        },
        Stmt::Match { arms, .. } => count_locals_in_arms(arms),
        _ => Some(0),
    }
}

/// The slots the locals declared in a block need.
fn count_locals_in_block(block: &Block) -> (r: Option<usize>)
    ensures
        match r {
            Some(n) => n == block_slots(*block),
            None => block_slots(*block) > usize::MAX,
        },
    decreases block,
{
    let mut count: usize = 0;
    let mut i: usize = 0;
    assert(block.stmts@.take(0) =~= Seq::<Stmt>::empty());
    while i < block.stmts.len()
        invariant
            i <= block.stmts@.len(),
            count == stmts_slots(block.stmts@.take(i as int)),
        decreases block.stmts@.len() - i,
    {
        assert(block.stmts@.take(i + 1).drop_last() =~= block.stmts@.take(i as int));
        proof {
            lemma_stmts_slots_prefix(block.stmts@, i + 1);
        }
        let n = match count_locals_in_stmt(&block.stmts[i]) {
            Some(n) => n,
            None => {
                return None;
            },
        };
        count = match count.checked_add(n) {
            Some(c) => c,
            None => {
                return None;
            },
        };
        i += 1;
    }
    assert(block.stmts@.take(i as int) =~= block.stmts@);
    Some(count)
}

/// The slots the locals declared in match arms need.
fn count_locals_in_arms(arms: &Vec<MatchArm>) -> (r: Option<usize>)
    ensures
        match r {
            Some(n) => n == arms_slots(arms@),
            None => arms_slots(arms@) > usize::MAX,
        },
    decreases arms,
{
    let mut count: usize = 0;
    let mut i: usize = 0;
    assert(arms@.take(0) =~= Seq::<MatchArm>::empty());
    while i < arms.len()
        invariant
            i <= arms@.len(),
            count == arms_slots(arms@.take(i as int)),
        decreases arms@.len() - i,
    {
        assert(arms@.take(i + 1).drop_last() =~= arms@.take(i as int));
        proof {
            lemma_arms_slots_prefix(arms@, i + 1);
        }
        let n = match count_locals_in_block(&arms[i].body) {
            Some(n) => n,
            None => {
                return None;
            },
        };
        count = match count.checked_add(n) {
            Some(c) => c,
            None => {
                return None;
            },
        };
        i += 1;
    }
    assert(arms@.take(i as int) =~= arms@);
    Some(count)
}

/// The slots a function needs: its parameters and every local of its body.
fn count_locals(func: &Function) -> (r: Option<usize>)
    ensures
        match r {
            Some(n) => n == function_slots(*func),
            None => function_slots(*func) > usize::MAX,
        },
{
    match count_locals_in_block(&func.body) {
        Some(b) => func.params.len().checked_add(b),
        None => None,
    }
}

/// Round up to the nearest multiple of 16.
fn align16(n: i64) -> (r: i64)
    requires
        0 <= n <= i64::MAX - 15,
    ensures
        r == round16(n as int),
{
    let u: u64 = (n + 15) as u64;
    let m: u64 = u & !15u64;
    assert(u & !15u64 == u - u % 16) by (bit_vector);
    m as i64
}

/// `align16` gives the smallest multiple of 16 that is at least `n`.
pub proof fn lemma_align16(n: int)
    requires
        0 <= n,
    ensures
        round16(n) % 16 == 0,
        n <= round16(n) < n + 16,
        forall|k: int| n <= #[trigger] times16(k) ==> round16(n) <= times16(k),
{
    let q = n / 16;
    let r = n % 16;
    assert(n == 16 * q + r && 0 <= r < 16) by (nonlinear_arith)
        requires
            q == n / 16,
            r == n % 16,
            n >= 0,
    ;
    if r == 0 {
        assert(round16(n) == 16 * q);
    } else {
        assert(round16(n) == 16 * q + 16);
    }
    assert(round16(n) % 16 == 0) by (nonlinear_arith)
        requires
            round16(n) == 16 * q || round16(n) == 16 * q + 16,
    ;
    assert forall|k: int| n <= #[trigger] times16(k) implies round16(n) <= times16(k) by {
        assert(16 * k >= 16 * q + r);
        if r > 0 {
            assert(k >= q + 1) by (nonlinear_arith)
                requires
                    16 * k >= 16 * q + r,
                    r > 0,
            ;
        } else {
            assert(k >= q) by (nonlinear_arith)
                requires
                    16 * k >= 16 * q,
            ;
        }
    }
}

/// The multiple `16 * k`.
pub open spec fn times16(k: int) -> int {
    16 * k
}


/// How a function's text begins: its label (exported unless private) and
/// the frame set-up.
pub open spec fn prologue_text(f: Function, frame: int) -> Seq<char> {
    (if f.is_private { Seq::empty() } else { "    "@ + ".globl "@ + f.name@ + "\n"@ }) + f.name@ + ":\n"@ + "    "@
        + "pushq %rbp"@ + "\n"@ + "    "@ + "movq %rsp, %rbp"@ + "\n"@ + "    "@ + "subq $"@ + int_text(frame)
        + ", %rsp"@ + "\n"@
}

/// The text of a function: its prologue, the given body and its epilogue.
#[verifier::opaque]
pub open spec fn function_text(f: Function, body: Seq<char>) -> Seq<char> {
    prologue_text(f, frame_size(f)) + body + epilogue_text(f)
}

/// The text of functions in order, each its prologue, the given body and
/// its epilogue.
pub open spec fn functions_text(fs: Seq<Function>, bodies: Seq<Seq<char>>) -> Seq<char>
    decreases fs.len(),
{
    if fs.len() == 0 || bodies.len() != fs.len() {
        Seq::empty()
    } else {
        functions_text(fs.drop_last(), bodies.drop_last()) + function_text(fs.last(), bodies.last())
    }
}

/// A whole assembly file: the text section with the functions and the
/// helpers, then the data section with every string literal; the helpers'
/// four literals are the last ones.
pub open spec fn assembly_text(fs: Seq<Function>, bodies: Seq<Seq<char>>, lits: Seq<String>) -> Seq<char> {
    "    .section .text\n"@ + functions_text(fs, bodies) + builtin_helpers_text((lits.len() - 4) as nat)
        + data_section(lits)
}

/// The helpers' four literals end the literal list.
pub open spec fn helper_literals_last(lits: Seq<String>) -> bool {
    &&& lits.len() >= 4
    &&& lits[lits.len() - 4]@ == "could not open file"@
    &&& lits[lits.len() - 3]@ == "rb"@
    &&& lits[lits.len() - 2]@ == "could not open file for writing"@
    &&& lits[lits.len() - 1]@ == "w"@
}

/// How a function's text ends: return 0 (and no error for a failable
/// function) when the body falls through, then restore the caller's frame.
pub open spec fn epilogue_text(f: Function) -> Seq<char> {
    "    "@ + "xorl %eax, %eax"@ + "\n"@ + (if f.can_fail {
        "    "@ + "xorl %edx, %edx"@ + "\n"@
    } else {
        Seq::empty()
    }) + ".L"@ + f.name@ + "_epilogue"@ + ":\n"@ + "    "@ + "movq %rbp, %rsp"@ + "\n"@ + "    "@ + "popq %rbp"@
        + "\n"@ + "    "@ + "ret"@ + "\n"@ + "\n"@
}

pub proof fn lemma_params_frame_prefix(fr: Frame, ps: Seq<crate::ast::Param>, i: int)
    requires
        0 <= i <= ps.len(),
        params_frame(fr, ps.take(i)) is None,
    ensures
        params_frame(fr, ps) is None,
    decreases ps.len(),
{
    if i == ps.len() {
        assert(ps.take(i) =~= ps);
    } else {
        assert(ps.drop_last().take(i) =~= ps.take(i));
        lemma_params_frame_prefix(fr, ps.drop_last(), i);
    }
}


/// The `.data` lines of string literals `lits[i..]`, numbered from `i`.
pub open spec fn literals_text(lits: Seq<String>, i: int) -> Seq<char>
    decreases lits.len() - i,
{
    if i < 0 || i >= lits.len() {
        Seq::empty()
    } else {
        ".Lstr_"@ + nat_text(i as nat) + ":\n"@ + "    .ascii \""@ + lits[i]@ + "\\0\"\n"@ + literals_text(lits, i + 1)
    }
}

/// The `.data` section holding the string literals (none when there are none).
pub open spec fn data_section(lits: Seq<String>) -> Seq<char> {
    if lits.len() == 0 {
        Seq::empty()
    } else {
        "    .section .data\n"@ + literals_text(lits, 0)
    }
}

/// The text of the functions holds each function's text in program order:
/// the texts of those before it, then its own, then the others.
pub proof fn lemma_functions_text_split(fs: Seq<Function>, bodies: Seq<Seq<char>>, i: int)
    requires
        bodies.len() == fs.len(),
        0 <= i < fs.len(),
    ensures
        exists|post: Seq<char>|
            functions_text(fs, bodies) == functions_text(fs.take(i), bodies.take(i)) + function_text(fs[i], bodies[i])
                + post,
    decreases fs.len(),
{
    let dl = fs.drop_last();
    let bl = bodies.drop_last();
    if i == fs.len() - 1 {
        assert(dl =~= fs.take(i));
        assert(bl =~= bodies.take(i));
        assert(functions_text(fs, bodies) == functions_text(fs.take(i), bodies.take(i)) + function_text(fs[i], bodies[i])
            + Seq::<char>::empty());
    } else {
        lemma_functions_text_split(dl, bl, i);
        let post = choose|post: Seq<char>|
            functions_text(dl, bl) == functions_text(dl.take(i), bl.take(i)) + function_text(dl[i], bl[i]) + post;
        assert(dl.take(i) =~= fs.take(i));
        assert(bl.take(i) =~= bodies.take(i));
        let post2 = post + function_text(fs.last(), bodies.last());
        assert(functions_text(fs, bodies) =~= functions_text(fs.take(i), bodies.take(i)) + function_text(fs[i], bodies[i])
            + post2);
    }
}

/// The layout of an assembly file: it opens the text section; each
/// function's text stands in it in program order, made of its prologue
/// (`prologue_text`: a `.globl` line exactly when the function is not
/// private, then its label), its body and its epilogue; and the file ends
/// with the data section, in which each string literal is defined under its
/// label `.Lstr_<number>`, in order.
pub proof fn lemma_assembly_layout(fs: Seq<Function>, bodies: Seq<Seq<char>>, lits: Seq<String>, i: int)
    requires
        bodies.len() == fs.len(),
        0 <= i < fs.len(),
        lits.len() >= 4,
    ensures
        exists|pre: Seq<char>, post: Seq<char>|
            assembly_text(fs, bodies, lits) == "    .section .text\n"@ + pre + prologue_text(fs[i], frame_size(fs[i]))
                + bodies[i] + epilogue_text(fs[i]) + post + ("    .section .data\n"@ + literals_text(lits, 0)),
        forall|j: int|
            0 <= j < lits.len() ==> #[trigger] literals_text(lits, j) == ".Lstr_"@ + nat_text(j as nat) + ":\n"@
                + "    .ascii \""@ + lits[j]@ + "\\0\"\n"@ + literals_text(lits, j + 1),
{
    lemma_functions_text_split(fs, bodies, i);
    let post = choose|post: Seq<char>|
        functions_text(fs, bodies) == functions_text(fs.take(i), bodies.take(i)) + function_text(fs[i], bodies[i])
            + post;
    reveal(function_text);
    let pre = functions_text(fs.take(i), bodies.take(i));
    let pro = prologue_text(fs[i], frame_size(fs[i]));
    let epi = epilogue_text(fs[i]);
    let hel = builtin_helpers_text((lits.len() - 4) as nat);
    let dat = "    .section .data\n"@ + literals_text(lits, 0);
    assert(data_section(lits) == dat);
    assert(functions_text(fs, bodies) == pre + (pro + bodies[i] + epi) + post);
    let post2 = post + hel;
    assert(assembly_text(fs, bodies, lits) == "    .section .text\n"@ + (pre + (pro + bodies[i] + epi) + post) + hel + dat);
    assert(assembly_text(fs, bodies, lits) =~= "    .section .text\n"@ + pre + pro + bodies[i] + epi + post2 + dat);
}

/// The value of a comptime expression given the constants known so far:
/// unknown names are 0, division or remainder by 0 is 0, arithmetic wraps.
fn eval_comptime_expr(expr: &Expr, known: &Vec<(String, i64)>) -> (v: i64)
    ensures
        v == const_value(known@.map_values(|p: (String, i64)| (p.0@, p.1)), *expr),
    decreases expr,
{
    match expr {
        Expr::IntLit { value, .. } => *value,
        Expr::BoolLit { value, .. } => if *value {
            1
        } else {
            0
        },
        Expr::Ident { name, .. } => match find_last(known, name) {
            Some(i) => {
                proof {
                    lemma_find_at(known@.map_values(|p: (String, i64)| (p.0@, p.1)), name@, i as int);
                }
                known[i].1
            },
            None => {
                proof {
                    lemma_find_none(known@.map_values(|p: (String, i64)| (p.0@, p.1)), name@);
                }
                0
            },
        },
        Expr::UnaryOp { op, operand, .. } => {
            let v = eval_comptime_expr(operand, known);
            match op {
                UnaryOp::Neg => 0i64.wrapping_sub(v),
                UnaryOp::Not => if v == 0 {
                    1
                } else {
                    0
                },
            }
        },
        Expr::BinaryOp { op, left, right, .. } => {
            let l = eval_comptime_expr(left, known);
            let r = eval_comptime_expr(right, known);
            match op {
                BinOp::Add => l.wrapping_add(r),
                BinOp::Sub => l.wrapping_sub(r),
                BinOp::Mul => l.wrapping_mul(r),
                BinOp::Div => if r != 0 {
                    crate::sema::checker::div_toward_zero(l, r)
                } else {
                    0
                },
                BinOp::Mod => if r != 0 {
                    crate::sema::checker::rem_toward_zero(l, r)
                } else {
                    0
                },
                BinOp::Eq => if l == r {
                    1
                } else {
                    0
                },
                BinOp::Neq => if l != r {
                    1
                } else {
                    0
                },
                BinOp::Lt => if l < r {
                    1
                } else {
                    0
                },
                BinOp::Gt => if l > r {
                    1
                } else {
                    0
                },
                BinOp::Lte => if l <= r {
                    1
                } else {
                    0
                },
                BinOp::Gte => if l >= r {
                    1
                } else {
                    0
                },
                BinOp::And => if l != 0 && r != 0 {
                    1
                } else {
                    0
                },
                BinOp::Or => if l != 0 || r != 0 {
                    1
                } else {
                    0
                },
            }
        },
        _ => 0,
    }
}

/// Code generator state.
pub struct Codegen<'a> {
    /// The output assembly.
    output: String,
    /// Counter for unique labels.
    label_counter: usize,
    /// String literals, emitted in the `.data` section.
    string_literals: Vec<String>,
    /// Locals of the current function by name (later entries shadow).
    locals: Vec<(String, LocalVar)>,
    /// The lowest stack offset in use in the current function.
    stack_offset: i64,
    /// Function name → return type.
    func_return_types: Vec<(String, ValType)>,
    /// (continue label, break label) of the enclosing loops.
    loop_labels: Vec<(String, String)>,
    /// `Enum::Variant` → discriminant.
    enum_values: Vec<(String, i64)>,
    /// Struct name → fields with their types, in order.
    struct_fields: Vec<(String, Vec<(String, ValType)>)>,
    /// Expressions to run before the current function returns (LIFO).
    deferred: Vec<&'a Expr>,
    /// Whether the current function is failable.
    current_failable: bool,
    /// Comptime constant → value.
    comptime_values: Vec<(String, i64)>,
}

impl<'a> Codegen<'a> {
    /// The tables built from the program.
    pub closed spec fn env(&self) -> GenEnv {
        GenEnv {
            enums: self.enum_values@.map_values(|p: (String, i64)| (p.0@, p.1)),
            structs: self.struct_fields@.map_values(
                |p: (String, Vec<(String, ValType)>)| (p.0@, p.1@.map_values(|q: (String, ValType)| (q.0@, q.1))),
            ),
            comptimes: self.comptime_values@.map_values(|p: (String, i64)| (p.0@, p.1)),
            rets: self.func_return_types@.map_values(|p: (String, ValType)| (p.0@, p.1)),
        }
    }

    /// The frame of the function being emitted.
    pub closed spec fn frame(&self) -> Frame {
        Frame {
            locals: self.locals@.map_values(|p: (String, LocalVar)| (p.0@, p.1)),
            offset: self.stack_offset as int,
            deferred: self.deferred@.map_values(|d: &Expr| *d),
        }
    }

    /// The (continue, break) labels of the loops being emitted, innermost
    /// last.
    closed spec fn loops(&self) -> Seq<(Seq<char>, Seq<char>)> {
        self.loop_labels@.map_values(|p: (String, String)| (p.0@, p.1@))
    }

    /// The assembly emitted so far.
    pub closed spec fn text(&self) -> Seq<char> {
        self.output@
    }

    /// The string literals collected so far.
    pub closed spec fn literals(&self) -> Seq<String> {
        self.string_literals@
    }

    /// Every local lies below offset 0 and at or above the lowest offset in
    /// use; a struct local leaves room for all of its fields.
    pub closed spec fn wf(&self) -> bool {
        &&& self.stack_offset <= 0
        &&& forall|i: int|
            0 <= i < self.locals@.len() ==> {
                let l = #[trigger] self.locals@[i].1;
                &&& self.stack_offset <= l.offset
                &&& l.offset <= 0
                &&& l.offset + 8 * l.array_len <= 0
                &&& match l.struct_name {
                    Some(sn) => match find(self.env().structs, sn@) {
                        Some(fs) => l.offset + 8 * fs.len() <= 0,
                        None => true,
                    },
                    None => true,
                }
            }
    }

    /// Only the output changed, by growing.
    closed spec fn only_output(&self, other: &Self) -> bool {
        &&& grows(self.output@, other.output@)
        &&& other.label_counter == self.label_counter
        &&& other.string_literals == self.string_literals
        &&& other.locals == self.locals
        &&& other.stack_offset == self.stack_offset
        &&& other.func_return_types == self.func_return_types
        &&& other.loop_labels == self.loop_labels
        &&& other.enum_values == self.enum_values
        &&& other.struct_fields == self.struct_fields
        &&& other.deferred == self.deferred
        &&& other.current_failable == self.current_failable
        &&& other.comptime_values == self.comptime_values
    }

    /// The output and the literals grew; the tables, the frame and the loop
    /// labels are unchanged.
    closed spec fn kept(&self, other: &Self) -> bool {
        &&& grows(self.output@, other.output@)
        &&& grows(self.string_literals@, other.string_literals@)
        &&& other.locals == self.locals
        &&& other.stack_offset == self.stack_offset
        &&& other.func_return_types == self.func_return_types
        &&& other.loop_labels == self.loop_labels
        &&& other.enum_values == self.enum_values
        &&& other.struct_fields == self.struct_fields
        &&& other.deferred == self.deferred
        &&& other.current_failable == self.current_failable
        &&& other.comptime_values == self.comptime_values
    }

    /// The output and the literals grew; the tables and the loop labels are
    /// unchanged (the frame may have changed).
    closed spec fn advanced(&self, other: &Self) -> bool {
        &&& grows(self.output@, other.output@)
        &&& grows(self.string_literals@, other.string_literals@)
        &&& other.func_return_types == self.func_return_types
        &&& other.loop_labels@ == self.loop_labels@
        &&& other.enum_values == self.enum_values
        &&& other.struct_fields == self.struct_fields
        &&& other.current_failable == self.current_failable
        &&& other.comptime_values == self.comptime_values
    }

    /// The tables are unchanged; the output and the literals grew.
    closed spec fn tables_kept(&self, other: &Self) -> bool {
        &&& grows(self.output@, other.output@)
        &&& grows(self.string_literals@, other.string_literals@)
        &&& other.func_return_types == self.func_return_types
        &&& other.enum_values == self.enum_values
        &&& other.struct_fields == self.struct_fields
        &&& other.comptime_values == self.comptime_values
    }

    /// Only the frame changed.
    closed spec fn only_frame(&self, other: &Self) -> bool {
        &&& other.output == self.output
        &&& other.label_counter == self.label_counter
        &&& other.string_literals == self.string_literals
        &&& other.func_return_types == self.func_return_types
        &&& other.loop_labels == self.loop_labels
        &&& other.enum_values == self.enum_values
        &&& other.struct_fields == self.struct_fields
        &&& other.deferred == self.deferred
        &&& other.current_failable == self.current_failable
        &&& other.comptime_values == self.comptime_values
    }

    /// A generator that has emitted and registered nothing.
    pub closed spec fn fresh(&self) -> bool {
        &&& self.output@ == Seq::<char>::empty()
        &&& self.string_literals@ == Seq::<String>::empty()
        &&& self.func_return_types@ == Seq::<(String, ValType)>::empty()
        &&& self.loop_labels@ == Seq::<(String, String)>::empty()
        &&& self.enum_values@ == Seq::<(String, i64)>::empty()
        &&& self.struct_fields@ == Seq::<(String, Vec<(String, ValType)>)>::empty()
        &&& self.comptime_values@ == Seq::<(String, i64)>::empty()
    }

    pub fn new() -> (c: Self)
        ensures
            c.text() == Seq::<char>::empty(),
            c.literals() == Seq::<String>::empty(),
            c.wf(),
            c.fresh(),
    {
        Codegen {
            output: String::new(),
            label_counter: 0,
            string_literals: Vec::new(),
            locals: Vec::new(),
            stack_offset: 0,
            func_return_types: Vec::new(),
            loop_labels: Vec::new(),
            enum_values: Vec::new(),
            struct_fields: Vec::new(),
            deferred: Vec::new(),
            current_failable: false,
            comptime_values: Vec::new(),
        }
    }

    /// Emit an instruction line.
    fn emit(&mut self, line: &str)
        ensures
            old(self).only_output(final(self)),
            final(self).output@ == old(self).output@ + "    "@ + line@ + "\n"@,
    {
        push_str(&mut self.output, "    ");
        push_str(&mut self.output, line);
        push_str(&mut self.output, "\n");
    }

    /// Emit an instruction line, as one piece of text.
    fn emit_asm(&mut self, line: &str)
        ensures
            old(self).only_output(final(self)),
            final(self).output@ == old(self).output@ + asm_line(line@),
    {
        push_str(&mut self.output, "    ");
        push_str(&mut self.output, line);
        push_str(&mut self.output, "\n");
        assert(self.output@ =~= old(self).output@ + asm_line(line@));
    }

    /// Emit a jump instruction `op` to `label`.
    fn emit_jump(&mut self, op: &str, label: &String)
        ensures
            old(self).only_output(final(self)),
            final(self).output@ == old(self).output@ + asm_line(op@ + label@),
    {
        push_str(&mut self.output, "    ");
        push_str(&mut self.output, op);
        push_string(&mut self.output, label);
        push_str(&mut self.output, "\n");
        assert(self.output@ =~= old(self).output@ + asm_line(op@ + label@));
    }

    /// Emit the instruction line `a` + decimal `n` + `b`.
    fn emit_num(&mut self, a: &str, n: i64, b: &str)
        ensures
            old(self).only_output(final(self)),
            final(self).output@ == old(self).output@ + "    "@ + a@ + int_text(n as int) + b@ + "\n"@,
    {
        push_str(&mut self.output, "    ");
        push_str(&mut self.output, a);
        push_i64(&mut self.output, n);
        push_str(&mut self.output, b);
        push_str(&mut self.output, "\n");
    }

    /// Emit the instruction line `a` + decimal `n` + `b` for an unsigned `n`.
    fn emit_count(&mut self, a: &str, n: usize, b: &str)
        ensures
            old(self).only_output(final(self)),
            final(self).output@ == old(self).output@ + "    "@ + a@ + nat_text(n as nat) + b@ + "\n"@,
    {
        push_str(&mut self.output, "    ");
        push_str(&mut self.output, a);
        push_usize(&mut self.output, n);
        push_str(&mut self.output, b);
        push_str(&mut self.output, "\n");
    }

    /// Emit the instruction line `a` + `x` + `b`.
    fn emit_name(&mut self, a: &str, x: &String, b: &str)
        ensures
            old(self).only_output(final(self)),
            final(self).output@ == old(self).output@ + "    "@ + a@ + x@ + b@ + "\n"@,
    {
        push_str(&mut self.output, "    ");
        push_str(&mut self.output, a);
        push_string(&mut self.output, x);
        push_str(&mut self.output, b);
        push_str(&mut self.output, "\n");
    }

    /// Emit a label line.
    fn emit_label(&mut self, label: &String)
        ensures
            old(self).only_output(final(self)),
            final(self).output@ == old(self).output@ + label@ + ":\n"@,
    {
        push_string(&mut self.output, label);
        push_str(&mut self.output, ":\n");
    }

    /// A fresh label `.L<prefix>_<n>`, numbered by the label counter.
    fn new_label(&mut self, prefix: &str) -> (l: String)
        ensures
            final(self).label_counter == (if old(self).label_counter == usize::MAX {
                0
            } else {
                old(self).label_counter + 1
            }),
            l@ == ".L"@ + prefix@ + "_"@ + nat_text(final(self).label_counter as nat),
            final(self).output == old(self).output,
            final(self).string_literals == old(self).string_literals,
            final(self).locals == old(self).locals,
            final(self).stack_offset == old(self).stack_offset,
            final(self).func_return_types == old(self).func_return_types,
            final(self).loop_labels == old(self).loop_labels,
            final(self).enum_values == old(self).enum_values,
            final(self).struct_fields == old(self).struct_fields,
            final(self).deferred == old(self).deferred,
            final(self).current_failable == old(self).current_failable,
            final(self).comptime_values == old(self).comptime_values,
    {
        self.label_counter = self.label_counter.wrapping_add(1);
        let mut l = String::new();
        push_str(&mut l, ".L");
        push_str(&mut l, prefix);
        push_str(&mut l, "_");
        push_usize(&mut l, self.label_counter);
        l
    }

    /// Add a string literal; its index names its `.Lstr_<index>` label.
    fn add_literal(&mut self, s: String) -> (idx: usize)
        ensures
            idx == old(self).string_literals@.len(),
            final(self).string_literals@ == old(self).string_literals@.push(s),
            final(self).output == old(self).output,
            final(self).label_counter == old(self).label_counter,
            final(self).locals == old(self).locals,
            final(self).stack_offset == old(self).stack_offset,
            final(self).func_return_types == old(self).func_return_types,
            final(self).loop_labels == old(self).loop_labels,
            final(self).enum_values == old(self).enum_values,
            final(self).struct_fields == old(self).struct_fields,
            final(self).deferred == old(self).deferred,
            final(self).current_failable == old(self).current_failable,
            final(self).comptime_values == old(self).comptime_values,
    {
        let idx = self.string_literals.len();
        self.string_literals.push(s);
        idx
    }

    /// Emit `leaq .Lstr_<idx>(%rip), <reg>` for a new literal `s`.
    fn load_literal(&mut self, s: &str, reg: &str)
        ensures
            final(self).string_literals@.len() == old(self).string_literals@.len() + 1,
            final(self).string_literals@.last()@ == s@,
            final(self).output@ == old(self).output@ + asm_line(
                "leaq .Lstr_"@ + nat_text(old(self).string_literals@.len()) + "(%rip), "@ + reg@,
            ),
            old(self).kept(final(self)),
            final(self).label_counter == old(self).label_counter,
    {
        let idx = self.add_literal(crate::text::string_of(s));
        push_str(&mut self.output, "    ");
        push_str(&mut self.output, "leaq .Lstr_");
        push_usize(&mut self.output, idx);
        push_str(&mut self.output, "(%rip), ");
        push_str(&mut self.output, reg);
        push_str(&mut self.output, "\n");
        assert(self.output@ =~= old(self).output@ + asm_line(
            "leaq .Lstr_"@ + nat_text(idx as nat) + "(%rip), "@ + reg@,
        ));
    }

    /// The local named `name`.
    fn local(&self, name: &String) -> (r: Option<usize>)
        ensures
            match r {
                Some(i) => i < self.locals@.len() && find(self.frame().locals, name@) == Some(
                    self.locals@[i as int].1,
                ),
                None => find(self.frame().locals, name@) is None,
            },
    {
        match find_last(&self.locals, name) {
            Some(i) => {
                proof {
                    lemma_find_at(self.frame().locals, name@, i as int);
                }
                Some(i)
            },
            None => {
                proof {
                    lemma_find_none(self.frame().locals, name@);
                }
                None
            },
        }
    }

    /// The value of the comptime constant `name`.
    fn comptime(&self, name: &String) -> (r: Option<i64>)
        ensures
            r == find(self.env().comptimes, name@),
    {
        match find_last(&self.comptime_values, name) {
            Some(i) => {
                proof {
                    lemma_find_at(self.env().comptimes, name@, i as int);
                }
                Some(self.comptime_values[i].1)
            },
            None => {
                proof {
                    lemma_find_none(self.env().comptimes, name@);
                }
                None
            },
        }
    }

    /// The discriminant of `Enum::Variant`.
    fn variant_value(&self, enum_name: &String, variant: &String) -> (r: Option<i64>)
        ensures
            r == find(self.env().enums, variant_key(enum_name@, variant@)),
    {
        let mut key = String::new();
        push_string(&mut key, enum_name);
        push_str(&mut key, "::");
        push_string(&mut key, variant);
        assert(key@ =~= variant_key(enum_name@, variant@));
        match find_last(&self.enum_values, &key) {
            Some(i) => {
                proof {
                    lemma_find_at(self.env().enums, key@, i as int);
                }
                Some(self.enum_values[i].1)
            },
            None => {
                proof {
                    lemma_find_none(self.env().enums, key@);
                }
                None
            },
        }
    }

    /// The index of struct `name` in the struct table.
    fn struct_index(&self, name: &String) -> (r: Option<usize>)
        ensures
            match r {
                Some(i) => i < self.struct_fields@.len() && find(self.env().structs, name@) == Some(
                    self.env().structs[i as int].1,
                ),
                None => find(self.env().structs, name@) is None,
            },
    {
        match find_last(&self.struct_fields, name) {
            Some(i) => {
                proof {
                    lemma_find_at(self.env().structs, name@, i as int);
                }
                Some(i)
            },
            None => {
                proof {
                    lemma_find_none(self.env().structs, name@);
                }
                None
            },
        }
    }

    /// The index of `field` among the fields of the struct at `si`.
    fn field_index(&self, si: usize, field: &String) -> (r: Option<usize>)
        requires
            si < self.struct_fields@.len(),
        ensures
            match r {
                Some(k) => k < self.struct_fields@[si as int].1@.len() && position(
                    self.env().structs[si as int].1,
                    field@,
                ) == Some(k as nat),
                None => position(self.env().structs[si as int].1, field@) is None,
            },
    {
        let ghost fs = self.env().structs[si as int].1;
        assert(fs == self.struct_fields@[si as int].1@.map_values(|q: (String, ValType)| (q.0@, q.1)));
        match first_index(&self.struct_fields[si].1, field) {
            Some(k) => {
                proof {
                    lemma_position_at(fs, field@, k as int);
                }
                Some(k)
            },
            None => {
                proof {
                    lemma_position_none(fs, field@);
                }
                None
            },
        }
    }

    /// The local struct variable `name` and the stack offset of its field `field`.
    fn field_offset(&self, name: &String, field: &String) -> (r: Option<i64>)
        requires
            self.wf(),
        ensures
            match r {
                Some(off) => match crate::codegen::model::field_slot(self.env(), self.frame().locals, name@, field@) {
                    Some((l, k)) => off == l.offset + 8 * k,
                    None => false,
                },
                None => crate::codegen::model::field_slot(self.env(), self.frame().locals, name@, field@) is None,
            },
    {
        let li = match self.local(name) {
            Some(li) => li,
            None => {
                return None;
            },
        };
        let sname = match &self.locals[li].1.struct_name {
            Some(sn) => sn,
            None => {
                return None;
            },
        };
        let si = match self.struct_index(sname) {
            Some(si) => si,
            None => {
                return None;
            },
        };
        let k = match self.field_index(si, field) {
            Some(k) => k,
            None => {
                return None;
            },
        };
        let base = self.locals[li].1.offset;
        assert(self.locals@[li as int].1 == self.locals@[li as int].1);
        assert(base + 8 * k <= 0);
        Some(base + (k as i64) * 8)
    }

    /// The runtime type named by a type name.
    fn valtype_from_name(name: &String) -> (t: ValType)
        ensures
            t == val_type_named(name@),
    {
        if str_is(name, "i64") {
            ValType::Int
        } else if str_is(name, "bool") {
            ValType::Bool
        } else if str_is(name, "str") {
            ValType::Str
        } else {
            ValType::Int
        }
    }

    /// The return type registered for function `name`.
    fn return_type_of(&self, name: &String) -> (r: Option<ValType>)
        ensures
            r == find(self.env().rets, name@),
    {
        match find_last(&self.func_return_types, name) {
            Some(i) => {
                proof {
                    lemma_find_at(self.env().rets, name@, i as int);
                }
                Some(self.func_return_types[i].1)
            },
            None => {
                proof {
                    lemma_find_none(self.env().rets, name@);
                }
                None
            },
        }
    }

    /// The runtime type of an expression (the checker has validated it; this
    /// only chooses how values are printed and converted).
    fn infer_type(&self, expr: &Expr) -> (t: ValType)
        ensures
            t == infer(self.env(), self.frame().locals, *expr),
        decreases expr,
    {
        match expr {
            Expr::IntLit { .. } => ValType::Int,
            Expr::BoolLit { .. } => ValType::Bool,
            Expr::StringLit { .. } => ValType::Str,
            Expr::Ident { name, .. } => match self.local(name) {
                Some(i) => self.locals[i].1.ty,
                None => ValType::Int,
            },
            Expr::UnaryOp { op, .. } => match op {
                UnaryOp::Neg => ValType::Int,
                UnaryOp::Not => ValType::Bool,
            },
            Expr::BinaryOp { op, left, .. } => match op {
                BinOp::Add => {
                    if self.infer_type(left) == ValType::Str {
                        ValType::Str
                    } else {
                        ValType::Int
                    }
                },
                BinOp::Sub | BinOp::Mul | BinOp::Div | BinOp::Mod => ValType::Int,
                _ => ValType::Bool,
            },
            Expr::Call { name, .. } => {
                if str_is(name, "print") {
                    ValType::Void
                } else if str_is(name, "len") {
                    ValType::Int
                } else {
                    match self.return_type_of(name) {
                        Some(t) => t,
                        None => ValType::Int,
                    }
                }
            },
            Expr::ArrayLit { .. } => ValType::Int,
            Expr::Index { object, .. } => match &**object {
                Expr::Ident { name, .. } => match self.local(name) {
                    Some(i) => self.locals[i].1.ty,
                    None => ValType::Int,
                },
                _ => ValType::Int,
            },
            Expr::EnumVariant { .. } => ValType::Int,
            Expr::StructLit { .. } => ValType::Int,
            Expr::FieldAccess { object, field, .. } => match &**object {
                Expr::Ident { name, .. } => match self.local(name) {
                    Some(li) => match &self.locals[li].1.struct_name {
                        Some(sn) => match self.struct_index(sn) {
                            Some(si) => match self.field_index(si, field) {
                                Some(k) => {
                                    assert(self.env().structs[si as int].1[k as int].1
                                        == self.struct_fields@[si as int].1@[k as int].1);
                                    self.struct_fields[si].1[k].1
                                },
                                None => ValType::Int,
                            },
                            None => ValType::Int,
                        },
                        None => ValType::Int,
                    },
                    None => ValType::Int,
                },
                _ => ValType::Int,
            },
            Expr::Try { expr, .. } => self.infer_type(expr),
            Expr::Cast { target, .. } => Self::valtype_from_name(target),
        }
    }

    /// The length of the local array `e` names, or 0.
    fn local_array_len(&self, e: &Expr) -> (n: usize)
        ensures
            (n > 0) == is_local_array(self.frame().locals, *e),
            n > 0 ==> match *e {
                Expr::Ident { name, .. } => match find(self.frame().locals, name@) {
                    Some(l) => n == l.array_len,
                    None => false,
                },
                _ => false,
            },
    {
        match e {
            Expr::Ident { name, .. } => match self.local(name) {
                Some(i) => self.locals[i].1.array_len,
                None => 0,
            },
            _ => 0,
        }
    }

    /// Emit the deferred expressions, latest first.
    fn emit_deferred(&mut self) -> (ok: bool)
        requires
            old(self).wf(),
        ensures
            final(self).wf(),
            old(self).kept(final(self)),
            ok == deferred_ok(old(self).env(), old(self).frame().locals, old(self).frame().deferred),
            ok ==> deferred_text_ok_all(old(self).env(), old(self).frame().locals, old(self).frame().deferred, final(self).output@.skip(old(self).output@.len() as int), final(self).string_literals@),
    {
        let ghost env = self.env();
        let ghost fr = self.frame();
        let ghost o0 = self.output@;
        let mut i = self.deferred.len();
        assert(fr.deferred.subrange(i as int, fr.deferred.len() as int) =~= Seq::<Expr>::empty());
        assert(o0.skip(o0.len() as int) =~= Seq::<char>::empty());
        while i > 0
            invariant
                i <= self.deferred@.len(),
                self.wf(),
                old(self).kept(self),
                env == self.env(),
                fr == self.frame(),
                env == old(self).env(),
                fr == old(self).frame(),
                o0 == old(self).output@,
                forall|j: int| i <= j < fr.deferred.len() ==> !emits_try(fr.locals, #[trigger] fr.deferred[j]) && expr_ok(
                    env,
                    fr.locals,
                    fr.deferred[j],
                ),
                deferred_text_ok_all(env, fr.locals, fr.deferred.subrange(i as int, fr.deferred.len() as int), self.output@.skip(o0.len() as int), self.string_literals@),
            decreases i,
        {
            let d = self.deferred[i - 1];
            assert(fr.deferred[i - 1] == *d);
            if self.emits_try_now(d) {
                return false;
            }
            let ghost ob = self.output@;
            let ghost nb = self.string_literals@.len();
            if !self.gen_expr(d, true) {
                return false;
            }
            proof {
                let ds = fr.deferred.subrange(i - 1, fr.deferred.len() as int);
                let t1 = ob.skip(o0.len() as int);
                let t2 = self.output@.skip(ob.len() as int);
                assert(ds.drop_first() =~= fr.deferred.subrange(i as int, fr.deferred.len() as int));
                assert(ds.first() == *d);
                assert(self.output@ =~= ob + t2);
                assert(value_text_ok_all(env, fr.locals, *d, t2, Seq::empty(), self.string_literals@));
                lemma_deferred_text_step_all(env, fr.locals, ds, t1, t2, self.string_literals@);
                assert(self.output@.skip(o0.len() as int) =~= t1 + t2);
            }
            i -= 1;
        }
        assert(fr.deferred.subrange(0, fr.deferred.len() as int) =~= fr.deferred);
        true
    }

    /// Whether emitting `e` now would reach a `try`.
    fn emits_try_now(&self, e: &Expr) -> (r: bool)
        ensures
            r == emits_try(self.frame().locals, *e),
        decreases e,
    {
        match e {
            Expr::UnaryOp { operand, .. } => self.emits_try_now(operand),
            Expr::BinaryOp { left, right, .. } => self.emits_try_now(left) || self.emits_try_now(right),
            Expr::Call { name, args, .. } => {
                if str_is(name, "len") {
                    args.len() >= 1 && self.local_array_len(&args[0]) == 0 && self.emits_try_now(&args[0])
                } else {
                    let k: usize = self.arity(name);
                    if k == usize::MAX {
                        self.any_emits_try(args)
                    } else {
                        (k >= 1 && args.len() >= 1 && self.emits_try_now(&args[0])) || (k >= 2 && args.len() >= 2
                            && self.emits_try_now(&args[1])) || (k >= 3 && args.len() >= 3 && self.emits_try_now(
                            &args[2],
                        ))
                    }
                }
            },
            Expr::Index { index, .. } => self.emits_try_now(index),
            Expr::Try { .. } => true,
            Expr::Cast { expr, .. } => self.emits_try_now(expr),
            _ => false,
        }
    }

    fn any_emits_try(&self, es: &Vec<Expr>) -> (r: bool)
        ensures
            r == exprs_emit_try(self.frame().locals, es@),
        decreases es,
    {
        proof {
            lemma_exprs_ok(self.env(), self.frame().locals, es@);
        }
        let mut i: usize = 0;
        while i < es.len()
            invariant
                i <= es@.len(),
                exprs_emit_try(self.frame().locals, es@) == exists|j: int|
                    0 <= j < es@.len() && #[trigger] emits_try(self.frame().locals, es@[j]),
                forall|j: int| 0 <= j < i ==> !#[trigger] emits_try(self.frame().locals, es@[j]),
            decreases es@.len() - i,
        {
            if self.emits_try_now(&es[i]) {
                return true;
            }
            i += 1;
        }
        false
    }

    /// The number of arguments a built-in emits code for (`usize::MAX` for
    /// a call of a user function).
    fn arity(&self, name: &String) -> (k: usize)
        ensures
            k == usize::MAX <==> builtin_arity(name@) is None,
            k != usize::MAX ==> builtin_arity(name@) == Some(k as nat),
    {
        if str_is(name, "print") || str_is(name, "abs") || str_is(name, "to_str") || str_is(name, "parse_int")
            || str_is(name, "read_file") || str_is(name, "file_exists") || str_is(name, "eprint") || str_is(
            name,
            "exit",
        ) || str_is(name, "sleep") || str_is(name, "trim") || str_is(name, "alloc") || str_is(name, "free") {
            1
        } else if str_is(name, "min") || str_is(name, "max") || str_is(name, "pow") || str_is(name, "char_at")
            || str_is(name, "contains") || str_is(name, "starts_with") || str_is(name, "write_file") {
            2
        } else if str_is(name, "substr") {
            3
        } else if str_is(name, "rand") || str_is(name, "read_line") || str_is(name, "time") {
            0
        } else {
            usize::MAX
        }
    }

    /// Emit code that leaves the value of `expr` in RAX. `nested` is set
    /// while emitting a deferred expression.
    #[verifier::spinoff_prover]
    #[verifier::rlimit(60)]
    fn gen_expr(&mut self, expr: &'a Expr, nested: bool) -> (ok: bool)
        requires
            old(self).wf(),
        ensures
            final(self).wf(),
            old(self).kept(final(self)),
            ok == expr_emits(old(self).env(), old(self).frame(), nested, *expr),
            match *expr {
                Expr::IntLit { value, .. } => final(self).output@ == old(self).output@ + "    "@ + "movq $"@ + int_text(
                    value as int,
                ) + ", %rax"@ + "\n"@,
                Expr::BoolLit { value, .. } => final(self).output@ == old(self).output@ + "    "@ + "movq $"@
                    + int_text(if value { 1 } else { 0 }) + ", %rax"@ + "\n"@,
                Expr::StringLit { value, .. } => final(self).string_literals@ == old(self).string_literals@.push(value)
                    && final(self).output@ == old(self).output@ + "    "@ + "leaq .Lstr_"@ + nat_text(
                    old(self).string_literals@.len(),
                ) + "(%rip), %rax"@ + "\n"@,
                Expr::Ident { name, .. } => ok ==> match find(old(self).env().comptimes, name@) {
                    Some(v) => final(self).output@ == old(self).output@ + "    "@ + "movq $"@ + int_text(v as int)
                        + ", %rax"@ + "\n"@,
                    None => final(self).output@ == old(self).output@ + "    "@ + "movq "@ + int_text(
                        find(old(self).frame().locals, name@)->Some_0.offset as int,
                    ) + "(%rbp), %rax"@ + "\n"@,
                },
                Expr::EnumVariant { enum_name, variant, .. } => ok ==> final(self).output@ == old(self).output@
                    + "    "@ + "movq $"@ + int_text(
                    find(old(self).env().enums, variant_key(enum_name@, variant@))->Some_0 as int,
                ) + ", %rax"@ + "\n"@,
                Expr::Call { name, args, .. } => (ok && name@ == "print"@ && args.len() >= 1 ==> exists|
                    vt: Seq<char>,
                    n2: nat,
                    c: usize,
                |
                    final(self).output@ == old(self).output@ + vt + print_code(
                        infer(old(self).env(), old(self).frame().locals, args@[0]),
                        n2,
                        c,
                    ) && value_text_ok_all(old(self).env(), old(self).frame().locals, args@[0], vt, (if nested { Seq::<Expr>::empty() } else { old(self).frame().deferred }), final(self).string_literals@)
                        && lits_at(
                        final(self).string_literals@,
                        n2,
                        print_lits(infer(old(self).env(), old(self).frame().locals, args@[0])),
                    )),
                _ => true,
            },
            arith_code(old(self).env(), old(self).frame().locals, old(self).string_literals@.len(), *expr) matches Some(
                (c, ls),
            ) ==> ok && final(self).output@ == old(self).output@ + c && final(self).string_literals@
                == old(self).string_literals@ + ls,
            ok ==> value_text_ok_all(old(self).env(), old(self).frame().locals, *expr, final(self).output@.skip(old(self).output@.len() as int), (if nested { Seq::<Expr>::empty() } else { old(self).frame().deferred }), final(self).string_literals@),
        decreases (if nested { 0nat } else { 2nat }), *expr, 6nat,
    {
        let ghost o0 = self.output@;
        let ghost l0 = self.string_literals@;
        let ghost env = self.env();
        let ghost locs = self.frame().locals;
        let ghost dfrs = if nested { Seq::<Expr>::empty() } else { self.frame().deferred };
        proof {
            lemma_arith_ok(self.env(), self.frame().locals, l0.len(), *expr);
        }
        let ok = match expr {
            Expr::IntLit { value, .. } => {
                self.emit_num("movq $", *value, ", %rax");
                assert(self.output@ =~= o0 + asm_line("movq $"@ + int_text(*value as int) + ", %rax"@));
                assert(self.string_literals@ =~= l0 + Seq::<String>::empty());
                true
            },
            Expr::BoolLit { value, .. } => {
                let v: i64 = if *value { 1 } else { 0 };
                self.emit_num("movq $", v, ", %rax");
                assert(self.output@ =~= o0 + asm_line("movq $"@ + int_text(v as int) + ", %rax"@));
                assert(self.string_literals@ =~= l0 + Seq::<String>::empty());
                true
            },
            Expr::StringLit { value, .. } => {
                let idx = self.add_literal(value.clone());
                self.emit_count("leaq .Lstr_", idx, "(%rip), %rax");
                assert(self.output@ =~= o0 + asm_line("leaq .Lstr_"@ + nat_text(idx as nat) + "(%rip), %rax"@));
                assert(self.string_literals@ =~= l0 + seq![*value]);
                true
            },
            Expr::Ident { name, .. } => {
                match self.comptime(name) {
                    Some(v) => {
                        self.emit_num("movq $", v, ", %rax");
                        assert(self.output@ =~= o0 + asm_line("movq $"@ + int_text(v as int) + ", %rax"@));
                        assert(self.string_literals@ =~= l0 + Seq::<String>::empty());
                        true
                    },
                    None => match self.local(name) {
                        Some(i) => {
                            let off = self.locals[i].1.offset;
                            self.emit_num("movq ", off, "(%rbp), %rax");
                            assert(self.output@ =~= o0 + asm_line("movq "@ + int_text(off as int) + "(%rbp), %rax"@));
                            assert(self.string_literals@ =~= l0 + Seq::<String>::empty());
                            true
                        },
                        None => false,
                    },
                }
            },
            Expr::UnaryOp { .. } => self.gen_operator(expr, nested),
            Expr::BinaryOp { .. } => self.gen_operator(expr, nested),
            Expr::Call { name, args, span } => self.gen_call(name, args, *span, nested),
            Expr::ArrayLit { .. } => {
                assert(self.output@ =~= o0 + Seq::<char>::empty());
                assert(self.string_literals@ =~= l0 + Seq::<String>::empty());
                true
            },
            Expr::Index { .. } => self.gen_index(expr, nested),
            Expr::EnumVariant { enum_name, variant, .. } => match self.variant_value(enum_name, variant) {
                Some(v) => {
                    self.emit_num("movq $", v, ", %rax");
                    assert(self.output@ =~= o0 + asm_line("movq $"@ + int_text(v as int) + ", %rax"@));
                    assert(self.string_literals@ =~= l0 + Seq::<String>::empty());
                    true
                },
                None => false,
            },
            Expr::StructLit { .. } => {
                assert(self.output@ =~= o0 + Seq::<char>::empty());
                assert(self.string_literals@ =~= l0 + Seq::<String>::empty());
                true
            },
            Expr::FieldAccess { object, field, .. } => match &**object {
                Expr::Ident { name, .. } => match self.field_offset(name, field) {
                    Some(off) => {
                        self.emit_num("movq ", off, "(%rbp), %rax");
                        assert(self.output@ =~= o0 + asm_line("movq "@ + int_text(off as int) + "(%rbp), %rax"@));
                        assert(self.string_literals@ =~= l0 + Seq::<String>::empty());
                        true
                    },
                    None => false,
                },
                _ => {
                    assert(self.output@ =~= o0 + Seq::<char>::empty());
                    assert(self.string_literals@ =~= l0 + Seq::<String>::empty());
                    true
                },
            },
            Expr::Try { .. } => self.gen_try(expr, nested),
            Expr::Cast { .. } => self.gen_cast(expr, nested),
        };
        proof {
            if ok && !(expr is UnaryOp || expr is BinaryOp || expr is Call || expr is Index || expr is Try
                || expr is Cast) {
                match arith_code(env, locs, l0.len(), *expr) {
                    Some((c, ls)) => {
                        assert(self.output@.skip(o0.len() as int) =~= c);
                        assert forall|k: int| 0 <= k < ls.len() implies #[trigger] self.string_literals@[l0.len() + k]@
                            == texts(ls)[k] by {
                            assert(self.string_literals@ == l0 + ls);
                        }
                        lemma_arith_text_ok_all(env, locs, l0.len(), *expr, dfrs, self.string_literals@);
                    },
                    None => {},
                }
            }
        }
        ok
    }

    /// Emit a unary or binary operation.
    fn gen_operator(&mut self, expr: &'a Expr, nested: bool) -> (ok: bool)
        requires
            old(self).wf(),
            expr is UnaryOp || expr is BinaryOp,
        ensures
            final(self).wf(),
            old(self).kept(final(self)),
            ok == expr_emits(old(self).env(), old(self).frame(), nested, *expr),
            arith_code(old(self).env(), old(self).frame().locals, old(self).string_literals@.len(), *expr) matches Some(
                (c, ls),
            ) ==> final(self).output@ == old(self).output@ + c && final(self).string_literals@
                == old(self).string_literals@ + ls,
            ok ==> value_text_ok_all(old(self).env(), old(self).frame().locals, *expr, final(self).output@.skip(old(self).output@.len() as int), (if nested { Seq::<Expr>::empty() } else { old(self).frame().deferred }), final(self).string_literals@),
        decreases (if nested { 0nat } else { 2nat }), *expr, 5nat,
    {
        if let Expr::UnaryOp { .. } = expr {
            self.gen_unary(expr, nested)
        } else {
            self.gen_binary(expr, nested)
        }
    }

    /// Emit a unary operation.
    #[verifier::spinoff_prover]
    #[verifier::rlimit(60)]
    fn gen_unary(&mut self, expr: &'a Expr, nested: bool) -> (ok: bool)
        requires
            old(self).wf(),
            expr is UnaryOp,
        ensures
            final(self).wf(),
            old(self).kept(final(self)),
            ok == expr_emits(old(self).env(), old(self).frame(), nested, *expr),
            arith_code(old(self).env(), old(self).frame().locals, old(self).string_literals@.len(), *expr) matches Some(
                (c, ls),
            ) ==> final(self).output@ == old(self).output@ + c && final(self).string_literals@
                == old(self).string_literals@ + ls,
            ok ==> value_text_ok_all(old(self).env(), old(self).frame().locals, *expr, final(self).output@.skip(old(self).output@.len() as int), (if nested { Seq::<Expr>::empty() } else { old(self).frame().deferred }), final(self).string_literals@),
        decreases (if nested { 0nat } else { 2nat }), *expr, 4nat,
    {
        let ghost env = self.env();
        let ghost locs = self.frame().locals;
        let ghost dfrs = if nested { Seq::<Expr>::empty() } else { self.frame().deferred };
        let ghost o0 = self.output@;
        let ghost l0 = self.string_literals@;
        match expr {
            Expr::UnaryOp { op, operand, .. } => {
                if !self.gen_expr(operand, nested) {
                    return false;
                }
                let ghost o1 = self.output@;
                match op {
                    UnaryOp::Neg => self.emit("negq %rax"),
                    UnaryOp::Not => {
                        self.emit("testq %rax, %rax");
                        self.emit("sete %al");
                        self.emit("movzbq %al, %rax");
                    },
                }
                proof {
                    assert(self.output@ =~= o1 + unary_code(*op));
                    let ot = o1.skip(o0.len() as int);
                    assert(self.output@.skip(o0.len() as int) =~= ot + unary_code(*op));
                    let sl = self.string_literals@;
                    assert forall|lits: Seq<String>| grows(sl, lits) implies value_text_ok(env, locs, *expr, self.output@.skip(o0.len() as int), dfrs, lits) by {
                        assert(value_text_ok(env, locs, **operand, ot, dfrs, lits));
                    }
                    match arith_code(env, locs, l0.len(), **operand) {
                        Some((c, ls)) => {
                            assert(self.output@ =~= o0 + (c + unary_code(*op)));
                        },
                        None => {},
                    }
                }
                true
            },
            _ => false,
        }
    }

    /// Emit a binary operation: the left operand saved on the stack while
    /// the right one is computed.
    #[verifier::spinoff_prover]
    #[verifier::rlimit(60)]
    fn gen_binary(&mut self, expr: &'a Expr, nested: bool) -> (ok: bool)
        requires
            old(self).wf(),
            expr is BinaryOp,
        ensures
            final(self).wf(),
            old(self).kept(final(self)),
            ok == expr_emits(old(self).env(), old(self).frame(), nested, *expr),
            arith_code(old(self).env(), old(self).frame().locals, old(self).string_literals@.len(), *expr) matches Some(
                (c, ls),
            ) ==> final(self).output@ == old(self).output@ + c && final(self).string_literals@
                == old(self).string_literals@ + ls,
            ok ==> value_text_ok_all(old(self).env(), old(self).frame().locals, *expr, final(self).output@.skip(old(self).output@.len() as int), (if nested { Seq::<Expr>::empty() } else { old(self).frame().deferred }), final(self).string_literals@),
        decreases (if nested { 0nat } else { 2nat }), *expr, 4nat,
    {
        let ghost env = self.env();
        let ghost locs = self.frame().locals;
        let ghost dfrs = if nested { Seq::<Expr>::empty() } else { self.frame().deferred };
        let ghost o0 = self.output@;
        let ghost l0 = self.string_literals@;
        match expr {
            Expr::BinaryOp { op, left, right, .. } => {
                let concat = *op == BinOp::Add && self.infer_type(left) == ValType::Str;
                if !self.gen_expr(left, nested) {
                    return false;
                }
                let ghost o1 = self.output@;
                let ghost l1 = self.string_literals@;
                self.emit("pushq %rax");
                let ghost o2 = self.output@;
                if !self.gen_expr(right, nested) {
                    return false;
                }
                let ghost o3 = self.output@;
                if concat {
                    self.emit_concat_tail();
                } else {
                    self.emit_op_tail(*op);
                }
                proof {
                    let lt = o1.skip(o0.len() as int);
                    let rt = o3.skip(o2.len() as int);
                    let tail = if concat { concat_tail() } else { op_tail(*op) };
                    assert(tail == binary_tail(env, locs, *op, **left));
                    assert(o1 =~= o0 + lt);
                    assert(o2 =~= o1 + asm_line("pushq %rax"@));
                    assert(o3 =~= o2 + rt);
                    assert(self.output@ =~= o3 + tail);
                    assert(self.output@.skip(o0.len() as int) =~= lt + asm_line("pushq %rax"@) + rt + tail);
                    let sl = self.string_literals@;
                    assert forall|lits: Seq<String>| grows(sl, lits) implies value_text_ok(env, locs, *expr, self.output@.skip(o0.len() as int), dfrs, lits) by {
                        lemma_grows_trans(l1, sl, lits);
                        assert(value_text_ok(env, locs, **left, lt, dfrs, lits));
                        assert(value_text_ok(env, locs, **right, rt, dfrs, lits));
                    }
                    match arith_code(env, locs, l0.len(), **left) {
                        Some((lc, ll)) => {
                            match arith_code(env, locs, l0.len() + ll.len(), **right) {
                                Some((rc, rl)) => {
                                    let tail = if concat { concat_tail() } else { op_tail(*op) };
                                    assert(self.output@ =~= o0 + (lc + asm_line("pushq %rax"@) + rc + tail));
                                    assert(self.string_literals@ =~= l0 + (ll + rl));
                                },
                                None => {},
                            }
                        },
                        None => {},
                    }
                }
                true
            },
            _ => false,
        }
    }

    /// Emit the end of a string `+`.
    fn emit_concat_tail(&mut self)
        ensures
            old(self).only_output(final(self)),
            final(self).output@ == old(self).output@ + concat_tail(),
    {
        self.emit("movq %rax, %rdx");
        self.emit("popq %rcx");
        self.emit("subq $32, %rsp");
        self.emit("call __ferro_str_concat");
        self.emit("addq $32, %rsp");
        assert(self.output@ =~= old(self).output@ + concat_tail());
    }

    /// Emit the end of another binary operation.
    fn emit_op_tail(&mut self, op: BinOp)
        ensures
            old(self).only_output(final(self)),
            final(self).output@ == old(self).output@ + op_tail(op),
    {
        self.emit("movq %rax, %rcx");
        self.emit("popq %rax");
        self.binary_op(op);
        assert(self.output@ =~= old(self).output@ + op_tail(op));
    }

    /// Combine RAX (left) and RCX (right) into RAX.
    #[verifier::spinoff_prover]
    #[verifier::rlimit(40)]
    fn binary_op(&mut self, op: BinOp)
        ensures
            old(self).only_output(final(self)),
            final(self).output@ == old(self).output@ + binop_code(op),
    {
        match op {
            BinOp::Add => self.emit("addq %rcx, %rax"),
            BinOp::Sub => self.emit("subq %rcx, %rax"),
            BinOp::Mul => self.emit("imulq %rcx, %rax"),
            BinOp::Div => {
                self.emit("cqto");
                self.emit("idivq %rcx");
            },
            BinOp::Mod => {
                self.emit("cqto");
                self.emit("idivq %rcx");
                self.emit("movq %rdx, %rax");
            },
            BinOp::Eq => self.compare("sete %al"),
            BinOp::Neq => self.compare("setne %al"),
            BinOp::Lt => self.compare("setl %al"),
            BinOp::Gt => self.compare("setg %al"),
            BinOp::Lte => self.compare("setle %al"),
            BinOp::Gte => self.compare("setge %al"),
            BinOp::And => {
                self.emit("testq %rax, %rax");
                self.emit("setne %al");
                self.emit("testq %rcx, %rcx");
                self.emit("setne %cl");
                self.emit("andb %cl, %al");
                self.emit("movzbq %al, %rax");
            },
            BinOp::Or => {
                self.emit("orq %rcx, %rax");
                self.emit("testq %rax, %rax");
                self.emit("setne %al");
                self.emit("movzbq %al, %rax");
            },
        }
    }

    /// Compare RAX with RCX and leave the flag the `set` instruction picks in RAX.
    fn compare(&mut self, set: &str)
        ensures
            old(self).only_output(final(self)),
            final(self).output@ == old(self).output@ + compare_code(set@),
    {
        self.emit("cmpq %rcx, %rax");
        self.emit(set);
        self.emit("movzbq %al, %rax");
    }

    /// Emit an index into a local array.
    fn gen_index(&mut self, expr: &'a Expr, nested: bool) -> (ok: bool)
        requires
            old(self).wf(),
            expr is Index,
        ensures
            final(self).wf(),
            old(self).kept(final(self)),
            ok == expr_emits(old(self).env(), old(self).frame(), nested, *expr),
            ok ==> value_text_ok_all(old(self).env(), old(self).frame().locals, *expr, final(self).output@.skip(old(self).output@.len() as int), (if nested { Seq::<Expr>::empty() } else { old(self).frame().deferred }), final(self).string_literals@),
        decreases (if nested { 0nat } else { 2nat }), *expr, 5nat,
    {
        let ghost o0 = self.output@;
        let ghost env = self.env();
        let ghost locs = self.frame().locals;
        let ghost dfrs = if nested { Seq::<Expr>::empty() } else { self.frame().deferred };
        match expr {
            Expr::Index { object, index, .. } => {
                if !self.gen_expr(index, nested) {
                    return false;
                }
                let ghost o1 = self.output@;
                let ghost sl = self.string_literals@;
                match &**object {
                    Expr::Ident { name, .. } => match self.local(name) {
                        Some(i) => {
                            let base = self.locals[i].1.offset;
                            self.emit_num("movq ", base, "(%rbp,%rax,8), %rax");
                            proof {
                                let it = o1.skip(o0.len() as int);
                                assert(o1 =~= o0 + it);
                                lemma_num_line(o1, "movq "@, int_text(base as int), "(%rbp,%rax,8), %rax"@);
                                assert(self.output@.skip(o0.len() as int) =~= it + asm_line(
                                    "movq "@ + int_text(base as int) + "(%rbp,%rax,8), %rax"@,
                                ));
                                assert forall|lits: Seq<String>| grows(sl, lits) implies value_text_ok(env, locs, *expr, self.output@.skip(o0.len() as int), dfrs, lits) by {
                                    assert(value_text_ok(env, locs, **index, it, dfrs, lits));
                                }
                            }
                            true
                        },
                        None => false,
                    },
                    _ => {
                        proof {
                            assert forall|lits: Seq<String>| grows(sl, lits) implies value_text_ok(env, locs, *expr, self.output@.skip(o0.len() as int), dfrs, lits) by {
                                assert(value_text_ok(env, locs, **index, self.output@.skip(o0.len() as int), dfrs, lits));
                            }
                        }
                        true
                    },
                }
            },
            _ => false,
        }
    }

    /// Emit `try`: on an error flag in RDX, run the deferred expressions and
    /// return the error.
    #[verifier::spinoff_prover]
    #[verifier::rlimit(100)]
    fn gen_try(&mut self, expr: &'a Expr, nested: bool) -> (ok: bool)
        requires
            old(self).wf(),
            expr is Try,
        ensures
            final(self).wf(),
            old(self).kept(final(self)),
            ok == expr_emits(old(self).env(), old(self).frame(), nested, *expr),
            ok ==> value_text_ok_all(old(self).env(), old(self).frame().locals, *expr, final(self).output@.skip(old(self).output@.len() as int), (if nested { Seq::<Expr>::empty() } else { old(self).frame().deferred }), final(self).string_literals@),
        decreases (if nested { 0nat } else { 2nat }), *expr, 5nat,
    {
        let inner = match expr {
            Expr::Try { expr: inner, .. } => inner,
            _ => {
                return false;
            },
        };
        let ghost o0 = self.output@;
        let ghost env0 = self.env();
        let ghost locs0 = self.frame().locals;
        let ghost dfrs0 = if nested { Seq::<Expr>::empty() } else { self.frame().deferred };
        if !self.gen_expr(inner, nested) {
            return false;
        }
        let ghost o1 = self.output@;
        let ghost s1 = self.string_literals@;
        let ghost c = self.label_counter;
        let ok_label = self.new_label("try_ok");
        self.emit_asm("testq %rdx, %rdx");
        self.emit_jump("je ", &ok_label);
        let ghost o2 = self.output@;
        let ghost mut xtg: Seq<char> = Seq::empty();
        let ghost mut s4: Seq<String> = self.string_literals@;
        if self.deferred.len() > 0 {
            if nested {
                return false;
            }
            self.emit_asm("subq $16, %rsp");
            self.emit_asm("movq %rax, (%rsp)");
            let ghost o3 = self.output@;
            // The deferred expressions, latest first.
            let ghost env = self.env();
            let ghost fr = self.frame();
            let mut i = self.deferred.len();
            assert(fr.deferred.subrange(i as int, fr.deferred.len() as int) =~= Seq::<Expr>::empty());
            assert(o3.skip(o3.len() as int) =~= Seq::<char>::empty());
            while i > 0
                invariant
                    i <= self.deferred@.len(),
                    self.wf(),
                    old(self).kept(self),
                    env == self.env(),
                    fr == self.frame(),
                    env == old(self).env(),
                    fr == old(self).frame(),
                    !nested,
                    fr.deferred.len() > 0,
                    forall|j: int|
                        i <= j < fr.deferred.len() ==> !emits_try(fr.locals, #[trigger] fr.deferred[j]) && expr_ok(
                            env,
                            fr.locals,
                            fr.deferred[j],
                        ),
                    expr_ok(env, fr.locals, *expr) == expr_ok(env, fr.locals, **inner),
                    emits_try(fr.locals, *expr),
                    expr_ok(env, fr.locals, **inner),
                    grows(o3, self.output@),
                    grows(s1, self.string_literals@),
                    deferred_text_ok_all(env, fr.locals, fr.deferred.subrange(i as int, fr.deferred.len() as int), self.output@.skip(o3.len() as int), self.string_literals@),
                decreases i,
            {
                let d = self.deferred[i - 1];
                assert(fr.deferred[i - 1] == *d);
                if self.emits_try_now(d) {
                    return false;
                }
                let ghost ob = self.output@;
                if !self.gen_expr(d, true) {
                    return false;
                }
                proof {
                    let ds = fr.deferred.subrange(i - 1, fr.deferred.len() as int);
                    let t1 = ob.skip(o3.len() as int);
                    let t2 = self.output@.skip(ob.len() as int);
                    assert(ds.drop_first() =~= fr.deferred.subrange(i as int, fr.deferred.len() as int));
                    assert(ds.first() == *d);
                    assert(self.output@ =~= ob + t2);
                    assert(value_text_ok_all(env, fr.locals, *d, t2, Seq::empty(), self.string_literals@));
                    lemma_deferred_text_step_all(env, fr.locals, ds, t1, t2, self.string_literals@);
                    assert(self.output@.skip(o3.len() as int) =~= t1 + t2);
                }
                i -= 1;
            }
            assert(fr.deferred.subrange(0, fr.deferred.len() as int) =~= fr.deferred);
            let ghost o4 = self.output@;
            self.emit_asm("movq (%rsp), %rax");
            self.emit_asm("addq $16, %rsp");
            self.emit_asm("movq $1, %rdx");
            proof {
                let xt = o4.skip(o3.len() as int);
                assert(o4 =~= o3 + xt);
                assert(self.output@.skip(o2.len() as int) =~= (asm_line("subq $16, %rsp"@) + asm_line(
                    "movq %rax, (%rsp)"@,
                ) + xt) + asm_line("movq (%rsp), %rax"@) + asm_line("addq $16, %rsp"@) + asm_line(
                    "movq $1, %rdx"@,
                ));
                xtg = xt;
                s4 = self.string_literals@;
                assert(deferred_text_ok_all(env, fr.locals, fr.deferred, xt, s4));
            }
        } else {
            assert(self.output@.skip(o2.len() as int) =~= Seq::<char>::empty());
        }
        let ghost o5 = self.output@;
        self.emit_asm("movq %rbp, %rsp");
        self.emit_asm("popq %rbp");
        self.emit_asm("ret");
        self.emit_label(&ok_label);
        proof {
            let it = o1.skip(o0.len() as int);
            let dt = o5.skip(o2.len() as int);
            assert(ok_label@ == label_text("try_ok"@, next_count(c) as nat));
            assert(o1 =~= o0 + it);
            assert(o5 =~= o2 + dt);
            assert(self.output@.skip(o0.len() as int) =~= try_shape(it, dt, c));
            let sl = self.string_literals@;
            assert forall|lits: Seq<String>| grows(sl, lits) implies value_text_ok(env0, locs0, *expr, self.output@.skip(o0.len() as int), dfrs0, lits) by {
                lemma_grows_trans(s1, sl, lits);
                assert(value_text_ok(env0, locs0, **inner, it, dfrs0, lits));
                if dfrs0.len() > 0 {
                    lemma_grows_trans(s4, sl, lits);
                    assert(deferred_text_ok(env0, locs0, dfrs0, xtg, lits));
                    assert(dt == (asm_line("subq $16, %rsp"@) + asm_line("movq %rax, (%rsp)"@) + xtg) + asm_line(
                        "movq (%rsp), %rax"@,
                    ) + asm_line("addq $16, %rsp"@) + asm_line("movq $1, %rdx"@));
                }
            }
        }
        true
    }

    /// Emit a cast.
    fn gen_cast(&mut self, expr: &'a Expr, nested: bool) -> (ok: bool)
        requires
            old(self).wf(),
            expr is Cast,
        ensures
            final(self).wf(),
            old(self).kept(final(self)),
            ok == expr_emits(old(self).env(), old(self).frame(), nested, *expr),
            ok ==> value_text_ok_all(old(self).env(), old(self).frame().locals, *expr, final(self).output@.skip(old(self).output@.len() as int), (if nested { Seq::<Expr>::empty() } else { old(self).frame().deferred }), final(self).string_literals@),
        decreases (if nested { 0nat } else { 2nat }), *expr, 5nat,
    {
        let (inner, target) = match expr {
            Expr::Cast { expr: inner, target, .. } => (inner, target),
            _ => {
                return false;
            },
        };
        let ghost o0 = self.output@;
        if !self.gen_expr(inner, nested) {
            return false;
        }
        let ghost o1 = self.output@;
        let ghost n = self.string_literals@.len();
        let ghost sl1 = self.string_literals@;
        let ghost env = self.env();
        let ghost locs = self.frame().locals;
        let ghost dfrs = if nested { Seq::<Expr>::empty() } else { self.frame().deferred };
        let from = self.infer_type(inner);
        self.convert(from, target);
        proof {
            let it = o1.skip(o0.len() as int);
            assert(o1 =~= o0 + it);
            assert(self.output@.skip(o0.len() as int) =~= it + cast_code(from, target@, n));
            let sl = self.string_literals@;
            assert forall|lits: Seq<String>| grows(sl, lits) implies value_text_ok(env, locs, *expr, self.output@.skip(o0.len() as int), dfrs, lits) by {
                lemma_grows_trans(sl1, sl, lits);
                lemma_lits_at_grows(sl, lits, n, cast_lits(from, target@));
                assert(value_text_ok(env, locs, **inner, it, dfrs, lits));
            }
        }
        true
    }

    /// Convert RAX from runtime type `from` to the type named `target`.
    #[verifier::spinoff_prover]
    #[verifier::rlimit(80)]
    fn convert(&mut self, from: ValType, target: &String)
        requires
            old(self).wf(),
        ensures
            final(self).wf(),
            old(self).kept(final(self)),
            final(self).output@ == old(self).output@ + cast_code(from, target@, old(self).string_literals@.len()),
            lits_at(final(self).string_literals@, old(self).string_literals@.len(), cast_lits(from, target@)),
    {
        let ghost o0 = self.output@;
        let ghost n = self.string_literals@.len();
        if from == ValType::Int && str_is(target, "bool") {
            self.emit_asm("testq %rax, %rax");
            self.emit_asm("setne %al");
            self.emit_asm("movzbq %al, %rax");
            assert(self.output@ =~= o0 + cast_code(from, target@, n));
            assert(cast_lits(from, target@) =~= Seq::<Seq<char>>::empty()) by {
                reveal_strlit("str");
                reveal_strlit("bool");
                assert("bool"@.len() != "str"@.len());
            }
        } else if from == ValType::Int && str_is(target, "str") {
            self.emit_asm("pushq %rax");
            self.emit_asm("movq $24, %rcx");
            self.emit_asm("subq $32, %rsp");
            self.emit_asm("call malloc");
            self.emit_asm("addq $32, %rsp");
            self.emit_asm("pushq %rax");
            self.emit_asm("movq %rax, %rcx");
            self.load_literal("%lld", "%rdx");
            let ghost sl = self.string_literals@;
            assert(sl[n as int]@ == "%lld"@);
            self.emit_asm("movq 8(%rsp), %r8");
            self.emit_asm("subq $32, %rsp");
            self.emit_asm("call sprintf");
            self.emit_asm("addq $32, %rsp");
            self.emit_asm("popq %rax");
            self.emit_asm("addq $8, %rsp");
            assert(self.output@ =~= o0 + cast_code(from, target@, n));
            assert(self.string_literals@ == sl);
            assert(self.string_literals@[n + 0int]@ == cast_lits(from, target@)[0]);
            assert(lits_at(self.string_literals@, n, cast_lits(from, target@)));
        } else if from == ValType::Str && str_is(target, "i64") {
            self.emit_asm("movq %rax, %rcx");
            self.emit_asm("call atoll");
            assert(self.output@ =~= o0 + cast_code(from, target@, n));
        } else {
            assert(self.output@ =~= o0 + cast_code(from, target@, n));
        }
    }

    /// Emit a call of `name`: `len`, `print`, a built-in of one argument, or
    /// (through `gen_call_more`) any other call.
    fn gen_call(&mut self, name: &String, args: &'a Vec<Expr>, span: Span, nested: bool) -> (ok: bool)
        requires
            old(self).wf(),
        ensures
            final(self).wf(),
            old(self).kept(final(self)),
            ok == expr_emits(old(self).env(), old(self).frame(), nested, Expr::Call { name: *name, args: *args, span }),
            ok && name@ == "print"@ && args.len() >= 1 ==> exists|vt: Seq<char>, n2: nat, c: usize|
                final(self).output@ == old(self).output@ + vt + print_code(
                    infer(old(self).env(), old(self).frame().locals, args@[0]),
                    n2,
                    c,
                ) && value_text_ok_all(old(self).env(), old(self).frame().locals, args@[0], vt, (if nested { Seq::<Expr>::empty() } else { old(self).frame().deferred }), final(self).string_literals@)
                    && lits_at(
                    final(self).string_literals@,
                    n2,
                    print_lits(infer(old(self).env(), old(self).frame().locals, args@[0])),
                ),
            ok ==> value_text_ok_all(old(self).env(), old(self).frame().locals, Expr::Call { name: *name, args: *args, span }, final(self).output@.skip(old(self).output@.len() as int), (if nested { Seq::<Expr>::empty() } else { old(self).frame().deferred }), final(self).string_literals@),
        decreases (if nested { 0nat } else { 2nat }), *args, 4nat,
    {
        if str_is(name, "len") {
            proof {
                reveal_strlit("len");
                reveal_strlit("print");
                assert(name@ == "len"@);
                assert("len"@.len() != "print"@.len());
            }
            if args.len() < 1 {
                return false;
            }
            let ghost o0 = self.output@;
            let ghost env = self.env();
            let ghost locs = self.frame().locals;
        let ghost dfrs = if nested { Seq::<Expr>::empty() } else { self.frame().deferred };
            let n = self.local_array_len(&args[0]);
            if n > 0 {
                self.emit_count("movq $", n, ", %rax");
                proof {
                    assert(self.output@.skip(o0.len() as int) =~= asm_line("movq $"@ + nat_text(n as nat) + ", %rax"@));
                    let sl = self.string_literals@;
                    assert forall|lits: Seq<String>| grows(sl, lits) implies builtin_text_ok(env, locs, name@, args@, self.output@.skip(o0.len() as int), dfrs, lits) by {
                        
                    }
                    lemma_builtin_value_text_all(env, locs, *name, *args, span, self.output@.skip(o0.len() as int), dfrs, self.string_literals@);
                }
                return true;
            }
            if !self.gen_expr(&args[0], nested) {
                return false;
            }
            let ghost o1 = self.output@;
            self.emit_asm("movq %rax, %rcx");
            self.emit_asm("call strlen");
            proof {
                let at = o1.skip(o0.len() as int);
                assert(o1 =~= o0 + at);
                assert(self.output@.skip(o0.len() as int) =~= at + asm_line("movq %rax, %rcx"@) + asm_line(
                    "call strlen"@,
                ));
                let sl = self.string_literals@;
                    assert forall|lits: Seq<String>| grows(sl, lits) implies builtin_text_ok(env, locs, name@, args@, self.output@.skip(o0.len() as int), dfrs, lits) by {
                        assert(value_text_ok(env, locs, args@[0], at, dfrs, lits));
                    }
                    lemma_builtin_value_text_all(env, locs, *name, *args, span, self.output@.skip(o0.len() as int), dfrs, self.string_literals@);
            }
            return true;
        }
        if str_is(name, "print") {
            if args.len() < 1 {
                return false;
            }
            let ghost o0 = self.output@;
            let ghost env = self.env();
            let ghost locs = self.frame().locals;
        let ghost dfrs = if nested { Seq::<Expr>::empty() } else { self.frame().deferred };
            let ghost n0 = self.string_literals@.len();
            let ty = self.infer_type(&args[0]);
            if !self.gen_expr(&args[0], nested) {
                return false;
            }
            let ghost o1 = self.output@;
            let ghost n2 = self.string_literals@.len();
            let ghost c = self.label_counter;
            self.print_value(ty);
            proof {
                let vt = o1.skip(o0.len() as int);
                assert(o1 =~= o0 + vt);
                assert(value_text_ok_all(env, locs, args@[0], vt, dfrs, self.string_literals@));
                assert(self.output@ == o0 + vt + print_code(ty, n2, c));
                assert(self.output@.skip(o0.len() as int) =~= vt + print_code(ty, n2, c));
                let sl = self.string_literals@;
                assert forall|lits: Seq<String>| grows(sl, lits) implies builtin_text_ok(
                    env,
                    locs,
                    name@,
                    args@,
                    self.output@.skip(o0.len() as int),
                    dfrs,
                    lits,
                ) by {
                    assert(value_text_ok(env, locs, args@[0], vt, dfrs, lits));
                    lemma_lits_at_grows(sl, lits, n2, print_lits(ty));
                }
                    lemma_builtin_value_text_all(env, locs, *name, *args, span, self.output@.skip(o0.len() as int), dfrs, self.string_literals@);
            }
            return true;
        }
        if str_is(name, "abs") || str_is(name, "to_str") || str_is(name, "parse_int") || str_is(name, "read_file")
            || str_is(name, "file_exists") || str_is(name, "eprint") || str_is(name, "exit") || str_is(name, "sleep")
            || str_is(name, "trim") || str_is(name, "alloc") || str_is(name, "free") {
            if args.len() < 1 {
                return false;
            }
            let ghost o0 = self.output@;
            let ghost env = self.env();
            let ghost locs = self.frame().locals;
        let ghost dfrs = if nested { Seq::<Expr>::empty() } else { self.frame().deferred };
            if !self.gen_expr(&args[0], nested) {
                return false;
            }
            let ghost o1 = self.output@;
            let ghost n = self.string_literals@.len();
            let ghost sl1 = self.string_literals@;
            let ghost c = self.label_counter;
            self.one_arg_builtin(name);
            proof {
                let at = o1.skip(o0.len() as int);
                assert(o1 =~= o0 + at);
                assert(self.output@.skip(o0.len() as int) =~= at + builtin1_code(name@, n, c));
                let sl = self.string_literals@;
                    assert forall|lits: Seq<String>| grows(sl, lits) implies builtin_text_ok(env, locs, name@, args@, self.output@.skip(o0.len() as int), dfrs, lits) by {
                        lemma_grows_trans(sl1, sl, lits);
                        lemma_lits_at_grows(sl, lits, n, builtin1_lits(name@));
                        assert(value_text_ok(env, locs, args@[0], at, dfrs, lits));
                    }
                    lemma_builtin_value_text_all(env, locs, *name, *args, span, self.output@.skip(o0.len() as int), dfrs, self.string_literals@);
            }
            return true;
        }
        self.gen_call_more(name, args, span, nested)
    }

    /// Print RAX, a value of runtime type `ty`.
    #[verifier::spinoff_prover]
    #[verifier::rlimit(40)]
    fn print_value(&mut self, ty: ValType)
        requires
            old(self).wf(),
        ensures
            final(self).wf(),
            old(self).kept(final(self)),
            final(self).output@ == old(self).output@ + print_code(
                ty,
                old(self).string_literals@.len(),
                old(self).label_counter,
            ),
            lits_at(final(self).string_literals@, old(self).string_literals@.len(), print_lits(ty)),
    {
        let ghost o0 = self.output@;
        let ghost n = self.string_literals@.len();
        let ghost c = self.label_counter;
        match ty {
            ValType::Int => {
                self.emit_asm("movq %rax, %rdx");
                let ghost o1 = self.output@;
                self.load_literal("%lld\\n", "%rcx");
                let ghost o2 = self.output@;
                let ghost sl = self.string_literals@;
                assert(sl[n + 0int]@ == print_lits(ty)[0]);
                self.emit_asm("call printf");
                proof {
                    assert(self.string_literals@ == sl);
                    let l = asm_line("leaq .Lstr_"@ + nat_text(n) + "(%rip), "@ + "%rcx"@);
                    assert(o2 =~= o1 + l);
                    assert(self.output@ =~= o0 + print_code(ty, n, c));
                }
            },
            ValType::Str => {
                self.emit_asm("movq %rax, %rcx");
                self.emit_asm("call puts");
                assert(self.output@ =~= o0 + print_code(ty, n, c));
            },
            ValType::Bool => {
                let false_label = self.new_label("pf");
                let end_label = self.new_label("pe");
                self.emit_asm("testq %rax, %rax");
                self.emit_jump("je ", &false_label);
                let ghost o1 = self.output@;
                self.load_literal("true", "%rcx");
                let ghost o2 = self.output@;
                let ghost sl1 = self.string_literals@;
                assert(sl1[n + 0int]@ == print_lits(ty)[0]);
                self.emit_jump("jmp ", &end_label);
                self.emit_label(&false_label);
                let ghost o3 = self.output@;
                self.load_literal("false", "%rcx");
                let ghost o4 = self.output@;
                let ghost sl2 = self.string_literals@;
                assert(sl2[n + 1int]@ == print_lits(ty)[1]);
                assert(sl2[n + 0int] == sl1[n + 0int]);
                self.emit_label(&end_label);
                self.emit_asm("call puts");
                proof {
                    assert(self.string_literals@ == sl2);
                    let lf = label_text("pf"@, next_count(c) as nat);
                    let le = label_text("pe"@, next_count(next_count(c)) as nat);
                    assert(false_label@ == lf);
                    assert(end_label@ == le);
                    let l1 = asm_line("leaq .Lstr_"@ + nat_text(n) + "(%rip), "@ + "%rcx"@);
                    let l2 = asm_line("leaq .Lstr_"@ + nat_text(n + 1) + "(%rip), "@ + "%rcx"@);
                    assert(o2 =~= o1 + l1);
                    assert(o4 =~= o3 + l2);
                    assert(self.output@ =~= o0 + print_code(ty, n, c));
                }
            },
            ValType::Void => {
                assert(self.output@ =~= o0 + print_code(ty, n, c));
            },
        }
    }

    /// The code of a built-in of one argument, with the argument in RAX.
    #[verifier::spinoff_prover]
    #[verifier::rlimit(100)]
    fn one_arg_builtin(&mut self, name: &String)
        requires
            old(self).wf(),
        ensures
            final(self).wf(),
            old(self).kept(final(self)),
            final(self).output@ == old(self).output@ + builtin1_code(
                name@,
                old(self).string_literals@.len(),
                old(self).label_counter,
            ),
            lits_at(final(self).string_literals@, old(self).string_literals@.len(), builtin1_lits(name@)),
    {
        let ghost o0 = self.output@;
        let ghost n = self.string_literals@.len();
        let ghost c = self.label_counter;
        if str_is(name, "abs") {
            self.emit_asm("movq %rax, %rcx");
            self.emit_asm("negq %rcx");
            self.emit_asm("testq %rax, %rax");
            self.emit_asm("cmovlq %rcx, %rax");
            assert(builtin1_lits(name@) =~= Seq::<Seq<char>>::empty()) by {
                reveal_strlit("abs");
                reveal_strlit("to_str");
                reveal_strlit("file_exists");
                reveal_strlit("eprint");
                assert("abs"@.len() != "to_str"@.len());
                assert("abs"@.len() != "file_exists"@.len());
                assert("abs"@.len() != "eprint"@.len());
            }
        } else if str_is(name, "to_str") {
            self.emit_asm("movq %rax, %r8");
            self.emit_asm("subq $32, %rsp");
            self.emit_asm("movq %rsp, %rcx");
            self.load_literal("%lld", "%rdx");
            let ghost sl = self.string_literals@;
            assert(sl[n + 0int]@ == builtin1_lits(name@)[0]);
            self.emit_asm("call sprintf");
            self.emit_asm("movq %rsp, %rax");
            assert(self.string_literals@ == sl);
            assert(lits_at(self.string_literals@, n, builtin1_lits(name@)));
        } else if str_is(name, "parse_int") {
            self.emit_asm("movq %rax, %rcx");
            self.emit_asm("call atoll");
            self.emit_asm("xorl %edx, %edx");
            assert(builtin1_lits(name@) =~= Seq::<Seq<char>>::empty()) by {
                reveal_strlit("parse_int");
                reveal_strlit("file_exists");
                reveal_strlit("eprint");
                assert("parse_int"@.len() != "file_exists"@.len());
                assert("parse_int"@.len() != "eprint"@.len());
            }
        } else if str_is(name, "read_file") {
            self.emit_asm("movq %rax, %rcx");
            self.emit_asm("call __ferro_read_file");
            assert(builtin1_lits(name@) =~= Seq::<Seq<char>>::empty()) by {
                reveal_strlit("read_file");
                reveal_strlit("file_exists");
                reveal_strlit("eprint");
                assert("read_file"@.len() != "file_exists"@.len());
                assert("read_file"@.len() != "eprint"@.len());
            }
        } else if str_is(name, "file_exists") {
            self.emit_asm("movq %rax, %rcx");
            self.load_literal("r", "%rdx");
            let ghost sl = self.string_literals@;
            assert(sl[n + 0int]@ == builtin1_lits(name@)[0]);
            self.emit_asm("call fopen");
            self.emit_asm("testq %rax, %rax");
            let exists_label = self.new_label("fe_yes");
            let done_label = self.new_label("fe_done");
            self.emit_jump("jnz ", &exists_label);
            self.emit_asm("xorl %eax, %eax");
            self.emit_jump("jmp ", &done_label);
            self.emit_label(&exists_label);
            self.emit_asm("movq %rax, %rcx");
            self.emit_asm("call fclose");
            self.emit_asm("movq $1, %rax");
            self.emit_label(&done_label);
            assert(self.string_literals@ == sl);
            assert(lits_at(self.string_literals@, n, builtin1_lits(name@)));
        } else if str_is(name, "eprint") {
            self.emit_asm("movq %rax, %r8");
            self.load_literal("%s\\n", "%rdx");
            let ghost sl = self.string_literals@;
            assert(sl[n + 0int]@ == builtin1_lits(name@)[0]);
            self.emit_asm("pushq %rdx");
            self.emit_asm("pushq %r8");
            self.emit_asm("movq $2, %rcx");
            self.emit_asm("call __acrt_iob_func");
            self.emit_asm("movq %rax, %rcx");
            self.emit_asm("popq %r8");
            self.emit_asm("popq %rdx");
            self.emit_asm("call fprintf");
            assert(self.string_literals@ == sl);
            assert(lits_at(self.string_literals@, n, builtin1_lits(name@)));
        } else if str_is(name, "exit") {
            self.emit_asm("movq %rax, %rcx");
            self.emit_asm("call exit");
        } else if str_is(name, "sleep") {
            self.emit_asm("movq %rax, %rcx");
            self.emit_asm("call Sleep");
        } else if str_is(name, "trim") {
            self.emit_asm("movq %rax, %rcx");
            self.emit_asm("subq $32, %rsp");
            self.emit_asm("call __ferro_trim");
            self.emit_asm("addq $32, %rsp");
        } else if str_is(name, "alloc") {
            self.emit_asm("movq %rax, %rcx");
            self.emit_asm("call malloc");
        } else if str_is(name, "free") {
            self.emit_asm("movq %rax, %rcx");
            self.emit_asm("call free");
        }
        assert(self.output@ =~= o0 + builtin1_code(name@, n, c));
    }

    /// Emit `substr(s, start, len)`: the first two arguments pushed while
    /// the next is computed.
    #[verifier::spinoff_prover]
    #[verifier::rlimit(100)]
    fn gen_substr(&mut self, name: &String, args: &'a Vec<Expr>, span: Span, nested: bool) -> (ok: bool)
        requires
            old(self).wf(),
            name@ == "substr"@,
            name@ != "len"@,
            builtin_arity(name@) == Some(3nat),
        ensures
            final(self).wf(),
            old(self).kept(final(self)),
            ok == expr_emits(old(self).env(), old(self).frame(), nested, Expr::Call { name: *name, args: *args, span }),
            ok ==> value_text_ok_all(old(self).env(), old(self).frame().locals, Expr::Call { name: *name, args: *args, span }, final(self).output@.skip(old(self).output@.len() as int), (if nested { Seq::<Expr>::empty() } else { old(self).frame().deferred }), final(self).string_literals@),
        decreases (if nested { 0nat } else { 2nat }), *args, 2nat,
    {
        let ghost o0 = self.output@;
        let ghost env = self.env();
        let ghost locs = self.frame().locals;
        let ghost dfrs = if nested { Seq::<Expr>::empty() } else { self.frame().deferred };
        proof {
            reveal_strlit("substr");
            reveal_strlit("print");
            assert("substr"@.len() != "print"@.len());
        }
        if args.len() < 3 {
            return false;
        }
        if !self.gen_expr(&args[0], nested) {
            return false;
        }
        let ghost o1 = self.output@;
        let ghost s1 = self.string_literals@;
        self.emit_asm("pushq %rax");
        let ghost o2 = self.output@;
        if !self.gen_expr(&args[1], nested) {
            return false;
        }
        let ghost o3 = self.output@;
        let ghost s3 = self.string_literals@;
        self.emit_asm("pushq %rax");
        let ghost o4 = self.output@;
        if !self.gen_expr(&args[2], nested) {
            return false;
        }
        let ghost o5 = self.output@;
        self.emit_asm("movq %rax, %r8");
        self.emit_asm("popq %rdx");
        self.emit_asm("popq %rcx");
        self.emit_asm("subq $32, %rsp");
        self.emit_asm("call __ferro_substr");
        self.emit_asm("addq $32, %rsp");
        proof {
            let a0 = o1.skip(o0.len() as int);
            let a1 = o3.skip(o2.len() as int);
            let a2 = o5.skip(o4.len() as int);
            assert(o1 =~= o0 + a0);
            assert(o3 =~= o2 + a1);
            assert(o5 =~= o4 + a2);
            assert(self.output@.skip(o0.len() as int) =~= a0 + asm_line("pushq %rax"@) + a1 + asm_line(
                "pushq %rax"@,
            ) + a2 + asm_line("movq %rax, %r8"@) + asm_line("popq %rdx"@) + asm_line("popq %rcx"@) + asm_line(
                "subq $32, %rsp"@,
            ) + asm_line("call __ferro_substr"@) + asm_line("addq $32, %rsp"@));
            let sl = self.string_literals@;
            assert forall|lits: Seq<String>| grows(sl, lits) implies builtin_text_ok(env, locs, name@, args@, self.output@.skip(o0.len() as int), dfrs, lits) by {
                lemma_grows_trans(s1, sl, lits);
                lemma_grows_trans(s3, sl, lits);
                assert(value_text_ok(env, locs, args@[0], a0, dfrs, lits));
                assert(value_text_ok(env, locs, args@[1], a1, dfrs, lits));
                assert(value_text_ok(env, locs, args@[2], a2, dfrs, lits));
            }
            lemma_builtin_value_text_all(env, locs, *name, *args, span, self.output@.skip(o0.len() as int), dfrs, self.string_literals@);
        }
        return true;
    }

    /// Emit a call of a built-in of zero, two or three arguments, or of a
    /// user function.
    #[verifier::spinoff_prover]
    #[verifier::rlimit(100)]
    fn gen_call_more(&mut self, name: &String, args: &'a Vec<Expr>, span: Span, nested: bool) -> (ok: bool)
        requires
            old(self).wf(),
            name@ != "len"@,
            builtin_arity(name@) != Some(1nat),
        ensures
            final(self).wf(),
            old(self).kept(final(self)),
            ok == expr_emits(old(self).env(), old(self).frame(), nested, Expr::Call { name: *name, args: *args, span }),
            ok ==> value_text_ok_all(old(self).env(), old(self).frame().locals, Expr::Call { name: *name, args: *args, span }, final(self).output@.skip(old(self).output@.len() as int), (if nested { Seq::<Expr>::empty() } else { old(self).frame().deferred }), final(self).string_literals@),
        decreases (if nested { 0nat } else { 2nat }), *args, 3nat,
    {
        if str_is(name, "min") || str_is(name, "max") || str_is(name, "pow") || str_is(name, "char_at") || str_is(
            name,
            "contains",
        ) || str_is(name, "starts_with") || str_is(name, "write_file") {
            return self.gen_call_two(name, args, span, nested);
        }
        let ghost o0 = self.output@;
        let ghost env = self.env();
        let ghost locs = self.frame().locals;
        let ghost dfrs = if nested { Seq::<Expr>::empty() } else { self.frame().deferred };
        if str_is(name, "substr") {
            return self.gen_substr(name, args, span, nested);
        }
        if str_is(name, "rand") || str_is(name, "read_line") || str_is(name, "time") {
            return self.gen_call_nullary(name, args, span, nested);
        }
        let ok = self.gen_user_call(name, args, nested);
        proof {
            if ok {
                let at = choose|at: Seq<char>|
                    self.output@ == o0 + ((at + pops_text(args.len() as nat)) + asm_line("call "@ + name@))
                        && args_text_ok_all(env, locs, args@, at, dfrs, self.string_literals@);
                assert(self.output@.skip(o0.len() as int) =~= (at + pops_text(args.len() as nat)) + asm_line(
                    "call "@ + name@,
                ));
                lemma_user_call_value_text_all(env, locs, *name, *args, span, at, dfrs, self.string_literals@);
            }
        }
        ok
    }

    /// Emit a call of a built-in that takes no argument.
    #[verifier::spinoff_prover]
    #[verifier::rlimit(60)]
    fn gen_call_nullary(&mut self, name: &String, args: &'a Vec<Expr>, span: Span, nested: bool) -> (ok: bool)
        requires
            old(self).wf(),
            name@ != "len"@,
            builtin_arity(name@) == Some(0nat),
        ensures
            final(self).wf(),
            old(self).kept(final(self)),
            ok == expr_emits(old(self).env(), old(self).frame(), nested, Expr::Call { name: *name, args: *args, span }),
            ok ==> value_text_ok_all(old(self).env(), old(self).frame().locals, Expr::Call { name: *name, args: *args, span }, final(self).output@.skip(old(self).output@.len() as int), (if nested { Seq::<Expr>::empty() } else { old(self).frame().deferred }), final(self).string_literals@),
    {
        let ghost o0 = self.output@;
        let ghost env = self.env();
        let ghost locs = self.frame().locals;
        let ghost dfrs = if nested { Seq::<Expr>::empty() } else { self.frame().deferred };
        if str_is(name, "rand") {
            proof {
                reveal_strlit("rand");
                reveal_strlit("print");
                assert("rand"@.len() != "print"@.len());
            }
            self.emit_asm("call rand");
            self.emit_asm("cltq");
            proof {
                assert(self.output@.skip(o0.len() as int) =~= asm_line("call rand"@) + asm_line("cltq"@));
                let sl = self.string_literals@;
                assert forall|lits: Seq<String>| grows(sl, lits) implies builtin_text_ok(env, locs, name@, args@, self.output@.skip(o0.len() as int), dfrs, lits) by {
                }
                lemma_builtin_value_text_all(env, locs, *name, *args, span, self.output@.skip(o0.len() as int), dfrs, self.string_literals@);
            }
            return true;
        }
        if str_is(name, "read_line") {
            proof {
                reveal_strlit("read_line");
                reveal_strlit("print");
                assert("read_line"@.len() != "print"@.len());
            }
            let ghost c = self.label_counter;
            self.gen_read_line();
            proof {
                assert(self.output@.skip(o0.len() as int) =~= read_line_code(c));
                let sl = self.string_literals@;
                assert forall|lits: Seq<String>| grows(sl, lits) implies builtin_text_ok(env, locs, name@, args@, self.output@.skip(o0.len() as int), dfrs, lits) by {
                }
                lemma_builtin_value_text_all(env, locs, *name, *args, span, self.output@.skip(o0.len() as int), dfrs, self.string_literals@);
            }
            return true;
        }
        proof {
            reveal_strlit("time");
            reveal_strlit("print");
            assert("time"@.len() != "print"@.len());
        }
        self.emit_asm("xorl %ecx, %ecx");
        self.emit_asm("call time");
        proof {
            assert(self.output@.skip(o0.len() as int) =~= asm_line("xorl %ecx, %ecx"@) + asm_line("call time"@));
            let sl = self.string_literals@;
            assert forall|lits: Seq<String>| grows(sl, lits) implies builtin_text_ok(env, locs, name@, args@, self.output@.skip(o0.len() as int), dfrs, lits) by {
            }
            lemma_builtin_value_text_all(env, locs, *name, *args, span, self.output@.skip(o0.len() as int), dfrs, self.string_literals@);
        }
        true
    }

    /// Emit a call of a built-in of two arguments.
    #[verifier::spinoff_prover]
    #[verifier::rlimit(60)]
    fn gen_call_two(&mut self, name: &String, args: &'a Vec<Expr>, span: Span, nested: bool) -> (ok: bool)
        requires
            old(self).wf(),
            name@ != "len"@,
            builtin_arity(name@) == Some(2nat),
        ensures
            final(self).wf(),
            old(self).kept(final(self)),
            ok == expr_emits(old(self).env(), old(self).frame(), nested, Expr::Call { name: *name, args: *args, span }),
            ok ==> value_text_ok_all(old(self).env(), old(self).frame().locals, Expr::Call { name: *name, args: *args, span }, final(self).output@.skip(old(self).output@.len() as int), (if nested { Seq::<Expr>::empty() } else { old(self).frame().deferred }), final(self).string_literals@),
        decreases (if nested { 0nat } else { 2nat }), *args, 2nat,
    {
        if args.len() < 2 {
            return false;
        }
        let ghost o0 = self.output@;
        let ghost env = self.env();
        let ghost locs = self.frame().locals;
        let ghost dfrs = if nested { Seq::<Expr>::empty() } else { self.frame().deferred };
        if str_is(name, "starts_with") {
            return self.gen_starts_with(name, args, span, nested);
        }
        if !self.gen_expr(&args[0], nested) {
            return false;
        }
        let ghost o1 = self.output@;
        let ghost s1 = self.string_literals@;
        self.emit_asm("pushq %rax");
        let ghost o2 = self.output@;
        if !self.gen_expr(&args[1], nested) {
            return false;
        }
        let ghost o3 = self.output@;
        let ghost c = self.label_counter;
        self.two_arg_builtin(name);
        proof {
            let a0 = o1.skip(o0.len() as int);
            let a1 = o3.skip(o2.len() as int);
            assert(o1 =~= o0 + a0);
            assert(o3 =~= o2 + a1);
            assert(self.output@.skip(o0.len() as int) =~= a0 + asm_line("pushq %rax"@) + a1 + builtin2_code(name@, c));
            assert(name@ != "print"@);
            let sl = self.string_literals@;
            assert forall|lits: Seq<String>| grows(sl, lits) implies builtin_text_ok(env, locs, name@, args@, self.output@.skip(o0.len() as int), dfrs, lits) by {
                lemma_grows_trans(s1, sl, lits);
                assert(value_text_ok(env, locs, args@[0], a0, dfrs, lits));
                assert(value_text_ok(env, locs, args@[1], a1, dfrs, lits));
            }
            lemma_builtin_value_text_all(env, locs, *name, *args, span, self.output@.skip(o0.len() as int), dfrs, self.string_literals@);
        }
        true
    }

    /// Emit `starts_with(s, prefix)`: the prefix and its length first, then
    /// `s`, compared with `strncmp`.
    #[verifier::spinoff_prover]
    #[verifier::rlimit(60)]
    fn gen_starts_with(&mut self, name: &String, args: &'a Vec<Expr>, span: Span, nested: bool) -> (ok: bool)
        requires
            old(self).wf(),
            name@ == "starts_with"@,
            name@ != "len"@,
            builtin_arity(name@) == Some(2nat),
            args.len() >= 2,
        ensures
            final(self).wf(),
            old(self).kept(final(self)),
            ok == expr_emits(old(self).env(), old(self).frame(), nested, Expr::Call { name: *name, args: *args, span }),
            ok ==> value_text_ok_all(old(self).env(), old(self).frame().locals, Expr::Call { name: *name, args: *args, span }, final(self).output@.skip(old(self).output@.len() as int), (if nested { Seq::<Expr>::empty() } else { old(self).frame().deferred }), final(self).string_literals@),
        decreases (if nested { 0nat } else { 2nat }), *args, 1nat,
    {
        let ghost o0 = self.output@;
        let ghost env = self.env();
        let ghost locs = self.frame().locals;
        let ghost dfrs = if nested { Seq::<Expr>::empty() } else { self.frame().deferred };
        if !self.gen_expr(&args[1], nested) {
            return false;
        }
        let ghost o1 = self.output@;
        let ghost s1 = self.string_literals@;
        self.emit_asm("pushq %rax");
        self.emit_asm("movq %rax, %rcx");
        self.emit_asm("call strlen");
        self.emit_asm("pushq %rax");
        let ghost o2 = self.output@;
        if !self.gen_expr(&args[0], nested) {
            return false;
        }
        let ghost o3 = self.output@;
        self.emit_asm("movq %rax, %rcx");
        self.emit_asm("popq %r8");
        self.emit_asm("popq %rdx");
        self.emit_asm("call strncmp");
        self.emit_asm("testq %rax, %rax");
        self.emit_asm("sete %al");
        self.emit_asm("movzbq %al, %rax");
        proof {
            let a1 = o1.skip(o0.len() as int);
            let a0 = o3.skip(o2.len() as int);
            assert(o1 =~= o0 + a1);
            assert(o3 =~= o2 + a0);
            assert(self.output@.skip(o0.len() as int) =~= a1 + asm_line("pushq %rax"@) + asm_line(
                "movq %rax, %rcx"@,
            ) + asm_line("call strlen"@) + asm_line("pushq %rax"@) + a0 + asm_line("movq %rax, %rcx"@) + asm_line(
                "popq %r8"@,
            ) + asm_line("popq %rdx"@) + asm_line("call strncmp"@) + asm_line("testq %rax, %rax"@) + asm_line(
                "sete %al"@,
            ) + asm_line("movzbq %al, %rax"@));
            assert(name@ != "print"@);
            let sl = self.string_literals@;
            assert forall|lits: Seq<String>| grows(sl, lits) implies builtin_text_ok(env, locs, name@, args@, self.output@.skip(o0.len() as int), dfrs, lits) by {
                lemma_grows_trans(s1, sl, lits);
                assert(value_text_ok(env, locs, args@[0], a0, dfrs, lits));
                assert(value_text_ok(env, locs, args@[1], a1, dfrs, lits));
            }
            lemma_builtin_value_text_all(env, locs, *name, *args, span, self.output@.skip(o0.len() as int), dfrs, self.string_literals@);
        }
        true
    }

    /// The code of a built-in of two arguments, with the first pushed and
    /// the second in RAX.
    #[verifier::spinoff_prover]
    #[verifier::rlimit(60)]
    fn two_arg_builtin(&mut self, name: &String)
        requires
            old(self).wf(),
        ensures
            final(self).wf(),
            old(self).kept(final(self)),
            final(self).output@ == old(self).output@ + builtin2_code(name@, old(self).label_counter),
    {
        let ghost o0 = self.output@;
        let ghost c = self.label_counter;
        if str_is(name, "min") {
            self.emit_asm("popq %rcx");
            self.emit_asm("cmpq %rax, %rcx");
            self.emit_asm("cmovlq %rcx, %rax");
        } else if str_is(name, "max") {
            self.emit_asm("popq %rcx");
            self.emit_asm("cmpq %rax, %rcx");
            self.emit_asm("cmovgq %rcx, %rax");
        } else if str_is(name, "pow") {
            self.emit_asm("movq %rax, %rcx");
            self.emit_asm("popq %rdx");
            self.emit_asm("movq $1, %rax");
            let loop_label = self.new_label("pow_loop");
            let done_label = self.new_label("pow_done");
            self.emit_label(&loop_label);
            self.emit_asm("testq %rcx, %rcx");
            self.emit_jump("jle ", &done_label);
            self.emit_asm("imulq %rdx, %rax");
            self.emit_asm("decq %rcx");
            self.emit_jump("jmp ", &loop_label);
            self.emit_label(&done_label);
        } else if str_is(name, "char_at") {
            self.emit_asm("movq %rax, %rcx");
            self.emit_asm("popq %rdx");
            self.emit_asm("movzbq (%rdx,%rcx,1), %rax");
        } else if str_is(name, "contains") {
            self.emit_asm("movq %rax, %rdx");
            self.emit_asm("popq %rcx");
            self.emit_asm("call strstr");
            self.emit_asm("testq %rax, %rax");
            self.emit_asm("setne %al");
            self.emit_asm("movzbq %al, %rax");
        } else {
            self.emit_asm("movq %rax, %rdx");
            self.emit_asm("popq %rcx");
            self.emit_asm("call __ferro_write_file");
        }
        assert(self.output@ =~= o0 + builtin2_code(name@, c));
    }

    /// Emit `read_line()`: read a line from stdin into a stack buffer and
    /// strip its line ending.
    #[verifier::spinoff_prover]
    #[verifier::rlimit(100)]
    fn gen_read_line(&mut self)
        requires
            old(self).wf(),
        ensures
            final(self).wf(),
            old(self).kept(final(self)),
            final(self).output@ == old(self).output@ + read_line_code(old(self).label_counter),
    {
        let ghost o0 = self.output@;
        let ghost c = self.label_counter;
        self.emit_asm("subq $1024, %rsp");
        self.emit_asm("movq %rsp, %rcx");
        self.emit_asm("movq $1024, %rdx");
        self.emit_asm("pushq %rcx");
        self.emit_asm("pushq %rdx");
        self.emit_asm("xorl %ecx, %ecx");
        self.emit_asm("call __acrt_iob_func");
        self.emit_asm("movq %rax, %r8");
        self.emit_asm("popq %rdx");
        self.emit_asm("popq %rcx");
        self.emit_asm("call fgets");
        self.emit_asm("movq %rsp, %rcx");
        self.emit_asm("call strlen");
        self.emit_asm("testq %rax, %rax");
        let ghost o1 = self.output@;
        assert(o1 =~= o0 + read_line_head());
        let skip_label = self.new_label("rl_skip");
        self.emit_jump("jz ", &skip_label);
        self.emit_asm("decq %rax");
        self.emit_asm("movq %rsp, %rcx");
        self.emit_asm("cmpb $10, (%rcx,%rax,1)");
        let no_nl_label = self.new_label("rl_no_nl");
        self.emit_jump("jne ", &no_nl_label);
        self.emit_asm("movb $0, (%rcx,%rax,1)");
        self.emit_label(&no_nl_label);
        let ghost o2 = self.output@;
        self.emit_asm("testq %rax, %rax");
        let skip_cr_label = self.new_label("rl_skip_cr");
        self.emit_jump("jz ", &skip_cr_label);
        self.emit_asm("decq %rax");
        self.emit_asm("cmpb $13, (%rcx,%rax,1)");
        let no_cr_label = self.new_label("rl_no_cr");
        self.emit_jump("jne ", &no_cr_label);
        self.emit_asm("movb $0, (%rcx,%rax,1)");
        self.emit_label(&no_cr_label);
        self.emit_label(&skip_cr_label);
        self.emit_label(&skip_label);
        self.emit_asm("movq %rsp, %rax");
        proof {
            assert(skip_label@ == label_text("rl_skip"@, next_count(c) as nat));
            assert(no_nl_label@ == label_text("rl_no_nl"@, next_count(next_count(c)) as nat));
            assert(skip_cr_label@ == label_text("rl_skip_cr"@, next_count(next_count(next_count(c))) as nat));
            assert(no_cr_label@ == label_text(
                "rl_no_cr"@,
                next_count(next_count(next_count(next_count(c)))) as nat,
            ));
            assert(o2 =~= o1 + read_line_lf(c));
            assert(self.output@ =~= o2 + read_line_cr(c));
            assert(self.output@ =~= o0 + read_line_code(c));
        }
    }

    /// Emit a call of a user function: arguments are evaluated left to right
    /// and pushed, then popped into RCX, RDX, R8, R9 (further ones dropped).
    #[verifier::spinoff_prover]
    #[verifier::rlimit(100)]
    fn gen_user_call(&mut self, name: &String, args: &'a Vec<Expr>, nested: bool) -> (ok: bool)
        requires
            old(self).wf(),
        ensures
            final(self).wf(),
            old(self).kept(final(self)),
            ok == (exprs_ok(old(self).env(), old(self).frame().locals, args@) && (exprs_emit_try(
                old(self).frame().locals,
                args@,
            ) ==> (old(self).frame().deferred.len() == 0 || (!nested && deferred_ok(
                old(self).env(),
                old(self).frame().locals,
                old(self).frame().deferred,
            ))))),
            ok ==> exists|at: Seq<char>|
                final(self).output@ == old(self).output@ + ((at + pops_text(args.len() as nat)) + asm_line(
                    "call "@ + name@,
                )) && args_text_ok_all(old(self).env(), old(self).frame().locals, args@, at, (if nested { Seq::<Expr>::empty() } else { old(self).frame().deferred }), final(self).string_literals@),
        decreases (if nested { 0nat } else { 2nat }), *args, 1nat,
    {
        let ghost env = self.env();
        let ghost fr = self.frame();
        let ghost dfrs = if nested { Seq::<Expr>::empty() } else { fr.deferred };
        let ghost o0 = self.output@;
        proof {
            lemma_exprs_ok(env, fr.locals, args@);
        }
        let mut i: usize = 0;
        assert(args@.take(0) =~= Seq::<Expr>::empty());
        assert(o0.skip(o0.len() as int) =~= Seq::<char>::empty());
        while i < args.len()
            invariant
                i <= args@.len(),
                self.wf(),
                old(self).kept(self),
                env == self.env(),
                fr == self.frame(),
                env == old(self).env(),
                fr == old(self).frame(),
                o0 == old(self).output@,
                dfrs == (if nested { Seq::<Expr>::empty() } else { fr.deferred }),
                forall|j: int| 0 <= j < i ==> #[trigger] expr_emits(env, fr, nested, args@[j]),
                exprs_ok(env, fr.locals, args@) == forall|j: int|
                    0 <= j < args@.len() ==> #[trigger] expr_ok(env, fr.locals, args@[j]),
                exprs_emit_try(fr.locals, args@) == exists|j: int|
                    0 <= j < args@.len() && #[trigger] emits_try(fr.locals, args@[j]),
                args_text_ok_all(env, fr.locals, args@.take(i as int), self.output@.skip(o0.len() as int), dfrs, self.string_literals@),
            decreases args@.len() - i,
        {
            let ghost ob = self.output@;
            let ghost nb = self.string_literals@.len();
            let ghost slb = self.string_literals@;
            if !self.gen_expr(&args[i], nested) {
                assert(!expr_emits(env, fr, nested, args@[i as int]));
                return false;
            }
            let ghost ov = self.output@;
            self.emit_asm("pushq %rax");
            proof {
                let t1 = ob.skip(o0.len() as int);
                let vt = ov.skip(ob.len() as int);
                let xs = args@.take(i + 1);
                assert(xs.drop_last() =~= args@.take(i as int));
                assert(xs.last() == args@[i as int]);
                assert(ov =~= ob + vt);
                assert(value_text_ok_all(env, fr.locals, args@[i as int], vt, dfrs, self.string_literals@));
                lemma_args_text_ok_lift(env, fr.locals, xs.drop_last(), t1, dfrs, slb, self.string_literals@);
                lemma_args_text_step_all(env, fr.locals, xs, t1, vt, dfrs, self.string_literals@);
                assert(self.output@.skip(o0.len() as int) =~= t1 + vt + asm_line("pushq %rax"@));
            }
            i += 1;
        }
        assert(args@.take(i as int) =~= args@);
        assert(exprs_ok(env, fr.locals, args@) && (exprs_emit_try(fr.locals, args@) ==> (fr.deferred.len() == 0 || (
        !nested && deferred_ok(env, fr.locals, fr.deferred))))) by {
            if exprs_emit_try(fr.locals, args@) {
                let j = choose|j: int| 0 <= j < args@.len() && #[trigger] emits_try(fr.locals, args@[j]);
                assert(expr_emits(env, fr, nested, args@[j]));
            }
            assert forall|j: int| 0 <= j < args@.len() implies #[trigger] expr_ok(env, fr.locals, args@[j]) by {
                assert(expr_emits(env, fr, nested, args@[j]));
            }
        }
        let ghost oa = self.output@;
        let ghost sla = self.string_literals@;
        let mut k = args.len();
        assert(oa.skip(oa.len() as int) + pops_text(k as nat) =~= pops_text(args.len() as nat));
        while k > 0
            invariant
                k <= args@.len(),
                self.wf(),
                old(self).kept(self),
                self.string_literals@ == sla,
                grows(oa, self.output@),
                self.output@.skip(oa.len() as int) + pops_text(k as nat) == pops_text(args.len() as nat),
            decreases k,
        {
            let ghost ob = self.output@;
            k -= 1;
            if k == 0 {
                self.emit_asm("popq %rcx");
            } else if k == 1 {
                self.emit_asm("popq %rdx");
            } else if k == 2 {
                self.emit_asm("popq %r8");
            } else if k == 3 {
                self.emit_asm("popq %r9");
            } else {
                self.emit_asm("popq %rax");
            }
            proof {
                let pb = ob.skip(oa.len() as int);
                assert(self.output@ == ob + pop_line(k as nat));
                assert(self.output@.skip(oa.len() as int) =~= pb + pop_line(k as nat));
                assert(pops_text((k + 1) as nat) == pop_line(k as nat) + pops_text(k as nat));
                vstd::seq_lib::lemma_concat_associative(pb, pop_line(k as nat), pops_text(k as nat));
            }
        }
        let ghost op = self.output@;
        self.emit_with("call ", name);
        proof {
            let at = oa.skip(o0.len() as int);
            let pt = op.skip(oa.len() as int);
            assert(pops_text(0) =~= Seq::<char>::empty());
            assert(pt + pops_text(0) =~= pt);
            assert(oa =~= o0 + at);
            assert(op =~= oa + pt);
            assert(self.output@ =~= o0 + ((at + pops_text(args.len() as nat)) + asm_line("call "@ + name@)));
            assert(args_text_ok_all(env, fr.locals, args@, at, dfrs, self.string_literals@));
        }
        true
    }

    /// Allocate a scalar local below the lowest slot; its offset, or `None`
    /// when the offset would leave the range of `i64`.
    fn alloc_local(&mut self, name: String, ty: ValType) -> (r: Option<i64>)
        requires
            old(self).wf(),
        ensures
            match r {
                Some(o) => final(self).wf() && old(self).only_frame(final(self)) && new_slot(
                    old(self).frame(),
                    name@,
                    ty,
                ) == Some(final(self).frame()) && o == final(self).stack_offset,
                None => new_slot(old(self).frame(), name@, ty) is None,
            },
    {
        if self.stack_offset < i64::MIN + 8 {
            return None;
        }
        let ghost fr = self.frame();
        self.stack_offset = self.stack_offset - 8;
        let offset = self.stack_offset;
        let ghost nm = name@;
        self.locals.push((name, LocalVar { offset, ty, array_len: 0, struct_name: None }));
        assert(self.frame().locals =~= fr.locals.push(
            (nm, LocalVar { offset, ty, array_len: 0, struct_name: None }),
        ));
        assert(self.frame().deferred =~= fr.deferred);
        Some(offset)
    }

    /// Emit a statement.
    #[verifier::spinoff_prover]
    #[verifier::rlimit(60)]
    fn gen_stmt(&mut self, stmt: &'a Stmt) -> (ok: bool)
        requires
            old(self).wf(),
        ensures
            ok ==> final(self).wf() && old(self).advanced(final(self)) && stmt_gen(
                old(self).env(),
                old(self).frame(),
                *stmt,
            ) == Some(final(self).frame()),
            !ok ==> stmt_gen(old(self).env(), old(self).frame(), *stmt) is None,
            ok ==> stmt_text_ok_all(
                old(self).env(),
                old(self).frame(),
                old(self).current_failable,
                old(self).loops(),
                *stmt,
                final(self).output@.skip(old(self).output@.len() as int),
                final(self).string_literals@,
            ),
        decreases *stmt, 1nat,
    {
        let ghost env = self.env();
        let ghost fr0 = self.frame();
        let ghost o0 = self.output@;
        let ghost n0 = self.string_literals@.len();
        let ok = match stmt {
            Stmt::Let { .. } => self.gen_let(stmt),
            Stmt::Assign { .. } => self.gen_store(stmt),
            Stmt::IndexAssign { .. } => self.gen_store(stmt),
            Stmt::FieldAssign { .. } => self.gen_store(stmt),
            Stmt::Return { .. } => self.gen_exit(stmt),
            Stmt::Fail { .. } => self.gen_exit(stmt),
            Stmt::TailExpr { .. } => self.gen_exit(stmt),
            Stmt::Defer { expr, .. } => {
                let ghost fr = self.frame();
                self.deferred.push(expr);
                assert(self.frame().deferred =~= fr.deferred.push(*expr));
                assert(self.frame().locals =~= fr.locals);
                assert(self.output@.skip(o0.len() as int) =~= Seq::<char>::empty());
                true
            },
            Stmt::Expr { expr, .. } => self.gen_expr(expr, false),
            Stmt::If { .. } => self.gen_if(stmt),
            Stmt::While { .. } => self.gen_while(stmt),
            Stmt::For { .. } => self.gen_for(stmt),
            Stmt::Break { .. } => {
                let n = self.loop_labels.len();
                if n > 0 {
                    let l = self.loop_labels[n - 1].1.clone();
                    self.emit_jump("jmp ", &l);
                    proof {
                        assert(self.loops().last().1 == l@);
                        assert(self.output@.skip(o0.len() as int) =~= asm_line("jmp "@ + l@));
                    }
                } else {
                    assert(self.output@.skip(o0.len() as int) =~= Seq::<char>::empty());
                }
                assert(stmt_text_ok_all(env, fr0, self.current_failable, self.loops(), *stmt, self.output@.skip(o0.len() as int), self.string_literals@));
                true
            },
            Stmt::Continue { .. } => {
                let n = self.loop_labels.len();
                if n > 0 {
                    let l = self.loop_labels[n - 1].0.clone();
                    self.emit_jump("jmp ", &l);
                    proof {
                        assert(self.loops().last().0 == l@);
                        assert(self.output@.skip(o0.len() as int) =~= asm_line("jmp "@ + l@));
                    }
                } else {
                    assert(self.output@.skip(o0.len() as int) =~= Seq::<char>::empty());
                }
                assert(stmt_text_ok_all(env, fr0, self.current_failable, self.loops(), *stmt, self.output@.skip(o0.len() as int), self.string_literals@));
                true
            },
            Stmt::Match { .. } => self.gen_match(stmt),
        };
        proof {
            if ok && stmt is Expr {
                match stmt {
                    Stmt::Expr { expr, .. } => match expr {
                        Expr::Call { name, args, .. } => {
                            if name@ == "print"@ && args.len() >= 1 {
                                let (vt, n2, c) = choose|vt: Seq<char>, n2: nat, c: usize|
                                    self.output@ == o0 + vt + print_code(infer(env, fr0.locals, args@[0]), n2, c)
                                        && value_text_ok_all(env, fr0.locals, args@[0], vt, fr0.deferred, self.string_literals@)
                                        && lits_at(self.string_literals@, n2, print_lits(infer(env, fr0.locals, args@[0])));
                                assert(self.output@.skip(o0.len() as int) =~= vt + print_code(
                                    infer(env, fr0.locals, args@[0]),
                                    n2,
                                    c,
                                ));
                                let sl = self.string_literals@;
                                assert forall|lits: Seq<String>| grows(sl, lits) implies stmt_text_ok(
                                    env,
                                    fr0,
                                    self.current_failable,
                                    self.loops(),
                                    *stmt,
                                    self.output@.skip(o0.len() as int),
                                    lits,
                                ) by {
                                    assert(value_text_ok(env, fr0.locals, args@[0], vt, fr0.deferred, lits));
                                    lemma_lits_at_grows(sl, lits, n2, print_lits(infer(env, fr0.locals, args@[0])));
                                }
                            } else {
                                assert(value_text_ok_all(env, fr0.locals, *expr, self.output@.skip(o0.len() as int), fr0.deferred, self.string_literals@));
                            }
                        },
                        _ => {
                            assert(value_text_ok_all(env, fr0.locals, *expr, self.output@.skip(o0.len() as int), fr0.deferred, self.string_literals@));
                        },
                    },
                    _ => {},
                }
                assert(stmt_text_ok_all(env, fr0, self.current_failable, self.loops(), *stmt, self.output@.skip(o0.len() as int), self.string_literals@));
            }
        }
        ok
    }

    /// Emit a `let`: an array or struct literal fills consecutive slots; any
    /// other value is stored in a new scalar slot.
    #[verifier::spinoff_prover]
    #[verifier::rlimit(60)]
    fn gen_let(&mut self, stmt: &'a Stmt) -> (ok: bool)
        requires
            old(self).wf(),
            stmt is Let,
        ensures
            ok ==> final(self).wf() && old(self).advanced(final(self)) && stmt_gen(
                old(self).env(),
                old(self).frame(),
                *stmt,
            ) == Some(final(self).frame()),
            !ok ==> stmt_gen(old(self).env(), old(self).frame(), *stmt) is None,
            ok ==> stmt_text_ok_all(
                old(self).env(),
                old(self).frame(),
                old(self).current_failable,
                old(self).loops(),
                *stmt,
                final(self).output@.skip(old(self).output@.len() as int),
                final(self).string_literals@,
            ),
        decreases *stmt, 0nat,
    {
        let (name, value) = match stmt {
            Stmt::Let { name, value, .. } => (name, value),
            _ => {
                return false;
            },
        };
        match value {
            Expr::ArrayLit { elements, .. } => self.gen_array_let(name, elements),
            Expr::StructLit { name: sname, fields, .. } => self.gen_struct_let(name, sname, fields),
            _ => {
                let ghost o0 = self.output@;
                let ghost env = self.env();
                let ghost fr0 = self.frame();
                let ghost n0 = self.string_literals@.len();
                let ty = self.infer_type(value);
                if !self.gen_expr(value, false) {
                    return false;
                }
                let ghost o1 = self.output@;
                let offset = match self.alloc_local(name.clone(), ty) {
                    Some(o) => o,
                    None => {
                        return false;
                    },
                };
                self.emit_num("movq %rax, ", offset, "(%rbp)");
                proof {
                    let vt = o1.skip(o0.len() as int);
                    assert(o1 =~= o0 + vt);
                    assert(value_text_ok_all(env, fr0.locals, *value, vt, fr0.deferred, self.string_literals@));
                    lemma_num_line(o1, "movq %rax, "@, int_text(offset as int), "(%rbp)"@);
                    assert(self.output@.skip(o0.len() as int) =~= vt + store_line(offset as int));
                    assert(new_slot(fr0, name@, infer(env, fr0.locals, *value)) == Some(self.frame()));
                    assert(self.frame().offset == offset as int);
                    assert(self.output@.skip(o0.len() as int) == vt + store_line(self.frame().offset));
                    lemma_let_text_ok_all(
                        env,
                        fr0,
                        self.current_failable,
                        self.loops(),
                        *stmt,
                        self.output@.skip(o0.len() as int),
                        vt,
                        self.frame(),
                        self.string_literals@,
                    );
                }
                true
            },
        }
    }

    /// Emit `let name = [elements]`.
    #[verifier::spinoff_prover]
    #[verifier::rlimit(60)]
    fn gen_array_let(&mut self, name: &String, elements: &'a Vec<Expr>) -> (ok: bool)
        requires
            old(self).wf(),
        ensures
            ok ==> final(self).wf() && old(self).advanced(final(self)) && ({
                let fr = old(self).frame();
                let base = fr.offset - 8 * elements@.len();
                let ls = fr.locals.push(
                    (
                        name@,
                        LocalVar {
                            offset: base as i64,
                            ty: ValType::Int,
                            array_len: elements@.len() as usize,
                            struct_name: None,
                        },
                    ),
                );
                &&& base >= i64::MIN
                &&& exprs_ok(old(self).env(), ls, elements@)
                &&& (exprs_emit_try(ls, elements@) ==> deferred_ok(old(self).env(), ls, fr.deferred))
                &&& final(self).frame() == (Frame { locals: ls, offset: base, deferred: fr.deferred })
            }),
            ok ==> elems_text_ok_all(old(self).env(), final(self).frame().locals, elements@, final(self).frame().offset, final(self).output@.skip(old(self).output@.len() as int), final(self).frame().deferred, final(self).string_literals@),
            !ok ==> ({
                let fr = old(self).frame();
                let base = fr.offset - 8 * elements@.len();
                let ls = fr.locals.push(
                    (
                        name@,
                        LocalVar {
                            offset: base as i64,
                            ty: ValType::Int,
                            array_len: elements@.len() as usize,
                            struct_name: None,
                        },
                    ),
                );
                base < i64::MIN || !exprs_ok(old(self).env(), ls, elements@) || (exprs_emit_try(ls, elements@)
                    && !deferred_ok(old(self).env(), ls, fr.deferred))
            }),
    {
        let count = elements.len();
        let b: i128 = self.stack_offset as i128 - (count as i128) * 8;
        if b < i64::MIN as i128 {
            return false;
        }
        let base = b as i64;
        let ghost fr = self.frame();
        let ghost env = self.env();
        let ghost old_offset = self.stack_offset;
        assert(old_offset == fr.offset);
        self.stack_offset = base;
        self.locals.push((name.clone(), LocalVar { offset: base, ty: ValType::Int, array_len: count, struct_name: None }));
        let ghost ls = fr.locals.push(
            (name@, LocalVar { offset: base, ty: ValType::Int, array_len: count, struct_name: None }),
        );
        assert(self.frame().locals =~= ls);
        assert(self.frame().deferred =~= fr.deferred);
        let ghost fr2 = self.frame();
        assert(self.wf());
        proof {
            lemma_exprs_ok(env, ls, elements@);
        }
        let ghost mid = *self;
        let ghost o0 = self.output@;
        let mut i: usize = 0;
        assert(elements@.take(0) =~= Seq::<Expr>::empty());
        assert(o0.skip(o0.len() as int) =~= Seq::<char>::empty());
        while i < count
            invariant
                i <= count == elements@.len(),
                o0 == old(self).output@,
                elems_text_ok_all(env, ls, elements@.take(i as int), base as int, self.output@.skip(o0.len() as int), fr.deferred, self.string_literals@),
                self.wf(),
                mid.kept(self),
                env == self.env(),
                fr2 == self.frame(),
                fr2.locals == ls,
                fr == old(self).frame(),
                env == old(self).env(),
                old(self).advanced(self),
                fr2 == (Frame { locals: ls, offset: base as int, deferred: fr.deferred }),
                base + 8 * count == old_offset,
                old_offset == fr.offset,
                (fr.offset - 8 * elements@.len()) as i64 == base,
                ls == fr.locals.push(
                    (name@, LocalVar { offset: base, ty: ValType::Int, array_len: count, struct_name: None }),
                ),
                old_offset <= 0,
                forall|j: int| 0 <= j < i ==> #[trigger] expr_emits(env, fr2, false, elements@[j]),
                exprs_ok(env, ls, elements@) == forall|j: int|
                    0 <= j < elements@.len() ==> #[trigger] expr_ok(env, ls, elements@[j]),
                exprs_emit_try(ls, elements@) == exists|j: int|
                    0 <= j < elements@.len() && #[trigger] emits_try(ls, elements@[j]),
            decreases count - i,
        {
            let ghost ob = self.output@;
            if !self.gen_expr(&elements[i], false) {
                assert(!expr_emits(env, fr2, false, elements@[i as int]));
                return false;
            }
            let ghost ov = self.output@;
            let elem_offset = base + (i as i64) * 8;
            self.emit_num("movq %rax, ", elem_offset, "(%rbp)");
            proof {
                let t1 = ob.skip(o0.len() as int);
                let vt = ov.skip(ob.len() as int);
                let xs = elements@.take(i + 1);
                assert(xs.drop_last() =~= elements@.take(i as int));
                assert(xs.last() == elements@[i as int]);
                assert(ov =~= ob + vt);
                lemma_num_line(ov, "movq %rax, "@, int_text(elem_offset as int), "(%rbp)"@);
                lemma_elems_text_step_all(env, ls, xs, base as int, t1, vt, fr.deferred, self.string_literals@);
                assert(self.output@.skip(o0.len() as int) =~= t1 + vt + store_line(base + 8 * (xs.len() - 1)));
            }
            i += 1;
        }
        assert(elements@.take(i as int) =~= elements@);
        assert(exprs_ok(env, ls, elements@) && (exprs_emit_try(ls, elements@) ==> deferred_ok(env, ls, fr.deferred)))
            by {
            if exprs_emit_try(ls, elements@) {
                let j = choose|j: int| 0 <= j < elements@.len() && #[trigger] emits_try(ls, elements@[j]);
                assert(expr_emits(env, fr2, false, elements@[j]));
            }
            assert forall|j: int| 0 <= j < elements@.len() implies #[trigger] expr_ok(env, ls, elements@[j]) by {
                assert(expr_emits(env, fr2, false, elements@[j]));
            }
        }
        true
    }

    /// Emit `let name = Struct { fields }`: the fields fill consecutive slots
    /// in declaration order.
    #[verifier::spinoff_prover]
    #[verifier::rlimit(60)]
    fn gen_struct_let(&mut self, name: &String, sname: &String, fields: &'a Vec<(String, Expr)>) -> (ok: bool)
        requires
            old(self).wf(),
        ensures
            ok ==> final(self).wf() && old(self).advanced(final(self)) && match find(old(self).env().structs, sname@) {
                Some(info) => {
                    let fr = old(self).frame();
                    let base = fr.offset - 8 * info.len();
                    let ls = fr.locals.push(
                        (
                            name@,
                            LocalVar {
                                offset: base as i64,
                                ty: ValType::Int,
                                array_len: 0,
                                struct_name: Some(*sname),
                            },
                        ),
                    );
                    &&& base >= i64::MIN
                    &&& inits_ok(old(self).env(), ls, info, fields@)
                    &&& (inits_emit_try(ls, fields@) ==> deferred_ok(old(self).env(), ls, fr.deferred))
                    &&& final(self).frame() == (Frame { locals: ls, offset: base, deferred: fr.deferred })
                    &&& inits_text_ok_all(old(self).env(), ls, info, fields@, base, final(self).output@.skip(old(self).output@.len() as int), fr.deferred, final(self).string_literals@)
                },
                None => false,
            },
            !ok ==> match find(old(self).env().structs, sname@) {
                Some(info) => {
                    let fr = old(self).frame();
                    let base = fr.offset - 8 * info.len();
                    let ls = fr.locals.push(
                        (
                            name@,
                            LocalVar {
                                offset: base as i64,
                                ty: ValType::Int,
                                array_len: 0,
                                struct_name: Some(*sname),
                            },
                        ),
                    );
                    base < i64::MIN || !inits_ok(old(self).env(), ls, info, fields@) || (inits_emit_try(ls, fields@)
                        && !deferred_ok(old(self).env(), ls, fr.deferred))
                },
                None => true,
            },
    {
        let si = match self.struct_index(sname) {
            Some(si) => si,
            None => {
                return false;
            },
        };
        let ghost env = self.env();
        let ghost info = env.structs[si as int].1;
        let count = self.struct_fields[si].1.len();
        assert(info.len() == count);
        let b: i128 = self.stack_offset as i128 - (count as i128) * 8;
        if b < i64::MIN as i128 {
            return false;
        }
        let base = b as i64;
        let ghost fr = self.frame();
        let ghost old_offset = self.stack_offset;
        assert(old_offset == fr.offset);
        self.stack_offset = base;
        self.locals.push(
            (name.clone(), LocalVar { offset: base, ty: ValType::Int, array_len: 0, struct_name: Some(sname.clone()) }),
        );
        let ghost ls = fr.locals.push(
            (name@, LocalVar { offset: base, ty: ValType::Int, array_len: 0, struct_name: Some(*sname) }),
        );
        assert(self.frame().locals =~= ls);
        assert(self.frame().deferred =~= fr.deferred);
        let ghost fr2 = self.frame();
        assert(self.wf());
        proof {
            lemma_inits_ok(env, ls, info, fields@);
        }
        let ghost mid = *self;
        let ghost o0 = self.output@;
        let mut i: usize = 0;
        assert(fields@.take(0) =~= Seq::<(String, Expr)>::empty());
        assert(o0.skip(o0.len() as int) =~= Seq::<char>::empty());
        while i < fields.len()
            invariant
                i <= fields@.len(),
                o0 == old(self).output@,
                inits_text_ok_all(env, ls, info, fields@.take(i as int), base as int, self.output@.skip(o0.len() as int), fr.deferred, self.string_literals@),
                si < self.struct_fields@.len(),
                info == self.env().structs[si as int].1,
                count == info.len(),
                self.wf(),
                mid.kept(self),
                env == self.env(),
                fr2 == self.frame(),
                fr == old(self).frame(),
                env == old(self).env(),
                old(self).advanced(self),
                find(env.structs, sname@) == Some(info),
                fr2 == (Frame { locals: ls, offset: base as int, deferred: fr.deferred }),
                base + 8 * count == old_offset,
                old_offset == fr.offset,
                (fr.offset - 8 * info.len()) as i64 == base,
                ls == fr.locals.push(
                    (name@, LocalVar { offset: base, ty: ValType::Int, array_len: 0, struct_name: Some(*sname) }),
                ),
                old_offset <= 0,
                forall|j: int|
                    0 <= j < i ==> position(info, (#[trigger] fields@[j]).0@) is Some && expr_emits(
                        env,
                        fr2,
                        false,
                        fields@[j].1,
                    ),
                inits_ok(env, ls, info, fields@) == forall|j: int|
                    0 <= j < fields@.len() ==> position(info, (#[trigger] fields@[j]).0@) is Some && expr_ok(
                        env,
                        ls,
                        fields@[j].1,
                    ),
                inits_emit_try(ls, fields@) == exists|j: int|
                    0 <= j < fields@.len() && emits_try(ls, (#[trigger] fields@[j]).1),
            decreases fields@.len() - i,
        {
            let idx = match self.field_index(si, &fields[i].0) {
                Some(k) => k,
                None => {
                    assert(!(position(info, fields@[i as int].0@) is Some));
                    return false;
                },
            };
            let ghost ob = self.output@;
            if !self.gen_expr(&fields[i].1, false) {
                assert(!expr_emits(env, fr2, false, fields@[i as int].1));
                return false;
            }
            let ghost ov = self.output@;
            let field_offset = base + (idx as i64) * 8;
            self.emit_num("movq %rax, ", field_offset, "(%rbp)");
            proof {
                let t1 = ob.skip(o0.len() as int);
                let vt = ov.skip(ob.len() as int);
                let xs = fields@.take(i + 1);
                assert(xs.drop_last() =~= fields@.take(i as int));
                assert(xs.last() == fields@[i as int]);
                assert(ov =~= ob + vt);
                lemma_num_line(ov, "movq %rax, "@, int_text(field_offset as int), "(%rbp)"@);
                lemma_inits_text_step_all(env, ls, info, xs, base as int, t1, vt, idx as nat, fr.deferred, self.string_literals@);
                assert(self.output@.skip(o0.len() as int) =~= t1 + vt + store_line(base + 8 * idx));
            }
            i += 1;
        }
        assert(fields@.take(i as int) =~= fields@);
        assert(inits_ok(env, ls, info, fields@) && (inits_emit_try(ls, fields@) ==> deferred_ok(env, ls, fr.deferred)))
            by {
            if inits_emit_try(ls, fields@) {
                let j = choose|j: int| 0 <= j < fields@.len() && emits_try(ls, (#[trigger] fields@[j]).1);
                assert(expr_emits(env, fr2, false, fields@[j].1));
            }
            assert forall|j: int| 0 <= j < fields@.len() implies position(info, (#[trigger] fields@[j]).0@) is Some
                && expr_ok(env, ls, fields@[j].1) by {
                assert(expr_emits(env, fr2, false, fields@[j].1));
            }
        }
        true
    }

    /// Emit an assignment to a variable, an array element or a struct field.
    #[verifier::spinoff_prover]
    #[verifier::rlimit(60)]
    fn gen_store(&mut self, stmt: &'a Stmt) -> (ok: bool)
        requires
            old(self).wf(),
            stmt is Assign || stmt is IndexAssign || stmt is FieldAssign,
        ensures
            ok ==> final(self).wf() && old(self).advanced(final(self)) && stmt_gen(
                old(self).env(),
                old(self).frame(),
                *stmt,
            ) == Some(final(self).frame()),
            !ok ==> stmt_gen(old(self).env(), old(self).frame(), *stmt) is None,
            ok ==> stmt_text_ok_all(
                old(self).env(),
                old(self).frame(),
                old(self).current_failable,
                old(self).loops(),
                *stmt,
                final(self).output@.skip(old(self).output@.len() as int),
                final(self).string_literals@,
            ),
        decreases *stmt, 0nat,
    {
        let ghost o0 = self.output@;
        let ghost env = self.env();
        let ghost fr0 = self.frame();
        let ghost n0 = self.string_literals@.len();
        match stmt {
            Stmt::Assign { name, value, .. } => {
                if !self.gen_expr(value, false) {
                    return false;
                }
                let ghost o1 = self.output@;
                match self.local(name) {
                    Some(i) => {
                        let off = self.locals[i].1.offset;
                        self.emit_num("movq %rax, ", off, "(%rbp)");
                        proof {
                            let vt = o1.skip(o0.len() as int);
                            assert(o1 =~= o0 + vt);
                            assert(value_text_ok_all(env, fr0.locals, *value, vt, fr0.deferred, self.string_literals@));
                            lemma_num_line(o1, "movq %rax, "@, int_text(off as int), "(%rbp)"@);
                            assert(self.output@.skip(o0.len() as int) =~= vt + store_line(off as int));
                        }
                        true
                    },
                    None => false,
                }
            },
            Stmt::IndexAssign { object, index, value, .. } => {
                if !self.gen_expr(value, false) {
                    return false;
                }
                let ghost o1 = self.output@;
                let ghost n1 = self.string_literals@.len();
                self.emit_asm("pushq %rax");
                let ghost o2 = self.output@;
                if !self.gen_expr(index, false) {
                    return false;
                }
                let ghost o3 = self.output@;
                self.emit_asm("movq %rax, %rcx");
                self.emit_asm("popq %rax");
                match self.local(object) {
                    Some(i) => {
                        let base = self.locals[i].1.offset;
                        let ghost o4 = self.output@;
                        self.emit_num("movq %rax, ", base, "(%rbp,%rcx,8)");
                        proof {
                            let vt = o1.skip(o0.len() as int);
                            let it = o3.skip(o2.len() as int);
                            assert(o1 =~= o0 + vt);
                            assert(o3 =~= o2 + it);
                            assert(value_text_ok_all(env, fr0.locals, *value, vt, fr0.deferred, self.string_literals@));
                            assert(value_text_ok_all(env, fr0.locals, *index, it, fr0.deferred, self.string_literals@));
                            lemma_num_line(o4, "movq %rax, "@, int_text(base as int), "(%rbp,%rcx,8)"@);
                            assert(self.output@.skip(o0.len() as int) =~= vt + asm_line("pushq %rax"@) + it + asm_line(
                                "movq %rax, %rcx"@,
                            ) + asm_line("popq %rax"@) + asm_line(
                                "movq %rax, "@ + int_text(base as int) + "(%rbp,%rcx,8)"@,
                            ));
                        }
                        true
                    },
                    None => false,
                }
            },
            Stmt::FieldAssign { object, field, value, .. } => {
                if !self.gen_expr(value, false) {
                    return false;
                }
                let ghost o1 = self.output@;
                match self.field_offset(object, field) {
                    Some(off) => {
                        self.emit_num("movq %rax, ", off, "(%rbp)");
                        proof {
                            let vt = o1.skip(o0.len() as int);
                            assert(o1 =~= o0 + vt);
                            assert(value_text_ok_all(env, fr0.locals, *value, vt, fr0.deferred, self.string_literals@));
                            lemma_num_line(o1, "movq %rax, "@, int_text(off as int), "(%rbp)"@);
                            assert(self.output@.skip(o0.len() as int) =~= vt + store_line(off as int));
                        }
                        true
                    },
                    None => false,
                }
            },
            _ => false,
        }
    }

    /// Run the deferred expressions before a return, keeping RAX.
    fn run_deferred(&mut self) -> (ok: bool)
        requires
            old(self).wf(),
        ensures
            final(self).wf(),
            old(self).kept(final(self)),
            ok == deferred_ok(old(self).env(), old(self).frame().locals, old(self).frame().deferred),
            ok ==> deferred_run_ok_all(
                old(self).env(),
                old(self).frame(),
                final(self).output@.skip(old(self).output@.len() as int),
                final(self).string_literals@,
            ),
    {
        let ghost o0 = self.output@;
        if self.deferred.len() > 0 {
            self.emit_asm("subq $16, %rsp");
            self.emit_asm("movq %rax, (%rsp)");
            let ghost o1 = self.output@;
            if !self.emit_deferred() {
                return false;
            }
            let ghost o2 = self.output@;
            self.emit_asm("movq (%rsp), %rax");
            self.emit_asm("addq $16, %rsp");
            proof {
                let xt = o2.skip(o1.len() as int);
                assert(o2 =~= o1 + xt);
                assert(self.output@.skip(o0.len() as int) =~= (asm_line("subq $16, %rsp"@) + asm_line(
                    "movq %rax, (%rsp)"@,
                ) + xt) + asm_line("movq (%rsp), %rax"@) + asm_line("addq $16, %rsp"@));
            }
        } else {
            assert(self.output@.skip(o0.len() as int) =~= Seq::<char>::empty());
        }
        true
    }

    /// Restore the caller's frame and return.
    fn epilogue(&mut self)
        ensures
            old(self).only_output(final(self)),
            final(self).output@ == old(self).output@ + leave_text(),
    {
        self.emit_asm("movq %rbp, %rsp");
        self.emit_asm("popq %rbp");
        self.emit_asm("ret");
        assert(self.output@ =~= old(self).output@ + leave_text());
    }

    /// Emit `return`, `fail` or a tail expression.
    #[verifier::spinoff_prover]
    #[verifier::rlimit(60)]
    fn gen_exit(&mut self, stmt: &'a Stmt) -> (ok: bool)
        requires
            old(self).wf(),
            stmt is Return || stmt is Fail || stmt is TailExpr,
        ensures
            ok ==> final(self).wf() && old(self).advanced(final(self)) && stmt_gen(
                old(self).env(),
                old(self).frame(),
                *stmt,
            ) == Some(final(self).frame()),
            !ok ==> stmt_gen(old(self).env(), old(self).frame(), *stmt) is None,
            ok ==> stmt_text_ok_all(
                old(self).env(),
                old(self).frame(),
                old(self).current_failable,
                old(self).loops(),
                *stmt,
                final(self).output@.skip(old(self).output@.len() as int),
                final(self).string_literals@,
            ),
        decreases *stmt, 0nat,
    {
        let ghost o0 = self.output@;
        let ghost fr0 = self.frame();
        let ghost env = self.env();
        let ghost n0 = self.string_literals@.len();
        let (value, failing) = match stmt {
            Stmt::Return { value, .. } => (value.as_ref(), false),
            Stmt::Fail { message, .. } => (Some(message), true),
            Stmt::TailExpr { expr, .. } => (Some(expr), false),
            _ => {
                return false;
            },
        };
        match value {
            Some(v) => {
                if !self.gen_expr(v, false) {
                    return false;
                }
            },
            None => {},
        }
        let ghost o1 = self.output@;
        assert(self.frame() == fr0);
        if !self.run_deferred() {
            return false;
        }
        let ghost o2 = self.output@;
        if failing {
            self.emit_asm("movq $1, %rdx");
        } else if self.current_failable {
            self.emit_asm("xorl %edx, %edx");
        }
        let ghost o3 = self.output@;
        self.epilogue();
        proof {
            let vt = o1.skip(o0.len() as int);
            let dt = o2.skip(o1.len() as int);
            let tail = o3.skip(o2.len() as int);
            assert(o1 =~= o0 + vt);
            assert(o2 =~= o1 + dt);
            assert(o3 =~= o2 + tail);
            assert(self.output@.skip(o0.len() as int) =~= exit_shape(vt, dt, tail));
            assert(deferred_run_ok_all(env, fr0, dt, self.string_literals@));
            if failing {
                assert(tail =~= asm_line("movq $1, %rdx"@));
            } else {
                assert(tail =~= ok_flag_text(self.current_failable));
            }
            match value {
                Some(v) => {
                    assert(value_text_ok_all(env, fr0.locals, *v, vt, fr0.deferred, self.string_literals@));
                },
                None => {
                    assert(vt =~= Seq::<char>::empty());
                },
            }
            assert(stmt_text_ok_all(env, fr0, self.current_failable, self.loops(), *stmt, self.output@.skip(o0.len() as int), self.string_literals@));
        }
        true
    }

    /// Emit `if` / `else`.
    #[verifier::spinoff_prover]
    #[verifier::rlimit(60)]
    fn gen_if(&mut self, stmt: &'a Stmt) -> (ok: bool)
        requires
            old(self).wf(),
            stmt is If,
        ensures
            ok ==> final(self).wf() && old(self).advanced(final(self)) && stmt_gen(
                old(self).env(),
                old(self).frame(),
                *stmt,
            ) == Some(final(self).frame()),
            !ok ==> stmt_gen(old(self).env(), old(self).frame(), *stmt) is None,
            ok ==> stmt_text_ok_all(
                old(self).env(),
                old(self).frame(),
                old(self).current_failable,
                old(self).loops(),
                *stmt,
                final(self).output@.skip(old(self).output@.len() as int),
                final(self).string_literals@,
            ),
        decreases *stmt, 0nat,
    {
        let (condition, then_block, else_block) = match stmt {
            Stmt::If { condition, then_block, else_block, .. } => (condition, then_block, else_block),
            _ => {
                return false;
            },
        };
        let ghost c0 = self.label_counter;
        let ghost o0 = self.output@;
        let ghost fr0 = self.frame();
        let else_label = self.new_label("else");
        let end_label = self.new_label("endif");
        let ghost env = self.env();
        let ghost locs = self.frame().locals;
        let ghost dfrs = self.frame().deferred;
        let ghost nlits = self.string_literals@.len();
        if !self.gen_expr(condition, false) {
            return false;
        }
        let ghost o1 = self.output@;
        self.emit_asm("testq %rax, %rax");
        self.emit_jump("je ", &else_label);
        let ghost o2 = self.output@;
        assert(self.frame() == fr0);
        if !self.gen_block(then_block) {
            return false;
        }
        let ghost o3 = self.output@;
        let ghost fr1 = self.frame();
        self.emit_jump("jmp ", &end_label);
        self.emit_label(&else_label);
        let ghost o4 = self.output@;
        assert(self.frame() == fr1);
        match else_block {
            Some(eb) => {
                if !self.gen_block(eb) {
                    return false;
                }
            },
            None => {},
        }
        let ghost o5 = self.output@;
        self.emit_label(&end_label);
        proof {
            let ct = o1.subrange(o0.len() as int, o1.len() as int);
            let tt = o3.subrange(o2.len() as int, o3.len() as int);
            let et = o5.subrange(o4.len() as int, o5.len() as int);
            assert(o1 =~= o0 + ct);
            assert(o3 =~= o2 + tt);
            assert(o5 =~= o4 + et);
            assert(else_label@ == label_text("else"@, next_count(c0) as nat));
            assert(end_label@ == label_text("endif"@, next_count(next_count(c0)) as nat));
            lemma_concat10(
                o0,
                ct,
                asm_line("testq %rax, %rax"@),
                asm_line("je "@ + else_label@),
                tt,
                asm_line("jmp "@ + end_label@),
                else_label@,
                ":\n"@,
                et,
                end_label@,
                ":\n"@,
            );
            assert(self.output@ == o0 + if_shape(ct, tt, et, c0));
            assert(value_text_ok_all(env, locs, *condition, ct, dfrs, self.string_literals@));
            assert(o3.skip(o2.len() as int) =~= tt);
            assert(o5.skip(o4.len() as int) =~= et);
            assert(block_text_ok_all(env, fr0, self.current_failable, self.loops(), *then_block, tt, self.string_literals@));
            match else_block {
                Some(eb) => {
                    assert(block_text_ok_all(env, fr1, self.current_failable, self.loops(), *eb, et, self.string_literals@));
                },
                None => {
                    assert(et =~= Seq::<char>::empty());
                },
            }
            assert(self.output@.skip(o0.len() as int) =~= if_shape(ct, tt, et, c0));
            let sl = self.string_literals@;
            assert forall|lits: Seq<String>| grows(sl, lits) implies stmt_text_ok(
                env,
                fr0,
                self.current_failable,
                self.loops(),
                *stmt,
                self.output@.skip(o0.len() as int),
                lits,
            ) by {
                assert(value_text_ok(env, locs, *condition, ct, dfrs, lits));
                assert(block_text_ok(env, fr0, self.current_failable, self.loops(), *then_block, tt, lits));
                match else_block {
                    Some(eb) => {
                        assert(block_text_ok(env, fr1, self.current_failable, self.loops(), *eb, et, lits));
                    },
                    None => {},
                }
            }
        }
        true
    }

    /// Emit `while`.
    #[verifier::spinoff_prover]
    #[verifier::rlimit(60)]
    fn gen_while(&mut self, stmt: &'a Stmt) -> (ok: bool)
        requires
            old(self).wf(),
            stmt is While,
        ensures
            ok ==> final(self).wf() && old(self).advanced(final(self)) && stmt_gen(
                old(self).env(),
                old(self).frame(),
                *stmt,
            ) == Some(final(self).frame()),
            !ok ==> stmt_gen(old(self).env(), old(self).frame(), *stmt) is None,
            ok ==> stmt_text_ok_all(
                old(self).env(),
                old(self).frame(),
                old(self).current_failable,
                old(self).loops(),
                *stmt,
                final(self).output@.skip(old(self).output@.len() as int),
                final(self).string_literals@,
            ),
        decreases *stmt, 0nat,
    {
        let (condition, body) = match stmt {
            Stmt::While { condition, body, .. } => (condition, body),
            _ => {
                return false;
            },
        };
        let ghost c0 = self.label_counter;
        let ghost o0 = self.output@;
        let ghost fr0 = self.frame();
        let loop_label = self.new_label("while");
        let end_label = self.new_label("endwhile");
        self.loop_labels.push((loop_label.clone(), end_label.clone()));
        self.emit_label(&loop_label);
        let ghost env = self.env();
        let ghost locs = self.frame().locals;
        let ghost dfrs = self.frame().deferred;
        let ghost nlits = self.string_literals@.len();
        let ghost o1 = self.output@;
        if !self.gen_expr(condition, false) {
            return false;
        }
        let ghost o2 = self.output@;
        self.emit_asm("testq %rax, %rax");
        self.emit_jump("je ", &end_label);
        let ghost o3 = self.output@;
        assert(self.frame() == fr0);
        let ghost inner = self.loops();
        assert(inner =~= old(self).loops().push(while_labels(c0)));
        if !self.gen_block(body) {
            return false;
        }
        let ghost o4 = self.output@;
        self.emit_jump("jmp ", &loop_label);
        self.emit_label(&end_label);
        self.loop_labels.pop();
        assert(self.loop_labels@ =~= old(self).loop_labels@);
        proof {
            let ct = o2.subrange(o1.len() as int, o2.len() as int);
            let bt = o4.subrange(o3.len() as int, o4.len() as int);
            assert(o2 =~= o1 + ct);
            assert(o4 =~= o3 + bt);
            assert(loop_label@ == label_text("while"@, next_count(c0) as nat));
            assert(end_label@ == label_text("endwhile"@, next_count(next_count(c0)) as nat));
            lemma_concat10(
                o0,
                loop_label@,
                ":\n"@,
                ct,
                asm_line("testq %rax, %rax"@),
                asm_line("je "@ + end_label@),
                bt,
                asm_line("jmp "@ + loop_label@),
                end_label@,
                ":\n"@,
                Seq::empty(),
            );
            assert(o0 + while_shape(ct, bt, c0) + Seq::<char>::empty() =~= o0 + while_shape(ct, bt, c0));
            assert(value_text_ok_all(env, locs, *condition, ct, dfrs, self.string_literals@));
            assert(o4.skip(o3.len() as int) =~= bt);
            assert(block_text_ok_all(env, fr0, self.current_failable, inner, *body, bt, self.string_literals@));
            assert(self.output@.skip(o0.len() as int) =~= while_shape(ct, bt, c0));
            let sl = self.string_literals@;
            assert forall|lits: Seq<String>| grows(sl, lits) implies stmt_text_ok(
                env,
                fr0,
                self.current_failable,
                self.loops(),
                *stmt,
                self.output@.skip(o0.len() as int),
                lits,
            ) by {
                assert(value_text_ok(env, locs, *condition, ct, dfrs, lits));
                assert(block_text_ok(env, fr0, self.current_failable, inner, *body, bt, lits));
            }
        }
        true
    }

    /// Emit `for var in start..end`: the end is evaluated once; `continue`
    /// jumps to the increment.
    #[verifier::spinoff_prover]
    #[verifier::rlimit(60)]
    fn gen_for(&mut self, stmt: &'a Stmt) -> (ok: bool)
        requires
            old(self).wf(),
            stmt is For,
        ensures
            ok ==> final(self).wf() && old(self).advanced(final(self)) && stmt_gen(
                old(self).env(),
                old(self).frame(),
                *stmt,
            ) == Some(final(self).frame()),
            !ok ==> stmt_gen(old(self).env(), old(self).frame(), *stmt) is None,
            ok ==> stmt_text_ok_all(
                old(self).env(),
                old(self).frame(),
                old(self).current_failable,
                old(self).loops(),
                *stmt,
                final(self).output@.skip(old(self).output@.len() as int),
                final(self).string_literals@,
            ),
        decreases *stmt, 0nat,
    {
        let (var, start, end, body) = match stmt {
            Stmt::For { var, start, end, body, .. } => (var, start, end, body),
            _ => {
                return false;
            },
        };
        let ghost o0 = self.output@;
        let ghost fr0 = self.frame();
        let ghost env = self.env();
        let ghost n1 = self.string_literals@.len();
        if !self.gen_expr(start, false) {
            return false;
        }
        let ghost o1 = self.output@;
        let offset = match self.alloc_local(var.clone(), ValType::Int) {
            Some(o) => o,
            None => {
                return false;
            },
        };
        let ghost fr1 = self.frame();
        self.emit_num("movq %rax, ", offset, "(%rbp)");
        let ghost o2 = self.output@;
        let ghost n2 = self.string_literals@.len();
        if !self.gen_expr(end, false) {
            return false;
        }
        let ghost o3 = self.output@;
        let end_offset = match self.alloc_local(crate::text::string_of("__for_end"), ValType::Int) {
            Some(o) => o,
            None => {
                return false;
            },
        };
        let ghost fr2 = self.frame();
        self.emit_num("movq %rax, ", end_offset, "(%rbp)");
        let ghost o4 = self.output@;
        let ghost c0 = self.label_counter;
        if !self.gen_for_loop(body, offset, end_offset) {
            return false;
        }
        proof {
            let st = o1.skip(o0.len() as int);
            let et = o3.skip(o2.len() as int);
            let bt = choose|bt: Seq<char>|
                self.output@ == o4 + for_loop_shape(bt, offset as int, end_offset as int, c0) && block_text_ok_all(
                    env,
                    fr2,
                    self.current_failable,
                    self.loops().push(for_labels(c0)),
                    *body,
                    bt,
                    self.string_literals@,
                );
            lemma_for_text(
                o0,
                o1,
                o2,
                o3,
                o4,
                self.output@,
                offset as int,
                end_offset as int,
                for_loop_shape(bt, offset as int, end_offset as int, c0),
            );
            assert(self.output@.skip(o0.len() as int) == for_shape(st, et, bt, offset as int, end_offset as int, c0));
            assert(value_text_ok_all(env, fr0.locals, *start, st, fr0.deferred, self.string_literals@));
            assert(value_text_ok_all(env, fr1.locals, *end, et, fr1.deferred, self.string_literals@));
            lemma_for_text_ok_all(
                env,
                fr0,
                self.current_failable,
                self.loops(),
                *stmt,
                self.output@.skip(o0.len() as int),
                st,
                et,
                bt,
                c0,
                self.string_literals@,
            );
        }
        true
    }

    /// Emit the loop of a `for` whose variable and end value are in the
    /// slots at `offset` and `end_offset`.
    #[verifier::spinoff_prover]
    #[verifier::rlimit(60)]
    fn gen_for_loop(&mut self, body: &'a Block, offset: i64, end_offset: i64) -> (ok: bool)
        requires
            old(self).wf(),
        ensures
            ok ==> final(self).wf() && old(self).advanced(final(self)) && block_gen(
                old(self).env(),
                old(self).frame(),
                *body,
            ) == Some(final(self).frame()),
            !ok ==> block_gen(old(self).env(), old(self).frame(), *body) is None,
            ok ==> exists|bt: Seq<char>|
                final(self).output@ == old(self).output@ + for_loop_shape(
                    bt,
                    offset as int,
                    end_offset as int,
                    old(self).label_counter,
                ) && block_text_ok_all(
                    old(self).env(),
                    old(self).frame(),
                    old(self).current_failable,
                    old(self).loops().push(for_labels(old(self).label_counter)),
                    *body,
                    bt,
                    final(self).string_literals@,
                ),
        decreases *body, 1nat,
    {
        let ghost o0 = self.output@;
        let ghost c0 = self.label_counter;
        let ghost fr0 = self.frame();
        let loop_label = self.new_label("for");
        let cont_label = self.new_label("forcont");
        let end_label = self.new_label("endfor");
        self.loop_labels.push((cont_label.clone(), end_label.clone()));
        self.emit_label(&loop_label);
        let ghost p1 = self.output@;
        self.emit_num("movq ", offset, "(%rbp), %rax");
        let ghost p2 = self.output@;
        self.emit_num("cmpq ", end_offset, "(%rbp), %rax");
        let ghost p3 = self.output@;
        self.emit_jump("jge ", &end_label);
        let ghost o1 = self.output@;
        assert(self.frame() == fr0);
        let ghost inner = self.loops();
        assert(inner =~= old(self).loops().push(for_labels(c0)));
        if !self.gen_block(body) {
            return false;
        }
        let ghost o2 = self.output@;
        self.emit_label(&cont_label);
        let ghost q1 = self.output@;
        self.emit_num("movq ", offset, "(%rbp), %rax");
        let ghost q2 = self.output@;
        self.emit_asm("addq $1, %rax");
        let ghost q3 = self.output@;
        self.emit_num("movq %rax, ", offset, "(%rbp)");
        let ghost q4 = self.output@;
        self.emit_jump("jmp ", &loop_label);
        let ghost q5 = self.output@;
        self.emit_label(&end_label);
        self.loop_labels.pop();
        assert(self.loop_labels@ =~= old(self).loop_labels@);
        proof {
            lemma_for_head_text(o0, p1, p2, p3, o1, loop_label@, end_label@, offset as int, end_offset as int, c0);
            lemma_for_tail_text(
                o2,
                q1,
                q2,
                q3,
                q4,
                q5,
                self.output@,
                loop_label@,
                cont_label@,
                end_label@,
                offset as int,
                c0,
            );
            let bt = o2.skip(o1.len() as int);
            assert(o2 =~= o1 + bt);
            assert(self.output@ =~= o0 + for_loop_shape(bt, offset as int, end_offset as int, c0));
            assert(block_text_ok_all(old(self).env(), fr0, self.current_failable, inner, *body, bt, self.string_literals@));
        }
        true
    }

    /// Emit `match`: the subject is pushed once and compared with each arm's
    /// pattern in order.
    #[verifier::spinoff_prover]
    #[verifier::rlimit(60)]
    fn gen_match(&mut self, stmt: &'a Stmt) -> (ok: bool)
        requires
            old(self).wf(),
            stmt is Match,
        ensures
            ok ==> final(self).wf() && old(self).advanced(final(self)) && stmt_gen(
                old(self).env(),
                old(self).frame(),
                *stmt,
            ) == Some(final(self).frame()),
            !ok ==> stmt_gen(old(self).env(), old(self).frame(), *stmt) is None,
            ok ==> stmt_text_ok_all(
                old(self).env(),
                old(self).frame(),
                old(self).current_failable,
                old(self).loops(),
                *stmt,
                final(self).output@.skip(old(self).output@.len() as int),
                final(self).string_literals@,
            ),
        decreases *stmt, 0nat,
    {
        let (subject, arms) = match stmt {
            Stmt::Match { subject, arms, .. } => (subject, arms),
            _ => {
                return false;
            },
        };
        let ghost o0 = self.output@;
        let ghost fr0 = self.frame();
        let ghost env = self.env();
        let ghost n0 = self.string_literals@.len();
        if !self.gen_expr(subject, false) {
            return false;
        }
        let ghost o1 = self.output@;
        self.emit_asm("pushq %rax");
        let ghost c0 = self.label_counter;
        let end_label = self.new_label("matchend");
        let ghost o2 = self.output@;
        assert(self.frame() == fr0);
        if !self.gen_arms(arms, &end_label) {
            return false;
        }
        let ghost o3 = self.output@;
        self.emit_asm("addq $8, %rsp");
        self.emit_label(&end_label);
        proof {
            let st = o1.skip(o0.len() as int);
            let at = o3.skip(o2.len() as int);
            assert(end_label@ == label_text("matchend"@, next_count(c0) as nat));
            lemma_concat4(o0, st, asm_line("pushq %rax"@), at, asm_line("addq $8, %rsp"@));
            assert(o1 =~= o0 + st);
            assert(o3 =~= o2 + at);
            vstd::seq_lib::lemma_concat_associative(
                o0 + (st + asm_line("pushq %rax"@) + at + asm_line("addq $8, %rsp"@)),
                end_label@,
                ":\n"@,
            );
            assert(self.output@ == o0 + (st + asm_line("pushq %rax"@) + at + asm_line("addq $8, %rsp"@)) + (end_label@
                + ":\n"@));
            vstd::seq_lib::lemma_concat_associative(
                o0,
                st + asm_line("pushq %rax"@) + at + asm_line("addq $8, %rsp"@),
                end_label@ + ":\n"@,
            );
            assert(self.output@.skip(o0.len() as int) =~= match_shape(st, at, c0));
            assert(value_text_ok_all(env, fr0.locals, *subject, st, fr0.deferred, self.string_literals@));
            let sl = self.string_literals@;
            assert forall|lits: Seq<String>| grows(sl, lits) implies stmt_text_ok(
                env,
                fr0,
                self.current_failable,
                self.loops(),
                *stmt,
                self.output@.skip(o0.len() as int),
                lits,
            ) by {
                assert(value_text_ok(env, fr0.locals, *subject, st, fr0.deferred, lits));
                assert(arms_text_ok(env, fr0, self.current_failable, self.loops(), arms@, label_text("matchend"@, next_count(c0) as nat), at, lits));
            }
        }
        true
    }

    /// Emit the arms of a match; each jumps to `end_label` when done.
    #[verifier::spinoff_prover]
    #[verifier::rlimit(60)]
    fn gen_arms(&mut self, arms: &'a Vec<MatchArm>, end_label: &String) -> (ok: bool)
        requires
            old(self).wf(),
        ensures
            ok ==> final(self).wf() && old(self).advanced(final(self)) && arms_gen(
                old(self).env(),
                old(self).frame(),
                arms@,
            ) == Some(final(self).frame()),
            !ok ==> arms_gen(old(self).env(), old(self).frame(), arms@) is None,
            ok ==> arms_text_ok_all(
                old(self).env(),
                old(self).frame(),
                old(self).current_failable,
                old(self).loops(),
                arms@,
                end_label@,
                final(self).output@.skip(old(self).output@.len() as int),
                final(self).string_literals@,
            ),
        decreases *arms, 0nat,
    {
        let ghost env = self.env();
        let ghost fr0 = self.frame();
        let ghost o0 = self.output@;
        let mut i: usize = 0;
        assert(arms@.take(0) =~= Seq::<MatchArm>::empty());
        assert(o0.skip(o0.len() as int) =~= Seq::<char>::empty());
        while i < arms.len()
            invariant
                i <= arms@.len(),
                self.wf(),
                old(self).advanced(self),
                env == self.env(),
                env == old(self).env(),
                fr0 == old(self).frame(),
                o0 == old(self).output@,
                arms_gen(env, fr0, arms@.take(i as int)) == Some(self.frame()),
                arms_text_ok_all(
                    env,
                    fr0,
                    old(self).current_failable,
                    old(self).loops(),
                    arms@.take(i as int),
                    end_label@,
                    self.output@.skip(o0.len() as int),
                    self.string_literals@,
                ),
            decreases arms@.len() - i,
        {
            let arm = &arms[i];
            assert(arms@.take(i + 1).drop_last() =~= arms@.take(i as int));
            assert(arms@.take(i + 1).last() == arms@[i as int]);
            let ghost ob = self.output@;
            let ghost frb = self.frame();
            let ghost c = self.label_counter;
            let ghost bt: Seq<char>;
            match &arm.pattern {
                Pattern::Wildcard(_) => {
                    self.emit_asm("addq $8, %rsp");
                    let ghost ob1 = self.output@;
                    if !self.gen_block(&arm.body) {
                        proof {
                            lemma_arms_gen_prefix(env, fr0, arms@, i + 1);
                        }
                        return false;
                    }
                    let ghost ob2 = self.output@;
                    self.emit_jump("jmp ", end_label);
                    proof {
                        bt = ob2.skip(ob1.len() as int);
                        assert(ob2 =~= ob1 + bt);
                        assert(self.output@ =~= ob + arm_shape(env, arm.pattern, bt, end_label@, c));
                    }
                },
                _ => {
                    let skip = self.new_label("skip");
                    let val: i64 = match &arm.pattern {
                        Pattern::IntLit(v, _) => *v,
                        Pattern::BoolLit(v, _) => if *v {
                            1
                        } else {
                            0
                        },
                        Pattern::EnumVariant(en, v, _) => match self.variant_value(en, v) {
                            Some(x) => x,
                            None => {
                                proof {
                                    lemma_arms_gen_prefix(env, fr0, arms@, i + 1);
                                }
                                return false;
                            },
                        },
                        Pattern::Wildcard(_) => 0,
                    };
                    assert(val == pattern_value(env, arm.pattern));
                    let ghost q0 = self.output@;
                    self.emit_num("cmpq $", val, ", (%rsp)");
                    let ghost q1 = self.output@;
                    self.emit_jump("jne ", &skip);
                    self.emit_asm("addq $8, %rsp");
                    let ghost ob1 = self.output@;
                    if !self.gen_block(&arm.body) {
                        proof {
                            lemma_arms_gen_prefix(env, fr0, arms@, i + 1);
                        }
                        return false;
                    }
                    let ghost ob2 = self.output@;
                    self.emit_jump("jmp ", end_label);
                    let ghost ob3 = self.output@;
                    self.emit_label(&skip);
                    proof {
                        bt = ob2.skip(ob1.len() as int);
                        assert(ob2 =~= ob1 + bt);
                        assert(skip@ == label_text("skip"@, next_count(c) as nat));
                        lemma_num_line(q0, "cmpq $"@, int_text(val as int), ", (%rsp)"@);
                        vstd::seq_lib::lemma_concat_associative(ob3, skip@, ":\n"@);
                        let a1 = asm_line("cmpq $"@ + int_text(val as int) + ", (%rsp)"@);
                        let a2 = asm_line("jne "@ + skip@);
                        let a3 = asm_line("addq $8, %rsp"@);
                        let a5 = asm_line("jmp "@ + end_label@);
                        let a6 = skip@ + ":\n"@;
                        assert(self.output@ == ob + a1 + a2 + a3 + bt + a5 + a6);
                        lemma_concat6(ob, a1, a2, a3, bt, a5, a6);
                        assert(arm_shape(env, arm.pattern, bt, end_label@, c) == a1 + a2 + a3 + bt + a5 + a6);
                    }
                },
            }
            proof {
                let t1 = ob.skip(o0.len() as int);
                let ss = arms@.take(i + 1);
                assert(self.output@.skip(o0.len() as int) =~= t1 + arm_shape(env, arm.pattern, bt, end_label@, c));
                assert(arms_gen(env, fr0, ss.drop_last()) == Some(frb));
                assert(block_text_ok_all(env, frb, self.current_failable, self.loops(), ss.last().body, bt, self.string_literals@));
                lemma_arms_text_step_all(env, fr0, self.current_failable, self.loops(), ss, end_label@, t1, bt, c, self.string_literals@);
            }
            i += 1;
        }
        assert(arms@.take(i as int) =~= arms@);
        true
    }

    /// Emit the statements of a block in order.
    fn gen_block(&mut self, block: &'a Block) -> (ok: bool)
        requires
            old(self).wf(),
        ensures
            ok ==> final(self).wf() && old(self).advanced(final(self)) && block_gen(
                old(self).env(),
                old(self).frame(),
                *block,
            ) == Some(final(self).frame()),
            !ok ==> block_gen(old(self).env(), old(self).frame(), *block) is None,
            ok ==> block_text_ok_all(
                old(self).env(),
                old(self).frame(),
                old(self).current_failable,
                old(self).loops(),
                *block,
                final(self).output@.skip(old(self).output@.len() as int),
                final(self).string_literals@,
            ),
        decreases *block, 0nat,
    {
        let ghost env = self.env();
        let ghost fr0 = self.frame();
        let ghost o0 = self.output@;
        let mut i: usize = 0;
        assert(block.stmts@.take(0) =~= Seq::<Stmt>::empty());
        assert(o0.skip(o0.len() as int) =~= Seq::<char>::empty());
        while i < block.stmts.len()
            invariant
                i <= block.stmts@.len(),
                self.wf(),
                old(self).advanced(self),
                env == self.env(),
                env == old(self).env(),
                fr0 == old(self).frame(),
                o0 == old(self).output@,
                stmts_gen(env, fr0, block.stmts@.take(i as int)) == Some(self.frame()),
                stmts_text_ok_all(
                    env,
                    fr0,
                    old(self).current_failable,
                    old(self).loops(),
                    block.stmts@.take(i as int),
                    self.output@.skip(o0.len() as int),
                    self.string_literals@,
                ),
            decreases block.stmts@.len() - i,
        {
            assert(block.stmts@.take(i + 1).drop_last() =~= block.stmts@.take(i as int));
            let ghost ob = self.output@;
            let ghost frb = self.frame();
            if !self.gen_stmt(&block.stmts[i]) {
                proof {
                    lemma_stmts_gen_prefix(env, fr0, block.stmts@, i + 1);
                }
                return false;
            }
            proof {
                let t1 = ob.skip(o0.len() as int);
                let t2 = self.output@.skip(ob.len() as int);
                let ss = block.stmts@.take(i + 1);
                assert(self.output@.skip(o0.len() as int) =~= t1 + t2);
                assert(ss.last() == block.stmts@[i as int]);
                assert(stmts_gen(env, fr0, ss.drop_last()) == Some(frb));
                assert(stmt_text_ok_all(env, frb, self.current_failable, self.loops(), ss.last(), t2, self.string_literals@));
                assert(stmts_text_ok_all(env, fr0, self.current_failable, self.loops(), ss.drop_last(), t1, self.string_literals@));
                lemma_stmts_text_step_all(env, fr0, self.current_failable, self.loops(), ss, t1, t2, self.string_literals@);
            }
            i += 1;
        }
        assert(block.stmts@.take(i as int) =~= block.stmts@);
        proof {
            let sl = self.string_literals@;
            assert forall|lits: Seq<String>| grows(sl, lits) implies block_text_ok(
                env,
                fr0,
                old(self).current_failable,
                old(self).loops(),
                *block,
                self.output@.skip(o0.len() as int),
                lits,
            ) by {
                assert(stmts_text_ok(
                    env,
                    fr0,
                    old(self).current_failable,
                    old(self).loops(),
                    block.stmts@,
                    self.output@.skip(o0.len() as int),
                    lits,
                ));
            }
        }
        true
    }

    /// Emit the instruction line `a` + `x`.
    fn emit_with(&mut self, a: &str, x: &String)
        ensures
            old(self).only_output(final(self)),
            final(self).output@ == old(self).output@ + "    "@ + a@ + x@ + "\n"@,
    {
        push_str(&mut self.output, "    ");
        push_str(&mut self.output, a);
        push_string(&mut self.output, x);
        push_str(&mut self.output, "\n");
    }

    /// Store the `i`-th parameter register in the slot at `offset` (the
    /// first four parameters arrive in registers).
    fn store_param(&mut self, i: usize, offset: i64)
        ensures
            old(self).only_output(final(self)),
            final(self).output@ == old(self).output@ + param_store(i as nat, offset as int),
    {
        if i == 0 {
            self.emit_num("movq %rcx, ", offset, "(%rbp)");
        } else if i == 1 {
            self.emit_num("movq %rdx, ", offset, "(%rbp)");
        } else if i == 2 {
            self.emit_num("movq %r8, ", offset, "(%rbp)");
        } else if i == 3 {
            self.emit_num("movq %r9, ", offset, "(%rbp)");
        }
        assert(self.output@ =~= old(self).output@ + param_store(i as nat, offset as int));
    }

    /// Emit a function's label and frame set-up.
    #[verifier::spinoff_prover]
    #[verifier::rlimit(60)]
    fn emit_prologue(&mut self, func: &Function, frame: i64)
        ensures
            old(self).only_output(final(self)),
            final(self).output@ == old(self).output@ + prologue_text(*func, frame as int),
    {
        if !func.is_private {
            self.emit_with(".globl ", &func.name);
        }
        self.emit_label(&func.name);
        self.emit("pushq %rbp");
        self.emit("movq %rsp, %rbp");
        self.emit_num("subq $", frame, ", %rsp");
        assert(self.output@ =~= old(self).output@ + prologue_text(*func, frame as int));
    }

    /// Emit the code a function body falling through reaches, then the
    /// function's epilogue.
    #[verifier::spinoff_prover]
    #[verifier::rlimit(60)]
    fn emit_epilogue(&mut self, func: &Function)
        ensures
            old(self).only_output(final(self)),
            final(self).output@ == old(self).output@ + epilogue_text(*func),
    {
        self.emit("xorl %eax, %eax");
        if func.can_fail {
            self.emit("xorl %edx, %edx");
        }
        let mut l = String::new();
        push_str(&mut l, ".L");
        push_string(&mut l, &func.name);
        push_str(&mut l, "_epilogue");
        self.emit_label(&l);
        self.emit("movq %rbp, %rsp");
        self.emit("popq %rbp");
        self.emit("ret");
        push_str(&mut self.output, "\n");
        assert(self.output@ =~= old(self).output@ + epilogue_text(*func));
    }

    /// Give each parameter a slot and store the register it arrives in.
    fn store_params(&mut self, func: &Function) -> (ok: bool)
        requires
            old(self).wf(),
        ensures
            ok == params_frame(old(self).frame(), func.params@) is Some,
            ok ==> final(self).wf() && old(self).tables_kept(final(self)) && final(self).loop_labels
                == old(self).loop_labels && final(self).current_failable == old(self).current_failable
                && params_frame(old(self).frame(), func.params@) == Some(final(self).frame()),
            ok ==> final(self).output@ == old(self).output@ + params_text(old(self).frame(), func.params@),
    {
        let ghost fr0 = self.frame();
        let ghost o0 = self.output@;
        let mut i: usize = 0;
        assert(func.params@.take(0) =~= Seq::<crate::ast::Param>::empty());
        assert(o0 =~= o0 + Seq::<char>::empty());
        while i < func.params.len()
            invariant
                i <= func.params@.len(),
                self.wf(),
                fr0 == old(self).frame(),
                o0 == old(self).output@,
                old(self).tables_kept(self),
                self.loop_labels == old(self).loop_labels,
                self.current_failable == old(self).current_failable,
                params_frame(fr0, func.params@.take(i as int)) == Some(self.frame()),
                self.output@ == o0 + params_text(fr0, func.params@.take(i as int)),
            decreases func.params@.len() - i,
        {
            let ghost ob = self.output@;
            assert(func.params@.take(i + 1).drop_last() =~= func.params@.take(i as int));
            let ty = Self::valtype_from_name(&func.params[i].ty_name);
            let offset = match self.alloc_local(func.params[i].name.clone(), ty) {
                Some(o) => o,
                None => {
                    proof {
                        lemma_params_frame_prefix(fr0, func.params@, i + 1);
                    }
                    return false;
                },
            };
            self.store_param(i, offset);
            proof {
                let ps = func.params@.take(i + 1);
                assert(params_frame(fr0, ps) == Some(self.frame()));
                assert(ps.len() - 1 == i);
                assert(params_text(fr0, ps) == params_text(fr0, ps.drop_last()) + param_store(i as nat, offset as int));
                assert(self.output@ =~= o0 + params_text(fr0, ps));
            }
            i += 1;
        }
        assert(func.params@.take(i as int) =~= func.params@);
        true
    }

    /// Emit a function: prologue, parameters, body, deferred expressions,
    /// and the epilogue that a body falling through reaches.
    #[verifier::spinoff_prover]
    #[verifier::rlimit(60)]
    fn gen_function(&mut self, func: &'a Function) -> (ok: bool)
        requires
            old(self).loop_labels@.len() == 0,
        ensures
            ok == func_gen(old(self).env(), *func) is Some,
            ok ==> old(self).tables_kept(final(self)),
            ok ==> final(self).loop_labels@.len() == 0,
            ok ==> final(self).wf() && final(self).frame() == func_gen(old(self).env(), *func)->Some_0,
            ok ==> exists|body: Seq<char>|
                final(self).output@ == old(self).output@ + function_text(*func, body) && function_body_ok_all(
                    old(self).env(),
                    *func,
                    body,
                    final(self).string_literals@,
                ),
    {
        let ghost env = self.env();
        self.locals = Vec::new();
        self.stack_offset = 0;
        self.deferred = Vec::new();
        self.current_failable = func.can_fail;
        let ghost fr0 = Frame { locals: Seq::empty(), offset: 0, deferred: Seq::empty() };
        assert(self.frame().locals =~= fr0.locals);
        assert(self.frame().deferred =~= fr0.deferred);
        let local_count = match count_locals(func) {
            Some(n) => n,
            None => {
                return false;
            },
        };
        if local_count as u64 > 1152921504606846970u64 {
            return false;
        }
        let frame = align16((local_count as i64) * 8 + 32);
        self.emit_prologue(func, frame);
        let ghost after_prologue = self.output@;
        if !self.store_params(func) {
            return false;
        }
        let ghost after_params = self.output@;
        let ghost fr1 = self.frame();
        assert(self.loops() =~= Seq::<(Seq<char>, Seq<char>)>::empty());
        if !self.gen_block(&func.body) {
            return false;
        }
        let ghost after_block = self.output@;
        let ghost fr2 = self.frame();
        if !self.emit_deferred() {
            return false;
        }
        let ghost before_epilogue = self.output@;
        self.emit_epilogue(func);
        let ghost body = before_epilogue.subrange(after_prologue.len() as int, before_epilogue.len() as int);
        assert(before_epilogue =~= after_prologue + body);
        assert(self.output@ =~= old(self).output@ + function_text(*func, body)) by {
            reveal(function_text);
        }
        proof {
            let pt = after_params.skip(after_prologue.len() as int);
            let bt = after_block.skip(after_params.len() as int);
            let dt = before_epilogue.skip(after_block.len() as int);
            assert(pt =~= params_text(fr0, func.params@));
            assert(body =~= params_text(fr0, func.params@) + bt + dt);
            assert(params_frame(fr0, func.params@) == Some(fr1));
            assert(block_text_ok_all(env, fr1, func.can_fail, Seq::empty(), func.body, bt, self.string_literals@));
            assert(block_gen(env, fr1, func.body) == Some(fr2));
            assert(deferred_text_ok_all(env, fr2.locals, fr2.deferred, dt, self.string_literals@));
            assert(function_body_ok_all(env, *func, body, self.string_literals@));
        }
        true
    }

    /// Emit the assembly helpers behind `read_file`, `write_file`, string
    /// concatenation, `substr` and `trim`.
    fn emit_builtin_helpers(&mut self)
        ensures
            old(self).tables_kept(final(self)),
            final(self).string_literals@.len() == old(self).string_literals@.len() + 4,
            final(self).string_literals@.take(old(self).string_literals@.len() as int) == old(self).string_literals@,
            final(self).string_literals@[old(self).string_literals@.len() as int]@ == "could not open file"@,
            final(self).string_literals@[old(self).string_literals@.len() + 1int]@ == "rb"@,
            final(self).string_literals@[old(self).string_literals@.len() + 2int]@ == "could not open file for writing"@,
            final(self).string_literals@[old(self).string_literals@.len() + 3int]@ == "w"@,
            final(self).output@ == old(self).output@ + builtin_helpers_text(old(self).string_literals@.len()),
    {
        let ghost o0 = self.output@;
        let ghost l0 = self.string_literals@;
        self.emit_read_file_helper();
        self.emit_write_file_helper();
        self.emit_concat_helper();
        self.emit_substr_helper();
        self.emit_trim_helper();
        assert(self.string_literals@.take(l0.len() as int) =~= l0);
        assert(self.output@ =~= o0 + builtin_helpers_text(l0.len()));
    }

    /// `__ferro_read_file(path) -> (RAX: buffer or message, RDX: error flag)`.
    fn emit_read_file_helper(&mut self)
        ensures
            old(self).tables_kept(final(self)),
            final(self).string_literals@.len() == old(self).string_literals@.len() + 2,
            final(self).string_literals@.take(old(self).string_literals@.len() as int) == old(self).string_literals@,
            final(self).string_literals@[old(self).string_literals@.len() as int]@ == "could not open file"@,
            final(self).string_literals@[old(self).string_literals@.len() + 1int]@ == "rb"@,
            final(self).output@ == old(self).output@ + read_file_helper_text(
                old(self).string_literals@.len(),
                old(self).string_literals@.len() + 1,
            ),
            final(self).locals == old(self).locals,
            final(self).stack_offset == old(self).stack_offset,
            final(self).loop_labels == old(self).loop_labels,
            final(self).deferred == old(self).deferred,
            final(self).label_counter == old(self).label_counter,
    {
        let rf_err_idx = self.add_literal(crate::text::string_of("could not open file"));
        let rf_mode_idx = self.add_literal(crate::text::string_of("rb"));
        self.emit_read_file_text(rf_err_idx, rf_mode_idx);
    }

    /// Emit the text of the read file helper, with its message and mode
    /// literals at the given indices.
    fn emit_read_file_text(&mut self, err: usize, mode: usize)
        ensures
            old(self).only_output(final(self)),
            final(self).output@ == old(self).output@ + read_file_helper_text(err as nat, mode as nat),
    {
        proof {
            reveal(read_file_helper_text);
        }
        let mut t = string_of("__ferro_read_file:\n");
        let lines_1: [&str; 4] = [
            "pushq %rbp",
            "movq %rsp, %rbp",
            "subq $64, %rsp",
            "movq %rcx, -8(%rbp)",
        ];
        push_lines(&mut t, &lines_1);
        assert(lines_1@.map_values(|l: &str| l@) =~= read_file_lines_1()) by {
            reveal(read_file_lines_1);
        }
        push_string(&mut t, &count_line("leaq .Lstr_", mode, "(%rip), %rdx"));
        let lines_2: [&str; 3] = [
            "call fopen",
            "testq %rax, %rax",
            "jnz .Lrf_opened",
        ];
        push_lines(&mut t, &lines_2);
        assert(lines_2@.map_values(|l: &str| l@) =~= read_file_lines_2()) by {
            reveal(read_file_lines_2);
        }
        push_string(&mut t, &count_line("leaq .Lstr_", err, "(%rip), %rax"));
        let lines_3: [&str; 2] = [
            "movq $1, %rdx",
            "jmp .Lrf_done",
        ];
        push_lines(&mut t, &lines_3);
        assert(lines_3@.map_values(|l: &str| l@) =~= read_file_lines_3()) by {
            reveal(read_file_lines_3);
        }
        push_str(&mut t, ".Lrf_opened:\n");
        let lines_4: [&str; 29] = [
            "movq %rax, -16(%rbp)",
            "movq %rax, %rcx",
            "xorl %edx, %edx",
            "movq $2, %r8",
            "call fseek",
            "movq -16(%rbp), %rcx",
            "call ftell",
            "movq %rax, -24(%rbp)",
            "movq -16(%rbp), %rcx",
            "xorl %edx, %edx",
            "xorl %r8d, %r8d",
            "call fseek",
            "movq -24(%rbp), %rcx",
            "incq %rcx",
            "call malloc",
            "movq %rax, -32(%rbp)",
            "movq %rax, %rcx",
            "movq $1, %rdx",
            "movq -24(%rbp), %r8",
            "movq -16(%rbp), %r9",
            "call fread",
            "movq -32(%rbp), %rax",
            "movq -24(%rbp), %rcx",
            "movb $0, (%rax,%rcx,1)",
            "movq -16(%rbp), %rcx",
            "pushq %rax",
            "call fclose",
            "popq %rax",
            "xorl %edx, %edx",
        ];
        push_lines(&mut t, &lines_4);
        assert(lines_4@.map_values(|l: &str| l@) =~= read_file_lines_4()) by {
            reveal(read_file_lines_4);
        }
        push_str(&mut t, ".Lrf_done:\n");
        let lines_5: [&str; 3] = [
            "movq %rbp, %rsp",
            "popq %rbp",
            "ret",
        ];
        push_lines(&mut t, &lines_5);
        assert(lines_5@.map_values(|l: &str| l@) =~= read_file_lines_5()) by {
            reveal(read_file_lines_5);
        }
        push_str(&mut t, "\n");
        assert(t@ == read_file_helper_text(err as nat, mode as nat));
        push_string(&mut self.output, &t);
    }

    /// `__ferro_write_file(path, content) -> (RAX: message, RDX: error flag)`.
    fn emit_write_file_helper(&mut self)
        ensures
            old(self).tables_kept(final(self)),
            final(self).string_literals@.len() == old(self).string_literals@.len() + 2,
            final(self).string_literals@.take(old(self).string_literals@.len() as int) == old(self).string_literals@,
            final(self).string_literals@[old(self).string_literals@.len() as int]@ == "could not open file for writing"@,
            final(self).string_literals@[old(self).string_literals@.len() + 1int]@ == "w"@,
            final(self).output@ == old(self).output@ + write_file_helper_text(
                old(self).string_literals@.len(),
                old(self).string_literals@.len() + 1,
            ),
            final(self).locals == old(self).locals,
            final(self).stack_offset == old(self).stack_offset,
            final(self).loop_labels == old(self).loop_labels,
            final(self).deferred == old(self).deferred,
            final(self).label_counter == old(self).label_counter,
    {
        let wf_err_idx = self.add_literal(crate::text::string_of("could not open file for writing"));
        let wf_mode_idx = self.add_literal(crate::text::string_of("w"));
        self.emit_write_file_text(wf_err_idx, wf_mode_idx);
    }

    /// Emit the text of the write file helper, with its message and mode
    /// literals at the given indices.
    fn emit_write_file_text(&mut self, err: usize, mode: usize)
        ensures
            old(self).only_output(final(self)),
            final(self).output@ == old(self).output@ + write_file_helper_text(err as nat, mode as nat),
    {
        proof {
            reveal(write_file_helper_text);
        }
        let mut t = string_of("__ferro_write_file:\n");
        let lines_1: [&str; 5] = [
            "pushq %rbp",
            "movq %rsp, %rbp",
            "subq $48, %rsp",
            "movq %rcx, -8(%rbp)",
            "movq %rdx, -16(%rbp)",
        ];
        push_lines(&mut t, &lines_1);
        assert(lines_1@.map_values(|l: &str| l@) =~= write_file_lines_1()) by {
            reveal(write_file_lines_1);
        }
        push_string(&mut t, &count_line("leaq .Lstr_", mode, "(%rip), %rdx"));
        let lines_2: [&str; 3] = [
            "call fopen",
            "testq %rax, %rax",
            "jnz .Lwf_opened",
        ];
        push_lines(&mut t, &lines_2);
        assert(lines_2@.map_values(|l: &str| l@) =~= write_file_lines_2()) by {
            reveal(write_file_lines_2);
        }
        push_string(&mut t, &count_line("leaq .Lstr_", err, "(%rip), %rax"));
        let lines_3: [&str; 2] = [
            "movq $1, %rdx",
            "jmp .Lwf_done",
        ];
        push_lines(&mut t, &lines_3);
        assert(lines_3@.map_values(|l: &str| l@) =~= write_file_lines_3()) by {
            reveal(write_file_lines_3);
        }
        push_str(&mut t, ".Lwf_opened:\n");
        let lines_4: [&str; 8] = [
            "movq %rax, -24(%rbp)",
            "movq -16(%rbp), %rcx",
            "movq %rax, %rdx",
            "call fputs",
            "movq -24(%rbp), %rcx",
            "call fclose",
            "xorl %eax, %eax",
            "xorl %edx, %edx",
        ];
        push_lines(&mut t, &lines_4);
        assert(lines_4@.map_values(|l: &str| l@) =~= write_file_lines_4()) by {
            reveal(write_file_lines_4);
        }
        push_str(&mut t, ".Lwf_done:\n");
        let lines_5: [&str; 3] = [
            "movq %rbp, %rsp",
            "popq %rbp",
            "ret",
        ];
        push_lines(&mut t, &lines_5);
        assert(lines_5@.map_values(|l: &str| l@) =~= write_file_lines_5()) by {
            reveal(write_file_lines_5);
        }
        push_str(&mut t, "\n");
        assert(t@ == write_file_helper_text(err as nat, mode as nat));
        push_string(&mut self.output, &t);
    }

    /// `__ferro_str_concat(left, right) -> RAX`: a new string holding both.
    fn emit_concat_helper(&mut self)
        ensures
            old(self).only_output(final(self)),
            final(self).output@ == old(self).output@ + concat_helper_text(),
    {
        proof {
            reveal(concat_helper_text);
        }
        let mut t = string_of("__ferro_str_concat:\n");
        let lines: [&str; 25] = [
            "pushq %rbp",
            "movq %rsp, %rbp",
            "subq $48, %rsp",
            "movq %rcx, -8(%rbp)",
            "movq %rdx, -16(%rbp)",
            "call strlen",
            "movq %rax, -24(%rbp)",
            "movq -16(%rbp), %rcx",
            "call strlen",
            "movq %rax, -32(%rbp)",
            "movq -24(%rbp), %rcx",
            "addq %rax, %rcx",
            "incq %rcx",
            "call malloc",
            "movq %rax, -40(%rbp)",
            "movq %rax, %rcx",
            "movq -8(%rbp), %rdx",
            "call strcpy",
            "movq -40(%rbp), %rcx",
            "movq -16(%rbp), %rdx",
            "call strcat",
            "movq -40(%rbp), %rax",
            "movq %rbp, %rsp",
            "popq %rbp",
            "ret",
        ];
        push_lines(&mut t, &lines);
        assert(lines@.map_values(|l: &str| l@) =~= concat_lines()) by {
            reveal(concat_lines);
        }
        push_str(&mut t, "\n");
        assert(t@ == concat_helper_text());
        push_string(&mut self.output, &t);
    }

    /// `__ferro_substr(s, start, len) -> RAX`: a new string of `len` bytes.
    fn emit_substr_helper(&mut self)
        ensures
            old(self).only_output(final(self)),
            final(self).output@ == old(self).output@ + substr_helper_text(),
    {
        proof {
            reveal(substr_helper_text);
        }
        let mut t = string_of("__ferro_substr:\n");
        let lines: [&str; 21] = [
            "pushq %rbp",
            "movq %rsp, %rbp",
            "subq $48, %rsp",
            "movq %rcx, -8(%rbp)",
            "movq %rdx, -16(%rbp)",
            "movq %r8, -24(%rbp)",
            "movq %r8, %rcx",
            "incq %rcx",
            "call malloc",
            "movq %rax, -32(%rbp)",
            "movq %rax, %rcx",
            "movq -8(%rbp), %rdx",
            "addq -16(%rbp), %rdx",
            "movq -24(%rbp), %r8",
            "call memcpy",
            "movq -32(%rbp), %rax",
            "movq -24(%rbp), %rcx",
            "movb $0, (%rax,%rcx,1)",
            "movq %rbp, %rsp",
            "popq %rbp",
            "ret",
        ];
        push_lines(&mut t, &lines);
        assert(lines@.map_values(|l: &str| l@) =~= substr_lines()) by {
            reveal(substr_lines);
        }
        push_str(&mut t, "\n");
        assert(t@ == substr_helper_text());
        push_string(&mut self.output, &t);
    }

    /// `__ferro_trim(s) -> RAX`: a new string without leading and trailing
    /// spaces, tabs, newlines and carriage returns.
    fn emit_trim_helper(&mut self)
        ensures
            old(self).only_output(final(self)),
            final(self).output@ == old(self).output@ + trim_helper_text(),
    {
        proof {
            reveal(trim_helper_text);
        }
        let mut t = string_of("__ferro_trim:\n");
        let lines_1: [&str; 4] = [
            "pushq %rbp",
            "movq %rsp, %rbp",
            "subq $48, %rsp",
            "movq %rcx, -8(%rbp)",
        ];
        push_lines(&mut t, &lines_1);
        assert(lines_1@.map_values(|l: &str| l@) =~= trim_lines_1()) by {
            reveal(trim_lines_1);
        }
        push_str(&mut t, ".Ltrim_lskip:\n");
        let lines_2: [&str; 10] = [
            "movzbl (%rcx), %eax",
            "cmpb $32, %al",
            "je .Ltrim_lnext",
            "cmpb $9, %al",
            "je .Ltrim_lnext",
            "cmpb $10, %al",
            "je .Ltrim_lnext",
            "cmpb $13, %al",
            "je .Ltrim_lnext",
            "jmp .Ltrim_ldone",
        ];
        push_lines(&mut t, &lines_2);
        assert(lines_2@.map_values(|l: &str| l@) =~= trim_lines_2()) by {
            reveal(trim_lines_2);
        }
        push_str(&mut t, ".Ltrim_lnext:\n");
        let lines_3: [&str; 2] = [
            "incq %rcx",
            "jmp .Ltrim_lskip",
        ];
        push_lines(&mut t, &lines_3);
        assert(lines_3@.map_values(|l: &str| l@) =~= trim_lines_3()) by {
            reveal(trim_lines_3);
        }
        push_str(&mut t, ".Ltrim_ldone:\n");
        let lines_4: [&str; 5] = [
            "movq %rcx, -16(%rbp)",
            "call strlen",
            "movq %rax, -24(%rbp)",
            "movq -16(%rbp), %rcx",
            "addq %rax, %rcx",
        ];
        push_lines(&mut t, &lines_4);
        assert(lines_4@.map_values(|l: &str| l@) =~= trim_lines_4()) by {
            reveal(trim_lines_4);
        }
        push_str(&mut t, ".Ltrim_rskip:\n");
        let lines_5: [&str; 12] = [
            "cmpq -16(%rbp), %rcx",
            "jle .Ltrim_rdone",
            "movzbl -1(%rcx), %eax",
            "cmpb $32, %al",
            "je .Ltrim_rnext",
            "cmpb $9, %al",
            "je .Ltrim_rnext",
            "cmpb $10, %al",
            "je .Ltrim_rnext",
            "cmpb $13, %al",
            "je .Ltrim_rnext",
            "jmp .Ltrim_rdone",
        ];
        push_lines(&mut t, &lines_5);
        assert(lines_5@.map_values(|l: &str| l@) =~= trim_lines_5()) by {
            reveal(trim_lines_5);
        }
        push_str(&mut t, ".Ltrim_rnext:\n");
        let lines_6: [&str; 2] = [
            "decq %rcx",
            "jmp .Ltrim_rskip",
        ];
        push_lines(&mut t, &lines_6);
        assert(lines_6@.map_values(|l: &str| l@) =~= trim_lines_6()) by {
            reveal(trim_lines_6);
        }
        push_str(&mut t, ".Ltrim_rdone:\n");
        let lines_7: [&str; 15] = [
            "subq -16(%rbp), %rcx",
            "movq %rcx, -24(%rbp)",
            "incq %rcx",
            "call malloc",
            "movq %rax, -32(%rbp)",
            "movq %rax, %rcx",
            "movq -16(%rbp), %rdx",
            "movq -24(%rbp), %r8",
            "call memcpy",
            "movq -32(%rbp), %rax",
            "movq -24(%rbp), %rcx",
            "movb $0, (%rax,%rcx,1)",
            "movq %rbp, %rsp",
            "popq %rbp",
            "ret",
        ];
        push_lines(&mut t, &lines_7);
        assert(lines_7@.map_values(|l: &str| l@) =~= trim_lines_7()) by {
            reveal(trim_lines_7);
        }
        push_str(&mut t, "\n");
        assert(t@ == trim_helper_text());
        push_string(&mut self.output, &t);
    }

    /// Emit the `.data` section with the string literals.
    fn emit_data_section(&mut self)
        ensures
            final(self).output@ == old(self).output@ + data_section(old(self).string_literals@),
            final(self).string_literals == old(self).string_literals,
    {
        if self.string_literals.len() == 0 {
            return;
        }
        push_str(&mut self.output, "    .section .data\n");
        let ghost lits = self.string_literals@;
        let ghost start = self.output@;
        let mut i: usize = 0;
        while i < self.string_literals.len()
            invariant
                i <= lits.len(),
                lits == self.string_literals@,
                self.string_literals == old(self).string_literals,
                self.output@ + literals_text(lits, i as int) == start + literals_text(lits, 0),
            decreases lits.len() - i,
        {
            let ghost before = self.output@;
            push_str(&mut self.output, ".Lstr_");
            push_usize(&mut self.output, i);
            push_str(&mut self.output, ":\n");
            push_str(&mut self.output, "    .ascii \"");
            push_string(&mut self.output, &self.string_literals[i]);
            push_str(&mut self.output, "\\0\"\n");
            assert(self.output@ + literals_text(lits, i + 1) =~= before + literals_text(lits, i as int));
            i += 1;
        }
        assert(self.output@ =~= start + literals_text(lits, 0));
    }

    /// Register `Enum::Variant` → discriminant for every enum.
    fn register_enums(&mut self, enums: &Vec<crate::ast::EnumDef>)
        requires
            old(self).enum_values@.len() == 0,
        ensures
            final(self).env().enums == crate::codegen::model::enum_entries(enums@),
            final(self).output == old(self).output,
            final(self).string_literals == old(self).string_literals,
            final(self).loop_labels == old(self).loop_labels,
            final(self).struct_fields == old(self).struct_fields,
            final(self).comptime_values == old(self).comptime_values,
            final(self).func_return_types == old(self).func_return_types,
    {
        let mut i: usize = 0;
        assert(self.env().enums =~= crate::codegen::model::enum_entries(enums@.take(0)));
        while i < enums.len()
            invariant
                i <= enums@.len(),
                self.env().enums == crate::codegen::model::enum_entries(enums@.take(i as int)),
                self.output == old(self).output,
                self.string_literals == old(self).string_literals,
                self.loop_labels == old(self).loop_labels,
                self.struct_fields == old(self).struct_fields,
                self.comptime_values == old(self).comptime_values,
                self.func_return_types == old(self).func_return_types,
            decreases enums@.len() - i,
        {
            let ed = &enums[i];
            let ghost prefix = self.env().enums;
            let mut j: usize = 0;
            assert(crate::codegen::model::variant_entries(*ed).take(0) =~= Seq::<(Seq<char>, i64)>::empty());
            assert(self.env().enums =~= prefix + crate::codegen::model::variant_entries(*ed).take(0));
            while j < ed.variants.len()
                invariant
                    j <= ed.variants@.len(),
                    i < enums@.len(),
                    *ed == enums@[i as int],
                    self.env().enums == prefix + crate::codegen::model::variant_entries(*ed).take(j as int),
                    self.output == old(self).output,
                    self.string_literals == old(self).string_literals,
                    self.loop_labels == old(self).loop_labels,
                    self.struct_fields == old(self).struct_fields,
                    self.comptime_values == old(self).comptime_values,
                    self.func_return_types == old(self).func_return_types,
                decreases ed.variants@.len() - j,
            {
                let mut key = String::new();
                push_string(&mut key, &ed.name);
                push_str(&mut key, "::");
                push_string(&mut key, &ed.variants[j]);
                let ghost before = self.env().enums;
                self.enum_values.push((key, j as i64));
                assert(self.env().enums =~= before.push((variant_key(ed.name@, ed.variants@[j as int]@), j as i64)));
                assert(self.env().enums =~= prefix + crate::codegen::model::variant_entries(*ed).take(j + 1));
                j += 1;
            }
            assert(crate::codegen::model::variant_entries(*ed).take(j as int) =~= crate::codegen::model::variant_entries(
                *ed,
            ));
            assert(enums@.take(i + 1).drop_last() =~= enums@.take(i as int));
            i += 1;
        }
        assert(enums@.take(i as int) =~= enums@);
    }

    /// Register the fields of every struct with their runtime types.
    fn register_structs(&mut self, structs: &Vec<crate::ast::StructDef>)
        requires
            old(self).struct_fields@.len() == 0,
        ensures
            final(self).env().structs == structs@.map_values(
                |sd: crate::ast::StructDef| crate::codegen::model::struct_entry(sd),
            ),
            final(self).output == old(self).output,
            final(self).string_literals == old(self).string_literals,
            final(self).loop_labels == old(self).loop_labels,
            final(self).enum_values == old(self).enum_values,
            final(self).comptime_values == old(self).comptime_values,
            final(self).func_return_types == old(self).func_return_types,
    {
        let mut i: usize = 0;
        assert(self.env().structs =~= structs@.take(0).map_values(
            |sd: crate::ast::StructDef| crate::codegen::model::struct_entry(sd),
        ));
        while i < structs.len()
            invariant
                i <= structs@.len(),
                self.env().structs == structs@.take(i as int).map_values(
                    |sd: crate::ast::StructDef| crate::codegen::model::struct_entry(sd),
                ),
                self.output == old(self).output,
                self.string_literals == old(self).string_literals,
                self.loop_labels == old(self).loop_labels,
                self.enum_values == old(self).enum_values,
                self.comptime_values == old(self).comptime_values,
                self.func_return_types == old(self).func_return_types,
            decreases structs@.len() - i,
        {
            let sd = &structs[i];
            let mut fields: Vec<(String, ValType)> = Vec::new();
            let mut k: usize = 0;
            while k < sd.fields.len()
                invariant
                    k <= sd.fields@.len(),
                    fields@.len() == k,
                    forall|m: int|
                        0 <= m < k ==> (#[trigger] fields@[m]).0@ == sd.fields@[m].name@ && fields@[m].1
                            == val_type_named(sd.fields@[m].ty_name@),
                decreases sd.fields@.len() - k,
            {
                fields.push((sd.fields[k].name.clone(), Self::valtype_from_name(&sd.fields[k].ty_name)));
                k += 1;
            }
            let ghost before = self.env().structs;
            let ghost entry = crate::codegen::model::struct_entry(*sd);
            assert(fields@.map_values(|q: (String, ValType)| (q.0@, q.1)) =~= entry.1);
            self.struct_fields.push((sd.name.clone(), fields));
            assert(self.env().structs =~= before.push(entry));
            assert(structs@.take(i + 1).map_values(|sd: crate::ast::StructDef| crate::codegen::model::struct_entry(sd))
                =~= structs@.take(i as int).map_values(
                |sd: crate::ast::StructDef| crate::codegen::model::struct_entry(sd),
            ).push(entry));
            i += 1;
        }
        assert(structs@.take(i as int) =~= structs@);
    }

    /// Evaluate the comptime constants in order.
    fn register_comptimes(&mut self, cts: &Vec<crate::ast::ComptimeDef>)
        requires
            old(self).comptime_values@.len() == 0,
        ensures
            final(self).env().comptimes == crate::codegen::model::comptime_entries(cts@),
            final(self).output == old(self).output,
            final(self).string_literals == old(self).string_literals,
            final(self).loop_labels == old(self).loop_labels,
            final(self).enum_values == old(self).enum_values,
            final(self).struct_fields == old(self).struct_fields,
            final(self).func_return_types == old(self).func_return_types,
    {
        let mut i: usize = 0;
        assert(self.env().comptimes =~= crate::codegen::model::comptime_entries(cts@.take(0)));
        while i < cts.len()
            invariant
                i <= cts@.len(),
                self.env().comptimes == crate::codegen::model::comptime_entries(cts@.take(i as int)),
                self.output == old(self).output,
                self.string_literals == old(self).string_literals,
                self.loop_labels == old(self).loop_labels,
                self.enum_values == old(self).enum_values,
                self.struct_fields == old(self).struct_fields,
                self.func_return_types == old(self).func_return_types,
            decreases cts@.len() - i,
        {
            let ct = &cts[i];
            assert(cts@.take(i + 1).drop_last() =~= cts@.take(i as int));
            let val = eval_comptime_expr(&ct.value, &self.comptime_values);
            let ghost before = self.env().comptimes;
            self.comptime_values.push((ct.name.clone(), val));
            assert(self.env().comptimes =~= before.push((ct.name@, val)));
            i += 1;
        }
        assert(cts@.take(i as int) =~= cts@);
    }

    /// Register a built-in's return type.
    fn push_ret(&mut self, name: &str, t: ValType)
        ensures
            final(self).env().rets == old(self).env().rets.push((name@, t)),
            final(self).output == old(self).output,
            final(self).string_literals == old(self).string_literals,
            final(self).loop_labels == old(self).loop_labels,
            final(self).enum_values == old(self).enum_values,
            final(self).struct_fields == old(self).struct_fields,
            final(self).comptime_values == old(self).comptime_values,
    {
        self.func_return_types.push((crate::text::string_of(name), t));
        assert(self.env().rets =~= old(self).env().rets.push((name@, t)));
    }

    /// Register the return type of every function, then of the built-ins.
    #[verifier::spinoff_prover]
    #[verifier::rlimit(60)]
    fn register_returns(&mut self, fs: &Vec<Function>)
        requires
            old(self).func_return_types@.len() == 0,
        ensures
            final(self).env().rets == fs@.map_values(|f: Function| crate::codegen::model::return_entry(f))
                + crate::codegen::model::builtin_rets(),
            final(self).output == old(self).output,
            final(self).string_literals == old(self).string_literals,
            final(self).loop_labels == old(self).loop_labels,
            final(self).enum_values == old(self).enum_values,
            final(self).struct_fields == old(self).struct_fields,
            final(self).comptime_values == old(self).comptime_values,
    {
        let mut i: usize = 0;
        assert(self.env().rets =~= fs@.take(0).map_values(|f: Function| crate::codegen::model::return_entry(f)));
        while i < fs.len()
            invariant
                i <= fs@.len(),
                self.env().rets == fs@.take(i as int).map_values(
                    |f: Function| crate::codegen::model::return_entry(f),
                ),
                self.output == old(self).output,
                self.string_literals == old(self).string_literals,
                self.loop_labels == old(self).loop_labels,
                self.enum_values == old(self).enum_values,
                self.struct_fields == old(self).struct_fields,
                self.comptime_values == old(self).comptime_values,
            decreases fs@.len() - i,
        {
            let f = &fs[i];
            let rt = match &f.return_type {
                Some(n) => Self::valtype_from_name(n),
                None => ValType::Void,
            };
            let ghost before = self.env().rets;
            self.func_return_types.push((f.name.clone(), rt));
            assert(self.env().rets =~= before.push(crate::codegen::model::return_entry(*f)));
            assert(fs@.take(i + 1).map_values(|f: Function| crate::codegen::model::return_entry(f)) =~= fs@.take(
                i as int,
            ).map_values(|f: Function| crate::codegen::model::return_entry(f)).push(
                crate::codegen::model::return_entry(*f),
            ));
            i += 1;
        }
        assert(fs@.take(i as int) =~= fs@);
        let ghost user = self.env().rets;
        self.push_ret("print", ValType::Void);
        self.push_ret("len", ValType::Int);
        self.push_ret("abs", ValType::Int);
        self.push_ret("min", ValType::Int);
        self.push_ret("max", ValType::Int);
        self.push_ret("pow", ValType::Int);
        self.push_ret("rand", ValType::Int);
        self.push_ret("to_str", ValType::Str);
        self.push_ret("parse_int", ValType::Int);
        self.push_ret("char_at", ValType::Int);
        self.push_ret("contains", ValType::Bool);
        self.push_ret("starts_with", ValType::Bool);
        self.push_ret("read_line", ValType::Str);
        self.push_ret("read_file", ValType::Str);
        self.push_ret("write_file", ValType::Void);
        self.push_ret("file_exists", ValType::Bool);
        self.push_ret("eprint", ValType::Void);
        self.push_ret("exit", ValType::Void);
        self.push_ret("time", ValType::Int);
        self.push_ret("sleep", ValType::Void);
        self.push_ret("substr", ValType::Str);
        self.push_ret("trim", ValType::Str);
        self.push_ret("alloc", ValType::Int);
        self.push_ret("free", ValType::Void);
        assert(self.env().rets =~= user + crate::codegen::model::builtin_rets());
    }

    /// Generate assembly for an entire program, or `None` when a lookup the
    /// generator makes fails or a frame does not fit. The text is the text
    /// section with each function (its prologue, its body and its epilogue),
    /// the runtime helpers and the data section; each body stores the
    /// parameters and holds the code of its statements as `function_body_ok`
    /// describes, every string literal and format it loads named by a label
    /// whose data-section entry holds that text.
    pub fn try_generate(self, program: &'a Program) -> (r: Option<String>)
        requires
            self.fresh(),
        ensures
            r is Some <==> gen_ok(*program),
            match r {
                Some(out) => exists|bodies: Seq<Seq<char>>, lits: Seq<String>|
                    bodies.len() == program.functions@.len() && helper_literals_last(lits) && out@ == assembly_text(
                        program.functions@,
                        bodies,
                        lits,
                    ) && forall|i: int|
                        0 <= i < bodies.len() ==> function_body_ok(
                            program_env(*program),
                            #[trigger] program.functions@[i],
                            bodies[i],
                            lits,
                        ),
                None => true,
            },
    {
        let mut gen = self;
        gen.run(program)
    }

    /// The body of `try_generate`, on a generator it owns.
    #[verifier::spinoff_prover]
    #[verifier::rlimit(60)]
    fn run(&mut self, program: &'a Program) -> (r: Option<String>)
        requires
            old(self).fresh(),
        ensures
            r is Some <==> gen_ok(*program),
            match r {
                Some(out) => exists|bodies: Seq<Seq<char>>, lits: Seq<String>|
                    bodies.len() == program.functions@.len() && helper_literals_last(lits) && out@ == assembly_text(
                        program.functions@,
                        bodies,
                        lits,
                    ) && forall|i: int|
                        0 <= i < bodies.len() ==> function_body_ok(
                            program_env(*program),
                            #[trigger] program.functions@[i],
                            bodies[i],
                            lits,
                        ),
                None => true,
            },
    {
        self.register_enums(&program.enums);
        self.register_structs(&program.structs);
        self.register_comptimes(&program.comptimes);
        self.register_returns(&program.functions);
        let ghost env = self.env();
        assert(env == program_env(*program));
        push_str(&mut self.output, "    .section .text\n");
        let ghost header = self.output@;
        assert(header =~= "    .section .text\n"@);
        let ghost mut bodies: Seq<Seq<char>> = Seq::empty();
        let mut i: usize = 0;
        assert(program.functions@.take(0) =~= Seq::<Function>::empty());
        while i < program.functions.len()
            invariant
                i <= program.functions@.len(),
                env == self.env(),
                env == program_env(*program),
                self.loop_labels@.len() == 0,
                header == "    .section .text\n"@,
                bodies.len() == i,
                self.output@ == header + functions_text(program.functions@.take(i as int), bodies),
                forall|j: int| 0 <= j < i ==> (#[trigger] func_gen(env, program.functions@[j])) is Some,
                forall|j: int|
                    0 <= j < i ==> function_body_ok_all(env, #[trigger] program.functions@[j], bodies[j], self.string_literals@),
            decreases program.functions@.len() - i,
        {
            let ghost before = self.output@;
            if !self.gen_function(&program.functions[i]) {
                return None;
            }
            proof {
                let f = program.functions@[i as int];
                let body = choose|body: Seq<char>|
                    self.output@ == before + function_text(f, body) && function_body_ok_all(env, f, body, self.string_literals@);
                let nb = bodies.push(body);
                assert(program.functions@.take(i + 1).drop_last() =~= program.functions@.take(i as int));
                assert(nb.drop_last() =~= bodies);
                assert(self.output@ =~= header + functions_text(program.functions@.take(i + 1), nb));
                bodies = nb;
            }
            i += 1;
        }
        assert(program.functions@.take(i as int) =~= program.functions@);
        let ghost before_helpers = self.output@;
        let ghost n = self.string_literals@.len();
        let ghost sl_bodies = self.string_literals@;
        self.emit_builtin_helpers();
        let ghost before_data = self.output@;
        let ghost lits = self.string_literals@;
        proof {
            assert(grows(sl_bodies, lits));
            assert(grows(lits, lits));
            assert forall|j: int| 0 <= j < bodies.len() implies function_body_ok(
                env,
                #[trigger] program.functions@[j],
                bodies[j],
                lits,
            ) by {
                assert(function_body_ok_all(env, program.functions@[j], bodies[j], sl_bodies));
            }
        }
        self.emit_data_section();
        assert(helper_literals_last(lits));
        assert(self.output@ =~= assembly_text(program.functions@, bodies, lits));
        Some(self.output.clone())
    }

    /// Generate assembly for an entire program whose every lookup succeeds.
    pub fn generate(self, program: &'a Program) -> (out: String)
        requires
            self.fresh(),
            gen_ok(*program),
        ensures
            exists|bodies: Seq<Seq<char>>, lits: Seq<String>|
                bodies.len() == program.functions@.len() && helper_literals_last(lits) && out@ == assembly_text(
                    program.functions@,
                    bodies,
                    lits,
                ) && forall|i: int|
                    0 <= i < bodies.len() ==> function_body_ok(
                        program_env(*program),
                        #[trigger] program.functions@[i],
                        bodies[i],
                        lits,
                    ),
    {
        match self.try_generate(program) {
            Some(out) => out,
            None => String::new(),
        }
    }
}

/// Appends instruction lines.
fn push_lines(out: &mut String, lines: &[&str])
    ensures
        final(out)@ == old(out)@ + lines_text(lines@.map_values(|l: &str| l@)),
{
    let mut i: usize = 0;
    while i < lines.len()
        invariant
            i <= lines@.len(),
            out@ == old(out)@ + lines_text(lines@.take(i as int).map_values(|l: &str| l@)),
        decreases lines@.len() - i,
    {
        push_str(out, "    ");
        push_str(out, lines[i]);
        push_str(out, "\n");
        assert(lines@.take(i + 1).map_values(|l: &str| l@).drop_last() =~= lines@.take(i as int).map_values(
            |l: &str| l@,
        ));
        assert(out@ =~= old(out)@ + lines_text(lines@.take(i + 1).map_values(|l: &str| l@)));
        i += 1;
    }
    assert(lines@.take(i as int) =~= lines@);
}

/// The instruction line `a` + decimal `n` + `b`.
fn count_line(a: &str, n: usize, b: &str) -> (r: String)
    ensures
        r@ == asm_line(a@ + nat_text(n as nat) + b@),
{
    let mut r = String::new();
    push_str(&mut r, "    ");
    push_str(&mut r, a);
    push_usize(&mut r, n);
    push_str(&mut r, b);
    push_str(&mut r, "\n");
    assert(r@ =~= asm_line(a@ + nat_text(n as nat) + b@));
    r
}

/// An instruction line emitted in pieces is the line.
proof fn lemma_num_line(q: Seq<char>, a: Seq<char>, b: Seq<char>, c: Seq<char>)
    ensures
        q + "    "@ + a + b + c + "\n"@ == q + asm_line(a + b + c),
{
    assert(q + "    "@ + a + b + c + "\n"@ =~= q + asm_line(a + b + c));
}

/// Appending pieces one after the other appends their concatenation.
proof fn lemma_concat4(o: Seq<char>, a1: Seq<char>, a2: Seq<char>, a3: Seq<char>, a4: Seq<char>)
    ensures
        o + a1 + a2 + a3 + a4 == o + (a1 + a2 + a3 + a4),
{
    assert(o + a1 + a2 + a3 + a4 =~= o + (a1 + a2 + a3 + a4));
}

/// Appending pieces one after the other appends their concatenation.
proof fn lemma_concat6(
    o: Seq<char>,
    a1: Seq<char>,
    a2: Seq<char>,
    a3: Seq<char>,
    a4: Seq<char>,
    a5: Seq<char>,
    a6: Seq<char>,
)
    ensures
        o + a1 + a2 + a3 + a4 + a5 + a6 == o + (a1 + a2 + a3 + a4 + a5 + a6),
{
    assert(o + a1 + a2 + a3 + a4 + a5 + a6 =~= o + (a1 + a2 + a3 + a4 + a5 + a6));
}

/// The head of a `for` loop, put together from its lines.
proof fn lemma_for_head_text(
    o0: Seq<char>,
    p1: Seq<char>,
    p2: Seq<char>,
    p3: Seq<char>,
    o1: Seq<char>,
    ll: Seq<char>,
    el: Seq<char>,
    off: int,
    end_off: int,
    c0: usize,
)
    requires
        ll == ".L"@ + "for"@ + "_"@ + nat_text(next_count(c0) as nat),
        el == ".L"@ + "endfor"@ + "_"@ + nat_text(next_count(next_count(next_count(c0))) as nat),
        p1 == o0 + ll + ":\n"@,
        p2 == p1 + "    "@ + "movq "@ + int_text(off) + "(%rbp), %rax"@ + "\n"@,
        p3 == p2 + "    "@ + "cmpq "@ + int_text(end_off) + "(%rbp), %rax"@ + "\n"@,
        o1 == p3 + asm_line("jge "@ + el),
    ensures
        o1 == o0 + for_head(off, end_off, c0),
{
    let h1 = ll + ":\n"@;
    let h2 = asm_line("movq "@ + int_text(off) + "(%rbp), %rax"@);
    let h3 = asm_line("cmpq "@ + int_text(end_off) + "(%rbp), %rax"@);
    let h4 = asm_line("jge "@ + el);
    vstd::seq_lib::lemma_concat_associative(o0, ll, ":\n"@);
    lemma_num_line(p1, "movq "@, int_text(off), "(%rbp), %rax"@);
    lemma_num_line(p2, "cmpq "@, int_text(end_off), "(%rbp), %rax"@);
    assert(o1 == o0 + h1 + h2 + h3 + h4);
    lemma_concat4(o0, h1, h2, h3, h4);
    assert(ll == label_text("for"@, next_count(c0) as nat));
    assert(el == label_text("endfor"@, next_count(next_count(next_count(c0))) as nat));
    assert(for_head(off, end_off, c0) == h1 + h2 + h3 + h4);
}

/// The tail of a `for` loop, put together from its lines.
proof fn lemma_for_tail_text(
    o2: Seq<char>,
    q1: Seq<char>,
    q2: Seq<char>,
    q3: Seq<char>,
    q4: Seq<char>,
    q5: Seq<char>,
    o3: Seq<char>,
    ll: Seq<char>,
    cl: Seq<char>,
    el: Seq<char>,
    off: int,
    c0: usize,
)
    requires
        ll == ".L"@ + "for"@ + "_"@ + nat_text(next_count(c0) as nat),
        cl == ".L"@ + "forcont"@ + "_"@ + nat_text(next_count(next_count(c0)) as nat),
        el == ".L"@ + "endfor"@ + "_"@ + nat_text(next_count(next_count(next_count(c0))) as nat),
        q1 == o2 + cl + ":\n"@,
        q2 == q1 + "    "@ + "movq "@ + int_text(off) + "(%rbp), %rax"@ + "\n"@,
        q3 == q2 + asm_line("addq $1, %rax"@),
        q4 == q3 + "    "@ + "movq %rax, "@ + int_text(off) + "(%rbp)"@ + "\n"@,
        q5 == q4 + asm_line("jmp "@ + ll),
        o3 == q5 + el + ":\n"@,
    ensures
        o3 == o2 + for_tail(off, c0),
{
    let t1 = cl + ":\n"@;
    let t2 = asm_line("movq "@ + int_text(off) + "(%rbp), %rax"@);
    let t3 = asm_line("addq $1, %rax"@);
    let t4 = asm_line("movq %rax, "@ + int_text(off) + "(%rbp)"@);
    let t5 = asm_line("jmp "@ + ll);
    let t6 = el + ":\n"@;
    vstd::seq_lib::lemma_concat_associative(o2, cl, ":\n"@);
    lemma_num_line(q1, "movq "@, int_text(off), "(%rbp), %rax"@);
    lemma_num_line(q3, "movq %rax, "@, int_text(off), "(%rbp)"@);
    vstd::seq_lib::lemma_concat_associative(q5, el, ":\n"@);
    assert(o3 == o2 + t1 + t2 + t3 + t4 + t5 + t6);
    lemma_concat6(o2, t1, t2, t3, t4, t5, t6);
    assert(ll == label_text("for"@, next_count(c0) as nat));
    assert(cl == label_text("forcont"@, next_count(next_count(c0)) as nat));
    assert(el == label_text("endfor"@, next_count(next_count(next_count(c0))) as nat));
    assert(for_tail(off, c0) == t1 + t2 + t3 + t4 + t5 + t6);
}

/// The text a `for` appends, put together from its pieces.
proof fn lemma_for_text(
    o0: Seq<char>,
    o1: Seq<char>,
    o2: Seq<char>,
    o3: Seq<char>,
    o4: Seq<char>,
    o5: Seq<char>,
    off: int,
    end_off: int,
    lt: Seq<char>,
)
    requires
        grows(o0, o1),
        o2 == o1 + "    "@ + "movq %rax, "@ + int_text(off) + "(%rbp)"@ + "\n"@,
        grows(o2, o3),
        o4 == o3 + "    "@ + "movq %rax, "@ + int_text(end_off) + "(%rbp)"@ + "\n"@,
        o5 == o4 + lt,
    ensures
        o5.skip(o0.len() as int) == o1.skip(o0.len() as int) + asm_line("movq %rax, "@ + int_text(off) + "(%rbp)"@)
            + o3.skip(o2.len() as int) + asm_line("movq %rax, "@ + int_text(end_off) + "(%rbp)"@) + lt,
{
    let st = o1.skip(o0.len() as int);
    let et = o3.skip(o2.len() as int);
    let s1 = asm_line("movq %rax, "@ + int_text(off) + "(%rbp)"@);
    let s2 = asm_line("movq %rax, "@ + int_text(end_off) + "(%rbp)"@);
    assert(o1 =~= o0 + st);
    assert(o2 =~= o1 + s1);
    assert(o3 =~= o2 + et);
    assert(o4 =~= o3 + s2);
    assert(o5.skip(o0.len() as int) =~= st + s1 + et + s2 + lt);
}

/// Appending ten pieces one after the other appends their concatenation.
proof fn lemma_concat10(
    o: Seq<char>,
    a1: Seq<char>,
    a2: Seq<char>,
    a3: Seq<char>,
    a4: Seq<char>,
    a5: Seq<char>,
    a6: Seq<char>,
    a7: Seq<char>,
    a8: Seq<char>,
    a9: Seq<char>,
    a10: Seq<char>,
)
    ensures
        o + a1 + a2 + a3 + a4 + a5 + a6 + a7 + a8 + a9 + a10 == o + (a1 + a2 + a3 + a4 + a5 + a6 + a7 + a8 + a9
            + a10),
{
    assert(o + a1 + a2 + a3 + a4 + a5 + a6 + a7 + a8 + a9 + a10 =~= o + (a1 + a2 + a3 + a4 + a5 + a6 + a7 + a8 + a9
        + a10));
}

} // verus!
