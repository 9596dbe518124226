//! Pretty-printer for the AST — renders a program back as source-like text.

use vstd::prelude::*;
use crate::ast::{
    arms_depth, block_depth, max2, stmt_depth, stmts_depth, BinOp, Block, ComptimeDef, EnumDef, Expr,
    Function, MatchArm, Param, Pattern, Program, Stmt, StructDef, StructField, UnaryOp,
};
use crate::text::{int_text, push_i64, push_str, push_string};

verus! {

// ── What the printer writes ──────────────────────────────

/// `2 * level` spaces.
pub open spec fn spaces(level: nat) -> Seq<char> {
    Seq::new(2 * level, |i: int| ' ')
}

pub open spec fn bool_text(b: bool) -> Seq<char> {
    if b { "true"@ } else { "false"@ }
}

pub open spec fn binop_text(op: BinOp) -> Seq<char> {
    match op {
        BinOp::Add => " + "@,
        BinOp::Sub => " - "@,
        BinOp::Mul => " * "@,
        BinOp::Div => " / "@,
        BinOp::Mod => " % "@,
        BinOp::Eq => " == "@,
        BinOp::Neq => " != "@,
        BinOp::Lt => " < "@,
        BinOp::Gt => " > "@,
        BinOp::Lte => " <= "@,
        BinOp::Gte => " >= "@,
        BinOp::And => " && "@,
        BinOp::Or => " || "@,
    }
}

pub open spec fn unop_text(op: UnaryOp) -> Seq<char> {
    match op {
        UnaryOp::Neg => "-"@,
        UnaryOp::Not => "!"@,
    }
}

/// The separator written before the item at index `i` of a list.
pub open spec fn sep(i: int) -> Seq<char> {
    if i > 0 { ", "@ } else { Seq::empty() }
}

/// An expression, fully parenthesized at binary operators.
pub open spec fn expr_text(e: Expr) -> Seq<char>
    decreases e,
{
    match e {
        Expr::IntLit { value, .. } => int_text(value as int),
        Expr::BoolLit { value, .. } => bool_text(value),
        Expr::StringLit { value, .. } => "\""@ + value@ + "\""@,
        Expr::Ident { name, .. } => name@,
        Expr::BinaryOp { op, left, right, .. } => "("@ + expr_text(*left) + binop_text(op) + expr_text(
            *right,
        ) + ")"@,
        Expr::UnaryOp { op, operand, .. } => unop_text(op) + expr_text(*operand),
        Expr::Call { name, args, .. } => name@ + "("@ + exprs_text(args@) + ")"@,
        Expr::ArrayLit { elements, .. } => "["@ + exprs_text(elements@) + "]"@,
        Expr::Index { object, index, .. } => expr_text(*object) + "["@ + expr_text(*index) + "]"@,
        Expr::EnumVariant { enum_name, variant, .. } => enum_name@ + "::"@ + variant@,
        Expr::StructLit { name, fields, .. } => name@ + " { "@ + fields_text(fields@) + " }"@,
        Expr::FieldAccess { object, field, .. } => expr_text(*object) + "."@ + field@,
        Expr::Try { expr, .. } => "try "@ + expr_text(*expr),
        Expr::Cast { expr, target, .. } => expr_text(*expr) + " as "@ + target@,
    }
}

/// Expressions separated by `, `.
pub open spec fn exprs_text(es: Seq<Expr>) -> Seq<char>
    decreases es,
{
    if es.len() == 0 {
        Seq::empty()
    } else {
        exprs_text(es.drop_last()) + sep(es.len() - 1) + expr_text(es.last())
    }
}

/// Struct-literal fields `name: value` separated by `, `.
pub open spec fn fields_text(fs: Seq<(String, Expr)>) -> Seq<char>
    decreases fs,
{
    if fs.len() == 0 {
        Seq::empty()
    } else {
        fields_text(fs.drop_last()) + sep(fs.len() - 1) + fs.last().0@ + ": "@ + expr_text(fs.last().1)
    }
}

pub open spec fn pattern_text(p: Pattern) -> Seq<char> {
    match p {
        Pattern::IntLit(v, _) => int_text(v as int),
        Pattern::BoolLit(b, _) => bool_text(b),
        Pattern::Wildcard(_) => "_"@,
        Pattern::EnumVariant(e, v, _) => e@ + "::"@ + v@,
    }
}

/// A statement at indentation `level`, ending with a newline.
pub open spec fn stmt_text(s: Stmt, level: nat) -> Seq<char>
    decreases s, 1nat,
{
    spaces(level) + stmt_body_text(s, level)
}

/// A statement after its indentation.
pub open spec fn stmt_body_text(s: Stmt, level: nat) -> Seq<char>
    decreases s, 0nat,
{
    match s {
        Stmt::Let { name, mutable, ty_name, value, .. } => "let "@ + (if mutable { "mut "@ } else {
            Seq::empty()
        }) + name@ + match ty_name {
            Some(t) => ": "@ + t@,
            None => Seq::empty(),
        } + " = "@ + expr_text(value) + ";\n"@,
        Stmt::Assign { name, value, .. } => name@ + " = "@ + expr_text(value) + ";\n"@,
        Stmt::IndexAssign { object, index, value, .. } => object@ + "["@ + expr_text(index) + "] = "@
            + expr_text(value) + ";\n"@,
        Stmt::FieldAssign { object, field, value, .. } => object@ + "."@ + field@ + " = "@ + expr_text(
            value,
        ) + ";\n"@,
        Stmt::Return { value, .. } => "return"@ + match value {
            Some(v) => " "@ + expr_text(v),
            None => Seq::empty(),
        } + ";\n"@,
        Stmt::Defer { expr, .. } => "defer "@ + expr_text(expr) + ";\n"@,
        Stmt::Fail { message, .. } => "fail "@ + expr_text(message) + ";\n"@,
        Stmt::Expr { expr, .. } => expr_text(expr) + ";\n"@,
        Stmt::TailExpr { expr, .. } => expr_text(expr) + "\n"@,
        Stmt::If { condition, then_block, else_block, .. } => "if "@ + expr_text(condition) + " {\n"@
            + block_text(then_block, level + 1) + spaces(level) + "}"@ + match else_block {
            Some(b) => " else {\n"@ + block_text(b, level + 1) + spaces(level) + "}"@,
            None => Seq::empty(),
        } + "\n"@,
        Stmt::While { condition, body, .. } => "while "@ + expr_text(condition) + " {\n"@ + block_text(
            body,
            level + 1,
        ) + spaces(level) + "}\n"@,
        Stmt::For { var, start, end, body, .. } => "for "@ + var@ + " in "@ + expr_text(start) + ".."@
            + expr_text(end) + " {\n"@ + block_text(body, level + 1) + spaces(level) + "}\n"@,
        Stmt::Break { .. } => "break;\n"@,
        Stmt::Continue { .. } => "continue;\n"@,
        Stmt::Match { subject, arms, .. } => "match "@ + expr_text(subject) + " {\n"@ + arms_text(
            arms@,
            level + 1,
        ) + spaces(level) + "}\n"@,
    }
}

/// Match arms at indentation `level`.
pub open spec fn arms_text(arms: Seq<MatchArm>, level: nat) -> Seq<char>
    decreases arms, 0nat,
{
    if arms.len() == 0 {
        Seq::empty()
    } else {
        arms_text(arms.drop_last(), level) + spaces(level) + pattern_text(arms.last().pattern)
            + " => {\n"@ + block_text(arms.last().body, level + 1) + spaces(level) + "}\n"@
    }
}

/// The statements of a block at indentation `level`.
pub open spec fn block_text(b: Block, level: nat) -> Seq<char>
    decreases b, 0nat,
{
    stmts_text(b.stmts@, level)
}

pub open spec fn stmts_text(ss: Seq<Stmt>, level: nat) -> Seq<char>
    decreases ss, 0nat,
{
    if ss.len() == 0 {
        Seq::empty()
    } else {
        stmts_text(ss.drop_last(), level) + stmt_text(ss.last(), level)
    }
}

pub open spec fn priv_text(is_private: bool) -> Seq<char> {
    if is_private { "priv "@ } else { Seq::empty() }
}

pub open spec fn variants_text(vs: Seq<String>) -> Seq<char>
    decreases vs.len(),
{
    if vs.len() == 0 {
        Seq::empty()
    } else {
        variants_text(vs.drop_last()) + sep(vs.len() - 1) + vs.last()@
    }
}

pub open spec fn struct_fields_text(fs: Seq<StructField>) -> Seq<char>
    decreases fs.len(),
{
    if fs.len() == 0 {
        Seq::empty()
    } else {
        struct_fields_text(fs.drop_last()) + sep(fs.len() - 1) + fs.last().name@ + ": "@
            + fs.last().ty_name@
    }
}

pub open spec fn params_text(ps: Seq<Param>) -> Seq<char>
    decreases ps.len(),
{
    if ps.len() == 0 {
        Seq::empty()
    } else {
        params_text(ps.drop_last()) + sep(ps.len() - 1) + ps.last().name@ + ": "@ + ps.last().ty_name@
    }
}

pub open spec fn enum_def_text(e: EnumDef, level: nat) -> Seq<char> {
    spaces(level) + priv_text(e.is_private) + "enum "@ + e.name@ + " { "@ + variants_text(e.variants@)
        + " }\n"@
}

pub open spec fn struct_def_text(s: StructDef, level: nat) -> Seq<char> {
    spaces(level) + priv_text(s.is_private) + "struct "@ + s.name@ + " { "@ + struct_fields_text(
        s.fields@,
    ) + " }\n"@
}

pub open spec fn return_text(f: Function) -> Seq<char> {
    match f.return_type {
        Some(r) => " -> "@ + r@ + if f.can_fail { " ! str"@ } else { Seq::empty() },
        None => Seq::empty(),
    }
}

pub open spec fn function_text(f: Function, level: nat) -> Seq<char> {
    spaces(level) + priv_text(f.is_private) + "fn "@ + f.name@ + "("@ + params_text(f.params@) + ")"@
        + return_text(f) + " {\n"@ + block_text(f.body, level + 1) + spaces(level) + "}\n"@
}

pub open spec fn comptime_text(c: ComptimeDef) -> Seq<char> {
    priv_text(c.is_private) + "comptime let "@ + c.name@ + " = "@ + expr_text(c.value) + ";\n"@
}

/// Concatenation of `f(items[i])` over a sequence.
pub open spec fn concat_map<A>(items: Seq<A>, f: spec_fn(A) -> Seq<char>) -> Seq<char>
    decreases items.len(),
{
    if items.len() == 0 {
        Seq::empty()
    } else {
        concat_map(items.drop_last(), f) + f(items.last())
    }
}

/// The whole program: imports, enums, structs, comptime constants, functions.
pub open spec fn program_text(p: Program) -> Seq<char> {
    concat_map(p.imports@, |i: crate::ast::ImportDecl| "import \""@ + i.path@ + "\";\n"@)
        + concat_map(p.enums@, |e: EnumDef| enum_def_text(e, 0))
        + concat_map(p.structs@, |s: StructDef| struct_def_text(s, 0))
        + concat_map(p.comptimes@, |c: ComptimeDef| comptime_text(c))
        + concat_map(p.functions@, |f: Function| function_text(f, 0))
}

/// How deeply blocks nest inside any function of the program.
pub open spec fn functions_depth(fs: Seq<Function>) -> nat
    decreases fs.len(),
{
    if fs.len() == 0 {
        0
    } else {
        max2(functions_depth(fs.drop_last()) as int, block_depth(fs.last().body) as int) as nat
    }
}



// ── Nesting depth ────────────────────────────────────────

/// How deeply blocks nest inside a statement (`None` when the depth does
/// not fit in `usize`).
fn stmt_nesting(s: &Stmt) -> (r: Option<usize>)
    ensures
        match r {
            Some(n) => n == stmt_depth(*s),
            None => stmt_depth(*s) > usize::MAX,
        },
    decreases s,
{
    match s {
        Stmt::If { then_block, else_block, .. } => {
            let a = match block_nesting(then_block) {
                Some(a) => a,
                None => {
                    return None;
                },
            };
            let b = match else_block {
                Some(eb) => match block_nesting(eb) {
                    Some(b) => b,
                    None => {
                        return None;
                    },
                },
                None => 0,
            };
            let m = if a >= b {
                a
            } else {
                b
            };
            m.checked_add(1)
        },
        Stmt::While { body, .. } => match block_nesting(body) {
            Some(b) => b.checked_add(1),
            None => None,
        },
        Stmt::For { body, .. } => match block_nesting(body) {
            Some(b) => b.checked_add(1),
            None => None,
        },
        Stmt::Match { arms, .. } => match arms_nesting(arms) {
            Some(m) => m.checked_add(2),
            None => None,
        },
        _ => Some(0),
    }
}

/// How deeply blocks nest inside match arms.
fn arms_nesting(arms: &Vec<MatchArm>) -> (r: Option<usize>)
    ensures
        match r {
            Some(n) => n == arms_depth(arms@),
            None => arms_depth(arms@) > usize::MAX,
        },
    decreases arms,
{
    let mut m: usize = 0;
    let mut i: usize = 0;
    assert(arms@.take(0) =~= Seq::<MatchArm>::empty());
    while i < arms.len()
        invariant
            i <= arms@.len(),
            m == arms_depth(arms@.take(i as int)),
        decreases arms@.len() - i,
    {
        assert(arms@.take(i + 1).drop_last() =~= arms@.take(i as int));
        let d = match block_nesting(&arms[i].body) {
            Some(d) => d,
            None => {
                proof {
                    lemma_arms_depth(arms@, i as int);
                }
                return None;
            },
        };
        if d > m {
            m = d;
        }
        i += 1;
    }
    assert(arms@.take(i as int) =~= arms@);
    Some(m)
}

/// How deeply blocks nest inside a block.
fn block_nesting(b: &Block) -> (r: Option<usize>)
    ensures
        match r {
            Some(n) => n == block_depth(*b),
            None => block_depth(*b) > usize::MAX,
        },
    decreases b,
{
    let mut m: usize = 0;
    let mut i: usize = 0;
    assert(b.stmts@.take(0) =~= Seq::<Stmt>::empty());
    while i < b.stmts.len()
        invariant
            i <= b.stmts@.len(),
            m == stmts_depth(b.stmts@.take(i as int)),
        decreases b.stmts@.len() - i,
    {
        assert(b.stmts@.take(i + 1).drop_last() =~= b.stmts@.take(i as int));
        let d = match stmt_nesting(&b.stmts[i]) {
            Some(d) => d,
            None => {
                proof {
                    lemma_stmts_depth(b.stmts@, i as int);
                }
                return None;
            },
        };
        if d > m {
            m = d;
        }
        i += 1;
    }
    assert(b.stmts@.take(i as int) =~= b.stmts@);
    Some(m)
}

/// How deeply blocks nest inside any function of a program (`None` when
/// the depth does not fit in `usize`). The checker and the printer need it
/// below `usize::MAX`.
pub fn nesting_depth(functions: &Vec<Function>) -> (r: Option<usize>)
    ensures
        match r {
            Some(n) => n == functions_depth(functions@),
            None => functions_depth(functions@) > usize::MAX,
        },
{
    let mut m: usize = 0;
    let mut i: usize = 0;
    assert(functions@.take(0) =~= Seq::<Function>::empty());
    while i < functions.len()
        invariant
            i <= functions@.len(),
            m == functions_depth(functions@.take(i as int)),
        decreases functions@.len() - i,
    {
        assert(functions@.take(i + 1).drop_last() =~= functions@.take(i as int));
        let d = match block_nesting(&functions[i].body) {
            Some(d) => d,
            None => {
                proof {
                    lemma_functions_depth(functions@, i as int);
                }
                return None;
            },
        };
        if d > m {
            m = d;
        }
        i += 1;
    }
    assert(functions@.take(i as int) =~= functions@);
    Some(m)
}

// ── The printer ──────────────────────────────────────────

/// Render a whole program.
pub fn pretty_print(program: &Program) -> (out: String)
    requires
        2 * functions_depth(program.functions@) + 4 < usize::MAX,
    ensures
        out@ == program_text(*program),
{
    let mut out = String::new();
    let mut i: usize = 0;
    while i < program.imports.len()
        invariant
            i <= program.imports@.len(),
            out@ == concat_map(program.imports@.take(i as int), |i: crate::ast::ImportDecl| "import \""@ + i.path@ + "\";\n"@),
        decreases program.imports@.len() - i,
    {
        push_str(&mut out, "import \"");
        push_string(&mut out, &program.imports[i].path);
        push_str(&mut out, "\";\n");
        assert(program.imports@.take(i + 1).drop_last() =~= program.imports@.take(i as int));
        i += 1;
    }
    assert(program.imports@.take(i as int) =~= program.imports@);
    let ghost after_imports = out@;
    let mut i: usize = 0;
    while i < program.enums.len()
        invariant
            i <= program.enums@.len(),
            out@ == after_imports + concat_map(program.enums@.take(i as int), |e: EnumDef| enum_def_text(e, 0)),
        decreases program.enums@.len() - i,
    {
        print_enum_def(&mut out, &program.enums[i], 0);
        assert(program.enums@.take(i + 1).drop_last() =~= program.enums@.take(i as int));
        i += 1;
    }
    assert(program.enums@.take(i as int) =~= program.enums@);
    let ghost after_enums = out@;
    let mut i: usize = 0;
    while i < program.structs.len()
        invariant
            i <= program.structs@.len(),
            out@ == after_enums + concat_map(program.structs@.take(i as int), |s: StructDef| struct_def_text(s, 0)),
        decreases program.structs@.len() - i,
    {
        print_struct_def(&mut out, &program.structs[i], 0);
        assert(program.structs@.take(i + 1).drop_last() =~= program.structs@.take(i as int));
        i += 1;
    }
    assert(program.structs@.take(i as int) =~= program.structs@);
    let ghost after_structs = out@;
    let mut i: usize = 0;
    while i < program.comptimes.len()
        invariant
            i <= program.comptimes@.len(),
            out@ == after_structs + concat_map(program.comptimes@.take(i as int), |c: ComptimeDef| comptime_text(c)),
        decreases program.comptimes@.len() - i,
    {
        let ct = &program.comptimes[i];
        let ghost before = out@;
        if ct.is_private {
            push_str(&mut out, "priv ");
        }
        push_str(&mut out, "comptime let ");
        push_string(&mut out, &ct.name);
        push_str(&mut out, " = ");
        print_expr(&mut out, &ct.value);
        push_str(&mut out, ";\n");
        assert(out@ =~= before + comptime_text(*ct));
        assert(program.comptimes@.take(i + 1).drop_last() =~= program.comptimes@.take(i as int));
        i += 1;
    }
    assert(program.comptimes@.take(i as int) =~= program.comptimes@);
    let ghost after_comptimes = out@;
    let mut i: usize = 0;
    while i < program.functions.len()
        invariant
            i <= program.functions@.len(),
            2 * functions_depth(program.functions@) + 4 < usize::MAX,
            out@ == after_comptimes + concat_map(program.functions@.take(i as int), |f: Function| function_text(f, 0)),
        decreases program.functions@.len() - i,
    {
        proof {
            lemma_functions_depth(program.functions@, i as int);
        }
        print_function(&mut out, &program.functions[i], 0);
        assert(program.functions@.take(i + 1).drop_last() =~= program.functions@.take(i as int));
        i += 1;
    }
    assert(program.functions@.take(i as int) =~= program.functions@);
    out
}

pub proof fn lemma_functions_depth(fs: Seq<Function>, i: int)
    requires
        0 <= i < fs.len(),
    ensures
        block_depth(fs[i].body) <= functions_depth(fs),
    decreases fs.len(),
{
    if i < fs.len() - 1 {
        lemma_functions_depth(fs.drop_last(), i);
    }
}

pub proof fn lemma_stmts_depth(ss: Seq<Stmt>, i: int)
    requires
        0 <= i < ss.len(),
    ensures
        stmt_depth(ss[i]) <= stmts_depth(ss),
    decreases ss.len(),
{
    if i < ss.len() - 1 {
        lemma_stmts_depth(ss.drop_last(), i);
    }
}

pub proof fn lemma_arms_depth(arms: Seq<MatchArm>, i: int)
    requires
        0 <= i < arms.len(),
    ensures
        block_depth(arms[i].body) <= arms_depth(arms),
    decreases arms.len(),
{
    if i < arms.len() - 1 {
        lemma_arms_depth(arms.drop_last(), i);
    }
}

/// Write `2 * level` spaces.
fn indent(out: &mut String, level: usize)
    ensures
        final(out)@ == old(out)@ + spaces(level as nat),
{
    let mut i: usize = 0;
    while i < level
        invariant
            i <= level,
            out@ == old(out)@ + spaces(i as nat),
        decreases level - i,
    {
        out.push(' ');
        out.push(' ');
        assert(out@ =~= old(out)@ + spaces((i + 1) as nat));
        i += 1;
    }
}

fn print_enum_def(out: &mut String, enum_def: &EnumDef, level: usize)
    ensures
        final(out)@ == old(out)@ + enum_def_text(*enum_def, level as nat),
{
    indent(out, level);
    if enum_def.is_private {
        push_str(out, "priv ");
    }
    push_str(out, "enum ");
    push_string(out, &enum_def.name);
    push_str(out, " { ");
    let ghost mid = out@;
    let mut i: usize = 0;
    while i < enum_def.variants.len()
        invariant
            i <= enum_def.variants@.len(),
            out@ == mid + variants_text(enum_def.variants@.take(i as int)),
        decreases enum_def.variants@.len() - i,
    {
        if i > 0 {
            push_str(out, ", ");
        }
        push_string(out, &enum_def.variants[i]);
        assert(enum_def.variants@.take(i + 1).drop_last() =~= enum_def.variants@.take(i as int));
        assert(out@ =~= mid + variants_text(enum_def.variants@.take(i + 1)));
        i += 1;
    }
    assert(enum_def.variants@.take(i as int) =~= enum_def.variants@);
    push_str(out, " }\n");
    assert(out@ =~= old(out)@ + enum_def_text(*enum_def, level as nat));
}

fn print_struct_def(out: &mut String, struct_def: &StructDef, level: usize)
    ensures
        final(out)@ == old(out)@ + struct_def_text(*struct_def, level as nat),
{
    indent(out, level);
    if struct_def.is_private {
        push_str(out, "priv ");
    }
    push_str(out, "struct ");
    push_string(out, &struct_def.name);
    push_str(out, " { ");
    let ghost mid = out@;
    let mut i: usize = 0;
    while i < struct_def.fields.len()
        invariant
            i <= struct_def.fields@.len(),
            out@ == mid + struct_fields_text(struct_def.fields@.take(i as int)),
        decreases struct_def.fields@.len() - i,
    {
        if i > 0 {
            push_str(out, ", ");
        }
        let field = &struct_def.fields[i];
        push_string(out, &field.name);
        push_str(out, ": ");
        push_string(out, &field.ty_name);
        assert(struct_def.fields@.take(i + 1).drop_last() =~= struct_def.fields@.take(i as int));
        assert(out@ =~= mid + struct_fields_text(struct_def.fields@.take(i + 1)));
        i += 1;
    }
    assert(struct_def.fields@.take(i as int) =~= struct_def.fields@);
    push_str(out, " }\n");
    assert(out@ =~= old(out)@ + struct_def_text(*struct_def, level as nat));
}

#[verifier::spinoff_prover]
#[verifier::rlimit(60)]
fn print_function(out: &mut String, func: &Function, level: usize)
    requires
        level + 2 * block_depth(func.body) + 4 < usize::MAX,
    ensures
        final(out)@ == old(out)@ + function_text(*func, level as nat),
{
    indent(out, level);
    if func.is_private {
        push_str(out, "priv ");
    }
    push_str(out, "fn ");
    push_string(out, &func.name);
    push_str(out, "(");
    let ghost mid = out@;
    let mut i: usize = 0;
    while i < func.params.len()
        invariant
            i <= func.params@.len(),
            out@ == mid + params_text(func.params@.take(i as int)),
        decreases func.params@.len() - i,
    {
        if i > 0 {
            push_str(out, ", ");
        }
        let param = &func.params[i];
        push_string(out, &param.name);
        push_str(out, ": ");
        push_string(out, &param.ty_name);
        assert(func.params@.take(i + 1).drop_last() =~= func.params@.take(i as int));
        assert(out@ =~= mid + params_text(func.params@.take(i + 1)));
        i += 1;
    }
    assert(func.params@.take(i as int) =~= func.params@);
    push_str(out, ")");
    let ghost before_ret = out@;
    if let Some(ret) = &func.return_type {
        push_str(out, " -> ");
        push_string(out, ret);
        if func.can_fail {
            push_str(out, " ! str");
        }
    }
    assert(out@ =~= before_ret + return_text(*func));
    push_str(out, " {\n");
    print_block(out, &func.body, level + 1);
    indent(out, level);
    push_str(out, "}\n");
    assert(out@ =~= old(out)@ + function_text(*func, level as nat));
}

fn print_block(out: &mut String, block: &Block, level: usize)
    requires
        level + 2 * block_depth(*block) + 2 < usize::MAX,
    ensures
        final(out)@ == old(out)@ + block_text(*block, level as nat),
    decreases block, 0nat,
{
    let mut i: usize = 0;
    while i < block.stmts.len()
        invariant
            i <= block.stmts@.len(),
            level + 2 * block_depth(*block) + 2 < usize::MAX,
            out@ == old(out)@ + stmts_text(block.stmts@.take(i as int), level as nat),
        decreases block.stmts@.len() - i,
    {
        proof {
            lemma_stmts_depth(block.stmts@, i as int);
        }
        print_stmt(out, &block.stmts[i], level);
        assert(block.stmts@.take(i + 1).drop_last() =~= block.stmts@.take(i as int));
        i += 1;
    }
    assert(block.stmts@.take(i as int) =~= block.stmts@);
}

fn print_let(out: &mut String, stmt: &Stmt, level: usize)
    requires
        stmt is Let,
    ensures
        final(out)@ == old(out)@ + stmt_body_text(*stmt, level as nat),
{
    if let Stmt::Let { name, mutable, ty_name, value, .. } = stmt {
        push_str(out, "let ");
        if *mutable {
            push_str(out, "mut ");
        }
        push_string(out, name);
        let ghost mid = out@;
        if let Some(t) = ty_name {
            push_str(out, ": ");
            push_string(out, t);
        }
        assert(out@ =~= mid + match *ty_name {
            Some(t) => ": "@ + t@,
            None => Seq::empty(),
        });
        push_str(out, " = ");
        print_expr(out, value);
        push_str(out, ";\n");
        assert(out@ =~= old(out)@ + stmt_body_text(*stmt, level as nat));
    }
}

#[verifier::rlimit(60)]
fn print_if(out: &mut String, stmt: &Stmt, level: usize)
    requires
        stmt is If,
        level + 2 * stmt_depth(*stmt) + 2 < usize::MAX,
    ensures
        final(out)@ == old(out)@ + stmt_body_text(*stmt, level as nat),
    decreases stmt, 0nat,
{
    if let Stmt::If { condition, then_block, else_block, .. } = stmt {
        push_str(out, "if ");
        print_expr(out, condition);
        push_str(out, " {\n");
        print_block(out, then_block, level + 1);
        indent(out, level);
        push_str(out, "}");
        let ghost mid = out@;
        assert(mid =~= old(out)@ + ("if "@ + expr_text(*condition) + " {\n"@ + block_text(*then_block, (level + 1) as nat) + spaces(level as nat) + "}"@));
        if let Some(else_b) = else_block {
            push_str(out, " else {\n");
            print_block(out, else_b, level + 1);
            indent(out, level);
            push_str(out, "}");
        }
        assert(out@ =~= mid + match *else_block {
            Some(b) => " else {\n"@ + block_text(b, (level + 1) as nat) + spaces(level as nat) + "}"@,
            None => Seq::empty(),
        });
        push_str(out, "\n");
        assert(out@ =~= old(out)@ + stmt_body_text(*stmt, level as nat));
    }
}

#[verifier::spinoff_prover]
#[verifier::rlimit(60)]
fn print_stmt(out: &mut String, stmt: &Stmt, level: usize)
    requires
        level + 2 * stmt_depth(*stmt) + 2 < usize::MAX,
    ensures
        final(out)@ == old(out)@ + stmt_text(*stmt, level as nat),
    decreases stmt, 1nat,
{
    indent(out, level);
    let ghost start = out@;
    match stmt {
        Stmt::Let { .. } => print_let(out, stmt, level),
        Stmt::Assign { name, value, .. } => {
            push_string(out, name);
            push_str(out, " = ");
            print_expr(out, value);
            push_str(out, ";\n");
            assert(out@ =~= start + stmt_body_text(*stmt, level as nat));
        },
        Stmt::IndexAssign { object, index, value, .. } => {
            push_string(out, object);
            push_str(out, "[");
            print_expr(out, index);
            push_str(out, "] = ");
            print_expr(out, value);
            push_str(out, ";\n");
            assert(out@ =~= start + stmt_body_text(*stmt, level as nat));
        },
        Stmt::FieldAssign { object, field, value, .. } => {
            push_string(out, object);
            push_str(out, ".");
            push_string(out, field);
            push_str(out, " = ");
            print_expr(out, value);
            push_str(out, ";\n");
            assert(out@ =~= start + stmt_body_text(*stmt, level as nat));
        },
        Stmt::Return { value, .. } => {
            push_str(out, "return");
            if let Some(v) = value {
                push_str(out, " ");
                print_expr(out, v);
            }
            push_str(out, ";\n");
            assert(out@ =~= start + stmt_body_text(*stmt, level as nat));
        },
        Stmt::Defer { expr, .. } => {
            push_str(out, "defer ");
            print_expr(out, expr);
            push_str(out, ";\n");
            assert(out@ =~= start + stmt_body_text(*stmt, level as nat));
        },
        Stmt::Fail { message, .. } => {
            push_str(out, "fail ");
            print_expr(out, message);
            push_str(out, ";\n");
            assert(out@ =~= start + stmt_body_text(*stmt, level as nat));
        },
        Stmt::Expr { expr, .. } => {
            print_expr(out, expr);
            push_str(out, ";\n");
            assert(out@ =~= start + stmt_body_text(*stmt, level as nat));
        },
        Stmt::TailExpr { expr, .. } => {
            print_expr(out, expr);
            push_str(out, "\n");
            assert(out@ =~= start + stmt_body_text(*stmt, level as nat));
        },
        Stmt::If { .. } => print_if(out, stmt, level),
        Stmt::While { condition, body, .. } => {
            push_str(out, "while ");
            print_expr(out, condition);
            push_str(out, " {\n");
            print_block(out, body, level + 1);
            indent(out, level);
            push_str(out, "}\n");
            assert(out@ =~= start + stmt_body_text(*stmt, level as nat));
        },
        Stmt::For { var, start: from, end, body, .. } => {
            push_str(out, "for ");
            push_string(out, var);
            push_str(out, " in ");
            print_expr(out, from);
            push_str(out, "..");
            print_expr(out, end);
            push_str(out, " {\n");
            print_block(out, body, level + 1);
            indent(out, level);
            push_str(out, "}\n");
            assert(out@ =~= start + stmt_body_text(*stmt, level as nat));
        },
        Stmt::Break { .. } => {
            push_str(out, "break;\n");
            assert(out@ =~= start + stmt_body_text(*stmt, level as nat));
        },
        Stmt::Continue { .. } => {
            push_str(out, "continue;\n");
            assert(out@ =~= start + stmt_body_text(*stmt, level as nat));
        },
        Stmt::Match { subject, arms, .. } => {
            push_str(out, "match ");
            print_expr(out, subject);
            push_str(out, " {\n");
            print_arms(out, arms, level + 1);
            indent(out, level);
            push_str(out, "}\n");
            assert(out@ =~= start + stmt_body_text(*stmt, level as nat));
        },
    }
    assert(out@ =~= old(out)@ + stmt_text(*stmt, level as nat));
}

fn print_expr(out: &mut String, expr: &Expr)
    ensures
        final(out)@ == old(out)@ + expr_text(*expr),
    decreases expr,
{
    match expr {
        Expr::IntLit { value, .. } => push_i64(out, *value),
        Expr::BoolLit { value, .. } => {
            if *value {
                push_str(out, "true");
            } else {
                push_str(out, "false");
            }
        },
        Expr::StringLit { value, .. } => {
            push_str(out, "\"");
            push_string(out, value);
            push_str(out, "\"");
        },
        Expr::Ident { name, .. } => push_string(out, name),
        Expr::BinaryOp { op, left, right, .. } => {
            push_str(out, "(");
            print_expr(out, left);
            let op_str = match op {
                BinOp::Add => " + ",
                BinOp::Sub => " - ",
                BinOp::Mul => " * ",
                BinOp::Div => " / ",
                BinOp::Mod => " % ",
                BinOp::Eq => " == ",
                BinOp::Neq => " != ",
                BinOp::Lt => " < ",
                BinOp::Gt => " > ",
                BinOp::Lte => " <= ",
                BinOp::Gte => " >= ",
                BinOp::And => " && ",
                BinOp::Or => " || ",
            };
            assert(op_str@ == binop_text(*op));
            push_str(out, op_str);
            print_expr(out, right);
            push_str(out, ")");
        },
        Expr::UnaryOp { op, operand, .. } => {
            let op_str = match op {
                UnaryOp::Neg => "-",
                UnaryOp::Not => "!",
            };
            assert(op_str@ == unop_text(*op));
            push_str(out, op_str);
            print_expr(out, operand);
        },
        Expr::Call { name, args, .. } => {
            push_string(out, name);
            push_str(out, "(");
            print_exprs(out, args);
            push_str(out, ")");
        },
        Expr::ArrayLit { elements, .. } => {
            push_str(out, "[");
            print_exprs(out, elements);
            push_str(out, "]");
        },
        Expr::Index { object, index, .. } => {
            print_expr(out, object);
            push_str(out, "[");
            print_expr(out, index);
            push_str(out, "]");
        },
        Expr::EnumVariant { enum_name, variant, .. } => {
            push_string(out, enum_name);
            push_str(out, "::");
            push_string(out, variant);
        },
        Expr::StructLit { name, fields, .. } => {
            push_string(out, name);
            push_str(out, " { ");
            print_fields(out, fields);
            push_str(out, " }");
        },
        Expr::FieldAccess { object, field, .. } => {
            print_expr(out, object);
            push_str(out, ".");
            push_string(out, field);
        },
        Expr::Try { expr, .. } => {
            push_str(out, "try ");
            print_expr(out, expr);
        },
        Expr::Cast { expr, target, .. } => {
            print_expr(out, expr);
            push_str(out, " as ");
            push_string(out, target);
        },
    }
    assert(out@ =~= old(out)@ + expr_text(*expr));
}

/// Write match arms at indentation `level`.
fn print_arms(out: &mut String, arms: &Vec<MatchArm>, level: usize)
    requires
        level + 2 * (1 + arms_depth(arms@)) + 2 < usize::MAX,
    ensures
        final(out)@ == old(out)@ + arms_text(arms@, level as nat),
    decreases arms, 0nat,
{
    let mut i: usize = 0;
    while i < arms.len()
        invariant
            i <= arms@.len(),
            level + 2 * (1 + arms_depth(arms@)) + 2 < usize::MAX,
            out@ == old(out)@ + arms_text(arms@.take(i as int), level as nat),
        decreases arms@.len() - i,
    {
        let arm = &arms[i];
        proof {
            lemma_arms_depth(arms@, i as int);
        }
        let ghost before = out@;
        indent(out, level);
        match &arm.pattern {
            Pattern::IntLit(v, _) => push_i64(out, *v),
            Pattern::BoolLit(v, _) => {
                if *v {
                    push_str(out, "true");
                } else {
                    push_str(out, "false");
                }
            },
            Pattern::Wildcard(_) => push_str(out, "_"),
            Pattern::EnumVariant(enum_name, variant, _) => {
                push_string(out, enum_name);
                push_str(out, "::");
                push_string(out, variant);
            },
        }
        assert(out@ =~= before + spaces(level as nat) + pattern_text(arm.pattern));
        push_str(out, " => {\n");
        print_block(out, &arm.body, level + 1);
        indent(out, level);
        push_str(out, "}\n");
        assert(arms@.take(i + 1).drop_last() =~= arms@.take(i as int));
        assert(out@ =~= old(out)@ + arms_text(arms@.take(i + 1), level as nat));
        i += 1;
    }
    assert(arms@.take(i as int) =~= arms@);
}

/// Write struct-literal fields `name: value` separated by `, `.
fn print_fields(out: &mut String, fields: &Vec<(String, Expr)>)
    ensures
        final(out)@ == old(out)@ + fields_text(fields@),
    decreases fields,
{
    let mut i: usize = 0;
    while i < fields.len()
        invariant
            i <= fields@.len(),
            out@ == old(out)@ + fields_text(fields@.take(i as int)),
        decreases fields@.len() - i,
    {
        if i > 0 {
            push_str(out, ", ");
        }
        let field = &fields[i];
        push_string(out, &field.0);
        push_str(out, ": ");
        print_expr(out, &field.1);
        assert(fields@.take(i + 1).drop_last() =~= fields@.take(i as int));
        assert(out@ =~= old(out)@ + fields_text(fields@.take(i + 1)));
        i += 1;
    }
    assert(fields@.take(i as int) =~= fields@);
}

/// Write expressions separated by `, `.
fn print_exprs(out: &mut String, es: &Vec<Expr>)
    ensures
        final(out)@ == old(out)@ + exprs_text(es@),
    decreases es,
{
    let mut i: usize = 0;
    while i < es.len()
        invariant
            i <= es@.len(),
            out@ == old(out)@ + exprs_text(es@.take(i as int)),
        decreases es@.len() - i,
    {
        if i > 0 {
            push_str(out, ", ");
        }
        print_expr(out, &es[i]);
        assert(es@.take(i + 1).drop_last() =~= es@.take(i as int));
        assert(out@ =~= old(out)@ + exprs_text(es@.take(i + 1)));
        i += 1;
    }
    assert(es@.take(i as int) =~= es@);
}

} // verus!
