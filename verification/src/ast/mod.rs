//! AST node definitions — the tree structure that represents a Ferro program.

pub mod pretty;

use vstd::prelude::*;
use crate::error::Span;

verus! {

/// A complete Ferro program: a list of top-level items.
#[derive(Debug)]
pub struct Program {
    pub imports: Vec<ImportDecl>,
    pub functions: Vec<Function>,
    pub enums: Vec<EnumDef>,
    pub structs: Vec<StructDef>,
    pub comptimes: Vec<ComptimeDef>,
}

/// An import declaration: `import "path.ferro";`
#[derive(Debug)]
pub struct ImportDecl {
    pub path: String,
    pub span: Span,
}

/// A comptime constant: `comptime let NAME = expr;`
#[derive(Debug)]
pub struct ComptimeDef {
    pub name: String,
    pub value: Expr,
    pub is_private: bool,
    pub span: Span,
}

/// An enum definition: `enum Color { Red, Green, Blue }`
#[derive(Debug)]
pub struct EnumDef {
    pub name: String,
    pub variants: Vec<String>,
    pub is_private: bool,
    pub span: Span,
}

/// A struct definition: `struct Point { x: i64, y: i64 }`
#[derive(Debug)]
pub struct StructDef {
    pub name: String,
    pub fields: Vec<StructField>,
    pub is_private: bool,
    pub span: Span,
}

/// A field in a struct definition.
#[derive(Debug)]
pub struct StructField {
    pub name: String,
    pub ty_name: String,
    pub span: Span,
}

/// A function definition: `fn name(params) -> return_type { body }`.
/// Failable functions: `fn name(params) -> return_type ! str { body }`.
#[derive(Debug)]
pub struct Function {
    pub name: String,
    pub params: Vec<Param>,
    /// None means no return type (void).
    pub return_type: Option<String>,
    /// True if `-> T ! str`.
    pub can_fail: bool,
    /// True if `priv fn`.
    pub is_private: bool,
    pub body: Block,
    pub span: Span,
}

/// A function parameter: `name: type`
#[derive(Debug)]
pub struct Param {
    pub name: String,
    pub ty_name: String,
    pub span: Span,
}

/// A block of statements: `{ stmt1; stmt2; ... }`
#[derive(Debug)]
pub struct Block {
    pub stmts: Vec<Stmt>,
    pub span: Span,
}

/// A statement — things that do something but don't produce a value.
#[derive(Debug)]
pub enum Stmt {
    /// `let x: i64 = expr;` or `let mut x: i64 = expr;`
    Let { name: String, mutable: bool, ty_name: Option<String>, value: Expr, span: Span },
    /// `x = expr;`
    Assign { name: String, value: Expr, span: Span },
    /// `arr[index] = expr;`
    IndexAssign { object: String, index: Expr, value: Expr, span: Span },
    /// `obj.field = expr;`
    FieldAssign { object: String, field: String, value: Expr, span: Span },
    /// `return expr;`
    Return { value: Option<Expr>, span: Span },
    /// `defer expr;` — runs expr when the function returns (LIFO order)
    Defer { expr: Expr, span: Span },
    /// `fail expr;` — return an error from a failable function
    Fail { message: Expr, span: Span },
    /// An expression used as a statement (e.g. a call: `print(x);`)
    Expr { expr: Expr, span: Span },
    /// Implicit return: last expression in a block without semicolon.
    TailExpr { expr: Expr, span: Span },
    /// `if condition { ... } else { ... }`
    If { condition: Expr, then_block: Block, else_block: Option<Block>, span: Span },
    /// `while condition { ... }`
    While { condition: Expr, body: Block, span: Span },
    /// `for var in start..end { ... }`
    For { var: String, start: Expr, end: Expr, body: Block, span: Span },
    /// `break;`
    Break { span: Span },
    /// `continue;`
    Continue { span: Span },
    /// `match subject { pattern => { body } ... }`
    Match { subject: Expr, arms: Vec<MatchArm>, span: Span },
}

/// A single arm of a match statement.
#[derive(Debug)]
pub struct MatchArm {
    pub pattern: Pattern,
    pub body: Block,
    pub span: Span,
}

/// A pattern in a match arm.
#[derive(Debug)]
pub enum Pattern {
    /// Integer literal: `42`
    IntLit(i64, Span),
    /// Boolean literal: `true` / `false`
    BoolLit(bool, Span),
    /// Wildcard: `_`
    Wildcard(Span),
    /// Enum variant: `Color::Red`
    EnumVariant(String, String, Span),
}

/// An expression — things that produce a value.
#[derive(Debug)]
pub enum Expr {
    /// Integer literal: `42`
    IntLit { value: i64, span: Span },
    /// Boolean literal: `true` or `false`
    BoolLit { value: bool, span: Span },
    /// String literal: `"hello"`
    StringLit { value: String, span: Span },
    /// Variable reference: `x`
    Ident { name: String, span: Span },
    /// Binary operation: `a + b`, `x == y`
    BinaryOp { op: BinOp, left: Box<Expr>, right: Box<Expr>, span: Span },
    /// Unary operation: `-x`, `!flag`
    UnaryOp { op: UnaryOp, operand: Box<Expr>, span: Span },
    /// Function call: `add(1, 2)`
    Call { name: String, args: Vec<Expr>, span: Span },
    /// Array literal: `[1, 2, 3]`
    ArrayLit { elements: Vec<Expr>, span: Span },
    /// Index expression: `arr[i]`
    Index { object: Box<Expr>, index: Box<Expr>, span: Span },
    /// Enum variant expression: `Color::Red`
    EnumVariant { enum_name: String, variant: String, span: Span },
    /// Struct literal: `Point { x: 10, y: 20 }`
    StructLit { name: String, fields: Vec<(String, Expr)>, span: Span },
    /// Field access: `p.x`
    FieldAccess { object: Box<Expr>, field: String, span: Span },
    /// Try expression: `try expr` — unwrap or propagate an error
    Try { expr: Box<Expr>, span: Span },
    /// Type cast: `expr as type` — e.g. `65 as str`, `x as bool`
    Cast { expr: Box<Expr>, target: String, span: Span },
}

/// Binary operators.
#[derive(Debug, Clone, Copy, PartialEq, Eq, Structural)]
pub enum BinOp {
    Add,
    Sub,
    Mul,
    Div,
    Mod,
    Eq,
    Neq,
    Lt,
    Gt,
    Lte,
    Gte,
    And,
    Or,
}

/// Unary operators.
#[derive(Debug, Clone, Copy, PartialEq, Eq, Structural)]
pub enum UnaryOp {
    Neg,
    Not,
}

/// The larger of two integers.
pub open spec fn max2(a: int, b: int) -> int {
    if a >= b { a } else { b }
}

/// How deeply blocks nest inside a statement.
pub open spec fn stmt_depth(s: Stmt) -> nat
    decreases s,
{
    match s {
        Stmt::If { then_block, else_block, .. } => {
            let e = match else_block {
                Some(b) => block_depth(b),
                None => 0,
            };
            1 + max2(block_depth(then_block) as int, e as int) as nat
        },
        Stmt::While { body, .. } => 1 + block_depth(body),
        Stmt::For { body, .. } => 1 + block_depth(body),
        Stmt::Match { arms, .. } => 2 + arms_depth(arms@),
        _ => 0,
    }
}

/// How deeply blocks nest inside the statements of a block.
pub open spec fn block_depth(b: Block) -> nat
    decreases b,
{
    stmts_depth(b.stmts@)
}

/// The deepest nesting among statements.
pub open spec fn stmts_depth(ss: Seq<Stmt>) -> nat
    decreases ss,
{
    if ss.len() == 0 {
        0
    } else {
        max2(stmts_depth(ss.drop_last()) as int, stmt_depth(ss.last()) as int) as nat
    }
}

/// The deepest nesting among match arms' bodies.
pub open spec fn arms_depth(arms: Seq<MatchArm>) -> nat
    decreases arms,
{
    if arms.len() == 0 {
        0
    } else {
        max2(arms_depth(arms.drop_last()) as int, block_depth(arms.last().body) as int) as nat
    }
}

} // verus!
