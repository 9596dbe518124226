//! What the emitted code of an operator computes, on a small model of the
//! x86-64 registers and stack.
//!
//! Each instruction the operator code uses is named here with its text and
//! its effect; the law at the end runs the code of each arithmetic and
//! comparison operator and reads its result from RAX.

use vstd::prelude::*;
use crate::ast::{BinOp, UnaryOp};
use crate::codegen::model::{asm_line, op_tail, unary_code};

verus! {

/// A condition that `set<cc> %al` tests after `cmpq %rcx, %rax`.
pub enum Cond {
    Equal,
    NotEqual,
    Less,
    Greater,
    LessEqual,
    GreaterEqual,
}

/// The instructions of operator code.
pub enum Instr {
    /// `movq %rax, %rcx`
    MovRaxToRcx,
    /// `movq %rdx, %rax`
    MovRdxToRax,
    /// `negq %rax`
    NegRax,
    /// `popq %rax`
    PopRax,
    /// `cmpq %rcx, %rax`: the flags of RAX minus RCX.
    CompareRaxRcx,
    /// `set<cc> %al`
    SetAl(Cond),
    /// `set<cc> %cl`
    SetCl(Cond),
    /// `testq %rax, %rax`: the flags of RAX compared with 0.
    TestRax,
    /// `testq %rcx, %rcx`: the flags of RCX compared with 0.
    TestRcx,
    /// `andb %cl, %al`
    AndClIntoAl,
    /// `orq %rcx, %rax`
    OrRcxIntoRax,
    /// `movzbq %al, %rax`
    MovzbAlToRax,
    /// `addq %rcx, %rax`
    AddRcxToRax,
    /// `subq %rcx, %rax`
    SubRcxFromRax,
    /// `imulq %rcx, %rax`
    ImulRcxRax,
    /// `cqto`: RDX holds the sign of RAX.
    Cqto,
    /// `idivq %rcx`: RDX:RAX divided by RCX, the quotient (rounded toward
    /// zero) in RAX and the remainder in RDX.
    IdivRcx,
}

/// The assembly text of an instruction.
pub open spec fn instr_text(i: Instr) -> Seq<char> {
    match i {
        Instr::MovRaxToRcx => "movq %rax, %rcx"@,
        Instr::MovRdxToRax => "movq %rdx, %rax"@,
        Instr::NegRax => "negq %rax"@,
        Instr::PopRax => "popq %rax"@,
        Instr::CompareRaxRcx => "cmpq %rcx, %rax"@,
        Instr::SetAl(c) => match c {
            Cond::Equal => "sete %al"@,
            Cond::NotEqual => "setne %al"@,
            Cond::Less => "setl %al"@,
            Cond::Greater => "setg %al"@,
            Cond::LessEqual => "setle %al"@,
            Cond::GreaterEqual => "setge %al"@,
        },
        Instr::SetCl(c) => match c {
            Cond::Equal => "sete %cl"@,
            Cond::NotEqual => "setne %cl"@,
            Cond::Less => "setl %cl"@,
            Cond::Greater => "setg %cl"@,
            Cond::LessEqual => "setle %cl"@,
            Cond::GreaterEqual => "setge %cl"@,
        },
        Instr::TestRax => "testq %rax, %rax"@,
        Instr::TestRcx => "testq %rcx, %rcx"@,
        Instr::AndClIntoAl => "andb %cl, %al"@,
        Instr::OrRcxIntoRax => "orq %rcx, %rax"@,
        Instr::MovzbAlToRax => "movzbq %al, %rax"@,
        Instr::AddRcxToRax => "addq %rcx, %rax"@,
        Instr::SubRcxFromRax => "subq %rcx, %rax"@,
        Instr::ImulRcxRax => "imulq %rcx, %rax"@,
        Instr::Cqto => "cqto"@,
        Instr::IdivRcx => "idivq %rcx"@,
    }
}

/// The text of a program, one instruction per line.
pub open spec fn program_text(p: Seq<Instr>) -> Seq<char>
    decreases p.len(),
{
    if p.len() == 0 {
        Seq::empty()
    } else {
        program_text(p.drop_last()) + asm_line(instr_text(p.last()))
    }
}

/// The registers an operator's code uses, as signed integers, the byte
/// registers AL and CL (kept apart: the code sets them only to combine them
/// or zero-extend AL into RAX next), the two values the last `cmpq` or
/// `testq` compared, and the stack (its top last).
pub struct Machine {
    pub rax: int,
    pub rcx: int,
    pub rdx: int,
    pub al: int,
    pub cl: int,
    pub compared: (int, int),
    pub stack: Seq<int>,
}

/// Whether the condition holds of the compared values `a` (RAX) and `b`
/// (RCX), as signed integers.
pub open spec fn holds(c: Cond, a: int, b: int) -> bool {
    match c {
        Cond::Equal => a == b,
        Cond::NotEqual => a != b,
        Cond::Less => a < b,
        Cond::Greater => a > b,
        Cond::LessEqual => a <= b,
        Cond::GreaterEqual => a >= b,
    }
}

/// `a` divided by `b`, rounded toward zero.
pub open spec fn quotient_toward_zero(a: int, b: int) -> int {
    let q = (if a < 0 { -a } else { a }) / (if b < 0 { -b } else { b });
    if (a < 0) != (b < 0) { -q } else { q }
}

/// The effect of one instruction; `None` where the model does not define
/// it (a pop from an empty stack, a division by zero or of a dividend that
/// is not RAX sign-extended into RDX).
pub open spec fn step(i: Instr, m: Machine) -> Option<Machine> {
    match i {
        Instr::MovRaxToRcx => Some(Machine { rcx: m.rax, ..m }),
        Instr::MovRdxToRax => Some(Machine { rax: m.rdx, ..m }),
        Instr::NegRax => Some(Machine { rax: -m.rax, ..m }),
        Instr::PopRax => if m.stack.len() > 0 {
            Some(Machine { rax: m.stack.last(), stack: m.stack.drop_last(), ..m })
        } else {
            None
        },
        Instr::CompareRaxRcx => Some(Machine { compared: (m.rax, m.rcx), ..m }),
        Instr::SetAl(c) => Some(Machine { al: if holds(c, m.compared.0, m.compared.1) { 1 } else { 0 }, ..m }),
        Instr::SetCl(c) => Some(Machine { cl: if holds(c, m.compared.0, m.compared.1) { 1 } else { 0 }, ..m }),
        Instr::TestRax => Some(Machine { compared: (m.rax, 0), ..m }),
        Instr::TestRcx => Some(Machine { compared: (m.rcx, 0), ..m }),
        Instr::AndClIntoAl => if 0 <= m.al < 256 && 0 <= m.cl < 256 {
            Some(Machine { al: ((m.al as u8) & (m.cl as u8)) as int, ..m })
        } else {
            None
        },
        Instr::OrRcxIntoRax => if i64::MIN <= m.rax <= i64::MAX && i64::MIN <= m.rcx <= i64::MAX {
            Some(Machine { rax: ((m.rax as i64) | (m.rcx as i64)) as int, ..m })
        } else {
            None
        },
        Instr::MovzbAlToRax => Some(Machine { rax: m.al, ..m }),
        Instr::AddRcxToRax => Some(Machine { rax: m.rax + m.rcx, ..m }),
        Instr::SubRcxFromRax => Some(Machine { rax: m.rax - m.rcx, ..m }),
        Instr::ImulRcxRax => Some(Machine { rax: m.rax * m.rcx, ..m }),
        Instr::Cqto => Some(Machine { rdx: if m.rax < 0 { -1 } else { 0 }, ..m }),
        Instr::IdivRcx => if m.rcx != 0 && m.rdx == (if m.rax < 0 { -1int } else { 0 }) {
            let q = quotient_toward_zero(m.rax, m.rcx);
            Some(Machine { rax: q, rdx: m.rax - m.rcx * q, ..m })
        } else {
            None
        },
    }
}

/// Running a program, its instructions in order: the last one runs on what
/// the others left.
pub open spec fn run(p: Seq<Instr>, m: Machine) -> Option<Machine>
    decreases p.len(),
{
    if p.len() == 0 {
        Some(m)
    } else {
        match run(p.drop_last(), m) {
            Some(m1) => step(p.last(), m1),
            None => None,
        }
    }
}

/// What an arithmetic or comparison operator means on two integers:
/// the sum, difference, product, quotient rounded toward zero and its
/// remainder; 1 or 0 for a comparison that holds or not.
pub open spec fn meaning(op: BinOp, a: int, b: int) -> int {
    match op {
        BinOp::Add => a + b,
        BinOp::Sub => a - b,
        BinOp::Mul => a * b,
        BinOp::Div => quotient_toward_zero(a, b),
        BinOp::Mod => a - b * quotient_toward_zero(a, b),
        BinOp::Eq => if a == b { 1 } else { 0 },
        BinOp::Neq => if a != b { 1 } else { 0 },
        BinOp::Lt => if a < b { 1 } else { 0 },
        BinOp::Gt => if a > b { 1 } else { 0 },
        BinOp::Lte => if a <= b { 1 } else { 0 },
        BinOp::Gte => if a >= b { 1 } else { 0 },
        BinOp::And => if a != 0 && b != 0 { 1 } else { 0 },
        BinOp::Or => if a != 0 || b != 0 { 1 } else { 0 },
    }
}

proof fn lemma_push(p: Seq<Instr>, x: Instr, m: Machine)
    ensures
        program_text(p.push(x)) == program_text(p) + asm_line(instr_text(x)),
        run(p.push(x), m) == (match run(p, m) {
            Some(m1) => step(x, m1),
            None => None,
        }),
{
    assert(p.push(x).drop_last() =~= p);
}

/// Running `p` then `x` from `m`, where running `p` gives `m1`.
proof fn lemma_then(p: Seq<Instr>, x: Instr, m: Machine, m1: Machine) -> (m2: Machine)
    requires
        run(p, m) == Some(m1),
        step(x, m1) is Some,
    ensures
        m2 == step(x, m1)->Some_0,
        run(p.push(x), m) == Some(m2),
        program_text(p.push(x)) == program_text(p) + asm_line(instr_text(x)),
{
    lemma_push(p, x, m);
    step(x, m1)->Some_0
}

/// The two lines that move the right operand to RCX and pop the left one
/// into RAX.
proof fn lemma_operands(a: i64, b: i64, m: Machine) -> (r: (Seq<Instr>, Machine))
    requires
        m.rax == b,
        m.stack.len() > 0,
        m.stack.last() == a,
    ensures
        program_text(r.0) == asm_line("movq %rax, %rcx"@) + asm_line("popq %rax"@),
        run(r.0, m) == Some(r.1),
        r.1.rax == a,
        r.1.rcx == b,
        r.1.stack == m.stack.drop_last(),
{
    let e = Seq::<Instr>::empty();
    assert(run(e, m) == Some(m));
    assert(program_text(e) == Seq::<char>::empty());
    let p1 = e.push(Instr::MovRaxToRcx);
    let m1 = lemma_then(e, Instr::MovRaxToRcx, m, m);
    let p2 = p1.push(Instr::PopRax);
    let m2 = lemma_then(p1, Instr::PopRax, m, m1);
    assert(program_text(p2) =~= asm_line("movq %rax, %rcx"@) + asm_line("popq %rax"@));
    (p2, m2)
}

/// The operator code computes `op`, as `lemma_operator_code_computes`
/// states.
pub open spec fn computes(op: BinOp, a: i64, b: i64, m: Machine) -> bool {
    exists|p: Seq<Instr>|
        #[trigger] program_text(p) == op_tail(op) && (run(p, m) matches Some(m2) && m2.rax == meaning(op, a as int, b as int)
            && m2.stack == m.stack.drop_last())
}

proof fn lemma_arith_code(op: BinOp, a: i64, b: i64, m: Machine)
    requires
        op is Add || op is Sub || op is Mul,
        m.rax == b,
        m.stack.len() > 0,
        m.stack.last() == a,
    ensures
        computes(op, a, b, m),
{
    let (p2, m2) = lemma_operands(a, b, m);
    let x = if op is Add {
        Instr::AddRcxToRax
    } else if op is Sub {
        Instr::SubRcxFromRax
    } else {
        Instr::ImulRcxRax
    };
    let m3 = lemma_then(p2, x, m, m2);
    assert(program_text(p2.push(x)) =~= op_tail(op));
    assert(program_text(p2.push(x)) == op_tail(op) && run(p2.push(x), m) == Some(m3));
}

proof fn lemma_division_code(op: BinOp, a: i64, b: i64, m: Machine)
    requires
        op is Div || op is Mod,
        b != 0,
        m.rax == b,
        m.stack.len() > 0,
        m.stack.last() == a,
    ensures
        computes(op, a, b, m),
{
    let (p2, m2) = lemma_operands(a, b, m);
    let p3 = p2.push(Instr::Cqto);
    let m3 = lemma_then(p2, Instr::Cqto, m, m2);
    let p4 = p3.push(Instr::IdivRcx);
    let m4 = lemma_then(p3, Instr::IdivRcx, m, m3);
    if op is Div {
        assert(program_text(p4) =~= op_tail(op));
        assert(program_text(p4) == op_tail(op) && run(p4, m) == Some(m4));
    } else {
        let m5 = lemma_then(p4, Instr::MovRdxToRax, m, m4);
        assert(program_text(p4.push(Instr::MovRdxToRax)) =~= op_tail(op));
        assert(program_text(p4.push(Instr::MovRdxToRax)) == op_tail(op) && run(p4.push(Instr::MovRdxToRax), m) == Some(m5));
    }
}

proof fn lemma_and_code(a: i64, b: i64, m: Machine)
    requires
        m.rax == b,
        m.stack.len() > 0,
        m.stack.last() == a,
    ensures
        computes(BinOp::And, a, b, m),
{
    let (p2, m2) = lemma_operands(a, b, m);
    let p3 = p2.push(Instr::TestRax);
    let m3 = lemma_then(p2, Instr::TestRax, m, m2);
    let p4 = p3.push(Instr::SetAl(Cond::NotEqual));
    let m4 = lemma_then(p3, Instr::SetAl(Cond::NotEqual), m, m3);
    let p5 = p4.push(Instr::TestRcx);
    let m5 = lemma_then(p4, Instr::TestRcx, m, m4);
    let p6 = p5.push(Instr::SetCl(Cond::NotEqual));
    let m6 = lemma_then(p5, Instr::SetCl(Cond::NotEqual), m, m5);
    let p7 = p6.push(Instr::AndClIntoAl);
    let m7 = lemma_then(p6, Instr::AndClIntoAl, m, m6);
    assert((1u8 & 1u8) == 1u8 && (1u8 & 0u8) == 0u8 && (0u8 & 1u8) == 0u8 && (0u8 & 0u8) == 0u8) by (bit_vector);
    let p8 = p7.push(Instr::MovzbAlToRax);
    let m8 = lemma_then(p7, Instr::MovzbAlToRax, m, m7);
    assert(program_text(p8) =~= op_tail(BinOp::And));
    assert(program_text(p8) == op_tail(BinOp::And) && run(p8, m) == Some(m8));
}

proof fn lemma_or_code(a: i64, b: i64, m: Machine)
    requires
        m.rax == b,
        m.stack.len() > 0,
        m.stack.last() == a,
    ensures
        computes(BinOp::Or, a, b, m),
{
    let (p2, m2) = lemma_operands(a, b, m);
    let p3 = p2.push(Instr::OrRcxIntoRax);
    let m3 = lemma_then(p2, Instr::OrRcxIntoRax, m, m2);
    assert(((a | b) == 0) == (a == 0 && b == 0)) by (bit_vector);
    let p4 = p3.push(Instr::TestRax);
    let m4 = lemma_then(p3, Instr::TestRax, m, m3);
    let p5 = p4.push(Instr::SetAl(Cond::NotEqual));
    let m5 = lemma_then(p4, Instr::SetAl(Cond::NotEqual), m, m4);
    let p6 = p5.push(Instr::MovzbAlToRax);
    let m6 = lemma_then(p5, Instr::MovzbAlToRax, m, m5);
    assert(program_text(p6) =~= op_tail(BinOp::Or));
    assert(program_text(p6) == op_tail(BinOp::Or) && run(p6, m) == Some(m6));
}

proof fn lemma_comparison_code(op: BinOp, a: i64, b: i64, m: Machine)
    requires
        op is Eq || op is Neq || op is Lt || op is Gt || op is Lte || op is Gte,
        m.rax == b,
        m.stack.len() > 0,
        m.stack.last() == a,
    ensures
        computes(op, a, b, m),
{
    let (p2, m2) = lemma_operands(a, b, m);
    let c = match op {
        BinOp::Eq => Cond::Equal,
        BinOp::Neq => Cond::NotEqual,
        BinOp::Lt => Cond::Less,
        BinOp::Gt => Cond::Greater,
        BinOp::Lte => Cond::LessEqual,
        _ => Cond::GreaterEqual,
    };
    let p3 = p2.push(Instr::CompareRaxRcx);
    let m3 = lemma_then(p2, Instr::CompareRaxRcx, m, m2);
    let p4 = p3.push(Instr::SetAl(c));
    let m4 = lemma_then(p3, Instr::SetAl(c), m, m3);
    let p5 = p4.push(Instr::MovzbAlToRax);
    let m5 = lemma_then(p4, Instr::MovzbAlToRax, m, m4);
    assert(program_text(p5) =~= op_tail(op));
    assert(program_text(p5) == op_tail(op) && run(p5, m) == Some(m5));
}

/// The code emitted for a binary operator on integers computes the
/// operator: with the left operand `a` on top of the stack and the right
/// one `b` in RAX, the code `op_tail(op)` is a sequence of instructions
/// that, run on the machine model, pops `a` and leaves `meaning(op, a, b)`
/// in RAX. So a comparison leaves 1 exactly when it holds for signed
/// integers (for `>`, 0 when `a == b`), and `&&` and `||` leave 1 exactly
/// when both or either operand is not 0. A division needs a divisor other
/// than 0.
pub proof fn lemma_operator_code_computes(op: BinOp, a: i64, b: i64, m: Machine)
    requires
        m.rax == b,
        m.stack.len() > 0,
        m.stack.last() == a,
        (op is Div || op is Mod) ==> b != 0,
    ensures
        exists|p: Seq<Instr>|
            #[trigger] program_text(p) == op_tail(op) && (run(p, m) matches Some(m2) && m2.rax == meaning(
                op,
                a as int,
                b as int,
            ) && m2.stack == m.stack.drop_last()),
{
    match op {
        BinOp::Add | BinOp::Sub | BinOp::Mul => lemma_arith_code(op, a, b, m),
        BinOp::Div | BinOp::Mod => lemma_division_code(op, a, b, m),
        BinOp::And => lemma_and_code(a, b, m),
        BinOp::Or => lemma_or_code(a, b, m),
        _ => lemma_comparison_code(op, a, b, m),
    }
}

/// The code emitted for a unary operator computes it: with the operand `v`
/// in RAX, `-` leaves `-v` and `!` leaves 1 exactly when `v` is 0.
pub proof fn lemma_unary_code_computes(op: UnaryOp, v: int, m: Machine)
    requires
        m.rax == v,
    ensures
        exists|p: Seq<Instr>|
            #[trigger] program_text(p) == unary_code(op) && (run(p, m) matches Some(m2) && m2.rax == (match op {
                UnaryOp::Neg => -v,
                UnaryOp::Not => if v == 0 { 1int } else { 0 },
            }) && m2.stack == m.stack),
{
    let e = Seq::<Instr>::empty();
    assert(run(e, m) == Some(m));
    assert(program_text(e) == Seq::<char>::empty());
    match op {
        UnaryOp::Neg => {
            let m1 = lemma_then(e, Instr::NegRax, m, m);
            assert(program_text(e.push(Instr::NegRax)) =~= unary_code(op));
            assert(program_text(e.push(Instr::NegRax)) == unary_code(op) && run(e.push(Instr::NegRax), m) == Some(m1));
        },
        UnaryOp::Not => {
            let p1 = e.push(Instr::TestRax);
            let m1 = lemma_then(e, Instr::TestRax, m, m);
            let p2 = p1.push(Instr::SetAl(Cond::Equal));
            let m2 = lemma_then(p1, Instr::SetAl(Cond::Equal), m, m1);
            let p3 = p2.push(Instr::MovzbAlToRax);
            let m3 = lemma_then(p2, Instr::MovzbAlToRax, m, m2);
            assert(program_text(p3) =~= unary_code(op));
            assert(program_text(p3) == unary_code(op) && run(p3, m) == Some(m3));
        },
    }
}

} // verus!
