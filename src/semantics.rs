//! What the generated code computes, on a model of the target machine with
//! unbounded integers in its registers and on its stack.
use vstd::prelude::*;

use crate::ast::{BinOpKind, Block, Expr, UnOpKind};
use crate::codegen::{
    cg_expr, cg_exprs, compare_code, labels_in, lemma_expr_grows, lemma_exprs_grow, with_label, CgState,
};
use crate::instr::{Cond, Ins, LabelKind, Op, Reg};

verus! {

/// The part of the machine that straight-line code touches: the operand
/// stack (top last), the registers, and the operands of the last comparison.
pub struct Machine {
    pub stack: Seq<int>,
    pub rax: int,
    pub rdi: int,
    pub rdx: int,
    pub al: int,
    pub cmp: (int, int),
}

pub open spec fn get(m: Machine, r: Reg) -> int {
    match r {
        Reg::Rax => m.rax,
        Reg::Rdi => m.rdi,
        Reg::Rdx => m.rdx,
        Reg::Al => m.al,
        _ => 0,
    }
}

pub open spec fn set(m: Machine, r: Reg, v: int) -> Machine {
    match r {
        Reg::Rax => Machine { rax: v, ..m },
        Reg::Rdi => Machine { rdi: v, ..m },
        Reg::Rdx => Machine { rdx: v, ..m },
        Reg::Al => Machine { al: v, ..m },
        _ => m,
    }
}

/// Division rounding toward zero.
pub open spec fn tdiv(a: int, b: int) -> int {
    let q = (if a < 0 { -a } else { a }) / (if b < 0 { -b } else { b });
    if (a < 0) != (b < 0) { -q } else { q }
}

/// Remainder of `tdiv`.
pub open spec fn trem(a: int, b: int) -> int {
    a - b * tdiv(a, b)
}

pub open spec fn holds(c: Cond, x: (int, int)) -> bool {
    match c {
        Cond::Equal => x.0 == x.1,
        Cond::NotEqual => x.0 != x.1,
        Cond::Less => x.0 < x.1,
        Cond::LessEq => x.0 <= x.1,
    }
}

/// One instruction of straight-line code; `None` for an instruction that
/// transfers control or touches memory, and for a pop of an empty stack or a
/// division by zero.
pub open spec fn step(m: Machine, i: Ins) -> Option<Machine> {
    match i {
        Op::PushImm(v) => Some(Machine { stack: m.stack.push(v as int), ..m }),
        Op::PushReg(r) => Some(Machine { stack: m.stack.push(get(m, r)), ..m }),
        Op::Pop(r) => if m.stack.len() == 0 {
            None
        } else {
            Some(set(Machine { stack: m.stack.drop_last(), ..m }, r, m.stack.last()))
        },
        Op::MovReg(a, b) => Some(set(m, a, get(m, b))),
        Op::AddReg(a, b) => Some(set(m, a, get(m, a) + get(m, b))),
        Op::SubReg(a, b) => Some(set(m, a, get(m, a) - get(m, b))),
        Op::IMul(a, b) => Some(set(m, a, get(m, a) * get(m, b))),
        Op::Cqo => Some(m),
        Op::IDiv(r) => if get(m, r) == 0 {
            None
        } else {
            Some(Machine { rax: tdiv(m.rax, get(m, r)), rdx: trem(m.rax, get(m, r)), ..m })
        },
        Op::CmpReg(a, b) => Some(Machine { cmp: (get(m, a), get(m, b)), ..m }),
        Op::CmpImm(a, v) => Some(Machine { cmp: (get(m, a), v as int), ..m }),
        Op::SetCc(c, r) => Some(set(m, r, if holds(c, m.cmp) { 1 } else { 0 })),
        Op::Movzb(a, b) => Some(set(m, a, get(m, b))),
        Op::Neg(r) => Some(set(m, r, -get(m, r))),
        _ => None,
    }
}

/// Runs straight-line code from the first instruction to the last.
pub open spec fn run(code: Seq<Ins>, m: Machine) -> Option<Machine>
    decreases code.len(),
{
    if code.len() == 0 {
        Some(m)
    } else {
        match run(code.drop_last(), m) {
            Some(m1) => step(m1, code.last()),
            None => None,
        }
    }
}

pub open spec fn bool_word(b: bool) -> int {
    if b { 1 } else { 0 }
}

/// The value of an expression built from literals, parentheses, negation and
/// the binary operators, with division rounding toward zero; `None` for any
/// other expression and on a division by zero.
pub open spec fn eval(e: Expr) -> Option<int>
    decreases e,
{
    match e {
        Expr::Number { value } => Some(value as int),
        Expr::Enclosed { expr } => eval(*expr),
        Expr::UnOp { kind: UnOpKind::Neg, expr } => match eval(*expr) {
            Some(v) => Some(-v),
            None => None,
        },
        Expr::BinOp { op, lhs, rhs } => match (eval(*lhs), eval(*rhs)) {
            (Some(a), Some(b)) => match op {
                BinOpKind::Add => Some(a + b),
                BinOpKind::Sub => Some(a - b),
                BinOpKind::Mul => Some(a * b),
                BinOpKind::Div => if b == 0 { None } else { Some(tdiv(a, b)) },
                BinOpKind::Eq => Some(bool_word(a == b)),
                BinOpKind::Neq => Some(bool_word(a != b)),
                BinOpKind::Lt => Some(bool_word(a < b)),
                BinOpKind::LtEq => Some(bool_word(a <= b)),
                BinOpKind::Gt => Some(bool_word(a > b)),
                BinOpKind::GtEq => Some(bool_word(a >= b)),
            },
            _ => None,
        },
        _ => None,
    }
}

pub proof fn lemma_run_append(a: Seq<Ins>, b: Seq<Ins>, m: Machine)
    ensures
        run(a + b, m) == match run(a, m) {
            Some(m1) => run(b, m1),
            None => None::<Machine>,
        },
    decreases b.len(),
{
    if b.len() == 0 {
        assert(a + b =~= a);
    } else {
        assert((a + b).drop_last() =~= a + b.drop_last());
        assert((a + b).last() == b.last());
        lemma_run_append(a, b.drop_last(), m);
    }
}

/// The code of an arithmetic expression leaves exactly its value on top of
/// the operand stack, and changes neither the table of locals nor the label
/// counter.
#[verifier::rlimit(100)]
#[verifier::spinoff_prover]
pub proof fn lemma_arith_code_evaluates(e: Expr, st: CgState, m: Machine)
    requires
        eval(e) is Some,
    ensures
        cg_expr(e, st) is Ok,
        cg_expr(e, st)->Ok_0.1 == st,
        run(cg_expr(e, st)->Ok_0.0, m) matches Some(m2) && m2.stack == m.stack.push(eval(e)->Some_0),
    decreases e,
{
    reveal_with_fuel(run, 4);
    match e {
        Expr::Number { value } => {
            assert(seq![Op::<Seq<char>>::PushImm(value)].drop_last() =~= Seq::<Ins>::empty());
        },
        Expr::Enclosed { expr } => {
            lemma_arith_code_evaluates(*expr, st, m);
        },
        Expr::UnOp { kind, expr } => {
            lemma_arith_code_evaluates(*expr, st, m);
            let c = cg_expr(*expr, st)->Ok_0.0;
            let t = seq![Op::Pop(Reg::Rax), Op::Neg(Reg::Rax), Op::PushReg(Reg::Rax)];
            lemma_run_append(c, t, m);
            assert(t.drop_last().drop_last().drop_last() =~= Seq::<Ins>::empty());
            assert(t.drop_last().drop_last() =~= seq![Op::Pop(Reg::Rax)]);
            assert(t.drop_last() =~= seq![Op::Pop(Reg::Rax), Op::Neg(Reg::Rax)]);
            let m1 = run(c, m)->Some_0;
            assert(m1.stack.drop_last() =~= m.stack);
            assert(cg_expr(e, st)->Ok_0.0 == c + t);
            assert(run(cg_expr(e, st)->Ok_0.0, m) == run(t, m1));
        },
        Expr::BinOp { op, lhs, rhs } => {
            lemma_arith_code_evaluates(*lhs, st, m);
            let cl = cg_expr(*lhs, st)->Ok_0.0;
            let m1 = run(cl, m)->Some_0;
            lemma_arith_code_evaluates(*rhs, st, m1);
            let cr = cg_expr(*rhs, st)->Ok_0.0;
            let m2 = run(cr, m1)->Some_0;
            let t = crate::codegen::binop_code(op).push(Op::PushReg(Reg::Rax));
            assert(cg_expr(e, st)->Ok_0.0 =~= cl + (cr + t));
            lemma_run_append(cl, cr + t, m);
            lemma_run_append(cr, t, m1);
            lemma_tail(op, m2, m.stack, eval(*lhs)->Some_0, eval(*rhs)->Some_0);
            assert(run(cg_expr(e, st)->Ok_0.0, m) == run(t, m2));
        },
        _ => {},
    }
}

/// The code that follows both operands pops them and pushes their result.
#[verifier::rlimit(100)]
#[verifier::spinoff_prover]
proof fn lemma_tail(op: BinOpKind, m: Machine, s: Seq<int>, a: int, b: int)
    requires
        m.stack == s.push(a).push(b),
        op is Div ==> b != 0,
    ensures
        run(crate::codegen::binop_code(op).push(Op::PushReg(Reg::Rax)), m) matches Some(m2)
            && m2.stack == s.push(
            match op {
                BinOpKind::Add => a + b,
                BinOpKind::Sub => a - b,
                BinOpKind::Mul => a * b,
                BinOpKind::Div => tdiv(a, b),
                BinOpKind::Eq => bool_word(a == b),
                BinOpKind::Neq => bool_word(a != b),
                BinOpKind::Lt => bool_word(a < b),
                BinOpKind::LtEq => bool_word(a <= b),
                BinOpKind::Gt => bool_word(a > b),
                BinOpKind::GtEq => bool_word(a >= b),
            },
        ),
{
    let t = crate::codegen::binop_code(op).push(Op::PushReg(Reg::Rax));
    assert(s.push(a).push(b).drop_last() =~= s.push(a));
    assert(s.push(a).drop_last() =~= s);
    reveal_with_fuel(run, 8);
    assert forall|j: int| 0 <= j <= t.len() implies #[trigger] t.take(j).len() == j by {}
    match op {
        BinOpKind::Add | BinOpKind::Sub | BinOpKind::Mul => {
            assert(t.drop_last() =~= t.take(3));
            assert(t.take(3).drop_last() =~= t.take(2));
            assert(t.take(2).drop_last() =~= t.take(1));
            assert(t.take(1).drop_last() =~= t.take(0));
        },
        BinOpKind::Div => {
            assert(t.drop_last() =~= t.take(4));
            assert(t.take(4).drop_last() =~= t.take(3));
            assert(t.take(3).drop_last() =~= t.take(2));
            assert(t.take(2).drop_last() =~= t.take(1));
            assert(t.take(1).drop_last() =~= t.take(0));
        },
        _ => {
            assert(t.drop_last() =~= t.take(5));
            assert(t.take(5).drop_last() =~= t.take(4));
            assert(t.take(4).drop_last() =~= t.take(3));
            assert(t.take(3).drop_last() =~= t.take(2));
            assert(t.take(2).drop_last() =~= t.take(1));
            assert(t.take(1).drop_last() =~= t.take(0));
        },
    }
}

/// A comparison leaves exactly 0 or 1. `a > b` compiles to the code of `a`,
/// the code of `b`, two pops and a comparison; `b < a` to the code of `b`,
/// the code of `a`, the same two pops in swapped order and the very same
/// comparison; and the two leave the same word (likewise `a >= b` and
/// `b <= a`).
#[verifier::rlimit(100)]
#[verifier::spinoff_prover]
pub proof fn lemma_greater_is_swapped_less(a: Expr, b: Expr, strict: bool, st: CgState, m: Machine)
    requires
        eval(a) is Some,
        eval(b) is Some,
    ensures
        ({
            let (gop, lop, c) = if strict {
                (BinOpKind::Gt, BinOpKind::Lt, Cond::Less)
            } else {
                (BinOpKind::GtEq, BinOpKind::LtEq, Cond::LessEq)
            };
            let gt = Expr::BinOp { op: gop, lhs: Box::new(a), rhs: Box::new(b) };
            let lt = Expr::BinOp { op: lop, lhs: Box::new(b), rhs: Box::new(a) };
            let ca = cg_expr(a, st)->Ok_0.0;
            let cb = cg_expr(b, st)->Ok_0.0;
            let tail = compare_code(c).push(Op::PushReg(Reg::Rax));
            &&& cg_expr(gt, st) == Ok::<(Seq<Ins>, CgState), crate::codegen::GenError>(
                (ca + cb + seq![Op::Pop(Reg::Rax), Op::Pop(Reg::Rdi)] + tail, st),
            )
            &&& cg_expr(lt, st) == Ok::<(Seq<Ins>, CgState), crate::codegen::GenError>(
                (cb + ca + seq![Op::Pop(Reg::Rdi), Op::Pop(Reg::Rax)] + tail, st),
            )
            &&& run(cg_expr(gt, st)->Ok_0.0, m) matches Some(m1) && run(cg_expr(lt, st)->Ok_0.0, m) matches Some(
                m2,
            ) && m1.stack == m2.stack && (m1.stack == m.stack.push(0) || m1.stack == m.stack.push(1))
        }),
{
    let (gop, lop, c) = if strict {
        (BinOpKind::Gt, BinOpKind::Lt, Cond::Less)
    } else {
        (BinOpKind::GtEq, BinOpKind::LtEq, Cond::LessEq)
    };
    let gt = Expr::BinOp { op: gop, lhs: Box::new(a), rhs: Box::new(b) };
    let lt = Expr::BinOp { op: lop, lhs: Box::new(b), rhs: Box::new(a) };
    lemma_arith_code_evaluates(a, st, m);
    lemma_arith_code_evaluates(b, st, m);
    lemma_arith_code_evaluates(gt, st, m);
    lemma_arith_code_evaluates(lt, st, m);
    let ca = cg_expr(a, st)->Ok_0.0;
    let cb = cg_expr(b, st)->Ok_0.0;
    let tail = compare_code(c).push(Op::PushReg(Reg::Rax));
    assert(ca + (cb + crate::codegen::binop_code(gop).push(Op::PushReg(Reg::Rax))) =~= ca + cb + seq![
        Op::Pop(Reg::Rax),
        Op::Pop(Reg::Rdi),
    ] + tail);
    assert(cb + (ca + crate::codegen::binop_code(lop).push(Op::PushReg(Reg::Rax))) =~= cb + ca + seq![
        Op::Pop(Reg::Rdi),
        Op::Pop(Reg::Rax),
    ] + tail);
}

/// In `loop { return e; }` the body's code reaches `leave` and `ret` with the
/// value of `e` in `rax` and the operand stack as it was, before the jump
/// back to the loop's label: the loop ends through the return.
#[verifier::rlimit(100)]
#[verifier::spinoff_prover]
pub proof fn lemma_loop_exits_by_return(l: Expr, e: Expr, st: CgState, m: Machine)
    requires
        l matches Expr::Loop { body } && body.exprs@ == seq![Expr::Return { expr: Box::new(e) }],
        eval(e) is Some,
        0 <= st.label < usize::MAX,
    ensures
        ({
            let id = st.label as usize;
            let ce = cg_expr(e, with_label(st, st.label + 1))->Ok_0.0;
            &&& cg_expr(l, st) matches Ok((code, _)) && code == seq![Op::Label(id, LabelKind::Loop)] + ce
                + seq![
                Op::Pop(Reg::Rax),
                Op::Leave,
                Op::Ret,
                Op::Jmp(id, LabelKind::Loop),
                Op::Pop(Reg::Rax),
                Op::PushImm(1),
            ]
            &&& run(ce + seq![Op::Pop(Reg::Rax)], m) matches Some(m2) && m2.rax == eval(e)->Some_0
                && m2.stack == m.stack
        }),
{
    let s1 = with_label(st, st.label + 1);
    let r = Expr::Return { expr: Box::new(e) };
    lemma_arith_code_evaluates(e, s1, m);
    let ce = cg_expr(e, s1)->Ok_0.0;
    let body = l->Loop_body;
    assert(body.exprs@.drop_first() =~= Seq::<Expr>::empty());
    assert(body.exprs@[0] == r);
    let cr = ce + seq![Op::Pop(Reg::Rax), Op::Leave, Op::Ret];
    assert(cg_exprs(body.exprs@.drop_first(), s1) == Ok::<(Seq<Ins>, CgState), crate::codegen::GenError>(
        (Seq::empty(), s1),
    ));
    assert(cg_expr(r, s1) == Ok::<(Seq<Ins>, CgState), crate::codegen::GenError>((cr, s1)));
    assert(cg_exprs(body.exprs@, s1) == Ok::<(Seq<Ins>, CgState), crate::codegen::GenError>((cr + Seq::empty(), s1)));
    assert(cr + Seq::<Ins>::empty() =~= cr);
    let id = st.label as usize;
    assert(seq![Op::Label(id, LabelKind::Loop)] + (cr + seq![
        Op::Jmp(id, LabelKind::Loop),
        Op::Pop(Reg::Rax),
        Op::PushImm(1),
    ]) =~= seq![Op::Label(id, LabelKind::Loop)] + ce + seq![
        Op::Pop(Reg::Rax),
        Op::Leave,
        Op::Ret,
        Op::Jmp(id, LabelKind::Loop),
        Op::Pop(Reg::Rax),
        Op::PushImm(1),
    ]);
    assert(cg_expr(l, st) == Ok::<(Seq<Ins>, CgState), crate::codegen::GenError>((
        seq![Op::Label(id, LabelKind::Loop)] + (cr + seq![
            Op::Jmp(id, LabelKind::Loop),
            Op::Pop(Reg::Rax),
            Op::PushImm(1),
        ]),
        s1,
    )));
    reveal_with_fuel(run, 2);
    lemma_run_append(ce, seq![Op::Pop(Reg::Rax)], m);
    let m1 = run(ce, m)->Some_0;
    assert(seq![Op::<Seq<char>>::Pop(Reg::Rax)].drop_last() =~= Seq::<Ins>::empty());
    assert(m1.stack.drop_last() =~= m.stack);
}

/// `if cond { body }` with no `else` and a condition whose value is 0: the
/// condition's code leaves the operand stack as it was and sets the equal
/// flag, so `je` jumps; its target label stands right after the body's code
/// and nowhere before, so nothing of the body runs.
#[verifier::rlimit(100)]
#[verifier::spinoff_prover]
pub proof fn lemma_false_if_skips_body(cond: Expr, body: Block, e: Expr, st: CgState, m: Machine)
    requires
        e == (Expr::IfElse { cond: Box::new(cond), if_body: body, else_body: None }),
        eval(cond) == Some(0int),
        cg_expr(e, st) is Ok,
        st.label >= 0,
    ensures
        ({
            let l = st.label as usize;
            let s0 = with_label(st, st.label + 1);
            let cc = cg_expr(cond, s0)->Ok_0.0;
            let cb = cg_exprs(body.exprs@, s0)->Ok_0.0;
            let code = cg_expr(e, st)->Ok_0.0;
            &&& code == cc + seq![Op::Pop(Reg::Rax), Op::CmpImm(Reg::Rax, 0), Op::Je(l, LabelKind::End)] + cb
                + seq![Op::Label(l, LabelKind::End)]
            &&& run(cc + seq![Op::Pop(Reg::Rax), Op::CmpImm(Reg::Rax, 0)], m) matches Some(m2) && m2.cmp.0
                == m2.cmp.1 && m2.stack == m.stack
            &&& forall|i: int| 0 <= i < code.len() - 1 ==> code[i] != Op::<Seq<char>>::Label(l, LabelKind::End)
        }),
{
    let l = st.label as usize;
    let s0 = with_label(st, st.label + 1);
    lemma_arith_code_evaluates(cond, s0, m);
    lemma_expr_grows(cond, s0);
    lemma_exprs_grow(body.exprs@, s0);
    let cc = cg_expr(cond, s0)->Ok_0.0;
    let cb = cg_exprs(body.exprs@, s0)->Ok_0.0;
    let t = seq![Op::Pop(Reg::Rax), Op::CmpImm(Reg::Rax, 0), Op::Je(l, LabelKind::End)];
    let code = cg_expr(e, st)->Ok_0.0;
    assert(code == cc + t + cb + seq![Op::Label(l, LabelKind::End)]);
    assert forall|i: int| 0 <= i < code.len() - 1 implies code[i] != Op::<Seq<char>>::Label(l, LabelKind::End) by {
        if i < cc.len() {
            assert(code[i] == cc[i]);
            assert(labels_in(cc, st.label + 1, cg_expr(cond, s0)->Ok_0.1.label));
        } else if i < cc.len() + 3 {
            assert(code[i] == t[i - cc.len()]);
        } else {
            assert(code[i] == cb[i - cc.len() - 3]);
        }
    }
    let p = seq![Op::Pop(Reg::Rax), Op::CmpImm(Reg::Rax, 0)];
    reveal_with_fuel(run, 3);
    lemma_run_append(cc, p, m);
    let m1 = run(cc, m)->Some_0;
    assert(p.drop_last() =~= seq![Op::<Seq<char>>::Pop(Reg::Rax)]);
    assert(p.drop_last().drop_last() =~= Seq::<Ins>::empty());
    assert(m1.stack.drop_last() =~= m.stack);
}

} // verus!
