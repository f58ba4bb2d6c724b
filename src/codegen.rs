use vstd::prelude::*;
use vstd::string::StringExecFns;

use crate::ast::{Ast, BinOpKind, Block, Expr, FnDef, Global, UnOpKind};
use crate::instr::{listing, write_listing, Cond, Ins, Instr, LabelKind, Op, Reg};
use crate::ty::Type;

verus! {

/// Frame size in bytes of the entry function, room for any number of locals
/// a program may reasonably declare.
pub const STACK_SIZE: usize = 2048;

/// Number of registers that carry arguments.
pub const MAX_ARGS: usize = 6;

/// Why code could not be generated for a tree.
#[derive(Debug, Clone, Copy, PartialEq, Eq, Structural)]
pub enum GenError {
    /// A value was assigned to, or its address taken of, an expression that
    /// is neither a local nor a dereference.
    InvalidLvalue,
    /// A call or a definition has more arguments than there are registers.
    TooManyArgs,
    /// A frame offset or a label number would not fit in a machine word.
    TooLarge,
}

/// The generator's state: the frame offset of each local in insertion order,
/// and the number of the next label.
pub struct CgState {
    pub locals: Seq<(Seq<char>, int)>,
    pub label: int,
}

/// Code and the state after it, or why there is none.
pub type CgResult = Result<(Seq<Ins>, CgState), GenError>;

/// The register that carries argument `i`.
pub open spec fn arg_reg(i: int) -> Reg {
    if i == 0 { Reg::Rdi }
    else if i == 1 { Reg::Rsi }
    else if i == 2 { Reg::Rdx }
    else if i == 3 { Reg::Rcx }
    else if i == 4 { Reg::R8 }
    else { Reg::R9 }
}

/// Index of the first entry of `ls` at or after `k` named `name`.
pub open spec fn find_from(ls: Seq<(Seq<char>, int)>, name: Seq<char>, k: int) -> Option<int>
    decreases ls.len() - k,
{
    if k < 0 || k >= ls.len() {
        None
    } else if ls[k].0 == name {
        Some(k)
    } else {
        find_from(ls, name, k + 1)
    }
}

/// What `find_from` finds is an entry of that name.
pub proof fn lemma_find_from(ls: Seq<(Seq<char>, int)>, name: Seq<char>, k: int)
    ensures
        find_from(ls, name, k) matches Some(i) ==> k <= i < ls.len() && ls[i].0 == name,
    decreases ls.len() - k,
{
    if 0 <= k < ls.len() && ls[k].0 != name {
        lemma_find_from(ls, name, k + 1);
    }
}

pub open spec fn find_local(ls: Seq<(Seq<char>, int)>, name: Seq<char>) -> Option<int> {
    find_from(ls, name, 0)
}

/// The table with `name` in it and its offset: a name already present keeps
/// its offset, a new one takes the next word after the table's size.
pub open spec fn intern(ls: Seq<(Seq<char>, int)>, name: Seq<char>) -> Option<(Seq<(Seq<char>, int)>, int)> {
    match find_local(ls, name) {
        Some(k) => Some((ls, ls[k].1)),
        None => if ls.len() < usize::MAX / 8 {
            Some((ls.push((name, (ls.len() + 1) * 8 as int)), (ls.len() + 1) * 8 as int))
        } else {
            None
        },
    }
}

/// The table with `name` bound to `off`, replacing an earlier offset.
pub open spec fn bind(ls: Seq<(Seq<char>, int)>, name: Seq<char>, off: int) -> Seq<(Seq<char>, int)> {
    match find_local(ls, name) {
        Some(k) => ls.update(k, (name, off)),
        None => ls.push((name, off)),
    }
}

/// Pushes the address `rbp - off`.
pub open spec fn address_code(off: int) -> Seq<Ins> {
    seq![Op::MovReg(Reg::Rax, Reg::Rbp), Op::SubImm(Reg::Rax, off as usize), Op::PushReg(Reg::Rax)]
}

/// Replaces the address on top of the stack by the word stored there.
pub open spec fn load_code() -> Seq<Ins> {
    seq![Op::Pop(Reg::Rax), Op::Load(Reg::Rax, Reg::Rax), Op::PushReg(Reg::Rax)]
}

/// Pops a value and an address, stores the value there, pushes a unit word.
pub open spec fn store_code() -> Seq<Ins> {
    seq![Op::Pop(Reg::Rdi), Op::Pop(Reg::Rax), Op::Store(Reg::Rax, Reg::Rdi), Op::PushImm(0)]
}

/// Compares `rax` with `rdi` and leaves 1 in `rax` where `c` holds, else 0.
pub open spec fn compare_code(c: Cond) -> Seq<Ins> {
    seq![Op::CmpReg(Reg::Rax, Reg::Rdi), Op::SetCc(c, Reg::Al), Op::Movzb(Reg::Rax, Reg::Al)]
}

/// Pops the right operand and then the left one, and combines them into `rax`.
pub open spec fn binop_code(op: BinOpKind) -> Seq<Ins> {
    let lr = seq![Op::Pop(Reg::Rdi), Op::Pop(Reg::Rax)];
    let rl = seq![Op::Pop(Reg::Rax), Op::Pop(Reg::Rdi)];
    match op {
        BinOpKind::Add => lr.push(Op::AddReg(Reg::Rax, Reg::Rdi)),
        BinOpKind::Sub => lr.push(Op::SubReg(Reg::Rax, Reg::Rdi)),
        BinOpKind::Mul => lr.push(Op::IMul(Reg::Rax, Reg::Rdi)),
        BinOpKind::Div => lr + seq![Op::Cqo, Op::IDiv(Reg::Rdi)],
        BinOpKind::Eq => lr + compare_code(Cond::Equal),
        BinOpKind::Neq => lr + compare_code(Cond::NotEqual),
        BinOpKind::Lt => lr + compare_code(Cond::Less),
        BinOpKind::LtEq => lr + compare_code(Cond::LessEq),
        BinOpKind::Gt => rl + compare_code(Cond::Less),
        BinOpKind::GtEq => rl + compare_code(Cond::LessEq),
    }
}

/// Pops the condition and jumps to the label where it is zero.
pub open spec fn test_code(id: int, k: LabelKind) -> Seq<Ins> {
    seq![Op::Pop(Reg::Rax), Op::CmpImm(Reg::Rax, 0), Op::Je(id as usize, k)]
}

pub open spec fn prefix(c: Seq<Ins>, r: CgResult) -> CgResult {
    match r {
        Ok((c2, s)) => Ok((c + c2, s)),
        Err(e) => Err(e),
    }
}

pub open spec fn suffix(r: CgResult, c: Seq<Ins>) -> CgResult {
    match r {
        Ok((c1, s)) => Ok((c1 + c, s)),
        Err(e) => Err(e),
    }
}

pub open spec fn with_locals(st: CgState, ls: Seq<(Seq<char>, int)>) -> CgState {
    CgState { locals: ls, label: st.label }
}

pub open spec fn with_label(st: CgState, label: int) -> CgState {
    CgState { locals: st.locals, label }
}

/// Code that leaves the value of `e` on the stack (a unit word for
/// statements), starting from state `st`.
pub open spec fn cg_expr(e: Expr, st: CgState) -> CgResult
    decreases e,
{
    match e {
        Expr::Number { value } => Ok((seq![Op::PushImm(value)], st)),
        Expr::Local { name } => match intern(st.locals, name@) {
            None => Err(GenError::TooLarge),
            Some((ls, off)) => Ok((address_code(off) + load_code(), with_locals(st, ls))),
        },
        Expr::UnOp { kind, expr } => match kind {
            UnOpKind::Neg => suffix(
                cg_expr(*expr, st),
                seq![Op::Pop(Reg::Rax), Op::Neg(Reg::Rax), Op::PushReg(Reg::Rax)],
            ),
            UnOpKind::Ref => cg_address(*expr, st),
            UnOpKind::Deref => suffix(cg_expr(*expr, st), load_code()),
        },
        Expr::BinOp { op, lhs, rhs } => match cg_expr(*lhs, st) {
            Err(e) => Err(e),
            Ok((c1, s1)) => prefix(
                c1,
                suffix(cg_expr(*rhs, s1), binop_code(op).push(Op::PushReg(Reg::Rax))),
            ),
        },
        Expr::Init { name, ty, value } => match intern(st.locals, name@) {
            None => Err(GenError::TooLarge),
            Some((ls, off)) => prefix(
                address_code(off),
                suffix(cg_expr(*value, with_locals(st, ls)), store_code()),
            ),
        },
        Expr::Assign { lhs, rhs } => match cg_address(*lhs, st) {
            Err(e) => Err(e),
            Ok((c1, s1)) => prefix(c1, suffix(cg_expr(*rhs, s1), store_code())),
        },
        Expr::Block(b) => cg_exprs(b.exprs@, st),
        Expr::Stmt { expr } => suffix(cg_expr(*expr, st), seq![Op::Pop(Reg::Rax), Op::PushImm(0)]),
        Expr::Return { expr } => suffix(
            cg_expr(*expr, st),
            seq![Op::Pop(Reg::Rax), Op::Leave, Op::Ret],
        ),
        Expr::Loop { body } => if st.label >= usize::MAX {
            Err(GenError::TooLarge)
        } else {
            let id = st.label;
            prefix(
                seq![Op::Label(id as usize, LabelKind::Loop)],
                suffix(
                    cg_exprs(body.exprs@, with_label(st, id + 1)),
                    seq![Op::Jmp(id as usize, LabelKind::Loop), Op::Pop(Reg::Rax), Op::PushImm(1)],
                ),
            )
        },
        Expr::IfElse { cond, if_body, else_body } => match else_body {
            Some(eb) => if st.label >= usize::MAX - 1 {
                Err(GenError::TooLarge)
            } else {
                let l_else = st.label;
                let l_end = st.label + 1;
                match cg_expr(*cond, with_label(st, st.label + 2)) {
                    Err(e) => Err(e),
                    Ok((cc, s1)) => match cg_exprs(if_body.exprs@, s1) {
                        Err(e) => Err(e),
                        Ok((cb, s2)) => match cg_exprs(eb.exprs@, s2) {
                            Err(e) => Err(e),
                            Ok((ce, s3)) => Ok((
                                cc + test_code(l_else, LabelKind::Else) + cb + seq![
                                    Op::Jmp(l_end as usize, LabelKind::End),
                                    Op::Label(l_else as usize, LabelKind::Else),
                                ] + ce + seq![Op::Label(l_end as usize, LabelKind::End)],
                                s3,
                            )),
                        },
                    },
                }
            },
            None => if st.label >= usize::MAX {
                Err(GenError::TooLarge)
            } else {
                let l_end = st.label;
                match cg_expr(*cond, with_label(st, st.label + 1)) {
                    Err(e) => Err(e),
                    Ok((cc, s1)) => match cg_exprs(if_body.exprs@, s1) {
                        Err(e) => Err(e),
                        Ok((cb, s2)) => Ok((
                            cc + test_code(l_end, LabelKind::End) + cb + seq![
                                Op::Label(l_end as usize, LabelKind::End),
                            ],
                            s2,
                        )),
                    },
                }
            },
        },
        Expr::FnCall { name, args } => if args.len() > MAX_ARGS {
            Err(GenError::TooManyArgs)
        } else {
            suffix(
                cg_exprs(args@, st),
                pop_args(args.len() as int) + seq![Op::Call(name@), Op::PushReg(Reg::Rax)],
            )
        },
        Expr::Enclosed { expr } => cg_expr(*expr, st),
    }
}

/// Code that pushes the address of `e`, the operand of `&` or the target of
/// an assignment. A local not yet in the table is given a slot.
pub open spec fn cg_address(e: Expr, st: CgState) -> CgResult
    decreases e,
{
    match e {
        Expr::Local { name } => match intern(st.locals, name@) {
            None => Err(GenError::TooLarge),
            Some((ls, off)) => Ok((address_code(off), with_locals(st, ls))),
        },
        Expr::UnOp { kind: UnOpKind::Deref, expr } => cg_expr(*expr, st),
        _ => Err(GenError::InvalidLvalue),
    }
}

/// Code for each expression in turn.
pub open spec fn cg_exprs(es: Seq<Expr>, st: CgState) -> CgResult
    decreases es,
{
    if es.len() == 0 {
        Ok((Seq::empty(), st))
    } else {
        match cg_expr(es[0], st) {
            Err(e) => Err(e),
            Ok((c1, s1)) => prefix(c1, cg_exprs(es.drop_first(), s1)),
        }
    }
}

/// Pops `n` argument values, the last argument first, into their registers.
pub open spec fn pop_args(n: int) -> Seq<Ins>
    decreases n,
{
    if n <= 0 {
        Seq::empty()
    } else {
        seq![Op::Pop(arg_reg(n - 1))] + pop_args(n - 1)
    }
}

/// The names that `f` binds, in order.
pub open spec fn param_names(f: FnDef) -> Seq<Seq<char>> {
    f.args@.map_values(|a: (String, Type)| a.0@)
}

/// Code that copies each argument register into its slot, the first of `ps`
/// being argument `k`, and the table with each bound to its slot.
pub open spec fn cg_params(ps: Seq<Seq<char>>, k: int, ls: Seq<(Seq<char>, int)>) -> (Seq<Ins>, Seq<(Seq<char>, int)>)
    decreases ps.len(),
{
    if ps.len() == 0 {
        (Seq::empty(), ls)
    } else {
        let (c, l2) = cg_params(ps.drop_first(), k + 1, bind(ls, ps[0], (k + 1) * 8));
        (seq![Op::SubImm(Reg::Rax, 8), Op::Store(Reg::Rax, arg_reg(k))] + c, l2)
    }
}

/// Frame size of a function with `n` parameters: the entry function gets
/// `STACK_SIZE`, any other room for its parameters, rounded up to 16 bytes.
pub open spec fn frame_size(name: Seq<char>, n: int) -> int {
    if name == "main"@ {
        STACK_SIZE as int
    } else {
        (n + 1) / 2 * 2 * 8
    }
}

/// Code for a function definition: prologue, parameters, body, epilogue.
/// Each function starts with an empty table of locals.
pub open spec fn cg_fn(f: FnDef, st: CgState) -> CgResult {
    if f.args.len() > MAX_ARGS {
        Err(GenError::TooManyArgs)
    } else {
        let (pc, ls) = cg_params(param_names(f), 0, Seq::empty());
        let head = seq![
            Op::FnLabel(f.name@),
            Op::PushReg(Reg::Rbp),
            Op::MovReg(Reg::Rbp, Reg::Rsp),
            Op::SubImm(Reg::Rsp, frame_size(f.name@, f.args.len() as int) as usize),
            Op::MovReg(Reg::Rax, Reg::Rbp),
        ];
        prefix(head + pc, suffix(cg_exprs(f.body.exprs@, with_locals(st, ls)), seq![Op::Leave, Op::Ret]))
    }
}

pub open spec fn cg_fns(fs: Seq<FnDef>, st: CgState) -> CgResult
    decreases fs.len(),
{
    if fs.len() == 0 {
        Ok((Seq::empty(), st))
    } else {
        match cg_fn(fs[0], st) {
            Err(e) => Err(e),
            Ok((c1, s1)) => prefix(c1, cg_fns(fs.drop_first(), s1)),
        }
    }
}

/// The state of a fresh generator.
pub open spec fn initial_state() -> CgState {
    CgState { locals: Seq::empty(), label: 0 }
}

pub open spec fn header_code() -> Seq<Ins> {
    seq![Op::IntelSyntax, Op::Global("main"@), Op::Blank]
}

/// The code of a whole program.
pub open spec fn cg_program(ast: Ast, st: CgState) -> CgResult {
    prefix(header_code(), suffix(cg_fns(ast.node.definitions@, st), seq![Op::Blank]))
}

pub proof fn lemma_prefix_prefix(a: Seq<Ins>, b: Seq<Ins>, r: CgResult)
    ensures
        prefix(a, prefix(b, r)) == prefix(a + b, r),
{
    if let Ok((c, st)) = r {
        assert(a + (b + c) =~= (a + b) + c);
    }
}

pub proof fn lemma_prefix_empty(r: CgResult)
    ensures
        prefix(Seq::empty(), r) == r,
{
    if let Ok((c, st)) = r {
        assert(Seq::<Ins>::empty() + c =~= c);
    }
}


/// `b` holds the entries of `a` first, unchanged.
pub open spec fn extends(a: Seq<(Seq<char>, int)>, b: Seq<(Seq<char>, int)>) -> bool {
    a.len() <= b.len() && b.subrange(0, a.len() as int) == a
}

/// Every label that `c` defines is numbered in `lo..hi`.
pub open spec fn labels_in(c: Seq<Ins>, lo: int, hi: int) -> bool {
    forall|i: int| 0 <= i < c.len() ==> (#[trigger] c[i] matches Op::Label(id, _) ==> lo <= id < hi)
}

/// On success the table only grew, the counter did not go back, and the
/// labels defined lie between the two counters.
pub open spec fn grows(st: CgState, r: CgResult) -> bool {
    r matches Ok((c, s)) ==> extends(st.locals, s.locals) && st.label <= s.label && labels_in(c, st.label, s.label)
}

proof fn lemma_labels_concat(a: Seq<Ins>, b: Seq<Ins>, lo: int, mid: int, hi: int)
    requires
        labels_in(a, lo, mid),
        labels_in(b, mid, hi),
        lo <= mid <= hi,
    ensures
        labels_in(a + b, lo, hi),
{
    assert forall|i: int| 0 <= i < (a + b).len() implies (#[trigger] (a + b)[i] matches Op::Label(id, _) ==> lo <= id
        < hi) by {
        if i < a.len() {
            assert((a + b)[i] == a[i]);
        } else {
            assert((a + b)[i] == b[i - a.len()]);
        }
    }
}

proof fn lemma_labels_join(a: Seq<Ins>, b: Seq<Ins>, lo: int, hi: int)
    requires
        labels_in(a, lo, hi),
        labels_in(b, lo, hi),
    ensures
        labels_in(a + b, lo, hi),
{
    assert forall|i: int| 0 <= i < (a + b).len() implies (#[trigger] (a + b)[i] matches Op::Label(id, _) ==> lo <= id
        < hi) by {
        if i < a.len() {
            assert((a + b)[i] == a[i]);
        } else {
            assert((a + b)[i] == b[i - a.len()]);
        }
    }
}

proof fn lemma_extends_trans(a: Seq<(Seq<char>, int)>, b: Seq<(Seq<char>, int)>, c: Seq<(Seq<char>, int)>)
    requires
        extends(a, b),
        extends(b, c),
    ensures
        extends(a, c),
{
    assert(c.subrange(0, a.len() as int) =~= b.subrange(0, a.len() as int));
}

proof fn lemma_intern_extends(ls: Seq<(Seq<char>, int)>, name: Seq<char>)
    ensures
        intern(ls, name) matches Some((l2, _)) ==> extends(ls, l2),
{
    if let Some((l2, _)) = intern(ls, name) {
        assert(l2.subrange(0, ls.len() as int) =~= ls);
    }
}

/// Growth of each kind of generated code, proved together.
#[verifier::rlimit(100)]
#[verifier::spinoff_prover]
pub proof fn lemma_expr_grows(e: Expr, st: CgState)
    requires
        st.label >= 0,
    ensures
        grows(st, cg_expr(e, st)),
        grows(st, cg_address(e, st)),
    decreases e,
{
    lemma_intern_extends(st.locals, if let Expr::Local { name } = e { name@ } else if let Expr::Init {
        name,
        ..
    } = e { name@ } else { Seq::empty() });
    assert(st.locals.subrange(0, st.locals.len() as int) =~= st.locals);
    assert(labels_in(address_code(0), st.label, st.label));
    match e {
        Expr::Number { .. } => {},
        Expr::Local { name } => {
            let c = cg_expr(e, st);
            if let Some((_, off)) = intern(st.locals, name@) {
                assert(labels_in(address_code(off) + load_code(), st.label, st.label)) by {
                    lemma_labels_concat(address_code(off), load_code(), st.label, st.label, st.label);
                }
            }
        },
        Expr::UnOp { kind, expr } => {
            lemma_expr_grows(*expr, st);
            if let Ok((c, s)) = cg_expr(*expr, st) {
                let t = seq![Op::Pop(Reg::Rax), Op::Neg(Reg::Rax), Op::PushReg(Reg::Rax)];
                lemma_labels_concat(c, t, st.label, s.label, s.label);
                lemma_labels_concat(c, load_code(), st.label, s.label, s.label);
            }
        },
        Expr::BinOp { op, lhs, rhs } => {
            lemma_expr_grows(*lhs, st);
            if let Ok((c1, s1)) = cg_expr(*lhs, st) {
                lemma_expr_grows(*rhs, s1);
                if let Ok((c2, s2)) = cg_expr(*rhs, s1) {
                    lemma_extends_trans(st.locals, s1.locals, s2.locals);
                    let t = binop_code(op).push(Op::PushReg(Reg::Rax));
                    assert(labels_in(t, s2.label, s2.label));
                    lemma_labels_concat(c2, t, s1.label, s2.label, s2.label);
                    lemma_labels_concat(c1, c2 + t, st.label, s1.label, s2.label);
                }
            }
        },
        Expr::Init { name, value, .. } => {
            if let Some((ls, off)) = intern(st.locals, name@) {
                let s0 = with_locals(st, ls);
                lemma_expr_grows(*value, s0);
                if let Ok((c2, s2)) = cg_expr(*value, s0) {
                    lemma_extends_trans(st.locals, ls, s2.locals);
                    assert(labels_in(store_code(), s2.label, s2.label));
                    lemma_labels_concat(c2, store_code(), st.label, s2.label, s2.label);
                    lemma_labels_concat(address_code(off), c2 + store_code(), st.label, st.label, s2.label);
                }
            }
        },
        Expr::Assign { lhs, rhs } => {
            lemma_expr_grows(*lhs, st);
            if let Ok((c1, s1)) = cg_address(*lhs, st) {
                lemma_expr_grows(*rhs, s1);
                if let Ok((c2, s2)) = cg_expr(*rhs, s1) {
                    lemma_extends_trans(st.locals, s1.locals, s2.locals);
                    assert(labels_in(store_code(), s2.label, s2.label));
                    lemma_labels_concat(c2, store_code(), s1.label, s2.label, s2.label);
                    lemma_labels_concat(c1, c2 + store_code(), st.label, s1.label, s2.label);
                }
            }
        },
        Expr::Block(b) => {
            lemma_exprs_grow(b.exprs@, st);
        },
        Expr::Stmt { expr } => {
            lemma_expr_grows(*expr, st);
            if let Ok((c, s)) = cg_expr(*expr, st) {
                lemma_labels_concat(c, seq![Op::Pop(Reg::Rax), Op::PushImm(0)], st.label, s.label, s.label);
            }
        },
        Expr::Return { expr } => {
            lemma_expr_grows(*expr, st);
            if let Ok((c, s)) = cg_expr(*expr, st) {
                lemma_labels_concat(c, seq![Op::Pop(Reg::Rax), Op::Leave, Op::Ret], st.label, s.label, s.label);
            }
        },
        Expr::Loop { body } => {
            if st.label < usize::MAX {
                let s0 = with_label(st, st.label + 1);
                lemma_exprs_grow(body.exprs@, s0);
                if let Ok((c, s)) = cg_exprs(body.exprs@, s0) {
                    let id = st.label as usize;
                    let t = seq![Op::Jmp(id, LabelKind::Loop), Op::Pop(Reg::Rax), Op::PushImm(1)];
                    assert(labels_in(t, s.label, s.label));
                    lemma_labels_concat(c, t, s0.label, s.label, s.label);
                    assert(labels_in(seq![Op::Label(id, LabelKind::Loop)], st.label, s0.label));
                    lemma_labels_concat(seq![Op::Label(id, LabelKind::Loop)], c + t, st.label, s0.label, s.label);
                }
            }
        },
        Expr::IfElse { cond, if_body, else_body } => {
            lemma_if_grows(e, st);
        },
        Expr::FnCall { name, args } => {
            lemma_exprs_grow(args@, st);
            if let Ok((c, s)) = cg_exprs(args@, st) {
                let t = pop_args(args.len() as int) + seq![Op::Call(name@), Op::PushReg(Reg::Rax)];
                lemma_pop_args_no_labels(args.len() as int, s.label);
                assert(labels_in(seq![Op::Call(name@), Op::PushReg(Reg::Rax)], s.label, s.label));
                lemma_labels_join(pop_args(args.len() as int), seq![Op::Call(name@), Op::PushReg(Reg::Rax)], s.label, s.label);
                lemma_labels_concat(c, t, st.label, s.label, s.label);
            }
        },
        Expr::Enclosed { expr } => {
            lemma_expr_grows(*expr, st);
        },
    }
}

proof fn lemma_if_grows(e: Expr, st: CgState)
    requires
        e is IfElse,
        st.label >= 0,
    ensures
        grows(st, cg_expr(e, st)),
    decreases e, 0nat,
{
    if let Expr::IfElse { cond, if_body, else_body } = e {
    match else_body {
        Some(eb) => if st.label < usize::MAX - 1 {
            let s0 = with_label(st, st.label + 2);
            lemma_expr_grows(*cond, s0);
            if let Ok((cc, s1)) = cg_expr(*cond, s0) {
                lemma_exprs_grow(if_body.exprs@, s1);
                if let Ok((cb, s2)) = cg_exprs(if_body.exprs@, s1) {
                    lemma_exprs_grow(eb.exprs@, s2);
                    if let Ok((ce, s3)) = cg_exprs(eb.exprs@, s2) {
                        lemma_extends_trans(st.locals, s1.locals, s2.locals);
                        lemma_extends_trans(st.locals, s2.locals, s3.locals);
                        let l_else = st.label;
                        let l_end = st.label + 1;
                        let t = test_code(l_else, LabelKind::Else);
                        let mid = seq![
                            Op::Jmp(l_end as usize, LabelKind::End),
                            Op::Label(l_else as usize, LabelKind::Else),
                        ];
                        let last = seq![Op::Label(l_end as usize, LabelKind::End)];
                        assert(labels_in(t, s1.label, s1.label));
                        assert(labels_in(mid, st.label, s3.label));
                        assert(labels_in(last, st.label, s3.label));
                        lemma_labels_concat(cc, t, st.label, s1.label, s1.label);
                        lemma_labels_concat(cc + t, cb, st.label, s1.label, s2.label);
                        assert(labels_in(cc + t + cb, st.label, s3.label));
                        lemma_labels_join(cc + t + cb, mid, st.label, s3.label);
                        assert(labels_in(ce, st.label, s3.label));
                        lemma_labels_join(cc + t + cb + mid, ce, st.label, s3.label);
                        lemma_labels_join(cc + t + cb + mid + ce, last, st.label, s3.label);
                    }
                }
            }
        },
        None => if st.label < usize::MAX {
            let s0 = with_label(st, st.label + 1);
            lemma_expr_grows(*cond, s0);
            if let Ok((cc, s1)) = cg_expr(*cond, s0) {
                lemma_exprs_grow(if_body.exprs@, s1);
                if let Ok((cb, s2)) = cg_exprs(if_body.exprs@, s1) {
                    lemma_extends_trans(st.locals, s1.locals, s2.locals);
                    let t = test_code(st.label, LabelKind::End);
                    let last = seq![Op::Label(st.label as usize, LabelKind::End)];
                    assert(labels_in(t, s1.label, s1.label));
                    assert(labels_in(last, st.label, s2.label));
                    lemma_labels_concat(cc, t, st.label, s1.label, s1.label);
                    lemma_labels_concat(cc + t, cb, st.label, s1.label, s2.label);
                    lemma_labels_join(cc + t + cb, last, st.label, s2.label);
                }
            }
        },
    }
    }
}

pub proof fn lemma_exprs_grow(es: Seq<Expr>, st: CgState)
    requires
        st.label >= 0,
    ensures
        grows(st, cg_exprs(es, st)),
    decreases es,
{
    if es.len() == 0 {
        assert(st.locals.subrange(0, st.locals.len() as int) =~= st.locals);
    } else {
        lemma_expr_grows(es[0], st);
        if let Ok((c1, s1)) = cg_expr(es[0], st) {
            lemma_exprs_grow(es.drop_first(), s1);
            if let Ok((c2, s2)) = cg_exprs(es.drop_first(), s1) {
                lemma_extends_trans(st.locals, s1.locals, s2.locals);
                lemma_labels_concat(c1, c2, st.label, s1.label, s2.label);
            }
        }
    }
}

proof fn lemma_pop_args_no_labels(n: int, l: int)
    ensures
        labels_in(pop_args(n), l, l),
    decreases n,
{
    if n > 0 {
        lemma_pop_args_no_labels(n - 1, l);
        assert(labels_in(seq![Op::<Seq<char>>::Pop(arg_reg(n - 1))], l, l));
        lemma_labels_join(seq![Op::Pop(arg_reg(n - 1))], pop_args(n - 1), l, l);
    }
}

proof fn lemma_find_push(ls: Seq<(Seq<char>, int)>, name: Seq<char>, off: int, k: int)
    requires
        0 <= k <= ls.len(),
        find_from(ls, name, k) is None,
    ensures
        find_from(ls.push((name, off)), name, k) == Some(ls.len() as int),
    decreases ls.len() - k,
{
    if k < ls.len() {
        lemma_find_push(ls, name, off, k + 1);
    }
}

proof fn lemma_find_extends(a: Seq<(Seq<char>, int)>, b: Seq<(Seq<char>, int)>, name: Seq<char>, k: int)
    requires
        extends(a, b),
        0 <= k,
        find_from(a, name, k) is Some,
    ensures
        find_from(b, name, k) == find_from(a, name, k),
    decreases a.len() - k,
{
    lemma_find_from(a, name, k);
    assert(b[k] == b.subrange(0, a.len() as int)[k]);
    if a[k].0 != name {
        lemma_find_extends(a, b, name, k + 1);
    }
}

/// Two locals declared one after the other, both new, get offsets in the
/// order of their declarations: the first the word after the table's size,
/// the second at least one word further. Each declaration stores at its own
/// offset, the first keeps its offset, and a later assignment to it stores
/// at that same offset.
pub proof fn lemma_locals_in_order(x: Expr, y: Expr, z: Expr, st: CgState)
    requires
        st.label >= 0,
        x matches Expr::Init { name: nx, .. } && find_local(st.locals, nx@) is None && (z matches Expr::Local {
            name: nz,
        } && nz@ == nx@),
        cg_expr(x, st) is Ok,
        y matches Expr::Init { name: ny, .. } && find_local(cg_expr(x, st)->Ok_0.1.locals, ny@) is None,
        cg_expr(y, cg_expr(x, st)->Ok_0.1) is Ok,
    ensures
        ({
            let s1 = cg_expr(x, st)->Ok_0.1;
            let s2 = cg_expr(y, s1)->Ok_0.1;
            let ox = (st.locals.len() + 1) * 8 as int;
            let oy = (s1.locals.len() + 1) * 8 as int;
            &&& cg_expr(x, st)->Ok_0.0.take(3) == address_code(ox)
            &&& cg_expr(y, s1)->Ok_0.0.take(3) == address_code(oy)
            &&& oy >= ox + 8
            &&& find_local(s2.locals, x->Init_name@) == Some(st.locals.len() as int)
            &&& s2.locals[st.locals.len() as int].1 == ox
            &&& cg_address(z, s2) == Ok::<(Seq<Ins>, CgState), GenError>((address_code(ox), s2))
        }),
{
    let nx = x->Init_name@;
    let ny = y->Init_name@;
    let s1 = cg_expr(x, st)->Ok_0.1;
    let s2 = cg_expr(y, s1)->Ok_0.1;
    let ox = (st.locals.len() + 1) * 8 as int;
    let oy = (s1.locals.len() + 1) * 8 as int;
    let l1 = st.locals.push((nx, ox));
    lemma_find_push(st.locals, nx, ox, 0);
    let v1 = *x->Init_value;
    lemma_expr_grows(v1, with_locals(st, l1));
    let cv1 = cg_expr(v1, with_locals(st, l1))->Ok_0.0;
    assert(cg_expr(x, st)->Ok_0.0 == address_code(ox) + (cv1 + store_code()));
    assert((address_code(ox) + (cv1 + store_code())).take(3) =~= address_code(ox));
    lemma_find_extends(l1, s1.locals, nx, 0);
    let l2 = s1.locals.push((ny, oy));
    lemma_find_push(s1.locals, ny, oy, 0);
    let v2 = *y->Init_value;
    lemma_expr_grows(v2, with_locals(s1, l2));
    let cv2 = cg_expr(v2, with_locals(s1, l2))->Ok_0.0;
    assert(cg_expr(y, s1)->Ok_0.0 == address_code(oy) + (cv2 + store_code()));
    assert((address_code(oy) + (cv2 + store_code())).take(3) =~= address_code(oy));
    assert(extends(s1.locals, l2)) by {
        assert(l2.subrange(0, s1.locals.len() as int) =~= s1.locals);
    }
    lemma_extends_trans(s1.locals, l2, s2.locals);
    lemma_extends_trans(l1, s1.locals, s2.locals);
    lemma_find_extends(l1, s2.locals, nx, 0);
    assert(s2.locals[st.locals.len() as int] == s2.locals.subrange(0, l1.len() as int)[st.locals.len() as int]);
}

/// What a generating step owes: on success the new code follows the old and
/// the state is the one the specification gives; on failure, its error.
pub open spec fn step_done(
    r: Result<(), GenError>,
    want: CgResult,
    c0: Seq<Ins>,
    c1: Seq<Ins>,
    s1: CgState,
) -> bool {
    match want {
        Ok((c, s)) => r is Ok && c1 == c0 + c && s1 == s,
        Err(e) => r == Err::<(), GenError>(e),
    }
}

/// Generates assembly for a program: it walks the tree once, keeping the
/// frame offset of each local and a counter for labels.
pub struct SofaGenerater {
    code: Vec<Instr>,
    local: Vec<(String, usize)>,
    label_id: usize,
}

impl SofaGenerater {
    pub closed spec fn state(&self) -> CgState {
        CgState {
            locals: self.local@.map_values(|p: (String, usize)| (p.0@, p.1 as int)),
            label: self.label_id as int,
        }
    }

    pub closed spec fn code_view(&self) -> Seq<Ins> {
        self.code@.map_values(|i: Instr| i@)
    }

    /// A generator with no code, no locals and label counter zero.
    pub fn new() -> (r: SofaGenerater)
        ensures
            r.code_view() == Seq::<Ins>::empty(),
            r.state() == initial_state(),
    {
        let r = SofaGenerater { code: Vec::new(), local: Vec::new(), label_id: 0 };
        assert(r.code_view() =~= Seq::<Ins>::empty());
        assert(r.state().locals =~= Seq::<(Seq<char>, int)>::empty());
        r
    }

    fn emit(&mut self, i: Instr)
        ensures
            final(self).code_view() == old(self).code_view().push(i@),
            final(self).state() == old(self).state(),
    {
        self.code.push(i);
        assert(self.code_view() =~= old(self).code_view().push(i@));
    }

    fn find(&self, name: &String) -> (r: Option<usize>)
        ensures
            r matches Some(k) ==> find_local(self.state().locals, name@) == Some(k as int)
                && k < self.local.len(),
            r is None ==> find_local(self.state().locals, name@) is None,
    {
        proof {
            lemma_find_from(self.state().locals, name@, 0);
        }
        let ghost ls = self.state().locals;
        let mut k: usize = 0;
        while k < self.local.len()
            invariant
                ls == self.state().locals,
                k <= self.local.len(),
                find_local(ls, name@) == find_from(ls, name@, k as int),
            decreases self.local.len() - k,
        {
            if self.local[k].0 == *name {
                return Some(k);
            }
            k = k + 1;
        }
        None
    }

    /// The offset of `name`, giving it the next slot if it has none.
    fn intern(&mut self, name: &String) -> (r: Result<usize, GenError>)
        ensures
            final(self).code_view() == old(self).code_view(),
            final(self).state().label == old(self).state().label,
            match intern(old(self).state().locals, name@) {
                None => r == Err::<usize, GenError>(GenError::TooLarge),
                Some((ls, off)) => r == Ok::<usize, GenError>(off as usize) && off == r->Ok_0 as int
                    && final(self).state().locals == ls,
            },
    {
        match self.find(name) {
            Some(k) => Ok(self.local[k].1),
            None => {
                let n = self.local.len();
                if n < usize::MAX / 8 {
                    let off = (n + 1) * 8;
                    self.local.push((name.clone(), off));
                    assert(self.state().locals =~= old(self).state().locals.push((name@, off as int)));
                    Ok(off)
                } else {
                    Err(GenError::TooLarge)
                }
            },
        }
    }

    /// Binds `name` to `off`, replacing an earlier binding.
    fn bind(&mut self, name: &String, off: usize)
        ensures
            final(self).code_view() == old(self).code_view(),
            final(self).state() == with_locals(
                old(self).state(),
                bind(old(self).state().locals, name@, off as int),
            ),
    {
        match self.find(name) {
            Some(k) => {
                self.local.set(k, (name.clone(), off));
                assert(self.state().locals =~= old(self).state().locals.update(k as int, (name@, off as int)));
            },
            None => {
                self.local.push((name.clone(), off));
                assert(self.state().locals =~= old(self).state().locals.push((name@, off as int)));
            },
        }
    }

    /// Pops `n` argument values into their registers, the last one first.
    fn emit_pops(&mut self, n: usize)
        requires
            n <= MAX_ARGS,
        ensures
            final(self).code_view() == old(self).code_view() + pop_args(n as int),
            final(self).state() == old(self).state(),
    {
        let ghost mut done = Seq::<Ins>::empty();
        assert(old(self).code_view() + done =~= old(self).code_view());
        assert(pop_args(n as int) =~= done + pop_args(n as int));
        let mut k = n;
        while k > 0
            invariant
                k <= n <= MAX_ARGS,
                self.code_view() == old(self).code_view() + done,
                self.state() == old(self).state(),
                pop_args(n as int) == done + pop_args(k as int),
            decreases k,
        {
            self.emit(Op::Pop(Self::arg_register(k - 1)));
            proof {
                assert(done + pop_args(k as int) =~= done.push(Op::Pop(arg_reg(k - 1))) + pop_args(k - 1));
                done = done.push(Op::Pop(arg_reg(k - 1)));
            }
            k = k - 1;
        }
        assert(done + pop_args(0) =~= done);
    }

    fn emit_address(&mut self, off: usize)
        ensures
            final(self).code_view() == old(self).code_view() + address_code(off as int),
            final(self).state() == old(self).state(),
    {
        self.emit(Op::MovReg(Reg::Rax, Reg::Rbp));
        self.emit(Op::SubImm(Reg::Rax, off));
        self.emit(Op::PushReg(Reg::Rax));
        assert(self.code_view() =~= old(self).code_view() + address_code(off as int));
    }

    fn emit_load(&mut self)
        ensures
            final(self).code_view() == old(self).code_view() + load_code(),
            final(self).state() == old(self).state(),
    {
        self.emit(Op::Pop(Reg::Rax));
        self.emit(Op::Load(Reg::Rax, Reg::Rax));
        self.emit(Op::PushReg(Reg::Rax));
        assert(self.code_view() =~= old(self).code_view() + load_code());
    }

    fn emit_store(&mut self)
        ensures
            final(self).code_view() == old(self).code_view() + store_code(),
            final(self).state() == old(self).state(),
    {
        self.emit(Op::Pop(Reg::Rdi));
        self.emit(Op::Pop(Reg::Rax));
        self.emit(Op::Store(Reg::Rax, Reg::Rdi));
        self.emit(Op::PushImm(0));
        assert(self.code_view() =~= old(self).code_view() + store_code());
    }

    #[verifier::rlimit(50)]
    fn emit_binop(&mut self, op: BinOpKind)
        ensures
            final(self).code_view() == old(self).code_view() + binop_code(op).push(Op::PushReg(Reg::Rax)),
            final(self).state() == old(self).state(),
    {
        match op {
            BinOpKind::Gt | BinOpKind::GtEq => {
                self.emit(Op::Pop(Reg::Rax));
                self.emit(Op::Pop(Reg::Rdi));
            },
            _ => {
                self.emit(Op::Pop(Reg::Rdi));
                self.emit(Op::Pop(Reg::Rax));
            },
        }
        match op {
            BinOpKind::Add => self.emit(Op::AddReg(Reg::Rax, Reg::Rdi)),
            BinOpKind::Sub => self.emit(Op::SubReg(Reg::Rax, Reg::Rdi)),
            BinOpKind::Mul => self.emit(Op::IMul(Reg::Rax, Reg::Rdi)),
            BinOpKind::Div => {
                self.emit(Op::Cqo);
                self.emit(Op::IDiv(Reg::Rdi));
            },
            _ => {
                let c = match op {
                    BinOpKind::Eq => Cond::Equal,
                    BinOpKind::Neq => Cond::NotEqual,
                    BinOpKind::Lt | BinOpKind::Gt => Cond::Less,
                    _ => Cond::LessEq,
                };
                self.emit(Op::CmpReg(Reg::Rax, Reg::Rdi));
                self.emit(Op::SetCc(c, Reg::Al));
                self.emit(Op::Movzb(Reg::Rax, Reg::Al));
            },
        }
        self.emit(Op::PushReg(Reg::Rax));
        assert(self.code_view() =~= old(self).code_view() + binop_code(op).push(Op::PushReg(Reg::Rax)));
    }

    fn arg_register(i: usize) -> (r: Reg)
        ensures
            r == arg_reg(i as int),
    {
        if i == 0 { Reg::Rdi }
        else if i == 1 { Reg::Rsi }
        else if i == 2 { Reg::Rdx }
        else if i == 3 { Reg::Rcx }
        else if i == 4 { Reg::R8 }
        else { Reg::R9 }
    }

    /// Code for each expression of a block in turn.
    fn gen_block(&mut self, block: &Block) -> (r: Result<(), GenError>)
        ensures
            step_done(r, cg_exprs(block.exprs@, old(self).state()), old(self).code_view(),
                final(self).code_view(), final(self).state()),
        decreases block, 1nat,
    {
        self.gen_exprs(&block.exprs)
    }

    /// Code for each expression in turn, each leaving one word.
    fn gen_exprs(&mut self, exprs: &Vec<Expr>) -> (r: Result<(), GenError>)
        ensures
            step_done(r, cg_exprs(exprs@, old(self).state()), old(self).code_view(),
                final(self).code_view(), final(self).state()),
        decreases exprs, 0nat,
    {
        let ghost es = exprs@;
        let ghost st0 = self.state();
        let ghost c0 = self.code_view();
        let ghost mut done = Seq::<Ins>::empty();
        proof {
            assert(es.skip(0) =~= es);
            lemma_prefix_empty(cg_exprs(es, st0));
            assert(c0 + done =~= c0);
        }
        let mut i: usize = 0;
        while i < exprs.len()
            invariant
                es == exprs@,
                st0 == old(self).state(),
                c0 == old(self).code_view(),
                i <= es.len(),
                self.code_view() == c0 + done,
                cg_exprs(es, st0) == prefix(done, cg_exprs(es.skip(i as int), self.state())),
            decreases es.len() - i,
        {
            let ghost si = self.state();
            let ghost ci = self.code_view();
            proof {
                assert(es.skip(i as int)[0] == es[i as int]);
                assert(es.skip(i as int).drop_first() =~= es.skip(i + 1));
            }
            match self.gen_expr(&exprs[i]) {
                Err(e) => {
                    assert(cg_exprs(es.skip(i as int), si) == Err::<(Seq<Ins>, CgState), GenError>(e));
                    return Err(e);
                },
                Ok(()) => {},
            }
            proof {
                let c1 = cg_expr(es[i as int], si)->Ok_0.0;
                lemma_prefix_prefix(done, c1, cg_exprs(es.skip(i + 1), self.state()));
                done = done + c1;
                assert(self.code_view() =~= c0 + done);
            }
            i = i + 1;
        }
        proof {
            assert(es.skip(i as int).len() == 0);
            assert(done + Seq::<Ins>::empty() =~= done);
        }
        Ok(())
    }

    /// Code that pushes the address of the operand of `&` or of an
    /// assignment's target.
    fn gen_address(&mut self, expr: &Expr) -> (r: Result<(), GenError>)
        ensures
            step_done(r, cg_address(*expr, old(self).state()), old(self).code_view(),
                final(self).code_view(), final(self).state()),
        decreases expr, 1nat,
    {
        match expr {
            Expr::Local { name } => {
                match self.intern(name) {
                    Err(e) => {
                        return Err(e);
                    },
                    Ok(off) => {
                        self.emit_address(off);
                    },
                }
                Ok(())
            },
            Expr::UnOp { kind: UnOpKind::Deref, expr } => self.gen_expr(expr),
            _ => Err(GenError::InvalidLvalue),
        }
    }

    /// Code that leaves the value of `expr` on the stack.
    #[verifier::rlimit(100)]
    #[verifier::spinoff_prover]
    fn gen_expr(&mut self, expr: &Expr) -> (r: Result<(), GenError>)
        ensures
            step_done(r, cg_expr(*expr, old(self).state()), old(self).code_view(),
                final(self).code_view(), final(self).state()),
        decreases expr, 3nat,
    {
        let ghost st0 = self.state();
        let ghost c0 = self.code_view();
        match expr {
            Expr::Number { value } => {
                self.emit(Op::PushImm(*value));
                assert(self.code_view() =~= c0 + seq![Op::PushImm(*value)]);
                Ok(())
            },
            Expr::Local { name } => {
                match self.intern(name) {
                    Err(e) => {
                        return Err(e);
                    },
                    Ok(off) => {
                        self.emit_address(off);
                    },
                }
                self.emit_load();
                assert(self.state() == with_locals(st0, self.state().locals));
                let ghost off = intern(st0.locals, name@)->Some_0.1;
                assert(self.code_view() =~= c0 + (address_code(off) + load_code()));
                Ok(())
            },
            Expr::UnOp { kind, expr: inner } => {
                match kind {
                    UnOpKind::Neg => {
                        match self.gen_expr(inner) {
                            Err(e) => {
                                return Err(e);
                            },
                            Ok(()) => {},
                        }
                        let ghost c1 = self.code_view();
                        self.emit(Op::Pop(Reg::Rax));
                        self.emit(Op::Neg(Reg::Rax));
                        self.emit(Op::PushReg(Reg::Rax));
                        let ghost t = seq![Op::Pop(Reg::Rax), Op::Neg(Reg::Rax), Op::PushReg(Reg::Rax)];
                        let ghost ci = cg_expr(**inner, st0)->Ok_0.0;
                        assert(self.code_view() =~= c0 + (ci + t));
                        Ok(())
                    },
                    UnOpKind::Ref => self.gen_address(inner),
                    UnOpKind::Deref => {
                        match self.gen_expr(inner) {
                            Err(e) => {
                                return Err(e);
                            },
                            Ok(()) => {},
                        }
                        self.emit_load();
                        let ghost ci = cg_expr(**inner, st0)->Ok_0.0;
                        assert(self.code_view() =~= c0 + (ci + load_code()));
                        Ok(())
                    },
                }
            },
            Expr::BinOp { op, lhs, rhs } => {
                match self.gen_expr(lhs) {
                    Err(e) => {
                        return Err(e);
                    },
                    Ok(()) => {},
                }
                let ghost s1 = self.state();
                match self.gen_expr(rhs) {
                    Err(e) => {
                        return Err(e);
                    },
                    Ok(()) => {},
                }
                self.emit_binop(*op);
                let ghost cl = cg_expr(**lhs, st0)->Ok_0.0;
                let ghost cr = cg_expr(**rhs, s1)->Ok_0.0;
                assert(self.code_view() =~= c0 + (cl + (cr + binop_code(*op).push(Op::PushReg(Reg::Rax)))));
                Ok(())
            },
            Expr::Init { name, ty: _, value } => {
                match self.intern(name) {
                    Err(e) => {
                        return Err(e);
                    },
                    Ok(off) => {
                        self.emit_address(off);
                    },
                }
                let ghost s1 = self.state();
                assert(s1 == with_locals(st0, s1.locals));
                match self.gen_expr(value) {
                    Err(e) => {
                        return Err(e);
                    },
                    Ok(()) => {},
                }
                self.emit_store();
                let ghost off = intern(st0.locals, name@)->Some_0.1;
                let ghost cv = cg_expr(**value, s1)->Ok_0.0;
                assert(self.code_view() =~= c0 + (address_code(off) + (cv + store_code())));
                Ok(())
            },
            Expr::Assign { lhs, rhs } => {
                match self.gen_address(lhs) {
                    Err(e) => {
                        return Err(e);
                    },
                    Ok(()) => {},
                }
                let ghost s1 = self.state();
                match self.gen_expr(rhs) {
                    Err(e) => {
                        return Err(e);
                    },
                    Ok(()) => {},
                }
                self.emit_store();
                let ghost cl = cg_address(**lhs, st0)->Ok_0.0;
                let ghost cr = cg_expr(**rhs, s1)->Ok_0.0;
                assert(self.code_view() =~= c0 + (cl + (cr + store_code())));
                Ok(())
            },
            Expr::Block(b) => self.gen_block(b),
            Expr::Stmt { expr: inner } => {
                match self.gen_expr(inner) {
                    Err(e) => {
                        return Err(e);
                    },
                    Ok(()) => {},
                }
                self.emit(Op::Pop(Reg::Rax));
                self.emit(Op::PushImm(0));
                let ghost ci = cg_expr(**inner, st0)->Ok_0.0;
                assert(self.code_view() =~= c0 + (ci + seq![Op::Pop(Reg::Rax), Op::PushImm(0)]));
                Ok(())
            },
            Expr::Return { expr: inner } => {
                match self.gen_expr(inner) {
                    Err(e) => {
                        return Err(e);
                    },
                    Ok(()) => {},
                }
                self.emit(Op::Pop(Reg::Rax));
                self.gen_epilogue();
                let ghost ci = cg_expr(**inner, st0)->Ok_0.0;
                assert(self.code_view() =~= c0 + (ci + seq![Op::Pop(Reg::Rax), Op::Leave, Op::Ret]));
                Ok(())
            },
            Expr::Loop { body } => {
                if self.label_id >= usize::MAX {
                    return Err(GenError::TooLarge);
                }
                let id = self.label_id;
                self.label_id = self.label_id + 1;
                self.emit(Op::Label(id, LabelKind::Loop));
                let ghost s1 = self.state();
                assert(s1 == with_label(st0, id + 1));
                match self.gen_block(body) {
                    Err(e) => {
                        return Err(e);
                    },
                    Ok(()) => {},
                }
                self.emit(Op::Jmp(id, LabelKind::Loop));
                self.emit(Op::Pop(Reg::Rax));
                self.emit(Op::PushImm(1));
                let ghost cb = cg_exprs(body.exprs@, s1)->Ok_0.0;
                assert(self.code_view() =~= c0 + (seq![Op::Label(id, LabelKind::Loop)] + (cb + seq![
                    Op::Jmp(id, LabelKind::Loop),
                    Op::Pop(Reg::Rax),
                    Op::PushImm(1),
                ])));
                Ok(())
            },
            Expr::IfElse { .. } => self.gen_if(expr),
            Expr::FnCall { .. } => self.gen_call(expr),
            Expr::Enclosed { expr: inner } => self.gen_expr(inner),
        }
    }

    /// Code for a call: the arguments are pushed in order, then popped into
    /// their registers, the last one first.
    fn gen_call(&mut self, expr: &Expr) -> (r: Result<(), GenError>)
        requires
            expr is FnCall,
        ensures
            step_done(r, cg_expr(*expr, old(self).state()), old(self).code_view(),
                final(self).code_view(), final(self).state()),
        decreases expr, 2nat,
    {
        let ghost st0 = self.state();
        let ghost c0 = self.code_view();
        let (name, args) = match expr {
            Expr::FnCall { name, args } => (name, args),
            _ => {
                return Err(GenError::InvalidLvalue);
            },
        };
        if args.len() > MAX_ARGS {
            return Err(GenError::TooManyArgs);
        }
        match self.gen_exprs(args) {
            Err(e) => {
                return Err(e);
            },
            Ok(()) => {},
        }
        self.emit_pops(args.len());
        self.emit(Op::Call(name.clone()));
        self.emit(Op::PushReg(Reg::Rax));
        let ghost ca = cg_exprs(args@, st0)->Ok_0.0;
        assert(self.code_view() =~= c0 + (ca + (pop_args(args.len() as int) + seq![Op::Call(name@), Op::PushReg(Reg::Rax)])));
        Ok(())
    }

    /// Code for `if cond { if_body } else { else_body }`.
    fn gen_if(&mut self, expr: &Expr) -> (r: Result<(), GenError>)
        requires
            expr is IfElse,
        ensures
            step_done(r, cg_expr(*expr, old(self).state()), old(self).code_view(),
                final(self).code_view(), final(self).state()),
        decreases expr, 2nat,
    {
        let ghost st0 = self.state();
        let ghost c0 = self.code_view();
        let (cond, if_body, else_body) = match expr {
            Expr::IfElse { cond, if_body, else_body } => (cond, if_body, else_body),
            _ => {
                return Err(GenError::InvalidLvalue);
            },
        };
        match else_body {
            Some(eb) => {
                if self.label_id >= usize::MAX - 1 {
                    return Err(GenError::TooLarge);
                }
                let l_else = self.label_id;
                let l_end = self.label_id + 1;
                self.label_id = self.label_id + 2;
                assert(self.state() == with_label(st0, st0.label + 2));
                match self.gen_expr(cond) {
                    Err(e) => {
                        return Err(e);
                    },
                    Ok(()) => {},
                }
                let ghost s1 = self.state();
                self.emit(Op::Pop(Reg::Rax));
                self.emit(Op::CmpImm(Reg::Rax, 0));
                self.emit(Op::Je(l_else, LabelKind::Else));
                match self.gen_block(if_body) {
                    Err(e) => {
                        return Err(e);
                    },
                    Ok(()) => {},
                }
                let ghost s2 = self.state();
                self.emit(Op::Jmp(l_end, LabelKind::End));
                self.emit(Op::Label(l_else, LabelKind::Else));
                match self.gen_block(eb) {
                    Err(e) => {
                        return Err(e);
                    },
                    Ok(()) => {},
                }
                self.emit(Op::Label(l_end, LabelKind::End));
                let ghost cc = cg_expr(**cond, with_label(st0, st0.label + 2))->Ok_0.0;
                let ghost cb = cg_exprs(if_body.exprs@, s1)->Ok_0.0;
                let ghost ce = cg_exprs(eb.exprs@, s2)->Ok_0.0;
                assert(self.code_view() =~= c0 + (cc + test_code(l_else as int, LabelKind::Else) + cb + seq![
                    Op::Jmp(l_end, LabelKind::End),
                    Op::Label(l_else, LabelKind::Else),
                ] + ce + seq![Op::Label(l_end, LabelKind::End)]));
                Ok(())
            },
            None => {
                if self.label_id >= usize::MAX {
                    return Err(GenError::TooLarge);
                }
                let l_end = self.label_id;
                self.label_id = self.label_id + 1;
                assert(self.state() == with_label(st0, st0.label + 1));
                match self.gen_expr(cond) {
                    Err(e) => {
                        return Err(e);
                    },
                    Ok(()) => {},
                }
                let ghost s1 = self.state();
                self.emit(Op::Pop(Reg::Rax));
                self.emit(Op::CmpImm(Reg::Rax, 0));
                self.emit(Op::Je(l_end, LabelKind::End));
                match self.gen_block(if_body) {
                    Err(e) => {
                        return Err(e);
                    },
                    Ok(()) => {},
                }
                self.emit(Op::Label(l_end, LabelKind::End));
                let ghost cc = cg_expr(**cond, with_label(st0, st0.label + 1))->Ok_0.0;
                let ghost cb = cg_exprs(if_body.exprs@, s1)->Ok_0.0;
                assert(self.code_view() =~= c0 + (cc + test_code(l_end as int, LabelKind::End) + cb + seq![
                    Op::Label(l_end, LabelKind::End),
                ]));
                Ok(())
            },
        }
    }

    fn gen_epilogue(&mut self)
        ensures
            final(self).code_view() == old(self).code_view() + seq![Op::Leave, Op::Ret],
            final(self).state() == old(self).state(),
    {
        self.emit(Op::Leave);
        self.emit(Op::Ret);
        assert(self.code_view() =~= old(self).code_view() + seq![Op::Leave, Op::Ret]);
    }

    fn gen_prologue(&mut self, name: &String, stack_size: usize)
        ensures
            final(self).code_view() == old(self).code_view() + seq![
                Op::FnLabel(name@),
                Op::PushReg(Reg::Rbp),
                Op::MovReg(Reg::Rbp, Reg::Rsp),
                Op::SubImm(Reg::Rsp, stack_size),
            ],
            final(self).state() == old(self).state(),
    {
        self.emit(Op::FnLabel(name.clone()));
        self.emit(Op::PushReg(Reg::Rbp));
        self.emit(Op::MovReg(Reg::Rbp, Reg::Rsp));
        self.emit(Op::SubImm(Reg::Rsp, stack_size));
        assert(self.code_view() =~= old(self).code_view() + seq![
            Op::FnLabel(name@),
            Op::PushReg(Reg::Rbp),
            Op::MovReg(Reg::Rbp, Reg::Rsp),
            Op::SubImm(Reg::Rsp, stack_size),
        ]);
    }

    /// Code for one function definition.
    fn gen_fn(&mut self, f: &FnDef) -> (r: Result<(), GenError>)
        ensures
            step_done(r, cg_fn(*f, old(self).state()), old(self).code_view(),
                final(self).code_view(), final(self).state()),
    {
        if f.args.len() > MAX_ARGS {
            return Err(GenError::TooManyArgs);
        }
        let ghost st0 = self.state();
        let ghost c0 = self.code_view();
        let n = f.args.len();
        let entry = <String as StringExecFns>::from_str("main");
        let stack_size = if f.name == entry {
            STACK_SIZE
        } else {
            (n + 1) / 2 * 2 * 8
        };
        self.gen_prologue(&f.name, stack_size);
        self.emit(Op::MovReg(Reg::Rax, Reg::Rbp));
        self.local = Vec::new();
        assert(self.state().locals =~= Seq::<(Seq<char>, int)>::empty());
        let ghost ps = param_names(*f);
        let ghost c1 = self.code_view();
        let ghost mut done = Seq::<Ins>::empty();
        proof {
            assert(ps.skip(0) =~= ps);
            assert(c1 + done =~= c1);
        }
        let mut i: usize = 0;
        while i < n
            invariant
                n == f.args.len() <= MAX_ARGS,
                ps == param_names(*f),
                i <= n,
                self.state().label == st0.label,
                self.code_view() == c1 + done,
                cg_params(ps, 0, Seq::empty()).0 == done + cg_params(ps.skip(i as int), i as int,
                    self.state().locals).0,
                cg_params(ps, 0, Seq::empty()).1 == cg_params(ps.skip(i as int), i as int, self.state().locals).1,
            decreases n - i,
        {
            let ghost ls = self.state().locals;
            proof {
                assert(ps.skip(i as int)[0] == f.args@[i as int].0@);
                assert(ps.skip(i as int).drop_first() =~= ps.skip(i + 1));
            }
            self.bind(&f.args[i].0, (i + 1) * 8);
            self.emit(Op::SubImm(Reg::Rax, 8));
            self.emit(Op::Store(Reg::Rax, Self::arg_register(i)));
            proof {
                let c2 = seq![Op::SubImm(Reg::Rax, 8), Op::Store(Reg::Rax, arg_reg(i as int))];
                let rest = cg_params(ps.skip(i + 1), i + 1, self.state().locals).0;
                assert(done + (c2 + rest) =~= (done + c2) + rest);
                done = done + c2;
                assert(self.code_view() =~= c1 + done);
            }
            i = i + 1;
        }
        proof {
            assert(ps.skip(i as int).len() == 0);
            assert(done + Seq::<Ins>::empty() =~= done);
            assert(self.state() == with_locals(st0, cg_params(ps, 0, Seq::empty()).1));
        }
        let ghost s1 = self.state();
        match self.gen_block(&f.body) {
            Err(e) => {
                return Err(e);
            },
            Ok(()) => {},
        }
        self.gen_epilogue();
        proof {
            let head = seq![
                Op::FnLabel(f.name@),
                Op::PushReg(Reg::Rbp),
                Op::MovReg(Reg::Rbp, Reg::Rsp),
                Op::SubImm(Reg::Rsp, frame_size(f.name@, f.args.len() as int) as usize),
                Op::MovReg(Reg::Rax, Reg::Rbp),
            ];
            assert(c1 =~= c0 + head);
            let cb = cg_exprs(f.body.exprs@, s1)->Ok_0.0;
            assert(self.code_view() =~= c0 + ((head + done) + (cb + seq![Op::Leave, Op::Ret])));
        }
        Ok(())
    }

    /// Code for each function definition in turn.
    fn gen_global(&mut self, global: &Global) -> (r: Result<(), GenError>)
        ensures
            step_done(r, cg_fns(global.definitions@, old(self).state()), old(self).code_view(),
                final(self).code_view(), final(self).state()),
    {
        let ghost fs = global.definitions@;
        let ghost st0 = self.state();
        let ghost c0 = self.code_view();
        let ghost mut done = Seq::<Ins>::empty();
        proof {
            assert(fs.skip(0) =~= fs);
            lemma_prefix_empty(cg_fns(fs, st0));
            assert(c0 + done =~= c0);
        }
        let mut i: usize = 0;
        while i < global.definitions.len()
            invariant
                fs == global.definitions@,
                st0 == old(self).state(),
                c0 == old(self).code_view(),
                i <= fs.len(),
                self.code_view() == c0 + done,
                cg_fns(fs, st0) == prefix(done, cg_fns(fs.skip(i as int), self.state())),
            decreases fs.len() - i,
        {
            let ghost si = self.state();
            proof {
                assert(fs.skip(i as int)[0] == fs[i as int]);
                assert(fs.skip(i as int).drop_first() =~= fs.skip(i + 1));
            }
            match self.gen_fn(&global.definitions[i]) {
                Err(e) => {
                    assert(cg_fns(fs.skip(i as int), si) == Err::<(Seq<Ins>, CgState), GenError>(e));
                    return Err(e);
                },
                Ok(()) => {},
            }
            proof {
                let c1 = cg_fn(fs[i as int], si)->Ok_0.0;
                lemma_prefix_prefix(done, c1, cg_fns(fs.skip(i + 1), self.state()));
                done = done + c1;
                assert(self.code_view() =~= c0 + done);
            }
            i = i + 1;
        }
        proof {
            assert(fs.skip(i as int).len() == 0);
            assert(done + Seq::<Ins>::empty() =~= done);
        }
        Ok(())
    }

    fn gen_header(&mut self)
        ensures
            final(self).code_view() == old(self).code_view() + header_code(),
            final(self).state() == old(self).state(),
    {
        let entry_point = <String as StringExecFns>::from_str("main");
        self.emit(Op::IntelSyntax);
        self.emit(Op::Global(entry_point));
        self.emit(Op::Blank);
        assert(self.code_view() =~= old(self).code_view() + header_code());
    }

    /// Generates the assembly of a whole program and returns its text: every
    /// line the generator has produced so far, one instruction per line.
    /// Fails, with no text, where the tree cannot be compiled.
    pub fn gen(&mut self, ast: &Ast) -> (r: Result<String, GenError>)
        ensures
            match cg_program(*ast, old(self).state()) {
                Ok((c, st)) => r is Ok && final(self).code_view() == old(self).code_view() + c
                    && final(self).state() == st && r->Ok_0@ == listing(final(self).code_view()),
                Err(e) => r == Err::<String, GenError>(e),
            },
    {
        let ghost st0 = self.state();
        let ghost c0 = self.code_view();
        self.gen_header();
        match self.gen_global(&ast.node) {
            Err(e) => {
                return Err(e);
            },
            Ok(()) => {},
        }
        self.emit(Op::Blank);
        proof {
            let cf = cg_fns(ast.node.definitions@, st0)->Ok_0.0;
            assert(self.code_view() =~= c0 + (header_code() + (cf + seq![Op::Blank])));
        }
        Ok(write_listing(&self.code))
    }
}

} // verus!
