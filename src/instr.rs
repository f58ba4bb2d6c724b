use vstd::prelude::*;
use vstd::string::StringExecFns;

verus! {

/// Registers of the target machine that the generated code uses.
#[derive(Debug, Clone, Copy, PartialEq, Eq, Structural)]
pub enum Reg {
    Rax,
    Rdi,
    Rsi,
    Rdx,
    Rcx,
    R8,
    R9,
    Rbp,
    Rsp,
    /// The low byte of `rax`.
    Al,
}

/// Conditions of the `set` instructions.
#[derive(Debug, Clone, Copy, PartialEq, Eq, Structural)]
pub enum Cond {
    Equal,
    NotEqual,
    Less,
    LessEq,
}

/// What a generated label marks.
#[derive(Debug, Clone, Copy, PartialEq, Eq, Structural)]
pub enum LabelKind {
    Loop,
    Else,
    End,
}

/// One line of assembly (Intel syntax). `N` is the type of the names of
/// symbols: `String` in executable code, `Seq<char>` in specifications.
#[derive(Debug)]
pub enum Op<N> {
    IntelSyntax,
    Global(N),
    Blank,
    /// A function's entry label.
    FnLabel(N),
    /// A generated label, by number and kind.
    Label(usize, LabelKind),
    PushReg(Reg),
    PushImm(i64),
    Pop(Reg),
    /// `mov dst, src`
    MovReg(Reg, Reg),
    SubImm(Reg, usize),
    SubReg(Reg, Reg),
    AddReg(Reg, Reg),
    IMul(Reg, Reg),
    Cqo,
    IDiv(Reg),
    /// `mov [addr], value`
    Store(Reg, Reg),
    /// `mov dst, [addr]`
    Load(Reg, Reg),
    CmpReg(Reg, Reg),
    CmpImm(Reg, i64),
    SetCc(Cond, Reg),
    Movzb(Reg, Reg),
    Neg(Reg),
    Jmp(usize, LabelKind),
    Je(usize, LabelKind),
    Call(N),
    Leave,
    Ret,
}

pub type Instr = Op<String>;

/// An instruction as the specifications see it.
pub type Ins = Op<Seq<char>>;

impl View for Op<String> {
    type V = Ins;

    open spec fn view(&self) -> Ins {
        match self {
            Op::IntelSyntax => Op::IntelSyntax,
            Op::Global(n) => Op::Global(n@),
            Op::Blank => Op::Blank,
            Op::FnLabel(n) => Op::FnLabel(n@),
            Op::Label(i, k) => Op::Label(*i, *k),
            Op::PushReg(r) => Op::PushReg(*r),
            Op::PushImm(v) => Op::PushImm(*v),
            Op::Pop(r) => Op::Pop(*r),
            Op::MovReg(a, b) => Op::MovReg(*a, *b),
            Op::SubImm(a, v) => Op::SubImm(*a, *v),
            Op::SubReg(a, b) => Op::SubReg(*a, *b),
            Op::AddReg(a, b) => Op::AddReg(*a, *b),
            Op::IMul(a, b) => Op::IMul(*a, *b),
            Op::Cqo => Op::Cqo,
            Op::IDiv(r) => Op::IDiv(*r),
            Op::Store(a, b) => Op::Store(*a, *b),
            Op::Load(a, b) => Op::Load(*a, *b),
            Op::CmpReg(a, b) => Op::CmpReg(*a, *b),
            Op::CmpImm(a, v) => Op::CmpImm(*a, *v),
            Op::SetCc(c, r) => Op::SetCc(*c, *r),
            Op::Movzb(a, b) => Op::Movzb(*a, *b),
            Op::Neg(r) => Op::Neg(*r),
            Op::Jmp(i, k) => Op::Jmp(*i, *k),
            Op::Je(i, k) => Op::Je(*i, *k),
            Op::Call(n) => Op::Call(n@),
            Op::Leave => Op::Leave,
            Op::Ret => Op::Ret,
        }
    }
}

pub open spec fn digit_char(d: nat) -> char {
    if d == 0 { '0' }
    else if d == 1 { '1' }
    else if d == 2 { '2' }
    else if d == 3 { '3' }
    else if d == 4 { '4' }
    else if d == 5 { '5' }
    else if d == 6 { '6' }
    else if d == 7 { '7' }
    else if d == 8 { '8' }
    else { '9' }
}

/// The decimal digits of `n`, most significant first, without leading zeros.
pub open spec fn decimal(n: nat) -> Seq<char>
    decreases n,
{
    if n < 10 {
        seq![digit_char(n)]
    } else {
        decimal(n / 10).push(digit_char(n % 10))
    }
}

/// `v` in decimal, with a leading `-` when negative.
pub open spec fn signed_text(v: int) -> Seq<char> {
    if v < 0 {
        seq!['-'] + decimal((-v) as nat)
    } else {
        decimal(v as nat)
    }
}

pub open spec fn reg_text(r: Reg) -> Seq<char> {
    match r {
        Reg::Rax => "rax"@,
        Reg::Rdi => "rdi"@,
        Reg::Rsi => "rsi"@,
        Reg::Rdx => "rdx"@,
        Reg::Rcx => "rcx"@,
        Reg::R8 => "r8"@,
        Reg::R9 => "r9"@,
        Reg::Rbp => "rbp"@,
        Reg::Rsp => "rsp"@,
        Reg::Al => "al"@,
    }
}

pub open spec fn cond_text(c: Cond) -> Seq<char> {
    match c {
        Cond::Equal => "e"@,
        Cond::NotEqual => "ne"@,
        Cond::Less => "l"@,
        Cond::LessEq => "le"@,
    }
}

pub open spec fn kind_text(k: LabelKind) -> Seq<char> {
    match k {
        LabelKind::Loop => "loop"@,
        LabelKind::Else => "else"@,
        LabelKind::End => "end"@,
    }
}

/// The name of a generated label, such as `.L3_loop`.
pub open spec fn label_text(id: nat, k: LabelKind) -> Seq<char> {
    ".L"@ + decimal(id) + "_"@ + kind_text(k)
}

/// The text of one instruction, without its line feed.
pub open spec fn render(i: Ins) -> Seq<char> {
    match i {
        Op::IntelSyntax => ".intel_syntax noprefix"@,
        Op::Global(n) => ".global "@ + n,
        Op::Blank => Seq::empty(),
        Op::FnLabel(n) => n + ":"@,
        Op::Label(id, k) => label_text(id as nat, k) + ":"@,
        Op::PushReg(r) => "    push "@ + reg_text(r),
        Op::PushImm(v) => "    push "@ + signed_text(v as int),
        Op::Pop(r) => "    pop "@ + reg_text(r),
        Op::MovReg(a, b) => "    mov "@ + reg_text(a) + ", "@ + reg_text(b),
        Op::SubImm(a, v) => "    sub "@ + reg_text(a) + ", "@ + decimal(v as nat),
        Op::SubReg(a, b) => "    sub "@ + reg_text(a) + ", "@ + reg_text(b),
        Op::AddReg(a, b) => "    add "@ + reg_text(a) + ", "@ + reg_text(b),
        Op::IMul(a, b) => "    imul "@ + reg_text(a) + ", "@ + reg_text(b),
        Op::Cqo => "    cqo"@,
        Op::IDiv(r) => "    idiv "@ + reg_text(r),
        Op::Store(a, b) => "    mov ["@ + reg_text(a) + "], "@ + reg_text(b),
        Op::Load(a, b) => "    mov "@ + reg_text(a) + ", ["@ + reg_text(b) + "]"@,
        Op::CmpReg(a, b) => "    cmp "@ + reg_text(a) + ", "@ + reg_text(b),
        Op::CmpImm(a, v) => "    cmp "@ + reg_text(a) + ", "@ + signed_text(v as int),
        Op::SetCc(c, r) => "    set"@ + cond_text(c) + " "@ + reg_text(r),
        Op::Movzb(a, b) => "    movzb "@ + reg_text(a) + ", "@ + reg_text(b),
        Op::Neg(r) => "    neg "@ + reg_text(r),
        Op::Jmp(id, k) => "    jmp "@ + label_text(id as nat, k),
        Op::Je(id, k) => "    je "@ + label_text(id as nat, k),
        Op::Call(n) => "    call "@ + n,
        Op::Leave => "    leave"@,
        Op::Ret => "    ret"@,
    }
}

/// The text of a sequence of instructions, one per line.
pub open spec fn listing(is: Seq<Ins>) -> Seq<char>
    decreases is.len(),
{
    if is.len() == 0 {
        Seq::empty()
    } else {
        listing(is.drop_last()) + render(is.last()) + seq!['\n']
    }
}

/// Appends `c` to `s`.
/// Relies on `String::push`, which appends one character.
#[verifier::external_body]
pub(crate) fn push_char(s: &mut String, c: char)
    ensures
        final(s)@ == old(s)@.push(c),
{
    s.push(c)
}

fn digit(d: u64) -> (c: char)
    requires
        d < 10,
    ensures
        c == digit_char(d as nat),
{
    if d == 0 { '0' }
    else if d == 1 { '1' }
    else if d == 2 { '2' }
    else if d == 3 { '3' }
    else if d == 4 { '4' }
    else if d == 5 { '5' }
    else if d == 6 { '6' }
    else if d == 7 { '7' }
    else if d == 8 { '8' }
    else { '9' }
}

fn push_decimal(out: &mut String, n: u64)
    ensures
        final(out)@ == old(out)@ + decimal(n as nat),
    decreases n,
{
    if n < 10 {
        push_char(out, digit(n));
        assert(final(out)@ =~= old(out)@ + decimal(n as nat));
    } else {
        push_decimal(out, n / 10);
        push_char(out, digit(n % 10));
        assert(final(out)@ =~= old(out)@ + decimal(n as nat));
    }
}

fn push_signed(out: &mut String, v: i64)
    ensures
        final(out)@ == old(out)@ + signed_text(v as int),
{
    if v < 0 {
        push_char(out, '-');
        let m: u64 = (0 - (v as i128)) as u64;
        push_decimal(out, m);
        assert(final(out)@ =~= old(out)@ + signed_text(v as int));
    } else {
        push_decimal(out, v as u64);
    }
}

fn reg_name(r: Reg) -> (s: &'static str)
    ensures
        s@ == reg_text(r),
{
    match r {
        Reg::Rax => "rax",
        Reg::Rdi => "rdi",
        Reg::Rsi => "rsi",
        Reg::Rdx => "rdx",
        Reg::Rcx => "rcx",
        Reg::R8 => "r8",
        Reg::R9 => "r9",
        Reg::Rbp => "rbp",
        Reg::Rsp => "rsp",
        Reg::Al => "al",
    }
}

fn cond_name(c: Cond) -> (s: &'static str)
    ensures
        s@ == cond_text(c),
{
    match c {
        Cond::Equal => "e",
        Cond::NotEqual => "ne",
        Cond::Less => "l",
        Cond::LessEq => "le",
    }
}

fn push_label(out: &mut String, id: usize, k: LabelKind)
    ensures
        final(out)@ == old(out)@ + label_text(id as nat, k),
{
    out.append(".L");
    push_decimal(out, id as u64);
    out.append("_");
    match k {
        LabelKind::Loop => out.append("loop"),
        LabelKind::Else => out.append("else"),
        LabelKind::End => out.append("end"),
    }
    assert(final(out)@ =~= old(out)@ + label_text(id as nat, k));
}

/// Appends `op a, b` for two registers.
fn push_two(out: &mut String, op: &str, a: Reg, b: Reg)
    ensures
        final(out)@ == old(out)@ + op@ + reg_text(a) + ", "@ + reg_text(b),
{
    out.append(op);
    out.append(reg_name(a));
    out.append(", ");
    out.append(reg_name(b));
    assert(final(out)@ =~= old(out)@ + op@ + reg_text(a) + ", "@ + reg_text(b));
}

/// Appends the text of `i`, one of directives, labels, pushes, pops and moves.
#[verifier::rlimit(100)]
fn write_text_0(out: &mut String, i: &Instr)
    requires
        i is IntelSyntax || i is Global || i is Blank || i is FnLabel || i is Label ||
            i is PushReg || i is PushImm || i is Pop || i is MovReg,
    ensures
        final(out)@ == old(out)@ + render(i@),
{
    match i {
        Op::IntelSyntax => {
            out.append(".intel_syntax noprefix");
            assert(out@ =~= old(out)@ + render(i@));
        },
        Op::Global(n) => {
            out.append(".global ");
            out.append(n.as_str());
            assert(out@ =~= old(out)@ + render(i@));
        },
        Op::Blank => {
            assert(out@ =~= old(out)@ + render(i@));
        },
        Op::FnLabel(n) => {
            out.append(n.as_str());
            out.append(":");
            assert(out@ =~= old(out)@ + render(i@));
        },
        Op::Label(id, k) => {
            push_label(out, *id, *k);
            out.append(":");
            assert(out@ =~= old(out)@ + render(i@));
        },
        Op::PushReg(r) => {
            out.append("    push ");
            out.append(reg_name(*r));
            assert(out@ =~= old(out)@ + render(i@));
        },
        Op::PushImm(v) => {
            out.append("    push ");
            push_signed(out, *v);
            assert(out@ =~= old(out)@ + render(i@));
        },
        Op::Pop(r) => {
            out.append("    pop ");
            out.append(reg_name(*r));
            assert(out@ =~= old(out)@ + render(i@));
        },
        Op::MovReg(a, b) => {
            push_two(out, "    mov ", *a, *b);
            assert(out@ =~= old(out)@ + render(i@));
        },
        _ => {},
    }
}

/// Appends the text of `i`, one of arithmetic, memory and register comparisons.
#[verifier::rlimit(100)]
fn write_text_1(out: &mut String, i: &Instr)
    requires
        i is SubImm || i is SubReg || i is AddReg || i is IMul || i is Cqo || i is IDiv ||
            i is Store || i is Load || i is CmpReg,
    ensures
        final(out)@ == old(out)@ + render(i@),
{
    match i {
        Op::SubImm(a, v) => {
            out.append("    sub ");
            out.append(reg_name(*a));
            out.append(", ");
            push_decimal(out, *v as u64);
            assert(out@ =~= old(out)@ + render(i@));
        },
        Op::SubReg(a, b) => {
            push_two(out, "    sub ", *a, *b);
            assert(out@ =~= old(out)@ + render(i@));
        },
        Op::AddReg(a, b) => {
            push_two(out, "    add ", *a, *b);
            assert(out@ =~= old(out)@ + render(i@));
        },
        Op::IMul(a, b) => {
            push_two(out, "    imul ", *a, *b);
            assert(out@ =~= old(out)@ + render(i@));
        },
        Op::Cqo => {
            out.append("    cqo");
            assert(out@ =~= old(out)@ + render(i@));
        },
        Op::IDiv(r) => {
            out.append("    idiv ");
            out.append(reg_name(*r));
            assert(out@ =~= old(out)@ + render(i@));
        },
        Op::Store(a, b) => {
            out.append("    mov [");
            out.append(reg_name(*a));
            out.append("], ");
            out.append(reg_name(*b));
            assert(out@ =~= old(out)@ + render(i@));
        },
        Op::Load(a, b) => {
            out.append("    mov ");
            out.append(reg_name(*a));
            out.append(", [");
            out.append(reg_name(*b));
            out.append("]");
            assert(out@ =~= old(out)@ + render(i@));
        },
        Op::CmpReg(a, b) => {
            push_two(out, "    cmp ", *a, *b);
            assert(out@ =~= old(out)@ + render(i@));
        },
        _ => {},
    }
}

/// Appends the text of `i`, one of the remaining instructions.
#[verifier::rlimit(100)]
fn write_text_2(out: &mut String, i: &Instr)
    requires
        i is CmpImm || i is SetCc || i is Movzb || i is Neg || i is Jmp || i is Je || i is Call ||
            i is Leave || i is Ret,
    ensures
        final(out)@ == old(out)@ + render(i@),
{
    match i {
        Op::CmpImm(a, v) => {
            out.append("    cmp ");
            out.append(reg_name(*a));
            out.append(", ");
            push_signed(out, *v);
            assert(out@ =~= old(out)@ + render(i@));
        },
        Op::SetCc(c, r) => {
            out.append("    set");
            out.append(cond_name(*c));
            out.append(" ");
            out.append(reg_name(*r));
            assert(out@ =~= old(out)@ + render(i@));
        },
        Op::Movzb(a, b) => {
            push_two(out, "    movzb ", *a, *b);
            assert(out@ =~= old(out)@ + render(i@));
        },
        Op::Neg(r) => {
            out.append("    neg ");
            out.append(reg_name(*r));
            assert(out@ =~= old(out)@ + render(i@));
        },
        Op::Jmp(id, k) => {
            out.append("    jmp ");
            push_label(out, *id, *k);
            assert(out@ =~= old(out)@ + render(i@));
        },
        Op::Je(id, k) => {
            out.append("    je ");
            push_label(out, *id, *k);
            assert(out@ =~= old(out)@ + render(i@));
        },
        Op::Call(n) => {
            out.append("    call ");
            out.append(n.as_str());
            assert(out@ =~= old(out)@ + render(i@));
        },
        Op::Leave => {
            out.append("    leave");
            assert(out@ =~= old(out)@ + render(i@));
        },
        Op::Ret => {
            out.append("    ret");
            assert(out@ =~= old(out)@ + render(i@));
        },
        _ => {},
    }
}

/// Appends the text of `i`.
fn write_text(out: &mut String, i: &Instr)
    ensures
        final(out)@ == old(out)@ + render(i@),
{
    match i {
        Op::IntelSyntax
        | Op::Global(..)
        | Op::Blank
        | Op::FnLabel(..)
        | Op::Label(..)
        | Op::PushReg(..)
        | Op::PushImm(..)
        | Op::Pop(..)
        | Op::MovReg(..)
        => write_text_0(out, i),
        Op::SubImm(..)
        | Op::SubReg(..)
        | Op::AddReg(..)
        | Op::IMul(..)
        | Op::Cqo
        | Op::IDiv(..)
        | Op::Store(..)
        | Op::Load(..)
        | Op::CmpReg(..)
        => write_text_1(out, i),
        Op::CmpImm(..)
        | Op::SetCc(..)
        | Op::Movzb(..)
        | Op::Neg(..)
        | Op::Jmp(..)
        | Op::Je(..)
        | Op::Call(..)
        | Op::Leave
        | Op::Ret
        => write_text_2(out, i),
    }
}

/// Appends the text of `i` and a line feed.
pub fn write_instr(out: &mut String, i: &Instr)
    ensures
        final(out)@ == old(out)@ + render(i@) + seq!['\n'],
{
    write_text(out, i);
    push_char(out, '\n');
}

/// The text of `code`, one instruction per line.
pub fn write_listing(code: &Vec<Instr>) -> (r: String)
    ensures
        r@ == listing(code@.map_values(|i: Instr| i@)),
{
    let mut out = String::new();
    let mut k: usize = 0;
    while k < code.len()
        invariant
            k <= code.len(),
            out@ == listing(code@.take(k as int).map_values(|i: Instr| i@)),
        decreases code.len() - k,
    {
        write_instr(&mut out, &code[k]);
        proof {
            let v = code@.take(k + 1).map_values(|i: Instr| i@);
            assert(v.drop_last() =~= code@.take(k as int).map_values(|i: Instr| i@));
        }
        k = k + 1;
    }
    assert(code@.take(k as int) =~= code@);
    out
}

} // verus!
