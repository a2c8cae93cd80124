use vstd::prelude::*;
use vstd::string::StringExecFns;
use crate::instr::{Cond, Instr, Label, LabelKind, Reg};

verus! {

pub open spec fn digit_char(d: nat) -> char {
    if d == 0 {
        '0'
    } else if d == 1 {
        '1'
    } else if d == 2 {
        '2'
    } else if d == 3 {
        '3'
    } else if d == 4 {
        '4'
    } else if d == 5 {
        '5'
    } else if d == 6 {
        '6'
    } else if d == 7 {
        '7'
    } else if d == 8 {
        '8'
    } else {
        '9'
    }
}

/// The decimal digits of `n`, most significant first, without leading zeros.
pub open spec fn decimal(n: nat) -> Seq<char>
    decreases n,
{
    if n < 10 {
        seq![digit_char(n)]
    } else {
        decimal(n / 10) + seq![digit_char(n % 10)]
    }
}

/// The decimal text of a signed integer.
pub open spec fn signed_decimal(n: int) -> Seq<char> {
    if n < 0 {
        seq!['-'] + decimal((-n) as nat)
    } else {
        decimal(n as nat)
    }
}

pub open spec fn reg_text(r: Reg) -> Seq<char> {
    match r {
        Reg::Rax => "rax"@,
        Reg::Rdi => "rdi"@,
        Reg::Rsi => "rsi"@,
        Reg::Rdx => "rdx"@,
        Reg::Rcx => "rcx"@,
        Reg::R8 => "r8"@,
        Reg::R9 => "r9"@,
        Reg::Rbp => "rbp"@,
    }
}

pub open spec fn cond_text(c: Cond) -> Seq<char> {
    match c {
        Cond::Less => "l"@,
        Cond::LessEq => "le"@,
        Cond::Equal => "e"@,
        Cond::NotEqual => "ne"@,
    }
}

pub open spec fn label_text(l: Label) -> Seq<char> {
    (match l.kind {
        LabelKind::Begin => ".Lbegin"@,
        LabelKind::Else => ".Lelse"@,
        LabelKind::End => ".Lend"@,
    }) + decimal(l.id as nat)
}

/// The assembly line, in Intel syntax, of one instruction.
pub open spec fn instr_text(i: Instr) -> Seq<char> {
    match i {
        Instr::PushImm(n) => "  push "@ + signed_decimal(n as int),
        Instr::Push(r) => "  push "@ + reg_text(r),
        Instr::Pop(r) => "  pop "@ + reg_text(r),
        Instr::Mov(a, b) => "  mov "@ + reg_text(a) + ", "@ + reg_text(b),
        Instr::MovImm(a, n) => "  mov "@ + reg_text(a) + ", "@ + signed_decimal(n as int),
        Instr::SubImm(a, n) => "  sub "@ + reg_text(a) + ", "@ + decimal(n as nat),
        Instr::ImulImm(a, n) => "  imul "@ + reg_text(a) + ", "@ + decimal(n as nat),
        Instr::Add(a, b) => "  add "@ + reg_text(a) + ", "@ + reg_text(b),
        Instr::Sub(a, b) => "  sub "@ + reg_text(a) + ", "@ + reg_text(b),
        Instr::Imul(a, b) => "  imul "@ + reg_text(a) + ", "@ + reg_text(b),
        Instr::Cqo => "  cqo"@,
        Instr::Idiv(r) => "  idiv "@ + reg_text(r),
        Instr::Neg(r) => "  neg "@ + reg_text(r),
        Instr::Load => "  mov rax, [rax]"@,
        Instr::Store => "  mov [rax], rdi"@,
        Instr::Cmp(a, b) => "  cmp "@ + reg_text(a) + ", "@ + reg_text(b),
        Instr::CmpZero(r) => "  cmp "@ + reg_text(r) + ", 0"@,
        Instr::SetCond(c) => "  set"@ + cond_text(c) + " al"@,
        Instr::Movzb => "  movzb rax, al"@,
        Instr::Jmp(l) => "  jmp "@ + label_text(l),
        Instr::Je(l) => "  je "@ + label_text(l),
        Instr::Mark(l) => label_text(l) + ":"@,
        Instr::Call(name) => "  call "@ + name@,
        Instr::Leave => "  leave"@,
        Instr::Ret => "  ret"@,
    }
}

fn digit_str(d: u64) -> (r: &'static str)
    requires
        d < 10,
    ensures
        r@ == seq![digit_char(d as nat)],
{
    proof {
        reveal_strlit("0");
        reveal_strlit("1");
        reveal_strlit("2");
        reveal_strlit("3");
        reveal_strlit("4");
        reveal_strlit("5");
        reveal_strlit("6");
        reveal_strlit("7");
        reveal_strlit("8");
        reveal_strlit("9");
    }
    let r = if d == 0 {
        "0"
    } else if d == 1 {
        "1"
    } else if d == 2 {
        "2"
    } else if d == 3 {
        "3"
    } else if d == 4 {
        "4"
    } else if d == 5 {
        "5"
    } else if d == 6 {
        "6"
    } else if d == 7 {
        "7"
    } else if d == 8 {
        "8"
    } else {
        "9"
    };
    assert(r@ =~= seq![digit_char(d as nat)]);
    r
}

/// Appends the decimal digits of `n`.
pub fn push_decimal(out: &mut String, n: u64)
    ensures
        final(out)@ == old(out)@ + decimal(n as nat),
    decreases n,
{
    if n >= 10 {
        push_decimal(out, n / 10);
    }
    out.append(digit_str(n % 10));
    proof {
        assert(final(out)@ =~= old(out)@ + decimal(n as nat));
    }
}

/// Appends the decimal text of a signed integer.
pub fn push_signed_decimal(out: &mut String, n: i64)
    ensures
        final(out)@ == old(out)@ + signed_decimal(n as int),
{
    if n < 0 {
        proof {
            reveal_strlit("-");
        }
        out.append("-");
        let m: u64 = (0i128 - n as i128) as u64;
        push_decimal(out, m);
        proof {
            assert(final(out)@ =~= old(out)@ + signed_decimal(n as int));
        }
    } else {
        push_decimal(out, n as u64);
    }
}

fn reg_str(r: Reg) -> (s: &'static str)
    ensures
        s@ == reg_text(r),
{
    match r {
        Reg::Rax => "rax",
        Reg::Rdi => "rdi",
        Reg::Rsi => "rsi",
        Reg::Rdx => "rdx",
        Reg::Rcx => "rcx",
        Reg::R8 => "r8",
        Reg::R9 => "r9",
        Reg::Rbp => "rbp",
    }
}

fn push_label(out: &mut String, l: Label)
    ensures
        final(out)@ == old(out)@ + label_text(l),
{
    out.append(
        match l.kind {
            LabelKind::Begin => ".Lbegin",
            LabelKind::Else => ".Lelse",
            LabelKind::End => ".Lend",
        },
    );
    push_decimal(out, l.id);
    proof {
        assert(final(out)@ =~= old(out)@ + label_text(l));
    }
}

/// `head` followed by two registers, as `head a, b`.
fn two_regs(head: &str, a: Reg, b: Reg) -> (r: String)
    ensures
        r@ == head@ + reg_text(a) + ", "@ + reg_text(b),
{
    let mut s = String::from_str(head);
    s.append(reg_str(a));
    s.append(", ");
    s.append(reg_str(b));
    proof {
        assert(s@ =~= head@ + reg_text(a) + ", "@ + reg_text(b));
    }
    s
}

/// `head` followed by a register and a number, as `head a, n`.
fn reg_and_number(head: &str, a: Reg, n: i128) -> (r: String)
    requires
        0 <= n <= u64::MAX || (i64::MIN <= n < 0),
    ensures
        r@ == head@ + reg_text(a) + ", "@ + signed_decimal(n as int),
{
    let mut s = String::from_str(head);
    s.append(reg_str(a));
    s.append(", ");
    if n < 0 {
        push_signed_decimal(&mut s, n as i64);
    } else {
        push_decimal(&mut s, n as u64);
    }
    proof {
        assert(s@ =~= head@ + reg_text(a) + ", "@ + signed_decimal(n as int));
    }
    s
}

/// `head` followed by a register, as `head r`.
fn one_reg(head: &str, a: Reg) -> (r: String)
    ensures
        r@ == head@ + reg_text(a),
{
    let mut s = String::from_str(head);
    s.append(reg_str(a));
    s
}

impl Instr {
    /// The assembly line of this instruction.
    pub fn render(&self) -> (r: String)
        ensures
            r@ == instr_text(*self),
    {
        match self {
            Instr::PushImm(n) => {
                let mut s = String::from_str("  push ");
                push_signed_decimal(&mut s, *n);
                s
            },
            Instr::Push(r) => one_reg("  push ", *r),
            Instr::Pop(r) => one_reg("  pop ", *r),
            Instr::Mov(a, b) => two_regs("  mov ", *a, *b),
            Instr::MovImm(a, n) => reg_and_number("  mov ", *a, *n as i128),
            Instr::SubImm(a, n) => reg_and_number("  sub ", *a, *n as i128),
            Instr::ImulImm(a, n) => reg_and_number("  imul ", *a, *n as i128),
            Instr::Add(a, b) => two_regs("  add ", *a, *b),
            Instr::Sub(a, b) => two_regs("  sub ", *a, *b),
            Instr::Imul(a, b) => two_regs("  imul ", *a, *b),
            Instr::Cqo => String::from_str("  cqo"),
            Instr::Idiv(r) => one_reg("  idiv ", *r),
            Instr::Neg(r) => one_reg("  neg ", *r),
            Instr::Load => String::from_str("  mov rax, [rax]"),
            Instr::Store => String::from_str("  mov [rax], rdi"),
            Instr::Cmp(a, b) => two_regs("  cmp ", *a, *b),
            Instr::CmpZero(r) => {
                let mut s = one_reg("  cmp ", *r);
                s.append(", 0");
                s
            },
            Instr::SetCond(c) => {
                let mut s = String::from_str("  set");
                s.append(
                    match c {
                        Cond::Less => "l",
                        Cond::LessEq => "le",
                        Cond::Equal => "e",
                        Cond::NotEqual => "ne",
                    },
                );
                s.append(" al");
                s
            },
            Instr::Movzb => String::from_str("  movzb rax, al"),
            Instr::Jmp(l) => {
                let mut s = String::from_str("  jmp ");
                push_label(&mut s, *l);
                s
            },
            Instr::Je(l) => {
                let mut s = String::from_str("  je ");
                push_label(&mut s, *l);
                s
            },
            Instr::Mark(l) => {
                let mut s = String::new();
                push_label(&mut s, *l);
                s.append(":");
                proof {
                    assert(s@ =~= label_text(*l) + ":"@);
                }
                s
            },
            Instr::Call(name) => {
                let mut s = String::from_str("  call ");
                s.append(name.as_str());
                s
            },
            Instr::Leave => String::from_str("  leave"),
            Instr::Ret => String::from_str("  ret"),
        }
    }
}

/// The assembly lines of a run of code, one per instruction.
pub fn render_code(code: &Vec<Instr>) -> (r: Vec<String>)
    ensures
        r@.len() == code@.len(),
        forall|i: int| 0 <= i < code@.len() ==> #[trigger] r@[i]@ == instr_text(code@[i]),
{
    let mut lines: Vec<String> = Vec::new();
    let mut i: usize = 0;
    while i < code.len()
        invariant
            i <= code.len(),
            lines@.len() == i,
            forall|j: int| 0 <= j < i ==> #[trigger] lines@[j]@ == instr_text(code@[j]),
        decreases code.len() - i,
    {
        lines.push(code[i].render());
        i = i + 1;
    }
    lines
}

} // verus!
