use vstd::prelude::*;

verus! {

#[derive(Debug, PartialEq, Eq, Structural, Clone, Copy)]
pub enum Reg {
    Rax,
    Rdi,
    Rsi,
    Rdx,
    Rcx,
    R8,
    R9,
    Rbp,
}

/// The condition that a `set` instruction tests after `cmp`.
#[derive(Debug, PartialEq, Eq, Structural, Clone, Copy)]
pub enum Cond {
    Less,
    LessEq,
    Equal,
    NotEqual,
}

#[derive(Debug, PartialEq, Eq, Structural, Clone, Copy)]
pub enum LabelKind {
    Begin,
    Else,
    End,
}

/// A jump target: its kind and the number of the construct that owns it.
#[derive(Debug, PartialEq, Eq, Structural, Clone, Copy)]
pub struct Label {
    pub kind: LabelKind,
    pub id: u64,
}

/// One line of emitted assembly.
#[derive(Debug, PartialEq)]
pub enum Instr {
    PushImm(i64),
    Push(Reg),
    Pop(Reg),
    Mov(Reg, Reg),
    MovImm(Reg, i64),
    SubImm(Reg, u64),
    ImulImm(Reg, u64),
    Add(Reg, Reg),
    Sub(Reg, Reg),
    Imul(Reg, Reg),
    /// Sign-extends `rax` into `rdx`.
    Cqo,
    Idiv(Reg),
    Neg(Reg),
    /// `rax` takes the word at the address in `rax`.
    Load,
    /// The word at the address in `rax` takes `rdi`.
    Store,
    Cmp(Reg, Reg),
    CmpZero(Reg),
    /// `al` takes the flag of the condition.
    SetCond(Cond),
    /// `rax` takes `al`, zero-extended.
    Movzb,
    Jmp(Label),
    Je(Label),
    Mark(Label),
    Call(String),
    /// Drops the frame: `rsp` takes `rbp`, and `rbp` is restored.
    Leave,
    Ret,
}

/// The change in evaluation-stack depth caused by one instruction.
///
/// `leave` drops the whole frame and is followed by `ret`, so control never
/// falls through it: it counts for nothing here.
pub open spec fn stack_effect(i: Instr) -> int {
    match i {
        Instr::PushImm(_) => 1,
        Instr::Push(_) => 1,
        Instr::Pop(_) => -1,
        _ => 0,
    }
}

/// The net change in evaluation-stack depth along a straight run of code.
pub open spec fn net_effect(code: Seq<Instr>) -> int
    decreases code.len(),
{
    if code.len() == 0 {
        0
    } else {
        net_effect(code.drop_last()) + stack_effect(code.last())
    }
}

pub broadcast proof fn lemma_net_effect_append(a: Seq<Instr>, b: Seq<Instr>)
    ensures
        #[trigger] net_effect(a + b) == net_effect(a) + net_effect(b),
    decreases b.len(),
{
    if b.len() == 0 {
        assert(a + b =~= a);
    } else {
        assert((a + b).drop_last() =~= a + b.drop_last());
        lemma_net_effect_append(a, b.drop_last());
    }
}

/// The net effect of a run of at most four instructions, one by one.
pub broadcast proof fn lemma_net_effect_short(s: Seq<Instr>)
    requires
        s.len() <= 4,
    ensures
        #[trigger] net_effect(s) == (if s.len() > 0 { stack_effect(s[0]) } else { 0 }) + (if s.len() > 1 {
            stack_effect(s[1])
        } else {
            0
        }) + (if s.len() > 2 { stack_effect(s[2]) } else { 0 }) + (if s.len() > 3 {
            stack_effect(s[3])
        } else {
            0
        }),
    decreases s.len(),
{
    if s.len() > 0 {
        lemma_net_effect_short(s.drop_last());
    }
}

/// Runs a symbolic stack-depth counter along `code` and returns its net change.
pub fn net_stack_effect(code: &Vec<Instr>) -> (r: i64)
    requires
        code.len() < i64::MAX,
    ensures
        r == net_effect(code@),
{
    let mut depth: i64 = 0;
    let mut i: usize = 0;
    while i < code.len()
        invariant
            i <= code.len() < i64::MAX,
            depth == net_effect(code@.subrange(0, i as int)),
            -(i as int) <= depth <= i,
        decreases code.len() - i,
    {
        proof {
            assert(code@.subrange(0, i + 1).drop_last() =~= code@.subrange(0, i as int));
        }
        match &code[i] {
            Instr::PushImm(_) | Instr::Push(_) => depth = depth + 1,
            Instr::Pop(_) => depth = depth - 1,
            _ => {},
        }
        i = i + 1;
    }
    proof {
        assert(code@.subrange(0, code.len() as int) =~= code@);
    }
    depth
}

} // verus!
