use minicc::emit::render_code;
use minicc::{gen, Cond, Instr, Label, LabelKind, Lexer, Parser, Reg};

#[test]
fn renders_each_instruction() {
    let code = vec![
        Instr::PushImm(-42),
        Instr::PushImm(1234567),
        Instr::Push(Reg::Rax),
        Instr::Pop(Reg::R9),
        Instr::Mov(Reg::Rax, Reg::Rbp),
        Instr::MovImm(Reg::Rax, 0),
        Instr::SubImm(Reg::Rax, 16),
        Instr::ImulImm(Reg::Rdi, 8),
        Instr::Add(Reg::Rax, Reg::Rdi),
        Instr::Sub(Reg::Rax, Reg::Rdi),
        Instr::Imul(Reg::Rax, Reg::Rdi),
        Instr::Cqo,
        Instr::Idiv(Reg::Rdi),
        Instr::Neg(Reg::Rax),
        Instr::Load,
        Instr::Store,
        Instr::Cmp(Reg::Rax, Reg::Rdi),
        Instr::CmpZero(Reg::Rax),
        Instr::SetCond(Cond::LessEq),
        Instr::Movzb,
        Instr::Jmp(Label { kind: LabelKind::Begin, id: 10 }),
        Instr::Je(Label { kind: LabelKind::Else, id: 0 }),
        Instr::Mark(Label { kind: LabelKind::End, id: 7 }),
        Instr::Call(String::from("foo")),
        Instr::Leave,
        Instr::Ret,
    ];
    let expected = vec![
        "  push -42",
        "  push 1234567",
        "  push rax",
        "  pop r9",
        "  mov rax, rbp",
        "  mov rax, 0",
        "  sub rax, 16",
        "  imul rdi, 8",
        "  add rax, rdi",
        "  sub rax, rdi",
        "  imul rax, rdi",
        "  cqo",
        "  idiv rdi",
        "  neg rax",
        "  mov rax, [rax]",
        "  mov [rax], rdi",
        "  cmp rax, rdi",
        "  cmp rax, 0",
        "  setle al",
        "  movzb rax, al",
        "  jmp .Lbegin10",
        "  je .Lelse0",
        ".Lend7:",
        "  call foo",
        "  leave",
        "  ret",
    ];
    let lines = render_code(&code);
    assert_eq!(lines, expected);
}

#[test]
fn renders_extreme_immediates() {
    assert_eq!(Instr::PushImm(i64::MIN).render(), "  push -9223372036854775808");
    assert_eq!(Instr::SubImm(Reg::Rax, u64::MAX).render(), "  sub rax, 18446744073709551615");
    assert_eq!(Instr::PushImm(0).render(), "  push 0");
}

#[test]
fn compiles_a_small_program_to_text() {
    let mut parser = Parser::new(Lexer::new(String::from("int a = 2; return a * 3;")));
    let program = parser.parse().unwrap();
    assert_eq!(program.frame_size, 8);
    let lines = render_code(&gen(&program).unwrap());
    let expected = vec![
        "  mov rax, rbp",
        "  sub rax, 8",
        "  push rax",
        "  push 2",
        "  pop rdi",
        "  pop rax",
        "  mov [rax], rdi",
        "  mov rax, rbp",
        "  sub rax, 8",
        "  push rax",
        "  pop rax",
        "  mov rax, [rax]",
        "  push rax",
        "  push 3",
        "  pop rdi",
        "  pop rax",
        "  imul rax, rdi",
        "  push rax",
        "  pop rax",
        "  leave",
        "  ret",
    ];
    assert_eq!(lines, expected);
}
