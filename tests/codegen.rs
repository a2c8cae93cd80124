use minicc::instr::net_stack_effect;
use minicc::{
    gen, BinaryExpression, BinaryOperator, CallExpression, CodeGenerator, Expression, GenError,
    Instr, Label, LabelKind, Lexer, Parser, Program, Reg, Statement, Type, TypeEnum,
    UnaryExpression, UnaryOperator,
};

fn program(input: &str) -> Program {
    let mut parser = Parser::new(Lexer::new(String::from(input)));
    parser.parse().unwrap()
}

fn call(name: &str, n: i32) -> Expression {
    let arguments = (0..n).map(Expression::Integer).collect();
    Expression::Call(CallExpression::new(String::from(name), arguments))
}

#[test]
fn six_arguments_are_accepted() {
    let gen = CodeGenerator::new();
    let mut out = Vec::new();
    assert_eq!(gen.gen_expr(&call("f", 6), &mut out), Ok(()));
    assert_eq!(out[out.len() - 2], Instr::Call(String::from("f")));
    assert!(out.contains(&Instr::Pop(Reg::R9)));
    assert_eq!(net_stack_effect(&out), 1);
}

#[test]
fn seven_arguments_are_rejected() {
    let gen = CodeGenerator::new();
    let mut out = Vec::new();
    assert_eq!(gen.gen_expr(&call("f", 7), &mut out), Err(GenError::TooManyArguments));
}

#[test]
fn seven_arguments_from_source_are_rejected() {
    let p = program("f(1, 2, 3, 4, 5, 6, 7);");
    assert_eq!(gen(&p), Err(GenError::TooManyArguments));
    let p = program("f(1, 2, 3, 4, 5, 6);");
    assert!(gen(&p).is_ok());
}

#[test]
fn pointer_offset_is_scaled_by_pointee_size() {
    let p = program("int *p; *(p+1) = 5;");
    let code = gen(&p).unwrap();
    let expected = vec![
        // address of *(p+1): the value of p ...
        Instr::Mov(Reg::Rax, Reg::Rbp),
        Instr::SubImm(Reg::Rax, 8),
        Instr::Push(Reg::Rax),
        Instr::Pop(Reg::Rax),
        Instr::Load,
        Instr::Push(Reg::Rax),
        // ... plus 1 scaled by the size of an int
        Instr::PushImm(1),
        Instr::Pop(Reg::Rdi),
        Instr::Pop(Reg::Rax),
        Instr::ImulImm(Reg::Rdi, 8),
        Instr::Add(Reg::Rax, Reg::Rdi),
        Instr::Push(Reg::Rax),
        // the stored value
        Instr::PushImm(5),
        Instr::Pop(Reg::Rdi),
        Instr::Pop(Reg::Rax),
        Instr::Store,
        Instr::Push(Reg::Rdi),
        Instr::Pop(Reg::Rax),
    ];
    assert_eq!(code, expected);
}

#[test]
fn pointer_on_the_right_is_not_scaled() {
    let p = program("int *p; 1 + p;");
    let code = gen(&p).unwrap();
    assert!(!code.iter().any(|i| matches!(i, Instr::ImulImm(..))));
    assert!(code.contains(&Instr::Add(Reg::Rax, Reg::Rdi)));
}

#[test]
fn every_statement_kind_keeps_stack_depth() {
    let sources = [
        "1 + 2;",
        "int a = 3;",
        "int a;",
        "int a; a = 4;",
        "int a; if (a) a = 1;",
        "int a; if (a == 0) a = 1; else a = 2;",
        "int a; while (a < 10) a = a + 1;",
        "int i; for (i = 0; i < 10; i = i + 1) i;",
        "for (;;) return 1;",
        "{ 1; 2; { 3; } }",
        "return 7;",
        "int a; int *p; p = &a; *p = 3; f(a, *p, 2); sizeof(p); sizeof(*p);",
    ];
    for src in sources.iter() {
        let p = program(src);
        for stmt in p.statements.iter() {
            let mut generator = CodeGenerator::new();
            let mut out = Vec::new();
            assert_eq!(generator.gen_stmt(stmt, &mut out), Ok(()));
            assert_eq!(net_stack_effect(&out), 0, "{}", src);
        }
        let code = gen(&p).unwrap();
        assert_eq!(net_stack_effect(&code), 0, "{}", src);
    }
}

#[test]
fn each_expression_pushes_one() {
    let p = program("int a; int *p; a; 1 + 2 * 3; -a; &a; *p; p = &a; f(a, 2); sizeof(a); a == 1; a != 1; a < 1; a <= 1; 4 / 2;");
    let gen = CodeGenerator::new();
    for stmt in p.statements.iter() {
        if let Statement::Expression(e) = stmt {
            let mut out = Vec::new();
            assert_eq!(gen.gen_expr(e, &mut out), Ok(()));
            assert_eq!(net_stack_effect(&out), 1);
        }
    }
}

#[test]
fn sizeof_reads_the_shape() {
    let p = program("int a; int *p; sizeof(a); sizeof(p); sizeof(*p); sizeof(1 + 2); sizeof(&a);");
    let code = gen(&p).unwrap();
    let pushes: Vec<&Instr> = code.iter().filter(|i| matches!(i, Instr::PushImm(_))).collect();
    assert_eq!(pushes, vec![&Instr::PushImm(8); 5]);
    assert!(!code.iter().any(|i| matches!(i, Instr::Call(_))));
}

#[test]
fn sizeof_of_a_call_is_invalid() {
    let p = program("sizeof(f());");
    assert_eq!(gen(&p), Err(GenError::InvalidSizeof));
}

#[test]
fn sizeof_needs_one_argument() {
    let p = program("sizeof(1, 2);");
    assert_eq!(gen(&p), Err(GenError::InvalidSizeof));
}

#[test]
fn assignment_to_a_number_is_invalid() {
    let p = program("1 = 2;");
    assert_eq!(gen(&p), Err(GenError::InvalidLvalue));
}

#[test]
fn address_of_a_sum_is_invalid() {
    let e = Expression::Unary(UnaryExpression::new(
        UnaryOperator::Reference,
        Expression::Binary(BinaryExpression::new(
            Expression::Integer(1),
            BinaryOperator::Plus,
            Expression::Integer(2),
        )),
    ));
    let mut out = Vec::new();
    assert_eq!(CodeGenerator::new().gen_expr(&e, &mut out), Err(GenError::InvalidLvalue));
}

#[test]
fn labels_are_numbered_in_turn() {
    let p = program("int a; if (a) a = 1; else a = 2; while (a) a = 0;");
    let code = gen(&p).unwrap();
    let marks: Vec<&Instr> = code.iter().filter(|i| matches!(i, Instr::Mark(_))).collect();
    assert_eq!(
        marks,
        vec![
            &Instr::Mark(Label { kind: LabelKind::Else, id: 0 }),
            &Instr::Mark(Label { kind: LabelKind::End, id: 0 }),
            &Instr::Mark(Label { kind: LabelKind::Begin, id: 1 }),
            &Instr::Mark(Label { kind: LabelKind::End, id: 1 }),
        ]
    );
}

#[test]
fn return_emits_epilogue() {
    let p = program("return 3;");
    let code = gen(&p).unwrap();
    assert_eq!(
        code,
        vec![Instr::PushImm(3), Instr::Pop(Reg::Rax), Instr::Leave, Instr::Ret]
    );
}

#[test]
fn division_sign_extends() {
    let p = program("7 / 2;");
    let code = gen(&p).unwrap();
    assert!(code.windows(2).any(|w| w[0] == Instr::Cqo && w[1] == Instr::Idiv(Reg::Rdi)));
}

#[test]
fn type_sizes_are_a_word() {
    assert_eq!(Type::Primitive(TypeEnum::Int).size(), 8);
    assert_eq!(Type::Pointer(Box::new(Type::Primitive(TypeEnum::Int))).size(), 8);
}

#[test]
fn sizeof_of_deref_int_is_a_word() {
    let p = program("int x; sizeof(*x);");
    let code = gen(&p).unwrap();
    assert_eq!(code, vec![Instr::PushImm(8), Instr::Pop(Reg::Rax)]);
}

#[test]
fn rejected_call_emits_nothing() {
    let gen = CodeGenerator::new();
    let mut out = vec![Instr::Ret];
    assert_eq!(gen.gen_expr(&call("f", 7), &mut out), Err(GenError::TooManyArguments));
    assert_eq!(out, vec![Instr::Ret]);
}
