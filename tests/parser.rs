use minicc::{
    BinaryExpression, BinaryOperator, CallExpression, Expression, ForStatement, IfStatement,
    InitDeclaration, Lexer, ParseError, Parser, Statement, Token, Type, TypeEnum,
    UnaryExpression, UnaryOperator, WhileStatement,
};

fn parse(input: &str) -> Result<Vec<Statement>, ParseError> {
    let lexer = Lexer::new(String::from(input));
    let mut parser = Parser::new(lexer);
    parser.parse().map(|p| p.statements)
}

fn var(name: &str, offset: u64) -> Expression {
    Expression::LocalVariable {
        name: String::from(name),
        offset,
        type_: Type::Primitive(TypeEnum::Int),
    }
}

fn bin(lhs: Expression, op: BinaryOperator, rhs: Expression) -> Expression {
    Expression::Binary(BinaryExpression::new(lhs, op, rhs))
}

#[test]
fn test_parse_if_statement() {
    let cases = vec![
        (
            String::from("int a = 0; if (a == 0) return 0; "),
            vec![
                Statement::InitDeclaration(InitDeclaration::new(
                    String::from("a"),
                    8,
                    Type::Primitive(TypeEnum::Int),
                    Some(Expression::Integer(0)),
                )),
                Statement::If(IfStatement::new(
                    Expression::Binary(BinaryExpression::new(
                        Expression::LocalVariable {
                            name: String::from("a"),
                            offset: 8,
                            type_: Type::Primitive(TypeEnum::Int),
                        },
                        BinaryOperator::Eq,
                        Expression::Integer(0),
                    )),
                    Statement::Return(Expression::Integer(0)),
                    None,
                )),
            ],
        ),
        (
            String::from("int a = 0; if (a == 0) return 0; else return 1;"),
            vec![
                Statement::InitDeclaration(InitDeclaration::new(
                    String::from("a"),
                    8,
                    Type::Primitive(TypeEnum::Int),
                    Some(Expression::Integer(0)),
                )),
                Statement::If(IfStatement::new(
                    Expression::Binary(BinaryExpression::new(
                        Expression::LocalVariable {
                            name: String::from("a"),
                            offset: 8,
                            type_: Type::Primitive(TypeEnum::Int),
                        },
                        BinaryOperator::Eq,
                        Expression::Integer(0),
                    )),
                    Statement::Return(Expression::Integer(0)),
                    Some(Statement::Return(Expression::Integer(1))),
                )),
            ],
        ),
    ];

    for (input, expected) in cases {
        let lexer = Lexer::new(input);
        let mut parser = Parser::new(lexer);
        assert_eq!(parser.parse().unwrap().statements, expected);
    }
}

#[test]
fn test_parse_while_statement() {
    let cases = vec![(
        String::from("int a = 0; while (a == 0) return 0;"),
        vec![
            Statement::InitDeclaration(InitDeclaration::new(
                String::from("a"),
                8,
                Type::Primitive(TypeEnum::Int),
                Some(Expression::Integer(0)),
            )),
            Statement::While(WhileStatement::new(
                Expression::Binary(BinaryExpression::new(
                    Expression::LocalVariable {
                        name: String::from("a"),
                        offset: 8,
                        type_: Type::Primitive(TypeEnum::Int),
                    },
                    BinaryOperator::Eq,
                    Expression::Integer(0),
                )),
                Statement::Return(Expression::Integer(0)),
            )),
        ],
    )];

    for (input, expected) in cases {
        let lexer = Lexer::new(input);
        let mut parser = Parser::new(lexer);
        assert_eq!(parser.parse().unwrap().statements, expected);
    }
}

#[test]
fn test_parse_for_statement() {
    let cases = vec![(
        String::from("int i = 0; for (i = 0; i < 10; i = i + 1) return 0;"),
        vec![
            Statement::InitDeclaration(InitDeclaration::new(
                String::from("i"),
                8,
                Type::Primitive(TypeEnum::Int),
                Some(Expression::Integer(0)),
            )),
            Statement::For(ForStatement::new(
                Some(Statement::Expression(Expression::Binary(
                    BinaryExpression::new(
                        Expression::LocalVariable {
                            name: String::from("i"),
                            offset: 8,
                            type_: Type::Primitive(TypeEnum::Int),
                        },
                        BinaryOperator::Assignment,
                        Expression::Integer(0),
                    ),
                ))),
                Some(Expression::Binary(BinaryExpression::new(
                    Expression::LocalVariable {
                        name: String::from("i"),
                        offset: 8,
                        type_: Type::Primitive(TypeEnum::Int),
                    },
                    BinaryOperator::Lt,
                    Expression::Integer(10),
                ))),
                Some(Statement::Expression(Expression::Binary(
                    BinaryExpression::new(
                        Expression::LocalVariable {
                            name: String::from("i"),
                            offset: 8,
                            type_: Type::Primitive(TypeEnum::Int),
                        },
                        BinaryOperator::Assignment,
                        Expression::Binary(BinaryExpression::new(
                            Expression::LocalVariable {
                                name: String::from("i"),
                                offset: 8,
                                type_: Type::Primitive(TypeEnum::Int),
                            },
                            BinaryOperator::Plus,
                            Expression::Integer(1),
                        )),
                    ),
                ))),
                Statement::Return(Expression::Integer(0)),
            )),
        ],
    )];

    for (input, expected) in cases {
        let lexer = Lexer::new(input);
        let mut parser = Parser::new(lexer);
        assert_eq!(parser.parse().unwrap().statements, expected);
    }
}

#[test]
fn for_parses_the_same_whatever_the_whitespace() {
    let tight = parse("int i=0;for(i=0;i<10;i=i+1)return 0;").unwrap();
    let loose = parse("  int i = 0 ;\n for ( i = 0 ;\ti < 10 ; i = i + 1 )\n  return 0 ;  ").unwrap();
    let plain = parse("int i = 0; for (i = 0; i < 10; i = i + 1) return 0;").unwrap();
    assert_eq!(tight, loose);
    assert_eq!(tight, plain);
}

#[test]
fn for_clauses_may_be_left_out() {
    let stmts = parse("for (;;) return 0;").unwrap();
    assert_eq!(
        stmts,
        vec![Statement::For(ForStatement::new(None, None, None, Statement::Return(Expression::Integer(0))))]
    );
}

#[test]
fn else_goes_with_the_inner_if() {
    let stmts = parse("int a; int b; if (a) if (b) return 1; else return 2;").unwrap();
    let inner = Statement::If(IfStatement::new(
        var("b", 16),
        Statement::Return(Expression::Integer(1)),
        Some(Statement::Return(Expression::Integer(2))),
    ));
    let outer = Statement::If(IfStatement::new(var("a", 8), inner, None));
    assert_eq!(stmts[2], outer);
}

#[test]
fn multiplication_binds_tighter_than_addition() {
    let stmts = parse("1 + 2 * 3;").unwrap();
    let expected = bin(
        Expression::Integer(1),
        BinaryOperator::Plus,
        bin(Expression::Integer(2), BinaryOperator::Asterisk, Expression::Integer(3)),
    );
    assert_eq!(stmts, vec![Statement::Expression(expected)]);
}

#[test]
fn subtraction_is_left_associative() {
    let stmts = parse("5 - 2 - 1;").unwrap();
    let expected = bin(
        bin(Expression::Integer(5), BinaryOperator::Minus, Expression::Integer(2)),
        BinaryOperator::Minus,
        Expression::Integer(1),
    );
    assert_eq!(stmts, vec![Statement::Expression(expected)]);
}

#[test]
fn assignment_is_right_associative() {
    let stmts = parse("int a; int b; a = b = 3;").unwrap();
    let expected = bin(
        var("a", 8),
        BinaryOperator::Assignment,
        bin(var("b", 16), BinaryOperator::Assignment, Expression::Integer(3)),
    );
    assert_eq!(stmts[2], Statement::Expression(expected));
}

#[test]
fn greater_than_swaps_operands() {
    let stmts = parse("1 > 2; 3 >= 4;").unwrap();
    assert_eq!(
        stmts,
        vec![
            Statement::Expression(bin(Expression::Integer(2), BinaryOperator::Lt, Expression::Integer(1))),
            Statement::Expression(bin(Expression::Integer(4), BinaryOperator::LtEq, Expression::Integer(3))),
        ]
    );
}

#[test]
fn declarations_take_increasing_offsets() {
    let stmts = parse("int a; int *p; int b = 2;").unwrap();
    assert_eq!(
        stmts,
        vec![
            Statement::InitDeclaration(InitDeclaration::new(
                String::from("a"),
                8,
                Type::Primitive(TypeEnum::Int),
                None,
            )),
            Statement::InitDeclaration(InitDeclaration::new(
                String::from("p"),
                16,
                Type::Pointer(Box::new(Type::Primitive(TypeEnum::Int))),
                None,
            )),
            Statement::InitDeclaration(InitDeclaration::new(
                String::from("b"),
                24,
                Type::Primitive(TypeEnum::Int),
                Some(Expression::Integer(2)),
            )),
        ]
    );
}

#[test]
fn unary_and_call_expressions() {
    let stmts = parse("int a; f(-1, &a, *&a);").unwrap();
    let call = Expression::Call(CallExpression::new(
        String::from("f"),
        vec![
            Expression::Unary(UnaryExpression::new(UnaryOperator::Minus, Expression::Integer(1))),
            Expression::Unary(UnaryExpression::new(UnaryOperator::Reference, var("a", 8))),
            Expression::Unary(UnaryExpression::new(
                UnaryOperator::Dereference,
                Expression::Unary(UnaryExpression::new(UnaryOperator::Reference, var("a", 8))),
            )),
        ],
    ));
    assert_eq!(stmts[1], Statement::Expression(call));
}

#[test]
fn block_holds_its_statements() {
    let stmts = parse("{ 1; 2; }").unwrap();
    assert_eq!(
        stmts,
        vec![Statement::Block(vec![
            Statement::Expression(Expression::Integer(1)),
            Statement::Expression(Expression::Integer(2)),
        ])]
    );
}

#[test]
fn undeclared_variable_is_an_error() {
    assert_eq!(parse("x = 1;"), Err(ParseError::UndefinedVariable { name: String::from("x") }));
}

#[test]
fn missing_paren_is_an_error() {
    assert_eq!(
        parse("if 1) return 0;"),
        Err(ParseError::UnexpectedToken { expected: Token::LParen, got: Token::Integer(1) })
    );
}

#[test]
fn missing_semicolon_is_an_error() {
    assert_eq!(
        parse("return 1"),
        Err(ParseError::UnexpectedToken { expected: Token::SemiColon, got: Token::Eof })
    );
}

#[test]
fn missing_expression_is_an_error() {
    assert_eq!(parse(";"), Err(ParseError::ExpectedExpression { got: Token::SemiColon }));
}

#[test]
fn declaration_needs_a_name() {
    assert_eq!(parse("int 3;"), Err(ParseError::ExpectedIdentifier { got: Token::Integer(3) }));
}

#[test]
fn unclosed_block_is_an_error() {
    assert_eq!(
        parse("{ 1;"),
        Err(ParseError::UnexpectedToken { expected: Token::RBrace, got: Token::Eof })
    );
}

#[test]
fn lexical_error_stops_parsing() {
    assert_eq!(
        parse("1 @ 2;"),
        Err(ParseError::Lex(minicc::LexError::InvalidCharacter { position: 2, ch: '@' }))
    );
}

#[test]
fn missing_close_paren_in_while_is_an_error() {
    assert_eq!(
        parse("while (1 return 0;"),
        Err(ParseError::UnexpectedToken { expected: Token::RParen, got: Token::Return })
    );
}

#[test]
fn frame_size_counts_every_declaration() {
    let mut parser = Parser::new(Lexer::new(String::from("int a; { int *b; } int c;")));
    assert_eq!(parser.parse().unwrap().frame_size, 24);
}
