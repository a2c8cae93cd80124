use vstd::prelude::*;
use crate::ast::{
    BinaryExpression, BinaryOperator, CallExpression, Expression, ForStatement, IfStatement,
    InitDeclaration, Program, Statement, Type, TypeEnum, UnaryExpression, UnaryOperator,
    WhileStatement,
};
use crate::lexer::{lemma_token_advances, lex_error_at, lexes_to, skip_ws, Lexer};
use crate::scope::{
    args_resolved, block_resolved, declared, expr_resolved, lemma_args_resolved_push,
    lemma_block_resolved_grows, lemma_block_resolved_push, lemma_expr_resolved_grows,
    lemma_extends_refl, lemma_extends_trans, lemma_stmt_resolved_grows, stmt_resolved,
};
use crate::symbols::{extends, frame_wf, slot_end, Slot, SymbolTable};
use crate::token::{LexError, Token};
use crate::grammar::{
    args_loop_spec, args_spec, args_view, block_loop_spec, block_view, clause_spec, decl_spec,
    expect_spec, expr_spec, expr_stmt_spec, expr_view, for_spec, if_spec, climb_spec,
    lemma_args_view_push, lemma_block_view_push, pointer_type, primary_spec, program_spec,
    stars_end, stmt_spec, stmt_view, unary_spec, while_spec, ExprV, StmtV,
};

verus! {

/// Why parsing stopped.
#[derive(Debug, PartialEq)]
pub enum ParseError {
    Lex(LexError),
    /// The token `expected` was required where `got` stands.
    UnexpectedToken { expected: Token, got: Token },
    /// An expression was required where `got` stands.
    ExpectedExpression { got: Token },
    /// A variable name was required where `got` stands.
    ExpectedIdentifier { got: Token },
    /// A name that no declaration before it introduced.
    UndefinedVariable { name: String },
    /// The variables would take more than `u64::MAX` bytes of frame.
    FrameTooLarge,
}

/// The lowest binding strength: assignment.
pub const PREC_LOWEST: u8 = 1;

/// A token sequence as the lexer hands it over: it ends with `Eof`.
pub open spec fn tokens_wf(toks: Seq<Token>) -> bool {
    toks.len() > 0 && toks.last() is Eof
}

/// The value of an expression parse.
pub open spec fn expr_out(r: Result<(Expression, usize), ParseError>) -> Result<(ExprV, usize), ParseError> {
    match r {
        Ok((e, q)) => Ok((expr_view(e), q)),
        Err(x) => Err(x),
    }
}

/// The value of a statement parse, with the variables declared after it.
pub open spec fn stmt_out(r: Result<(Statement, usize), ParseError>, vars: Seq<Slot>) -> Result<
    (StmtV, usize, Seq<Slot>),
    ParseError,
> {
    match r {
        Ok((s, q)) => Ok((stmt_view(s), q, vars)),
        Err(x) => Err(x),
    }
}

/// Parsing from `pos` took at least one token and stopped on a token of the sequence.
pub open spec fn advanced<T>(r: Result<(T, usize), ParseError>, pos: int, n: int) -> bool {
    r matches Ok((_, p)) ==> pos < p < n
}

/// The binding strength, operator and operand swap of a binary operator token.
/// `a > b` is read as `b < a`, and `a >= b` as `b <= a`.
pub open spec fn binary_op_spec(t: Token) -> Option<(u8, BinaryOperator, bool)> {
    match t {
        Token::Assignment => Some((1u8, BinaryOperator::Assignment, false)),
        Token::Eq => Some((2u8, BinaryOperator::Eq, false)),
        Token::NotEq => Some((2u8, BinaryOperator::NotEq, false)),
        Token::Lt => Some((3u8, BinaryOperator::Lt, false)),
        Token::LtEq => Some((3u8, BinaryOperator::LtEq, false)),
        Token::Gt => Some((3u8, BinaryOperator::Lt, true)),
        Token::GtEq => Some((3u8, BinaryOperator::LtEq, true)),
        Token::Plus => Some((4u8, BinaryOperator::Plus, false)),
        Token::Minus => Some((4u8, BinaryOperator::Minus, false)),
        Token::Asterisk => Some((5u8, BinaryOperator::Asterisk, false)),
        Token::Slash => Some((5u8, BinaryOperator::Slash, false)),
        _ => None,
    }
}

fn binary_op_of(t: &Token) -> (r: Option<(u8, BinaryOperator, bool)>)
    ensures
        r == binary_op_spec(*t),
{
    match t {
        Token::Assignment => Some((1u8, BinaryOperator::Assignment, false)),
        Token::Eq => Some((2u8, BinaryOperator::Eq, false)),
        Token::NotEq => Some((2u8, BinaryOperator::NotEq, false)),
        Token::Lt => Some((3u8, BinaryOperator::Lt, false)),
        Token::LtEq => Some((3u8, BinaryOperator::LtEq, false)),
        Token::Gt => Some((3u8, BinaryOperator::Lt, true)),
        Token::GtEq => Some((3u8, BinaryOperator::LtEq, true)),
        Token::Plus => Some((4u8, BinaryOperator::Plus, false)),
        Token::Minus => Some((4u8, BinaryOperator::Minus, false)),
        Token::Asterisk => Some((5u8, BinaryOperator::Asterisk, false)),
        Token::Slash => Some((5u8, BinaryOperator::Slash, false)),
        _ => None,
    }
}

/// Parsing at strength `min_prec` may stop before `t`: it is no binary operator
/// that binds at least that strongly.
pub open spec fn stops_before_operator(t: Token, min_prec: u8) -> bool {
    match binary_op_spec(t) {
        Some((p, _, _)) => p < min_prec,
        None => true,
    }
}

/// A number for each token without a payload; 0 for the others.
pub open spec fn punct_id(t: Token) -> u8 {
    match t {
        Token::Plus => 1,
        Token::Minus => 2,
        Token::Slash => 3,
        Token::Asterisk => 4,
        Token::LParen => 5,
        Token::RParen => 6,
        Token::LBrace => 7,
        Token::RBrace => 8,
        Token::Comma => 9,
        Token::Ampersand => 10,
        Token::Gt => 11,
        Token::Lt => 12,
        Token::GtEq => 13,
        Token::LtEq => 14,
        Token::Eq => 15,
        Token::NotEq => 16,
        Token::Not => 17,
        Token::Assignment => 18,
        Token::Return => 19,
        Token::If => 20,
        Token::Else => 21,
        Token::While => 22,
        Token::For => 23,
        Token::SemiColon => 24,
        Token::Eof => 25,
        Token::Integer(_) => 0,
        Token::Identifier(_) => 0,
    }
}

fn punct_id_of(t: &Token) -> (r: u8)
    ensures
        r == punct_id(*t),
{
    match t {
        Token::Plus => 1,
        Token::Minus => 2,
        Token::Slash => 3,
        Token::Asterisk => 4,
        Token::LParen => 5,
        Token::RParen => 6,
        Token::LBrace => 7,
        Token::RBrace => 8,
        Token::Comma => 9,
        Token::Ampersand => 10,
        Token::Gt => 11,
        Token::Lt => 12,
        Token::GtEq => 13,
        Token::LtEq => 14,
        Token::Eq => 15,
        Token::NotEq => 16,
        Token::Not => 17,
        Token::Assignment => 18,
        Token::Return => 19,
        Token::If => 20,
        Token::Else => 21,
        Token::While => 22,
        Token::For => 23,
        Token::SemiColon => 24,
        Token::Eof => 25,
        Token::Integer(_) => 0,
        Token::Identifier(_) => 0,
    }
}

/// Requires the token `want` at `p` and steps past it.
fn expect(toks: &Vec<Token>, p: usize, want: Token) -> (r: Result<usize, ParseError>)
    requires
        tokens_wf(toks@),
        p < toks.len(),
        0 < punct_id(want) < 25,
    ensures
        r matches Ok(q) ==> q == p + 1 && q < toks.len() && toks@[p as int] == want,
        r is Err ==> toks@[p as int] != want,
        !(r matches Err(ParseError::Lex(_))),
        r == expect_spec(toks@, p, want),
{
    if punct_id_of(&toks[p]) == punct_id_of(&want) {
        Ok(p + 1)
    } else {
        Err(ParseError::UnexpectedToken { expected: want, got: toks[p].clone() })
    }
}

/// Whether the token at `p` is `want`.
fn at(toks: &Vec<Token>, p: usize, want: Token) -> (r: bool)
    requires
        p < toks.len(),
        0 < punct_id(want),
    ensures
        r == (toks@[p as int] == want),
        r == (punct_id(toks@[p as int]) == punct_id(want)),
{
    punct_id_of(&toks[p]) == punct_id_of(&want)
}

/// Parses an expression whose binary operators bind at least as strongly as `min_prec`.
pub fn parse_expression(toks: &Vec<Token>, pos: usize, min_prec: u8, table: &SymbolTable) -> (r:
    Result<(Expression, usize), ParseError>)
    requires
        tokens_wf(toks@),
        pos < toks.len(),
        table.wf(),
    ensures
        advanced(r, pos as int, toks.len() as int),
        !(r matches Err(ParseError::Lex(_))),
        r matches Ok((e, _)) ==> expr_resolved(e, table.entries()),
        r matches Ok((_, q)) ==> stops_before_operator(toks@[q as int], min_prec),
        expr_out(r) == expr_spec(toks@, pos, min_prec, table.entries()),
    decreases toks.len() - pos, 2int,
{
    let (mut lhs, mut p) = parse_unary(toks, pos, table)?;
    loop
        invariant
            tokens_wf(toks@),
            table.wf(),
            pos < p < toks.len(),
            expr_resolved(lhs, table.entries()),
            climb_spec(toks@, p, min_prec, table.entries(), expr_view(lhs)) == expr_spec(
                toks@,
                pos,
                min_prec,
                table.entries(),
            ),
        decreases toks.len() - p,
    {
        let (prec, op, swap) = match binary_op_of(&toks[p]) {
            Some(x) => x,
            None => return Ok((lhs, p)),
        };
        if prec < min_prec {
            return Ok((lhs, p));
        }
        let next_min = if op == BinaryOperator::Assignment {
            prec
        } else {
            prec + 1
        };
        let (rhs, q) = parse_expression(toks, p + 1, next_min, table)?;
        lhs = if swap {
            Expression::Binary(BinaryExpression::new(rhs, op, lhs))
        } else {
            Expression::Binary(BinaryExpression::new(lhs, op, rhs))
        };
        p = q;
    }
}

/// Parses a prefix `-`, `&` or `*` applied to a unary expression, or a primary expression.
pub fn parse_unary(toks: &Vec<Token>, pos: usize, table: &SymbolTable) -> (r: Result<
    (Expression, usize),
    ParseError,
>)
    requires
        tokens_wf(toks@),
        pos < toks.len(),
        table.wf(),
    ensures
        advanced(r, pos as int, toks.len() as int),
        !(r matches Err(ParseError::Lex(_))),
        r matches Ok((e, _)) ==> expr_resolved(e, table.entries()),
        r matches Ok((e, _)) ==> match toks@[pos as int] {
            Token::Minus => e matches Expression::Unary(u) && u.op == UnaryOperator::Minus,
            Token::Ampersand => e matches Expression::Unary(u) && u.op == UnaryOperator::Reference,
            Token::Asterisk => e matches Expression::Unary(u) && u.op == UnaryOperator::Dereference,
            _ => true,
        },
        expr_out(r) == unary_spec(toks@, pos, table.entries()),
    decreases toks.len() - pos, 1int,
{
    let op = match &toks[pos] {
        Token::Minus => UnaryOperator::Minus,
        Token::Ampersand => UnaryOperator::Reference,
        Token::Asterisk => UnaryOperator::Dereference,
        _ => return parse_primary(toks, pos, table),
    };
    let (operand, q) = parse_unary(toks, pos + 1, table)?;
    Ok((Expression::Unary(UnaryExpression::new(op, operand)), q))
}

/// Parses an integer, a variable, a call, or an expression in parentheses.
pub fn parse_primary(toks: &Vec<Token>, pos: usize, table: &SymbolTable) -> (r: Result<
    (Expression, usize),
    ParseError,
>)
    requires
        tokens_wf(toks@),
        pos < toks.len(),
        table.wf(),
    ensures
        advanced(r, pos as int, toks.len() as int),
        !(r matches Err(ParseError::Lex(_))),
        r matches Ok((e, _)) ==> expr_resolved(e, table.entries()),
        toks@[pos as int] matches Token::Integer(n) ==> r == Ok::<(Expression, usize), ParseError>(
            (Expression::Integer(n), (pos + 1) as usize),
        ),
        toks@[pos as int] matches Token::Identifier(name) ==> (!(toks@[pos + 1] is LParen) ==> (
        r is Ok <==> exists|i: int|
            0 <= i < table.entries().len() && (#[trigger] table.entries()[i]).0 == name@)),
        toks@[pos as int] matches Token::Identifier(name) ==> (r matches Ok((e, _)) ==> (
        if toks@[pos + 1] is LParen {
            e matches Expression::Call(c) && c.callee_name@ == name@
        } else {
            e matches Expression::LocalVariable { name: n, .. } && n@ == name@
        })),
        expr_out(r) == primary_spec(toks@, pos, table.entries()),
    decreases toks.len() - pos, 0int,
{
    match &toks[pos] {
        Token::Integer(n) => Ok((Expression::Integer(*n), pos + 1)),
        Token::LParen => {
            let (e, q) = parse_expression(toks, pos + 1, PREC_LOWEST, table)?;
            let q = expect(toks, q, Token::RParen)?;
            Ok((e, q))
        },
        Token::Identifier(name) => {
            if at(toks, pos + 1, Token::LParen) {
                let (arguments, q) = parse_arguments(toks, pos + 2, table)?;
                Ok((Expression::Call(CallExpression::new(name.clone(), arguments)), q))
            } else {
                match table.lookup(name) {
                    Some((offset, type_)) => Ok(
                        (Expression::LocalVariable { name: name.clone(), offset, type_ }, pos + 1),
                    ),
                    None => Err(ParseError::UndefinedVariable { name: name.clone() }),
                }
            }
        },
        t => Err(ParseError::ExpectedExpression { got: t.clone() }),
    }
}

/// Parses `(e, e, ...)` after its `(`, up to and past the `)`.
fn parse_arguments(toks: &Vec<Token>, pos: usize, table: &SymbolTable) -> (r: Result<
    (Vec<Expression>, usize),
    ParseError,
>)
    requires
        tokens_wf(toks@),
        pos < toks.len(),
        table.wf(),
    ensures
        advanced(r, pos as int, toks.len() as int),
        !(r matches Err(ParseError::Lex(_))),
        r matches Ok((args, _)) ==> args_resolved(args@, args@.len() as int, table.entries()),
        match r {
            Ok((args, q)) => args_spec(toks@, pos, table.entries()) == Ok::<
                (Seq<ExprV>, usize),
                ParseError,
            >((args_view(args@, args@.len() as int), q)),
            Err(x) => args_spec(toks@, pos, table.entries()) == Err::<(Seq<ExprV>, usize), ParseError>(x),
        },
    decreases toks.len() - pos, 3int,
{
    let mut arguments: Vec<Expression> = Vec::new();
    if at(toks, pos, Token::RParen) {
        return Ok((arguments, pos + 1));
    }
    let mut p = pos;
    loop
        invariant
            tokens_wf(toks@),
            table.wf(),
            pos <= p < toks.len(),
            args_resolved(arguments@, arguments@.len() as int, table.entries()),
            args_spec(toks@, pos, table.entries()) == args_loop_spec(
                toks@,
                p,
                table.entries(),
                args_view(arguments@, arguments@.len() as int),
            ),
        decreases toks.len() - p,
    {
        let (arg, q) = parse_expression(toks, p, PREC_LOWEST, table)?;
        proof {
            lemma_args_resolved_push(arguments@, arg, arguments@.len() as int, table.entries());
            lemma_args_view_push(arguments@, arg, arguments@.len() as int);
        }
        arguments.push(arg);
        if at(toks, q, Token::Comma) {
            p = q + 1;
        } else {
            let q = expect(toks, q, Token::RParen)?;
            return Ok((arguments, q));
        }
    }
}

/// Parses one statement and whatever it holds.
pub fn parse_statement(toks: &Vec<Token>, pos: usize, table: &mut SymbolTable) -> (r: Result<
    (Statement, usize),
    ParseError,
>)
    requires
        tokens_wf(toks@),
        pos < toks.len(),
        old(table).wf(),
    ensures
        final(table).wf(),
        advanced(r, pos as int, toks.len() as int),
        !(r matches Err(ParseError::Lex(_))),
        extends(final(table).entries(), old(table).entries()),
        r matches Ok((s, _)) ==> stmt_resolved(s, final(table).entries()),
        r matches Ok((s, _)) ==> match toks@[pos as int] {
            Token::If => s is If,
            Token::While => s is While,
            Token::For => s is For,
            Token::LBrace => s is Block,
            Token::Return => s is Return,
            _ => s is InitDeclaration || s is Expression,
        },
        stmt_out(r, final(table).entries()) == stmt_spec(toks@, pos, old(table).entries()),
    decreases toks.len() - pos, 3int,
{
    proof {
        lemma_extends_refl(table.entries());
    }
    match &toks[pos] {
        Token::If => parse_if_statement(toks, pos, table),
        Token::While => parse_while_statement(toks, pos, table),
        Token::For => parse_for_statement(toks, pos, table),
        Token::LBrace => parse_block(toks, pos, table),
        Token::Return => {
            let (e, q) = parse_expression(toks, pos + 1, PREC_LOWEST, table)?;
            let q = expect(toks, q, Token::SemiColon)?;
            Ok((Statement::Return(e), q))
        },
        Token::Identifier(word) => {
            if is_int_keyword(word) {
                parse_declaration(toks, pos, table)
            } else {
                parse_expression_statement(toks, pos, table)
            }
        },
        _ => parse_expression_statement(toks, pos, table),
    }
}

fn is_int_keyword(word: &String) -> (r: bool)
    ensures
        r == (word@ == seq!['i', 'n', 't']),
{
    proof {
        reveal_strlit("int");
        assert("int"@ =~= seq!['i', 'n', 't']);
    }
    crate::lexer::spells(word, "int")
}

/// Parses `e;`.
pub fn parse_expression_statement(toks: &Vec<Token>, pos: usize, table: &SymbolTable) -> (r:
    Result<(Statement, usize), ParseError>)
    requires
        tokens_wf(toks@),
        pos < toks.len(),
        table.wf(),
    ensures
        advanced(r, pos as int, toks.len() as int),
        !(r matches Err(ParseError::Lex(_))),
        r matches Ok((s, _)) ==> stmt_resolved(s, table.entries()),
        r matches Ok((s, _)) ==> s is Expression,
        stmt_out(r, table.entries()) == expr_stmt_spec(toks@, pos, table.entries()),
    decreases toks.len() - pos, 2int,
{
    let (e, q) = parse_expression(toks, pos, PREC_LOWEST, table)?;
    let q = expect(toks, q, Token::SemiColon)?;
    Ok((Statement::Expression(e), q))
}

/// Parses `{ s s ... }`.
fn parse_block(toks: &Vec<Token>, pos: usize, table: &mut SymbolTable) -> (r: Result<
    (Statement, usize),
    ParseError,
>)
    requires
        tokens_wf(toks@),
        pos < toks.len(),
        toks@[pos as int] is LBrace,
        old(table).wf(),
    ensures
        final(table).wf(),
        advanced(r, pos as int, toks.len() as int),
        !(r matches Err(ParseError::Lex(_))),
        extends(final(table).entries(), old(table).entries()),
        r matches Ok((s, _)) ==> stmt_resolved(s, final(table).entries()),
        r matches Ok((s, _)) ==> s is Block,
        stmt_out(r, final(table).entries()) == block_loop_spec(
            toks@,
            (pos + 1) as usize,
            old(table).entries(),
            Seq::empty(),
        ),
    decreases toks.len() - pos, 2int,
{
    let mut stmts: Vec<Statement> = Vec::new();
    let mut p = pos + 1;
    proof {
        lemma_extends_refl(table.entries());
    }
    loop
        invariant
            tokens_wf(toks@),
            table.wf(),
            pos < p < toks.len(),
            extends(table.entries(), old(table).entries()),
            block_resolved(stmts@, stmts@.len() as int, table.entries()),
            block_loop_spec(toks@, (pos + 1) as usize, old(table).entries(), Seq::empty())
                == block_loop_spec(
                toks@,
                p,
                table.entries(),
                block_view(stmts@, stmts@.len() as int),
            ),
        decreases toks.len() - p,
    {
        if at(toks, p, Token::RBrace) {
            return Ok((Statement::Block(stmts), p + 1));
        }
        if at(toks, p, Token::Eof) {
            return Err(ParseError::UnexpectedToken { expected: Token::RBrace, got: Token::Eof });
        }
        let ghost before = table.entries();
        let r = parse_statement(toks, p, table);
        proof {
            lemma_extends_trans(old(table).entries(), before, table.entries());
        }
        let (s, q) = r?;
        proof {
            lemma_block_resolved_grows(stmts@, stmts@.len() as int, before, table.entries());
            lemma_block_resolved_push(stmts@, s, stmts@.len() as int, table.entries());
            lemma_block_view_push(stmts@, s, stmts@.len() as int);
        }
        stmts.push(s);
        p = q;
    }
}

/// Parses `int`, any number of `*`, a name, an optional `= e`, and `;`,
/// and gives the name the next slot of the frame.
fn parse_declaration(toks: &Vec<Token>, pos: usize, table: &mut SymbolTable) -> (r: Result<
    (Statement, usize),
    ParseError,
>)
    requires
        tokens_wf(toks@),
        pos < toks.len(),
        toks@[pos as int] is Identifier,
        old(table).wf(),
    ensures
        final(table).wf(),
        advanced(r, pos as int, toks.len() as int),
        !(r matches Err(ParseError::Lex(_))),
        extends(final(table).entries(), old(table).entries()),
        r matches Ok((s, _)) ==> stmt_resolved(s, final(table).entries()),
        r matches Ok((s, _)) ==> s matches Statement::InitDeclaration(d) && final(table).entries()
            == old(table).entries().push((d.name@, d.offset, d.type_)) && d.offset == slot_end(
            old(table).entries(),
            old(table).entries().len() as int,
        ) + d.type_.spec_size(),
        stmt_out(r, final(table).entries()) == decl_spec(toks@, pos, old(table).entries()),
    decreases toks.len() - pos, 2int,
{
    proof {
        lemma_extends_refl(table.entries());
    }
    let mut type_ = Type::Primitive(TypeEnum::Int);
    let mut p = pos + 1;
    while at(toks, p, Token::Asterisk)
        invariant
            tokens_wf(toks@),
            pos < p < toks.len(),
            stars_end(toks@, pos + 1) == stars_end(toks@, p as int),
            type_ == pointer_type((p - (pos + 1)) as nat),
        decreases toks.len() - p,
    {
        type_ = Type::Pointer(Box::new(type_));
        p = p + 1;
    }
    let name = match &toks[p] {
        Token::Identifier(name) => name.clone(),
        t => return Err(ParseError::ExpectedIdentifier { got: t.clone() }),
    };
    p = p + 1;
    let initializer: Option<Expression> = if at(toks, p, Token::Assignment) {
        let (e, q) = parse_expression(toks, p + 1, PREC_LOWEST, table)?;
        p = q;
        Some(e)
    } else {
        None
    };
    let p = expect(toks, p, Token::SemiColon)?;
    let ghost before = table.entries();
    proof {
        lemma_extends_refl(before);
    }
    let offset = match table.declare(name.clone(), type_.clone()) {
        Some(o) => o,
        None => return Err(ParseError::FrameTooLarge),
    };
    proof {
        let after = table.entries();
        assert(after.subrange(0, before.len() as int) =~= before);
        assert(after[before.len() as int] == (name@, offset, type_));
        assert(declared(after, name@, offset, type_));
        if initializer is Some {
            lemma_expr_resolved_grows(initializer->0, before, after);
        }
    }
    Ok((Statement::InitDeclaration(InitDeclaration::new(name, offset, type_, initializer)), p))
}

/// Parses `if (e) s` with an optional `else s`; an `else` goes with the nearest `if`.
pub fn parse_if_statement(toks: &Vec<Token>, pos: usize, table: &mut SymbolTable) -> (r: Result<
    (Statement, usize),
    ParseError,
>)
    requires
        tokens_wf(toks@),
        pos < toks.len(),
        toks@[pos as int] is If,
        old(table).wf(),
    ensures
        final(table).wf(),
        advanced(r, pos as int, toks.len() as int),
        !(r matches Err(ParseError::Lex(_))),
        extends(final(table).entries(), old(table).entries()),
        r matches Ok((s, _)) ==> stmt_resolved(s, final(table).entries()),
        r matches Ok((s, _)) ==> s is If,
        r matches Ok((s, q)) ==> (s->If_0.alternative is None ==> !(toks@[q as int] is Else)),
        stmt_out(r, final(table).entries()) == if_spec(toks@, pos, old(table).entries()),
    decreases toks.len() - pos, 2int,
{
    proof {
        lemma_extends_refl(table.entries());
    }
    let p = expect(toks, pos + 1, Token::LParen)?;
    let (condition, q) = parse_expression(toks, p, PREC_LOWEST, table)?;
    let q = expect(toks, q, Token::RParen)?;
    let ghost e0 = table.entries();
    let (consequence, q) = parse_statement(toks, q, table)?;
    let ghost e1 = table.entries();
    proof {
        lemma_expr_resolved_grows(condition, e0, e1);
    }
    if at(toks, q, Token::Else) {
        let r = parse_statement(toks, q + 1, table);
        proof {
            lemma_extends_trans(e0, e1, table.entries());
        }
        let (alternative, q) = r?;
        proof {
            let e2 = table.entries();
            lemma_expr_resolved_grows(condition, e1, e2);
            lemma_stmt_resolved_grows(consequence, e1, e2);
        }
        Ok((Statement::If(IfStatement::new(condition, consequence, Some(alternative))), q))
    } else {
        Ok((Statement::If(IfStatement::new(condition, consequence, None)), q))
    }
}

/// Parses `while (e) s`.
pub fn parse_while_statement(toks: &Vec<Token>, pos: usize, table: &mut SymbolTable) -> (r: Result<
    (Statement, usize),
    ParseError,
>)
    requires
        tokens_wf(toks@),
        pos < toks.len(),
        toks@[pos as int] is While,
        old(table).wf(),
    ensures
        final(table).wf(),
        advanced(r, pos as int, toks.len() as int),
        !(r matches Err(ParseError::Lex(_))),
        extends(final(table).entries(), old(table).entries()),
        r matches Ok((s, _)) ==> stmt_resolved(s, final(table).entries()),
        r matches Ok((s, _)) ==> s is While,
        stmt_out(r, final(table).entries()) == while_spec(toks@, pos, old(table).entries()),
    decreases toks.len() - pos, 2int,
{
    proof {
        lemma_extends_refl(table.entries());
    }
    let p = expect(toks, pos + 1, Token::LParen)?;
    let (condition, q) = parse_expression(toks, p, PREC_LOWEST, table)?;
    let q = expect(toks, q, Token::RParen)?;
    let ghost e0 = table.entries();
    let (body, q) = parse_statement(toks, q, table)?;
    proof {
        lemma_expr_resolved_grows(condition, e0, table.entries());
    }
    Ok((Statement::While(WhileStatement::new(condition, body)), q))
}

/// The view of an optional expression.
pub open spec fn opt_view(c: Option<Expression>) -> Option<ExprV> {
    match c {
        Some(e) => Some(expr_view(e)),
        None => None,
    }
}

/// Parses one clause of a `for` header: nothing where `close` stands at `p`,
/// else an expression; then `close`.
fn parse_clause(toks: &Vec<Token>, p: usize, table: &SymbolTable, close: Token) -> (r: Result<
    (Option<Expression>, usize),
    ParseError,
>)
    requires
        tokens_wf(toks@),
        p < toks.len(),
        table.wf(),
        close is SemiColon || close is RParen,
    ensures
        !(r matches Err(ParseError::Lex(_))),
        match r {
            Ok((c, q)) => {
                &&& clause_spec(toks@, p, table.entries(), close) == Ok::<
                    (Option<ExprV>, usize),
                    ParseError,
                >((opt_view(c), q))
                &&& p < q < toks.len()
                &&& (c matches Some(e) ==> expr_resolved(e, table.entries()))
            },
            Err(x) => clause_spec(toks@, p, table.entries(), close) == Err::<
                (Option<ExprV>, usize),
                ParseError,
            >(x),
        },
{
    if at(toks, p, close.clone()) {
        return Ok((None, p + 1));
    }
    let (e, q) = parse_expression(toks, p, PREC_LOWEST, table)?;
    let q = expect(toks, q, close)?;
    Ok((Some(e), q))
}

/// Parses `for (init; condition; post) s`, where each of the three clauses may be left out.
#[verifier::rlimit(40)]
pub fn parse_for_statement(toks: &Vec<Token>, pos: usize, table: &mut SymbolTable) -> (r: Result<
    (Statement, usize),
    ParseError,
>)
    requires
        tokens_wf(toks@),
        pos < toks.len(),
        toks@[pos as int] is For,
        old(table).wf(),
    ensures
        final(table).wf(),
        advanced(r, pos as int, toks.len() as int),
        !(r matches Err(ParseError::Lex(_))),
        extends(final(table).entries(), old(table).entries()),
        r matches Ok((s, _)) ==> stmt_resolved(s, final(table).entries()),
        r matches Ok((s, _)) ==> s matches Statement::For(f) && (f.init is None <==> toks@[pos + 2] is SemiColon),
        stmt_out(r, final(table).entries()) == for_spec(toks@, pos, old(table).entries()),
    decreases toks.len() - pos, 2int,
{
    proof {
        lemma_extends_refl(table.entries());
    }
    let p = expect(toks, pos + 1, Token::LParen)?;
    let p0 = p;
    let (init, p) = parse_clause(toks, p, table, Token::SemiColon)?;
    let p1 = p;
    let (condition, p) = parse_clause(toks, p, table, Token::SemiColon)?;
    let p2 = p;
    let (post, p) = parse_clause(toks, p, table, Token::RParen)?;
    let ghost iv = opt_view(init);
    let ghost cv = opt_view(condition);
    let ghost pv = opt_view(post);
    let ghost vars0 = table.entries();
    let init: Option<Statement> = match init {
        Some(e) => Some(Statement::Expression(e)),
        None => None,
    };
    let post: Option<Statement> = match post {
        Some(e) => Some(Statement::Expression(e)),
        None => None,
    };
    let ghost e0 = table.entries();
    let (body, q) = parse_statement(toks, p, table)?;
    proof {
        let e1 = table.entries();
        if init is Some {
            lemma_stmt_resolved_grows(init->0, e0, e1);
        }
        if condition is Some {
            lemma_expr_resolved_grows(condition->0, e0, e1);
        }
        if post is Some {
            lemma_stmt_resolved_grows(post->0, e0, e1);
        }
    }
    let ghost init_s = init;
    let ghost post_s = post;
    let ghost body_s = body;
    let f = ForStatement::new(init, condition, post, body);
    proof {
        assert(init_s matches Some(a) ==> iv matches Some(x) && a == Statement::Expression(
            init_s->0->Expression_0,
        ) && x == expr_view(init_s->0->Expression_0));
        assert(init_s is None <==> iv is None);
        assert(post_s is None <==> pv is None);
        assert(post_s matches Some(a) ==> pv matches Some(x) && a == Statement::Expression(
            post_s->0->Expression_0,
        ) && x == expr_view(post_s->0->Expression_0));
        assert(*f.body == body_s);
        if init_s is Some {
            assert(stmt_view(init_s->0) == StmtV::Expression(expr_view(init_s->0->Expression_0)));
        }
        if post_s is Some {
            assert(stmt_view(post_s->0) == StmtV::Expression(expr_view(post_s->0->Expression_0)));
        }
        assert(clause_spec(toks@, p0, vars0, Token::SemiColon) == Ok::<(Option<ExprV>, usize), ParseError>((iv, p1)));
        assert(clause_spec(toks@, p1, vars0, Token::SemiColon) == Ok::<(Option<ExprV>, usize), ParseError>((cv, p2)));
        assert(clause_spec(toks@, p2, vars0, Token::RParen) == Ok::<(Option<ExprV>, usize), ParseError>((pv, p)));
        assert(stmt_view(Statement::For(f)) == StmtV::For(
            crate::grammar::as_stmt(iv),
            cv,
            crate::grammar::as_stmt(pv),
            Box::new(stmt_view(body_s)),
        ));
    }
    Ok((Statement::For(f), q))
}

/// `toks` are the tokens read one after another from `s`, the i-th starting
/// its read at `ps[i]` and ending at `ps[i + 1]`.
pub open spec fn lexed_as(s: Seq<char>, toks: Seq<Token>, ps: Seq<int>, start: int) -> bool {
    &&& ps.len() == toks.len() + 1
    &&& ps[0] == start
    &&& forall|i: int| 0 <= i < toks.len() ==> read_step(s, #[trigger] toks[i], ps[i], ps[i + 1])
}

/// A read from cursor `from` skips whitespace, meets no error, yields `t` and stops at `to`.
pub open spec fn read_step(s: Seq<char>, t: Token, from: int, to: int) -> bool {
    lex_error_at(s, skip_ws(s, from)) is None && lexes_to(s, skip_ws(s, from), t, to)
}

/// Reads every token of the lexer's text, up to and including the first `Eof`.
pub fn tokenize(lexer: &mut Lexer) -> (r: Result<Vec<Token>, LexError>)
    requires
        old(lexer).wf(),
    ensures
        final(lexer).wf(),
        ({
            let s = old(lexer).text();
            let start = old(lexer).cursor();
            match r {
                Ok(toks) => {
                    &&& tokens_wf(toks@)
                    &&& forall|i: int| 0 <= i < toks@.len() - 1 ==> !(#[trigger] toks@[i] is Eof)
                    &&& exists|ps: Seq<int>| lexed_as(s, toks@, ps, start)
                },
                Err(e) => exists|toks: Seq<Token>, ps: Seq<int>|
                    lexed_as(s, toks, ps, start) && lex_error_at(s, skip_ws(s, ps.last()))
                        == Some(e),
            }
        }),
{
    let ghost s = lexer.text();
    let ghost start = lexer.cursor();
    let ghost mut ps: Seq<int> = seq![start];
    let mut toks: Vec<Token> = Vec::new();
    loop
        invariant
            lexer.wf(),
            lexer.text() == s,
            s == old(lexer).text(),
            start == old(lexer).cursor(),
            lexed_as(s, toks@, ps, start),
            ps.last() == lexer.cursor(),
            forall|i: int| 0 <= i < toks@.len() ==> !(#[trigger] toks@[i] is Eof),
        decreases lexer.text().len() - lexer.cursor(),
    {
        let ghost c = lexer.cursor();
        proof {
            lexer.lemma_cursor_in_text();
        }
        let t = match lexer.next() {
            Ok(t) => t,
            Err(e) => {
                return Err(e);
            },
        };
        proof {
            lexer.lemma_cursor_in_text();
            crate::lexer::lemma_skip_ws_bounds(s, c);
            lemma_token_advances(s, skip_ws(s, c), t, lexer.cursor());
        }
        let done = at_eof(&t);
        let ghost old_toks = toks@;
        let ghost old_ps = ps;
        toks.push(t);
        proof {
            ps = ps.push(lexer.cursor());
            let tv = toks@;
            assert forall|i: int| 0 <= i < tv.len() implies read_step(s, #[trigger] tv[i], ps[i], ps[i + 1]) by {
                if i < old_toks.len() {
                    assert(tv[i] == old_toks[i]);
                    assert(ps[i] == old_ps[i] && ps[i + 1] == old_ps[i + 1]);
                } else {
                    assert(tv[i] == t);
                    assert(ps[i] == c && ps[i + 1] == lexer.cursor());
                }
            }
            assert(ps[0] == old_ps[0]);
        }
        if done {
            proof {
                assert(lexed_as(s, toks@, ps, start));
            }
            return Ok(toks);
        }
    }
}

fn at_eof(t: &Token) -> (r: bool)
    ensures
        r == (*t is Eof),
{
    match t {
        Token::Eof => true,
        _ => false,
    }
}

/// `r` is what the grammar gives for the whole of `toks`: the statements up to
/// `Eof`, and a frame as large as the variables they declare; or the first error.
pub open spec fn program_result(r: Result<Program, ParseError>, toks: Seq<Token>) -> bool {
    match r {
        Ok(p) => program_spec(toks, 0, Seq::empty(), Seq::empty()) matches Ok((ss, vars)) && ss
            == block_view(p.statements@, p.statements@.len() as int) && p.frame_size == slot_end(
            vars,
            vars.len() as int,
        ),
        Err(x) => program_spec(toks, 0, Seq::empty(), Seq::empty()) == Err::<
            (Seq<StmtV>, Seq<Slot>),
            ParseError,
        >(x),
    }
}

/// `toks` is the whole token sequence of `text` read from `start`: every read
/// succeeds, and it stops at the first `Eof`.
pub open spec fn lexes_into(text: Seq<char>, start: int, toks: Seq<Token>) -> bool {
    &&& tokens_wf(toks)
    &&& forall|i: int| 0 <= i < toks.len() - 1 ==> !(#[trigger] toks[i] is Eof)
    &&& exists|ps: Seq<int>| lexed_as(text, toks, ps, start)
}

/// Parses every statement of a token sequence, up to its `Eof`.
pub fn parse_program(toks: &Vec<Token>) -> (r: Result<Program, ParseError>)
    requires
        tokens_wf(toks@),
    ensures
        !(r matches Err(ParseError::Lex(_))),
        r matches Ok(p) ==> exists|vars: Seq<Slot>|
            #![trigger slot_end(vars, vars.len() as int)]
            frame_wf(vars) && block_resolved(p.statements@, p.statements@.len() as int, vars)
                && p.frame_size == slot_end(vars, vars.len() as int),
        program_result(r, toks@),
{
    let mut table = SymbolTable::new();
    let mut statements: Vec<Statement> = Vec::new();
    let mut p: usize = 0;
    proof {
        assert(table.entries() =~= Seq::<Slot>::empty());
        assert(block_view(statements@, 0) =~= Seq::<StmtV>::empty());
    }
    while !at(toks, p, Token::Eof)
        invariant
            tokens_wf(toks@),
            table.wf(),
            p < toks.len(),
            block_resolved(statements@, statements@.len() as int, table.entries()),
            program_spec(toks@, 0, Seq::empty(), Seq::empty()) == program_spec(
                toks@,
                p,
                table.entries(),
                block_view(statements@, statements@.len() as int),
            ),
        decreases toks.len() - p,
    {
        let ghost before = table.entries();
        let (s, q) = parse_statement(toks, p, &mut table)?;
        proof {
            lemma_block_resolved_grows(statements@, statements@.len() as int, before, table.entries());
            lemma_block_resolved_push(statements@, s, statements@.len() as int, table.entries());
            lemma_block_view_push(statements@, s, statements@.len() as int);
        }
        statements.push(s);
        p = q;
    }
    proof {
        table.lemma_wf();
    }
    Ok(Program { statements, frame_size: table.frame_size() })
}

/// Turns the text of a lexer into a program.
pub struct Parser {
    lexer: Lexer,
}

impl Parser {
    pub closed spec fn wf(&self) -> bool {
        self.lexer.wf()
    }

    /// The source text and the index from which it is still to be read.
    pub closed spec fn source(&self) -> (Seq<char>, int) {
        (self.lexer.text(), self.lexer.cursor())
    }

    pub fn new(lexer: Lexer) -> (r: Self)
        requires
            lexer.wf(),
        ensures
            r.wf(),
            r.source() == (lexer.text(), lexer.cursor()),
    {
        Parser { lexer }
    }

    /// Reads the whole text and parses it; stops at the first lexical or syntax error.
    /// Every variable of the program carries the slot of a declaration, and the
    /// declarations are laid out one after another in the frame.
    pub fn parse(&mut self) -> (r: Result<Program, ParseError>)
        requires
            old(self).wf(),
        ensures
            final(self).wf(),
            r matches Ok(p) ==> exists|vars: Seq<Slot>|
                #![trigger slot_end(vars, vars.len() as int)]
                frame_wf(vars) && block_resolved(p.statements@, p.statements@.len() as int, vars)
                    && p.frame_size == slot_end(vars, vars.len() as int),
            r matches Err(ParseError::Lex(e)) ==> exists|toks: Seq<Token>, ps: Seq<int>|
                lexed_as(old(self).source().0, toks, ps, old(self).source().1) && lex_error_at(
                    old(self).source().0,
                    skip_ws(old(self).source().0, ps.last()),
                ) == Some(e),
            !(r matches Err(ParseError::Lex(_))) ==> exists|toks: Seq<Token>|
                lexes_into(old(self).source().0, old(self).source().1, toks) && program_result(
                    r,
                    toks,
                ),
    {
        let ghost text = self.lexer.text();
        let ghost start = self.lexer.cursor();
        let toks = match tokenize(&mut self.lexer) {
            Ok(t) => t,
            Err(e) => {
                proof {
                    let (toks, ps) = choose|toks: Seq<Token>, ps: Seq<int>|
                        lexed_as(text, toks, ps, start) && lex_error_at(text, skip_ws(text, ps.last()))
                            == Some(e);
                    assert(lexed_as(old(self).source().0, toks, ps, old(self).source().1));
                }
                return Err(ParseError::Lex(e));
            },
        };
        let r = parse_program(&toks);
        proof {
            assert(lexes_into(text, start, toks@));
        }
        r
    }
}

} // verus!
