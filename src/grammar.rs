use vstd::prelude::*;
use crate::ast::{BinaryOperator, Expression, Statement, Type, TypeEnum, UnaryOperator};
use crate::parser::{binary_op_spec, punct_id, ParseError, PREC_LOWEST};
use crate::symbols::{lookup_spec, slot_end, Slot};
use crate::token::Token;

verus! {

/// An expression tree as a mathematical value.
pub enum ExprV {
    Integer(i32),
    Unary(UnaryOperator, Box<ExprV>),
    Binary(BinaryOperator, Box<ExprV>, Box<ExprV>),
    Var(Seq<char>, u64, Type),
    Call(Seq<char>, Seq<ExprV>),
}

/// A statement tree as a mathematical value.
pub enum StmtV {
    If(ExprV, Box<StmtV>, Option<Box<StmtV>>),
    While(ExprV, Box<StmtV>),
    For(Option<Box<StmtV>>, Option<ExprV>, Option<Box<StmtV>>, Box<StmtV>),
    Block(Seq<StmtV>),
    Expression(ExprV),
    Return(ExprV),
    Decl(Seq<char>, u64, Type, Option<ExprV>),
}

pub open spec fn expr_view(e: Expression) -> ExprV
    decreases e, 1int,
{
    match e {
        Expression::Integer(n) => ExprV::Integer(n),
        Expression::Unary(u) => ExprV::Unary(u.op, Box::new(expr_view(*u.expr))),
        Expression::Binary(b) => ExprV::Binary(
            b.op,
            Box::new(expr_view(*b.lhs)),
            Box::new(expr_view(*b.rhs)),
        ),
        Expression::LocalVariable { name, offset, type_ } => ExprV::Var(name@, offset, type_),
        Expression::Call(c) => ExprV::Call(
            c.callee_name@,
            args_view(c.arguments@, c.arguments@.len() as int),
        ),
    }
}

/// The views of the first `k` arguments.
pub open spec fn args_view(args: Seq<Expression>, k: int) -> Seq<ExprV>
    decreases args, k,
{
    if k <= 0 || k > args.len() {
        Seq::empty()
    } else {
        args_view(args, k - 1).push(expr_view(args[k - 1]))
    }
}

pub open spec fn stmt_view(s: Statement) -> StmtV
    decreases s, 1int,
{
    match s {
        Statement::If(i) => StmtV::If(
            expr_view(i.condition),
            Box::new(stmt_view(*i.consequence)),
            match i.alternative {
                Some(a) => Some(Box::new(stmt_view(*a))),
                None => None,
            },
        ),
        Statement::While(w) => StmtV::While(expr_view(w.condition), Box::new(stmt_view(*w.body))),
        Statement::For(f) => StmtV::For(
            match f.init {
                Some(a) => Some(Box::new(stmt_view(*a))),
                None => None,
            },
            match f.condition {
                Some(c) => Some(expr_view(c)),
                None => None,
            },
            match f.post {
                Some(a) => Some(Box::new(stmt_view(*a))),
                None => None,
            },
            Box::new(stmt_view(*f.body)),
        ),
        Statement::Block(v) => StmtV::Block(block_view(v@, v@.len() as int)),
        Statement::Expression(e) => StmtV::Expression(expr_view(e)),
        Statement::Return(e) => StmtV::Return(expr_view(e)),
        Statement::InitDeclaration(d) => StmtV::Decl(
            d.name@,
            d.offset,
            d.type_,
            match d.initializer {
                Some(e) => Some(expr_view(e)),
                None => None,
            },
        ),
    }
}

/// The views of the first `k` statements.
pub open spec fn block_view(ss: Seq<Statement>, k: int) -> Seq<StmtV>
    decreases ss, k,
{
    if k <= 0 || k > ss.len() {
        Seq::empty()
    } else {
        block_view(ss, k - 1).push(stmt_view(ss[k - 1]))
    }
}

pub proof fn lemma_args_view_push(args: Seq<Expression>, x: Expression, k: int)
    requires
        0 <= k <= args.len(),
    ensures
        args_view(args.push(x), k) == args_view(args, k),
    decreases k,
{
    if k > 0 {
        lemma_args_view_push(args, x, k - 1);
    }
}

pub proof fn lemma_block_view_push(ss: Seq<Statement>, x: Statement, k: int)
    requires
        0 <= k <= ss.len(),
    ensures
        block_view(ss.push(x), k) == block_view(ss, k),
    decreases k,
{
    if k > 0 {
        lemma_block_view_push(ss, x, k - 1);
    }
}

/// The token at `i`, or `Eof` past the end.
pub open spec fn tok(toks: Seq<Token>, i: int) -> Token {
    if 0 <= i < toks.len() {
        toks[i]
    } else {
        Token::Eof
    }
}

/// The result where the parser's own bookkeeping would be broken; never reached
/// on a sequence that ends with `Eof`.
pub open spec fn stuck<T>() -> Result<T, ParseError> {
    Err(ParseError::ExpectedExpression { got: Token::Eof })
}

/// The token `want` is required at `p`; parsing goes on after it.
pub open spec fn expect_spec(toks: Seq<Token>, p: usize, want: Token) -> Result<usize, ParseError> {
    if punct_id(tok(toks, p as int)) == punct_id(want) {
        Ok((p + 1) as usize)
    } else {
        Err(ParseError::UnexpectedToken { expected: want, got: tok(toks, p as int) })
    }
}

/// The strength at which the right operand of `op` is parsed: assignment groups
/// to the right, every other operator to the left.
pub open spec fn right_prec(op: BinaryOperator, prec: u8) -> u8 {
    if op == BinaryOperator::Assignment {
        prec
    } else {
        (prec + 1) as u8
    }
}

/// An expression at `pos` whose binary operators bind at least as strongly as `min`:
/// a unary expression, then operators folded in by precedence climbing.
pub open spec fn expr_spec(toks: Seq<Token>, pos: usize, min: u8, vars: Seq<Slot>) -> Result<
    (ExprV, usize),
    ParseError,
>
    decreases toks.len() - pos, 3int,
{
    if pos >= toks.len() || toks.len() > usize::MAX {
        stuck()
    } else {
        match unary_spec(toks, pos, vars) {
            Err(e) => Err(e),
            Ok((lhs, p)) => if p <= pos || p >= toks.len() {
                stuck()
            } else {
                climb_spec(toks, p, min, vars, lhs)
            },
        }
    }
}

/// Folds operators that bind at least as strongly as `min` into `lhs`, from `p` on.
/// `a > b` is read as `b < a`, and `a >= b` as `b <= a`.
pub open spec fn climb_spec(toks: Seq<Token>, p: usize, min: u8, vars: Seq<Slot>, lhs: ExprV) -> Result<
    (ExprV, usize),
    ParseError,
>
    decreases toks.len() - p, 2int,
{
    if p >= toks.len() || toks.len() > usize::MAX {
        stuck()
    } else {
        match binary_op_spec(toks[p as int]) {
            None => Ok((lhs, p)),
            Some((prec, op, swap)) => if prec < min {
                Ok((lhs, p))
            } else {
                match expr_spec(toks, (p + 1) as usize, right_prec(op, prec), vars) {
                    Err(e) => Err(e),
                    Ok((rhs, q)) => if q <= p || q >= toks.len() {
                        stuck()
                    } else if swap {
                        climb_spec(toks, q, min, vars, ExprV::Binary(op, Box::new(rhs), Box::new(lhs)))
                    } else {
                        climb_spec(toks, q, min, vars, ExprV::Binary(op, Box::new(lhs), Box::new(rhs)))
                    },
                }
            },
        }
    }
}

pub open spec fn wrap_unary(op: UnaryOperator, r: Result<(ExprV, usize), ParseError>) -> Result<
    (ExprV, usize),
    ParseError,
> {
    match r {
        Ok((e, q)) => Ok((ExprV::Unary(op, Box::new(e)), q)),
        Err(x) => Err(x),
    }
}

/// A prefix `-`, `&` or `*` before a unary expression, or a primary expression.
pub open spec fn unary_spec(toks: Seq<Token>, pos: usize, vars: Seq<Slot>) -> Result<
    (ExprV, usize),
    ParseError,
>
    decreases toks.len() - pos, 1int,
{
    if pos >= toks.len() || toks.len() > usize::MAX {
        stuck()
    } else {
        match toks[pos as int] {
            Token::Minus => wrap_unary(UnaryOperator::Minus, unary_spec(toks, (pos + 1) as usize, vars)),
            Token::Ampersand => wrap_unary(
                UnaryOperator::Reference,
                unary_spec(toks, (pos + 1) as usize, vars),
            ),
            Token::Asterisk => wrap_unary(
                UnaryOperator::Dereference,
                unary_spec(toks, (pos + 1) as usize, vars),
            ),
            _ => primary_spec(toks, pos, vars),
        }
    }
}

/// An integer, a call, a variable resolved to its latest declaration, or `( e )`.
pub open spec fn primary_spec(toks: Seq<Token>, pos: usize, vars: Seq<Slot>) -> Result<
    (ExprV, usize),
    ParseError,
>
    decreases toks.len() - pos, 0int,
{
    if pos >= toks.len() || toks.len() > usize::MAX {
        stuck()
    } else {
        match toks[pos as int] {
            Token::Integer(n) => Ok((ExprV::Integer(n), (pos + 1) as usize)),
            Token::LParen => match expr_spec(toks, (pos + 1) as usize, PREC_LOWEST, vars) {
                Err(e) => Err(e),
                Ok((e, q)) => match expect_spec(toks, q, Token::RParen) {
                    Ok(q2) => Ok((e, q2)),
                    Err(x) => Err(x),
                },
            },
            Token::Identifier(name) => if tok(toks, pos + 1) is LParen {
                match args_spec(toks, (pos + 2) as usize, vars) {
                    Ok((a, q)) => Ok((ExprV::Call(name@, a), q)),
                    Err(x) => Err(x),
                }
            } else {
                match lookup_spec(vars, name@, vars.len() as int) {
                    Some((o, t)) => Ok((ExprV::Var(name@, o, t), (pos + 1) as usize)),
                    None => Err(ParseError::UndefinedVariable { name }),
                }
            },
            t => Err(ParseError::ExpectedExpression { got: t }),
        }
    }
}

/// The arguments of a call after its `(`, up to and past the `)`.
pub open spec fn args_spec(toks: Seq<Token>, pos: usize, vars: Seq<Slot>) -> Result<
    (Seq<ExprV>, usize),
    ParseError,
>
    decreases toks.len() - pos, 5int,
{
    if pos >= toks.len() || toks.len() > usize::MAX {
        stuck()
    } else if toks[pos as int] is RParen {
        Ok((Seq::empty(), (pos + 1) as usize))
    } else {
        args_loop_spec(toks, pos, vars, Seq::empty())
    }
}

/// Arguments from `p` on, after the arguments `acc`: `e` then `,` or `)`.
pub open spec fn args_loop_spec(toks: Seq<Token>, p: usize, vars: Seq<Slot>, acc: Seq<ExprV>) -> Result<
    (Seq<ExprV>, usize),
    ParseError,
>
    decreases toks.len() - p, 4int,
{
    if p >= toks.len() || toks.len() > usize::MAX {
        stuck()
    } else {
        match expr_spec(toks, p, PREC_LOWEST, vars) {
            Err(e) => Err(e),
            Ok((a, q)) => if q <= p || q >= toks.len() {
                stuck()
            } else if toks[q as int] is Comma {
                args_loop_spec(toks, (q + 1) as usize, vars, acc.push(a))
            } else {
                match expect_spec(toks, q, Token::RParen) {
                    Ok(q2) => Ok((acc.push(a), q2)),
                    Err(x) => Err(x),
                }
            },
        }
    }
}

/// `int` followed by `n` stars.
pub open spec fn pointer_type(n: nat) -> Type
    decreases n,
{
    if n == 0 {
        Type::Primitive(TypeEnum::Int)
    } else {
        Type::Pointer(Box::new(pointer_type((n - 1) as nat)))
    }
}

/// The first index at or after `p` that holds no `*`.
pub open spec fn stars_end(toks: Seq<Token>, p: int) -> int
    decreases toks.len() - p,
{
    if 0 <= p < toks.len() && toks[p] is Asterisk {
        stars_end(toks, p + 1)
    } else {
        p
    }
}

/// A statement at `pos`, with the variables declared so far; yields the statement,
/// where parsing goes on, and the variables declared after it.
pub open spec fn stmt_spec(toks: Seq<Token>, pos: usize, vars: Seq<Slot>) -> Result<
    (StmtV, usize, Seq<Slot>),
    ParseError,
>
    decreases toks.len() - pos, 7int,
{
    if pos >= toks.len() || toks.len() > usize::MAX {
        stuck()
    } else {
        match toks[pos as int] {
            Token::If => if_spec(toks, pos, vars),
            Token::While => while_spec(toks, pos, vars),
            Token::For => for_spec(toks, pos, vars),
            Token::LBrace => block_loop_spec(toks, (pos + 1) as usize, vars, Seq::empty()),
            Token::Return => match expr_spec(toks, (pos + 1) as usize, PREC_LOWEST, vars) {
                Err(e) => Err(e),
                Ok((e, q)) => match expect_spec(toks, q, Token::SemiColon) {
                    Ok(q2) => Ok((StmtV::Return(e), q2, vars)),
                    Err(x) => Err(x),
                },
            },
            Token::Identifier(w) => if w@ == seq!['i', 'n', 't'] {
                decl_spec(toks, pos, vars)
            } else {
                expr_stmt_spec(toks, pos, vars)
            },
            _ => expr_stmt_spec(toks, pos, vars),
        }
    }
}

/// `e ;`
pub open spec fn expr_stmt_spec(toks: Seq<Token>, pos: usize, vars: Seq<Slot>) -> Result<
    (StmtV, usize, Seq<Slot>),
    ParseError,
>
    decreases toks.len() - pos, 6int,
{
    if pos >= toks.len() || toks.len() > usize::MAX {
        stuck()
    } else {
        match expr_spec(toks, pos, PREC_LOWEST, vars) {
            Err(e) => Err(e),
            Ok((e, q)) => match expect_spec(toks, q, Token::SemiColon) {
                Ok(q2) => Ok((StmtV::Expression(e), q2, vars)),
                Err(x) => Err(x),
            },
        }
    }
}

/// Statements from `p` on, after the statements `acc`, up to and past the `}`.
pub open spec fn block_loop_spec(toks: Seq<Token>, p: usize, vars: Seq<Slot>, acc: Seq<StmtV>) -> Result<
    (StmtV, usize, Seq<Slot>),
    ParseError,
>
    decreases toks.len() - p, 8int,
{
    if p >= toks.len() || toks.len() > usize::MAX {
        stuck()
    } else if toks[p as int] is RBrace {
        Ok((StmtV::Block(acc), (p + 1) as usize, vars))
    } else if toks[p as int] is Eof {
        Err(ParseError::UnexpectedToken { expected: Token::RBrace, got: Token::Eof })
    } else {
        match stmt_spec(toks, p, vars) {
            Err(e) => Err(e),
            Ok((s, q, v)) => if q <= p || q >= toks.len() {
                stuck()
            } else {
                block_loop_spec(toks, q, v, acc.push(s))
            },
        }
    }
}

/// `int`, stars, a name, an optional `= e`, `;`; the name takes the next slot of the frame.
pub open spec fn decl_spec(toks: Seq<Token>, pos: usize, vars: Seq<Slot>) -> Result<
    (StmtV, usize, Seq<Slot>),
    ParseError,
>
    decreases toks.len() - pos, 6int,
{
    if pos >= toks.len() || toks.len() > usize::MAX {
        stuck()
    } else {
        let p = stars_end(toks, pos + 1);
        let t = pointer_type((p - (pos + 1)) as nat);
        match tok(toks, p) {
            Token::Identifier(name) => {
                let init = if tok(toks, p + 1) is Assignment {
                    if p + 2 <= pos || p + 2 >= toks.len() {
                        stuck()
                    } else {
                        match expr_spec(toks, (p + 2) as usize, PREC_LOWEST, vars) {
                            Ok((e, q)) => Ok((Some(e), q)),
                            Err(x) => Err(x),
                        }
                    }
                } else {
                    Ok((None, (p + 1) as usize))
                };
                match init {
                    Err(x) => Err(x),
                    Ok((i, q)) => match expect_spec(toks, q, Token::SemiColon) {
                        Err(x) => Err(x),
                        Ok(q2) => {
                            let o = slot_end(vars, vars.len() as int) + t.spec_size();
                            if o > u64::MAX {
                                Err(ParseError::FrameTooLarge)
                            } else {
                                Ok((StmtV::Decl(name@, o as u64, t, i), q2, vars.push((name@, o as u64, t))))
                            }
                        },
                    },
                }
            },
            g => Err(ParseError::ExpectedIdentifier { got: g }),
        }
    }
}

/// `if ( e ) s`, with `else s` where an `else` follows; an `else` thus goes
/// with the nearest `if` that has none.
pub open spec fn if_spec(toks: Seq<Token>, pos: usize, vars: Seq<Slot>) -> Result<
    (StmtV, usize, Seq<Slot>),
    ParseError,
>
    decreases toks.len() - pos, 6int,
{
    if pos >= toks.len() || toks.len() > usize::MAX {
        stuck()
    } else {
        match expect_spec(toks, (pos + 1) as usize, Token::LParen) {
            Err(x) => Err(x),
            Ok(p) => if p <= pos || p >= toks.len() {
                stuck()
            } else {
                match expr_spec(toks, p, PREC_LOWEST, vars) {
                    Err(e) => Err(e),
                    Ok((c, q)) => match expect_spec(toks, q, Token::RParen) {
                        Err(x) => Err(x),
                        Ok(q) => if q <= pos || q >= toks.len() {
                            stuck()
                        } else {
                            match stmt_spec(toks, q, vars) {
                                Err(e) => Err(e),
                                Ok((cons, q2, v1)) => if q2 <= pos || q2 >= toks.len() {
                                    stuck()
                                } else if toks[q2 as int] is Else {
                                    match stmt_spec(toks, (q2 + 1) as usize, v1) {
                                        Err(e) => Err(e),
                                        Ok((alt, q3, v2)) => Ok(
                                            (StmtV::If(c, Box::new(cons), Some(Box::new(alt))), q3, v2),
                                        ),
                                    }
                                } else {
                                    Ok((StmtV::If(c, Box::new(cons), None), q2, v1))
                                },
                            }
                        },
                    },
                }
            },
        }
    }
}

/// `while ( e ) s`
pub open spec fn while_spec(toks: Seq<Token>, pos: usize, vars: Seq<Slot>) -> Result<
    (StmtV, usize, Seq<Slot>),
    ParseError,
>
    decreases toks.len() - pos, 6int,
{
    if pos >= toks.len() || toks.len() > usize::MAX {
        stuck()
    } else {
        match expect_spec(toks, (pos + 1) as usize, Token::LParen) {
            Err(x) => Err(x),
            Ok(p) => if p <= pos || p >= toks.len() {
                stuck()
            } else {
                match expr_spec(toks, p, PREC_LOWEST, vars) {
                    Err(e) => Err(e),
                    Ok((c, q)) => match expect_spec(toks, q, Token::RParen) {
                        Err(x) => Err(x),
                        Ok(q) => if q <= pos || q >= toks.len() {
                            stuck()
                        } else {
                            match stmt_spec(toks, q, vars) {
                                Err(e) => Err(e),
                                Ok((body, q2, v1)) => Ok((StmtV::While(c, Box::new(body)), q2, v1)),
                            }
                        },
                    },
                }
            },
        }
    }
}

/// One clause of a `for` header at `p`: empty where `close` stands there, else
/// an expression; then `close`.
pub open spec fn clause_spec(toks: Seq<Token>, p: usize, vars: Seq<Slot>, close: Token) -> Result<
    (Option<ExprV>, usize),
    ParseError,
>
    decreases toks.len() - p, 4int,
{
    if p >= toks.len() || toks.len() > usize::MAX {
        stuck()
    } else if punct_id(toks[p as int]) == punct_id(close) {
        Ok((None, (p + 1) as usize))
    } else {
        match expr_spec(toks, p, PREC_LOWEST, vars) {
            Err(e) => Err(e),
            Ok((e, q)) => match expect_spec(toks, q, close) {
                Ok(q2) => Ok((Some(e), q2)),
                Err(x) => Err(x),
            },
        }
    }
}

pub open spec fn as_stmt(e: Option<ExprV>) -> Option<Box<StmtV>> {
    match e {
        Some(x) => Some(Box::new(StmtV::Expression(x))),
        None => None,
    }
}

/// `for ( init ; condition ; post ) s`, each clause optional.
pub open spec fn for_spec(toks: Seq<Token>, pos: usize, vars: Seq<Slot>) -> Result<
    (StmtV, usize, Seq<Slot>),
    ParseError,
>
    decreases toks.len() - pos, 6int,
{
    if pos >= toks.len() || toks.len() > usize::MAX {
        stuck()
    } else {
        match expect_spec(toks, (pos + 1) as usize, Token::LParen) {
            Err(x) => Err(x),
            Ok(p) => if p <= pos {
                stuck()
            } else {
                match clause_spec(toks, p, vars, Token::SemiColon) {
                    Err(x) => Err(x),
                    Ok((init, p1)) => if p1 <= pos {
                        stuck()
                    } else {
                        match clause_spec(toks, p1, vars, Token::SemiColon) {
                            Err(x) => Err(x),
                            Ok((cond, p2)) => if p2 <= pos {
                                stuck()
                            } else {
                                match clause_spec(toks, p2, vars, Token::RParen) {
                                    Err(x) => Err(x),
                                    Ok((post, p3)) => if p3 <= pos || p3 >= toks.len() {
                                        stuck()
                                    } else {
                                        match stmt_spec(toks, p3, vars) {
                                            Err(e) => Err(e),
                                            Ok((body, q, v1)) => Ok(
                                                (
                                                    StmtV::For(
                                                        as_stmt(init),
                                                        cond,
                                                        as_stmt(post),
                                                        Box::new(body),
                                                    ),
                                                    q,
                                                    v1,
                                                ),
                                            ),
                                        }
                                    },
                                }
                            },
                        }
                    },
                }
            },
        }
    }
}

/// Statements from `p` on, after the statements `acc`, up to `Eof`.
pub open spec fn program_spec(toks: Seq<Token>, p: usize, vars: Seq<Slot>, acc: Seq<StmtV>) -> Result<
    (Seq<StmtV>, Seq<Slot>),
    ParseError,
>
    decreases toks.len() - p,
{
    if p >= toks.len() || toks.len() > usize::MAX {
        stuck()
    } else if toks[p as int] is Eof {
        Ok((acc, vars))
    } else {
        match stmt_spec(toks, p, vars) {
            Err(e) => Err(e),
            Ok((s, q, v)) => if q <= p || q >= toks.len() {
                stuck()
            } else {
                program_spec(toks, q, v, acc.push(s))
            },
        }
    }
}

} // verus!
