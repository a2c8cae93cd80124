use vstd::prelude::*;
use crate::ast::{BinaryOperator, Expression, Statement};
use crate::codegen::{
    args_code, args_ok, block_code, block_labels, block_ok, expr_code, expr_ok, lval_code,
    lval_ok, stmt_code, stmt_ok,
};
use crate::grammar::{block_loop_spec, expect_spec, expr_spec, if_spec, stmt_spec, tok, StmtV};
use crate::parser::PREC_LOWEST;
use crate::symbols::Slot;
use crate::token::Token;
use crate::instr::{lemma_net_effect_append, lemma_net_effect_short, net_effect, Instr, Reg};

verus! {

broadcast use lemma_net_effect_append, lemma_net_effect_short;

/// Compiling an accepted expression leaves exactly one more value on the
/// evaluation stack than there was before.
pub proof fn lemma_expr_pushes_one(e: Expression)
    requires
        expr_ok(e),
    ensures
        net_effect(expr_code(e)) == 1,
    decreases e, 1int,
{
    match e {
        Expression::Integer(_) => {},
        Expression::LocalVariable { .. } => {
            lemma_lval_pushes_one(e);
        },
        Expression::Unary(u) => {
            match u.op {
                crate::ast::UnaryOperator::Reference => lemma_lval_pushes_one(*u.expr),
                _ => lemma_expr_pushes_one(*u.expr),
            }
        },
        Expression::Binary(b) => {
            match b.op {
                crate::ast::BinaryOperator::Assignment => lemma_lval_pushes_one(*b.lhs),
                _ => lemma_expr_pushes_one(*b.lhs),
            }
            lemma_expr_pushes_one(*b.rhs);
        },
        Expression::Call(c) => {
            if !crate::codegen::is_sizeof(c.callee_name@) {
                lemma_args_push_none(c.arguments@, c.arguments@.len() as int);
            }
        },
    }
}

/// Computing the address of an accepted lvalue pushes exactly one value.
pub proof fn lemma_lval_pushes_one(e: Expression)
    requires
        lval_ok(e),
    ensures
        net_effect(lval_code(e)) == 1,
    decreases e, 0int,
{
    match e {
        Expression::Unary(u) => lemma_expr_pushes_one(*u.expr),
        _ => {},
    }
}

/// Passing arguments leaves the stack as it was: each value is popped into its register.
proof fn lemma_args_push_none(args: Seq<Expression>, k: int)
    requires
        args_ok(args, k),
    ensures
        net_effect(args_code(args, k)) == 0,
    decreases args, k,
{
    if 0 < k <= args.len() {
        lemma_args_push_none(args, k - 1);
        lemma_expr_pushes_one(args[k - 1]);
    }
}

/// Every accepted statement, whatever its kind, leaves the evaluation stack
/// as deep as it found it.
pub proof fn lemma_stmt_conserves_stack(s: Statement, n: int)
    requires
        stmt_ok(s),
    ensures
        net_effect(stmt_code(s, n)) == 0,
    decreases s, 1int,
{
    match s {
        Statement::If(i) => {
            lemma_expr_pushes_one(i.condition);
            lemma_stmt_conserves_stack(*i.consequence, n + 1);
            match i.alternative {
                Some(a) => lemma_stmt_conserves_stack(
                    *a,
                    n + 1 + crate::codegen::labels_used(*i.consequence),
                ),
                None => {},
            }
        },
        Statement::While(w) => {
            lemma_expr_pushes_one(w.condition);
            lemma_stmt_conserves_stack(*w.body, n + 1);
        },
        Statement::For(f) => {
            let li = match f.init {
                Some(a) => crate::codegen::labels_used(*a),
                None => 0,
            };
            let lb = crate::codegen::labels_used(*f.body);
            match f.init {
                Some(a) => lemma_stmt_conserves_stack(*a, n + 1),
                None => {},
            }
            match f.condition {
                Some(c) => lemma_expr_pushes_one(c),
                None => {},
            }
            lemma_stmt_conserves_stack(*f.body, n + 1 + li);
            match f.post {
                Some(a) => lemma_stmt_conserves_stack(*a, n + 1 + li + lb),
                None => {},
            }
        },
        Statement::Block(v) => {
            lemma_block_conserves_stack(v@, v@.len() as int, n);
        },
        Statement::Expression(e) => lemma_expr_pushes_one(e),
        Statement::Return(e) => lemma_expr_pushes_one(e),
        Statement::InitDeclaration(d) => {
            match d.initializer {
                Some(e) => lemma_expr_pushes_one(e),
                None => {},
            }
        },
    }
}

/// A run of accepted statements leaves the evaluation stack as deep as it found it.
pub proof fn lemma_block_conserves_stack(ss: Seq<Statement>, k: int, n: int)
    requires
        block_ok(ss, k),
    ensures
        net_effect(block_code(ss, k, n)) == 0,
    decreases ss, k,
{
    if 0 < k <= ss.len() {
        lemma_block_conserves_stack(ss, k - 1, n);
        lemma_stmt_conserves_stack(ss[k - 1], n + block_labels(ss, k - 1));
    }
}

/// Adding to a pointer variable loads the pointer's value, not its address,
/// and scales the right operand by the size of the pointee before the add.
pub proof fn lemma_pointer_offset_scaled(e: Expression)
    requires
        e matches Expression::Binary(b) && b.op == BinaryOperator::Plus
            && b.lhs.is_pointer_var(),
    ensures
        ({
            let b = e->Binary_0;
            let t = crate::codegen::pointer_var_pointee(*b.lhs)->0;
            &&& expr_code(*b.lhs) == lval_code(*b.lhs) + seq![
                Instr::Pop(Reg::Rax),
                Instr::Load,
                Instr::Push(Reg::Rax),
            ]
            &&& expr_code(e) == expr_code(*b.lhs) + expr_code(*b.rhs) + seq![
                Instr::Pop(Reg::Rdi),
                Instr::Pop(Reg::Rax),
                Instr::ImulImm(Reg::Rdi, t.spec_size()),
                Instr::Add(Reg::Rax, Reg::Rdi),
                Instr::Push(Reg::Rax),
            ]
        }),
{
    let b = e->Binary_0;
    let t = crate::codegen::pointer_var_pointee(*b.lhs)->0;
    assert(seq![Instr::Pop(Reg::Rdi), Instr::Pop(Reg::Rax)] + seq![
        Instr::ImulImm(Reg::Rdi, t.spec_size()),
        Instr::Add(Reg::Rax, Reg::Rdi),
    ] + seq![Instr::Push(Reg::Rax)] =~= seq![
        Instr::Pop(Reg::Rdi),
        Instr::Pop(Reg::Rax),
        Instr::ImulImm(Reg::Rdi, t.spec_size()),
        Instr::Add(Reg::Rax, Reg::Rdi),
        Instr::Push(Reg::Rax),
    ]);
}

/// A statement that parses to an `if` without `else` is never followed by `else`:
/// such an `else` would have been taken by that `if`.
pub proof fn lemma_if_without_else_ends_before_else(toks: Seq<Token>, q: usize, vars: Seq<Slot>)
    requires
        stmt_spec(toks, q, vars) matches Ok((StmtV::If(_, _, None), _, _)),
    ensures
        !(tok(toks, stmt_spec(toks, q, vars)->Ok_0.1 as int) is Else),
{
    if q < toks.len() && toks.len() <= usize::MAX && toks[q as int] is LBrace {
        lemma_block_yields_block(toks, (q + 1) as usize, vars, Seq::empty());
    }
}

/// A block parse yields a block, or fails.
proof fn lemma_block_yields_block(toks: Seq<Token>, p: usize, vars: Seq<Slot>, acc: Seq<StmtV>)
    ensures
        block_loop_spec(toks, p, vars, acc) matches Ok((s, _, _)) ==> s is Block,
    decreases toks.len() - p,
{
    if p < toks.len() && toks.len() <= usize::MAX && !(toks[p as int] is RBrace) && !(
    toks[p as int] is Eof) {
        match stmt_spec(toks, p, vars) {
            Ok((s, q, v)) => {
                if q > p && q < toks.len() {
                    lemma_block_yields_block(toks, q, v, acc.push(s));
                }
            },
            Err(_) => {},
        }
    }
}

/// An `else` goes with the nearest `if`: an `if` whose consequence is an `if`
/// without `else` has no `else` either.
pub proof fn lemma_else_binds_to_nearest_if(toks: Seq<Token>, pos: usize, vars: Seq<Slot>)
    requires
        if_spec(toks, pos, vars) matches Ok((StmtV::If(_, cons, _), _, _)),
        *if_spec(toks, pos, vars)->Ok_0.0->If_1 matches StmtV::If(_, _, None),
    ensures
        if_spec(toks, pos, vars)->Ok_0.0->If_2 is None,
{
    let p = expect_spec(toks, (pos + 1) as usize, Token::LParen)->Ok_0;
    let q0 = expr_spec(toks, p, PREC_LOWEST, vars)->Ok_0.1;
    let q = expect_spec(toks, q0, Token::RParen)->Ok_0;
    lemma_if_without_else_ends_before_else(toks, q, vars);
}

} // verus!
