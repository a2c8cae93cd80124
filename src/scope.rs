use vstd::prelude::*;
use crate::ast::{Expression, Statement};
use crate::symbols::{extends, Slot};

verus! {

/// `vars` holds a variable with exactly this name, offset and type.
pub open spec fn declared(vars: Seq<Slot>, name: Seq<char>, offset: u64, t: crate::ast::Type) -> bool {
    exists|i: int| 0 <= i < vars.len() && #[trigger] vars[i] == (name, offset, t)
}

/// Every variable that `e` reads carries the offset and type of a declaration in `vars`.
pub open spec fn expr_resolved(e: Expression, vars: Seq<Slot>) -> bool
    decreases e, 1int,
{
    match e {
        Expression::Integer(_) => true,
        Expression::LocalVariable { name, offset, type_ } => declared(vars, name@, offset, type_),
        Expression::Unary(u) => expr_resolved(*u.expr, vars),
        Expression::Binary(b) => expr_resolved(*b.lhs, vars) && expr_resolved(*b.rhs, vars),
        Expression::Call(c) => args_resolved(c.arguments@, c.arguments@.len() as int, vars),
    }
}

pub open spec fn args_resolved(args: Seq<Expression>, k: int, vars: Seq<Slot>) -> bool
    decreases args, k,
{
    if k <= 0 || k > args.len() {
        true
    } else {
        args_resolved(args, k - 1, vars) && expr_resolved(args[k - 1], vars)
    }
}

/// Every variable that `s` reads or declares carries the offset and type of a
/// declaration in `vars`.
pub open spec fn stmt_resolved(s: Statement, vars: Seq<Slot>) -> bool
    decreases s, 1int,
{
    match s {
        Statement::If(i) => expr_resolved(i.condition, vars) && stmt_resolved(*i.consequence, vars)
            && (match i.alternative {
            Some(a) => stmt_resolved(*a, vars),
            None => true,
        }),
        Statement::While(w) => expr_resolved(w.condition, vars) && stmt_resolved(*w.body, vars),
        Statement::For(f) => (match f.init {
            Some(a) => stmt_resolved(*a, vars),
            None => true,
        }) && (match f.condition {
            Some(c) => expr_resolved(c, vars),
            None => true,
        }) && stmt_resolved(*f.body, vars) && (match f.post {
            Some(a) => stmt_resolved(*a, vars),
            None => true,
        }),
        Statement::Block(v) => block_resolved(v@, v@.len() as int, vars),
        Statement::Expression(e) => expr_resolved(e, vars),
        Statement::Return(e) => expr_resolved(e, vars),
        Statement::InitDeclaration(d) => declared(vars, d.name@, d.offset, d.type_) && (
        match d.initializer {
            Some(e) => expr_resolved(e, vars),
            None => true,
        }),
    }
}

pub open spec fn block_resolved(ss: Seq<Statement>, k: int, vars: Seq<Slot>) -> bool
    decreases ss, k,
{
    if k <= 0 || k > ss.len() {
        true
    } else {
        block_resolved(ss, k - 1, vars) && stmt_resolved(ss[k - 1], vars)
    }
}

proof fn lemma_declared_grows(vars: Seq<Slot>, more: Seq<Slot>, name: Seq<char>, offset: u64, t: crate::ast::Type)
    requires
        extends(more, vars),
        declared(vars, name, offset, t),
    ensures
        declared(more, name, offset, t),
{
    let i = choose|i: int| 0 <= i < vars.len() && #[trigger] vars[i] == (name, offset, t);
    assert(more[i] == more.subrange(0, vars.len() as int)[i]);
}

/// Declaring more variables keeps an expression resolved.
pub proof fn lemma_expr_resolved_grows(e: Expression, vars: Seq<Slot>, more: Seq<Slot>)
    requires
        extends(more, vars),
        expr_resolved(e, vars),
    ensures
        expr_resolved(e, more),
    decreases e, 1int,
{
    match e {
        Expression::Integer(_) => {},
        Expression::LocalVariable { name, offset, type_ } => {
            lemma_declared_grows(vars, more, name@, offset, type_);
        },
        Expression::Unary(u) => lemma_expr_resolved_grows(*u.expr, vars, more),
        Expression::Binary(b) => {
            lemma_expr_resolved_grows(*b.lhs, vars, more);
            lemma_expr_resolved_grows(*b.rhs, vars, more);
        },
        Expression::Call(c) => lemma_args_resolved_grows(
            c.arguments@,
            c.arguments@.len() as int,
            vars,
            more,
        ),
    }
}

proof fn lemma_args_resolved_grows(args: Seq<Expression>, k: int, vars: Seq<Slot>, more: Seq<Slot>)
    requires
        extends(more, vars),
        args_resolved(args, k, vars),
    ensures
        args_resolved(args, k, more),
    decreases args, k,
{
    if 0 < k <= args.len() {
        lemma_args_resolved_grows(args, k - 1, vars, more);
        lemma_expr_resolved_grows(args[k - 1], vars, more);
    }
}

/// Declaring more variables keeps a statement resolved.
pub proof fn lemma_stmt_resolved_grows(s: Statement, vars: Seq<Slot>, more: Seq<Slot>)
    requires
        extends(more, vars),
        stmt_resolved(s, vars),
    ensures
        stmt_resolved(s, more),
    decreases s, 1int,
{
    match s {
        Statement::If(i) => {
            lemma_expr_resolved_grows(i.condition, vars, more);
            lemma_stmt_resolved_grows(*i.consequence, vars, more);
            match i.alternative {
                Some(a) => lemma_stmt_resolved_grows(*a, vars, more),
                None => {},
            }
        },
        Statement::While(w) => {
            lemma_expr_resolved_grows(w.condition, vars, more);
            lemma_stmt_resolved_grows(*w.body, vars, more);
        },
        Statement::For(f) => {
            match f.init {
                Some(a) => lemma_stmt_resolved_grows(*a, vars, more),
                None => {},
            }
            match f.condition {
                Some(c) => lemma_expr_resolved_grows(c, vars, more),
                None => {},
            }
            lemma_stmt_resolved_grows(*f.body, vars, more);
            match f.post {
                Some(a) => lemma_stmt_resolved_grows(*a, vars, more),
                None => {},
            }
        },
        Statement::Block(v) => lemma_block_resolved_grows(v@, v@.len() as int, vars, more),
        Statement::Expression(e) => lemma_expr_resolved_grows(e, vars, more),
        Statement::Return(e) => lemma_expr_resolved_grows(e, vars, more),
        Statement::InitDeclaration(d) => {
            lemma_declared_grows(vars, more, d.name@, d.offset, d.type_);
            match d.initializer {
                Some(e) => lemma_expr_resolved_grows(e, vars, more),
                None => {},
            }
        },
    }
}

/// Declaring more variables keeps a run of statements resolved.
pub proof fn lemma_block_resolved_grows(ss: Seq<Statement>, k: int, vars: Seq<Slot>, more: Seq<Slot>)
    requires
        extends(more, vars),
        block_resolved(ss, k, vars),
    ensures
        block_resolved(ss, k, more),
    decreases ss, k,
{
    if 0 < k <= ss.len() {
        lemma_block_resolved_grows(ss, k - 1, vars, more);
        lemma_stmt_resolved_grows(ss[k - 1], vars, more);
    }
}

/// `extends` is transitive.
pub proof fn lemma_extends_trans(a: Seq<Slot>, b: Seq<Slot>, c: Seq<Slot>)
    requires
        extends(b, a),
        extends(c, b),
    ensures
        extends(c, a),
{
    assert(c.subrange(0, a.len() as int) =~= b.subrange(0, a.len() as int));
}

/// Every sequence extends itself.
pub proof fn lemma_extends_refl(a: Seq<Slot>)
    ensures
        extends(a, a),
{
    assert(a.subrange(0, a.len() as int) =~= a);
}

/// A new last argument leaves the earlier ones as they were.
pub proof fn lemma_args_resolved_push(args: Seq<Expression>, x: Expression, k: int, vars: Seq<Slot>)
    requires
        0 <= k <= args.len(),
    ensures
        args_resolved(args.push(x), k, vars) == args_resolved(args, k, vars),
    decreases k,
{
    if k > 0 {
        lemma_args_resolved_push(args, x, k - 1, vars);
    }
}

/// A new last statement leaves the earlier ones as they were.
pub proof fn lemma_block_resolved_push(ss: Seq<Statement>, x: Statement, k: int, vars: Seq<Slot>)
    requires
        0 <= k <= ss.len(),
    ensures
        block_resolved(ss.push(x), k, vars) == block_resolved(ss, k, vars),
    decreases k,
{
    if k > 0 {
        lemma_block_resolved_push(ss, x, k - 1, vars);
    }
}

} // verus!
