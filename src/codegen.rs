use vstd::prelude::*;
use crate::ast::{
    BinaryOperator, Expression, ForStatement, IfStatement, Program, Statement, Type,
    UnaryOperator, WhileStatement, WORD_SIZE,
};
use crate::instr::{Cond, Instr, Label, LabelKind, Reg};

verus! {

/// How many arguments a call can pass in registers.
pub const MAX_ARGS: usize = 6;

/// A tree that the parser never builds reached the generator.
#[derive(Debug, PartialEq, Eq, Structural, Clone, Copy)]
pub enum GenError {
    /// An assignment target or an `&` operand that is neither a variable nor `*e`.
    InvalidLvalue,
    /// A call with more arguments than there are argument registers.
    TooManyArguments,
    /// A `sizeof` whose argument has a shape that gives no size.
    InvalidSizeof,
    /// The label counter would pass `u64::MAX`.
    TooManyLabels,
}

/// The register that carries argument `i` of a call.
pub open spec fn arg_reg(i: int) -> Reg {
    if i == 0 {
        Reg::Rdi
    } else if i == 1 {
        Reg::Rsi
    } else if i == 2 {
        Reg::Rdx
    } else if i == 3 {
        Reg::Rcx
    } else if i == 4 {
        Reg::R8
    } else {
        Reg::R9
    }
}

pub open spec fn is_sizeof(name: Seq<char>) -> bool {
    name == seq!['s', 'i', 'z', 'e', 'o', 'f']
}

/// The size that `sizeof(e)` stands for, read from the shape of `e` alone.
/// `*x` gives the size of what `x` points to; where `x` is no pointer, a word
/// is read through it, so it gives the size of `x`'s own type.
pub open spec fn sizeof_value(e: Expression) -> Option<u64> {
    match e {
        Expression::LocalVariable { type_, .. } => Some(type_.spec_size()),
        Expression::Integer(_) => Some(WORD_SIZE),
        Expression::Binary(_) => Some(WORD_SIZE),
        Expression::Unary(u) => match u.op {
            UnaryOperator::Reference => Some(WORD_SIZE),
            UnaryOperator::Dereference => match *u.expr {
                Expression::LocalVariable { type_: Type::Pointer(t), .. } => Some(t.spec_size()),
                Expression::LocalVariable { type_, .. } => Some(type_.spec_size()),
                _ => None,
            },
            UnaryOperator::Minus => None,
        },
        Expression::Call(_) => None,
    }
}

/// The pointee type where `e` is a variable of pointer type.
/// One of the two shapes whose address can be taken: a variable, or `*e`.
pub open spec fn is_lval_shape(e: Expression) -> bool {
    e is LocalVariable || (e matches Expression::Unary(u) && u.op == UnaryOperator::Dereference)
}

pub open spec fn pointer_var_pointee(e: Expression) -> Option<Type> {
    match e {
        Expression::LocalVariable { type_: Type::Pointer(t), .. } => Some(*t),
        _ => None,
    }
}

/// Whether the generator accepts `e`: its shapes are all legal.
pub open spec fn expr_ok(e: Expression) -> bool
    decreases e, 1int,
{
    match e {
        Expression::Integer(_) => true,
        Expression::LocalVariable { .. } => true,
        Expression::Unary(u) => match u.op {
            UnaryOperator::Reference => lval_ok(*u.expr),
            _ => expr_ok(*u.expr),
        },
        Expression::Binary(b) => match b.op {
            BinaryOperator::Assignment => lval_ok(*b.lhs) && expr_ok(*b.rhs),
            _ => expr_ok(*b.lhs) && expr_ok(*b.rhs),
        },
        Expression::Call(c) => if is_sizeof(c.callee_name@) {
            c.arguments@.len() == 1 && sizeof_value(c.arguments@[0]) is Some
        } else {
            c.arguments@.len() <= MAX_ARGS && args_ok(c.arguments@, c.arguments@.len() as int)
        },
    }
}

/// Whether `e` has one of the two shapes whose address can be taken, and is accepted.
pub open spec fn lval_ok(e: Expression) -> bool
    decreases e, 0int,
{
    match e {
        Expression::LocalVariable { .. } => true,
        Expression::Unary(u) => match u.op {
            UnaryOperator::Dereference => expr_ok(*u.expr),
            _ => false,
        },
        _ => false,
    }
}

/// Whether the first `k` arguments are accepted.
pub open spec fn args_ok(args: Seq<Expression>, k: int) -> bool
    decreases args, k,
{
    if k <= 0 || k > args.len() {
        true
    } else {
        args_ok(args, k - 1) && expr_ok(args[k - 1])
    }
}

/// The code that pushes the address of `e`.
pub open spec fn lval_code(e: Expression) -> Seq<Instr>
    decreases e, 0int,
{
    match e {
        Expression::LocalVariable { offset, .. } => seq![
            Instr::Mov(Reg::Rax, Reg::Rbp),
            Instr::SubImm(Reg::Rax, offset),
            Instr::Push(Reg::Rax),
        ],
        Expression::Unary(u) => match u.op {
            UnaryOperator::Dereference => expr_code(*u.expr),
            _ => Seq::empty(),
        },
        _ => Seq::empty(),
    }
}

/// The code that applies `op` to `rax` (left) and `rdi` (right), leaving the result in `rax`.
pub open spec fn binary_op_code(op: BinaryOperator) -> Seq<Instr> {
    match op {
        BinaryOperator::Plus => seq![Instr::Add(Reg::Rax, Reg::Rdi)],
        BinaryOperator::Minus => seq![Instr::Sub(Reg::Rax, Reg::Rdi)],
        BinaryOperator::Asterisk => seq![Instr::Imul(Reg::Rax, Reg::Rdi)],
        BinaryOperator::Slash => seq![Instr::Cqo, Instr::Idiv(Reg::Rdi)],
        BinaryOperator::Lt => compare_code(Cond::Less),
        BinaryOperator::LtEq => compare_code(Cond::LessEq),
        BinaryOperator::Eq => compare_code(Cond::Equal),
        BinaryOperator::NotEq => compare_code(Cond::NotEqual),
        BinaryOperator::Assignment => Seq::empty(),
    }
}

pub open spec fn compare_code(c: Cond) -> Seq<Instr> {
    seq![Instr::Cmp(Reg::Rax, Reg::Rdi), Instr::SetCond(c), Instr::Movzb]
}

/// The code that pushes the value of `e`.
pub open spec fn expr_code(e: Expression) -> Seq<Instr>
    decreases e, 1int,
{
    match e {
        Expression::Integer(n) => seq![Instr::PushImm(n as i64)],
        Expression::LocalVariable { .. } => lval_code(e) + seq![
            Instr::Pop(Reg::Rax),
            Instr::Load,
            Instr::Push(Reg::Rax),
        ],
        Expression::Unary(u) => match u.op {
            UnaryOperator::Minus => expr_code(*u.expr) + seq![
                Instr::Pop(Reg::Rax),
                Instr::Neg(Reg::Rax),
                Instr::Push(Reg::Rax),
            ],
            UnaryOperator::Reference => lval_code(*u.expr),
            UnaryOperator::Dereference => expr_code(*u.expr) + seq![
                Instr::Pop(Reg::Rax),
                Instr::Load,
                Instr::Push(Reg::Rax),
            ],
        },
        Expression::Binary(b) => match b.op {
            BinaryOperator::Assignment => lval_code(*b.lhs) + expr_code(*b.rhs) + seq![
                Instr::Pop(Reg::Rdi),
                Instr::Pop(Reg::Rax),
                Instr::Store,
                Instr::Push(Reg::Rdi),
            ],
            _ => expr_code(*b.lhs) + expr_code(*b.rhs) + seq![
                Instr::Pop(Reg::Rdi),
                Instr::Pop(Reg::Rax),
            ] + (match (b.op, pointer_var_pointee(*b.lhs)) {
                (BinaryOperator::Plus, Some(t)) => seq![
                    Instr::ImulImm(Reg::Rdi, t.spec_size()),
                    Instr::Add(Reg::Rax, Reg::Rdi),
                ],
                (BinaryOperator::Minus, Some(t)) => seq![
                    Instr::ImulImm(Reg::Rdi, t.spec_size()),
                    Instr::Add(Reg::Rax, Reg::Rdi),
                ],
                _ => binary_op_code(b.op),
            }) + seq![Instr::Push(Reg::Rax)],
        },
        Expression::Call(c) => if is_sizeof(c.callee_name@) {
            if c.arguments@.len() == 1 && sizeof_value(c.arguments@[0]) is Some {
                seq![Instr::PushImm(sizeof_value(c.arguments@[0])->0 as i64)]
            } else {
                Seq::empty()
            }
        } else {
            args_code(c.arguments@, c.arguments@.len() as int) + seq![
                Instr::MovImm(Reg::Rax, 0),
                Instr::Call(c.callee_name),
                Instr::Push(Reg::Rax),
            ]
        },
    }
}

/// The code that evaluates the first `k` arguments, each into its register.
pub open spec fn args_code(args: Seq<Expression>, k: int) -> Seq<Instr>
    decreases args, k,
{
    if k <= 0 || k > args.len() {
        Seq::empty()
    } else {
        args_code(args, k - 1) + expr_code(args[k - 1]) + seq![Instr::Pop(arg_reg(k - 1))]
    }
}

/// How many label numbers the code of `s` takes.
pub open spec fn labels_used(s: Statement) -> nat
    decreases s, 1int,
{
    match s {
        Statement::If(i) => 1 + labels_used(*i.consequence) + (match i.alternative {
            Some(a) => labels_used(*a),
            None => 0,
        }),
        Statement::While(w) => 1 + labels_used(*w.body),
        Statement::For(f) => 1 + (match f.init {
            Some(a) => labels_used(*a),
            None => 0,
        }) + labels_used(*f.body) + (match f.post {
            Some(a) => labels_used(*a),
            None => 0,
        }),
        Statement::Block(v) => block_labels(v@, v@.len() as int),
        _ => 0,
    }
}

/// How many label numbers the code of the first `k` statements takes.
pub open spec fn block_labels(ss: Seq<Statement>, k: int) -> nat
    decreases ss, k,
{
    if k <= 0 || k > ss.len() {
        0
    } else {
        block_labels(ss, k - 1) + labels_used(ss[k - 1])
    }
}

/// Whether the generator accepts every expression of `s`.
pub open spec fn stmt_ok(s: Statement) -> bool
    decreases s, 1int,
{
    match s {
        Statement::If(i) => expr_ok(i.condition) && stmt_ok(*i.consequence) && (match i.alternative {
            Some(a) => stmt_ok(*a),
            None => true,
        }),
        Statement::While(w) => expr_ok(w.condition) && stmt_ok(*w.body),
        Statement::For(f) => (match f.init {
            Some(a) => stmt_ok(*a),
            None => true,
        }) && (match f.condition {
            Some(c) => expr_ok(c),
            None => true,
        }) && stmt_ok(*f.body) && (match f.post {
            Some(a) => stmt_ok(*a),
            None => true,
        }),
        Statement::Block(v) => block_ok(v@, v@.len() as int),
        Statement::Expression(e) => expr_ok(e),
        Statement::Return(e) => expr_ok(e),
        Statement::InitDeclaration(d) => match d.initializer {
            Some(e) => expr_ok(e),
            None => true,
        },
    }
}

pub open spec fn block_ok(ss: Seq<Statement>, k: int) -> bool
    decreases ss, k,
{
    if k <= 0 || k > ss.len() {
        true
    } else {
        block_ok(ss, k - 1) && stmt_ok(ss[k - 1])
    }
}

/// Pops the condition's value and jumps to `l` where it is zero.
pub open spec fn branch_code(l: Label) -> Seq<Instr> {
    seq![Instr::Pop(Reg::Rax), Instr::CmpZero(Reg::Rax), Instr::Je(l)]
}

pub open spec fn label(kind: LabelKind, id: int) -> Label {
    Label { kind, id: id as u64 }
}

/// The code of `s`, whose constructs are numbered from `n` on.
pub open spec fn stmt_code(s: Statement, n: int) -> Seq<Instr>
    decreases s, 1int,
{
    match s {
        Statement::If(i) => match i.alternative {
            Some(a) => expr_code(i.condition) + branch_code(label(LabelKind::Else, n))
                + stmt_code(*i.consequence, n + 1) + seq![
                Instr::Jmp(label(LabelKind::End, n)),
                Instr::Mark(label(LabelKind::Else, n)),
            ] + stmt_code(*a, n + 1 + labels_used(*i.consequence)) + seq![
                Instr::Mark(label(LabelKind::End, n)),
            ],
            None => expr_code(i.condition) + branch_code(label(LabelKind::End, n))
                + stmt_code(*i.consequence, n + 1) + seq![Instr::Mark(label(LabelKind::End, n))],
        },
        Statement::While(w) => seq![Instr::Mark(label(LabelKind::Begin, n))] + expr_code(
            w.condition,
        ) + branch_code(label(LabelKind::End, n)) + stmt_code(*w.body, n + 1) + seq![
            Instr::Jmp(label(LabelKind::Begin, n)),
            Instr::Mark(label(LabelKind::End, n)),
        ],
        Statement::For(f) => {
            let li = match f.init {
                Some(a) => labels_used(*a),
                None => 0,
            };
            let lb = labels_used(*f.body);
            (match f.init {
                Some(a) => stmt_code(*a, n + 1),
                None => Seq::empty(),
            }) + seq![Instr::Mark(label(LabelKind::Begin, n))] + (match f.condition {
                Some(c) => expr_code(c) + branch_code(label(LabelKind::End, n)),
                None => Seq::empty(),
            }) + stmt_code(*f.body, n + 1 + li) + (match f.post {
                Some(a) => stmt_code(*a, n + 1 + li + lb),
                None => Seq::empty(),
            }) + seq![
                Instr::Jmp(label(LabelKind::Begin, n)),
                Instr::Mark(label(LabelKind::End, n)),
            ]
        },
        Statement::Block(v) => block_code(v@, v@.len() as int, n),
        Statement::Expression(e) => expr_code(e) + seq![Instr::Pop(Reg::Rax)],
        Statement::Return(e) => expr_code(e) + seq![
            Instr::Pop(Reg::Rax),
            Instr::Leave,
            Instr::Ret,
        ],
        Statement::InitDeclaration(d) => match d.initializer {
            Some(e) => seq![
                Instr::Mov(Reg::Rax, Reg::Rbp),
                Instr::SubImm(Reg::Rax, d.offset),
                Instr::Push(Reg::Rax),
            ] + expr_code(e) + seq![Instr::Pop(Reg::Rdi), Instr::Pop(Reg::Rax), Instr::Store],
            None => Seq::empty(),
        },
    }
}

/// The code of the first `k` statements, whose constructs are numbered from `n` on.
pub open spec fn block_code(ss: Seq<Statement>, k: int, n: int) -> Seq<Instr>
    decreases ss, k,
{
    if k <= 0 || k > ss.len() {
        Seq::empty()
    } else {
        block_code(ss, k - 1, n) + stmt_code(ss[k - 1], n + block_labels(ss, k - 1))
    }
}

/// Whether the generator accepts the statements `ss`, numbering constructs from `n`.
pub open spec fn block_accepted(ss: Seq<Statement>, n: int) -> bool {
    block_ok(ss, ss.len() as int) && n + block_labels(ss, ss.len() as int) <= u64::MAX
}

proof fn lemma_block_prefix(ss: Seq<Statement>, i: int, k: int)
    requires
        0 <= i <= k <= ss.len(),
    ensures
        block_ok(ss, k) ==> block_ok(ss, i),
        block_labels(ss, i) <= block_labels(ss, k),
    decreases k - i,
{
    if i < k {
        lemma_block_prefix(ss, i, k - 1);
    }
}

/// Walks a program and emits its code, numbering the labels of its constructs in turn.
pub struct CodeGenerator {
    pub next_label: u64,
}

impl CodeGenerator {
    pub fn new() -> (r: Self)
        ensures
            r.next_label == 0,
    {
        CodeGenerator { next_label: 0 }
    }

    /// Takes the next construct number.
    fn fresh_label(&mut self) -> (r: Result<u64, GenError>)
        ensures
            old(self).next_label < u64::MAX ==> r == Ok::<u64, GenError>(old(self).next_label)
                && final(self).next_label == old(self).next_label + 1,
            old(self).next_label == u64::MAX ==> r is Err,
    {
        if self.next_label == u64::MAX {
            Err(GenError::TooManyLabels)
        } else {
            let id = self.next_label;
            self.next_label = self.next_label + 1;
            Ok(id)
        }
    }

    /// Emits the code that pushes the address of `node`.
    pub fn gen_lval(&self, node: &Expression, out: &mut Vec<Instr>) -> (r: Result<(), GenError>)
        ensures
            r is Ok <==> lval_ok(*node),
            r is Ok ==> final(out)@ == old(out)@ + lval_code(*node),
            !is_lval_shape(*node) ==> r == Err::<(), GenError>(GenError::InvalidLvalue)
                && final(out)@ == old(out)@,
        decreases *node, 0int,
    {
        match node {
            Expression::LocalVariable { offset, .. } => {
                out.push(Instr::Mov(Reg::Rax, Reg::Rbp));
                out.push(Instr::SubImm(Reg::Rax, *offset));
                out.push(Instr::Push(Reg::Rax));
                Ok(())
            },
            Expression::Unary(u) => match u.op {
                UnaryOperator::Dereference => self.gen_expr(&u.expr, out),
                _ => Err(GenError::InvalidLvalue),
            },
            _ => Err(GenError::InvalidLvalue),
        }
    }

    /// Emits the code that pushes the value of `node`.
    pub fn gen_expr(&self, node: &Expression, out: &mut Vec<Instr>) -> (r: Result<(), GenError>)
        ensures
            r is Ok <==> expr_ok(*node),
            r is Ok ==> final(out)@ == old(out)@ + expr_code(*node),
            *node matches Expression::Call(c) ==> (!is_sizeof(c.callee_name@) && c.arguments@.len()
                > MAX_ARGS ==> r == Err::<(), GenError>(GenError::TooManyArguments)
                && final(out)@ == old(out)@),
            *node matches Expression::Call(c) ==> (is_sizeof(c.callee_name@) && !(
            c.arguments@.len() == 1 && sizeof_value(c.arguments@[0]) is Some) ==> r == Err::<
                (),
                GenError,
            >(GenError::InvalidSizeof) && final(out)@ == old(out)@),
            *node matches Expression::Binary(b) ==> (b.op == BinaryOperator::Assignment
                && !is_lval_shape(*b.lhs) ==> r == Err::<(), GenError>(GenError::InvalidLvalue)
                && final(out)@ == old(out)@),
            *node matches Expression::Unary(u) ==> (u.op == UnaryOperator::Reference
                && !is_lval_shape(*u.expr) ==> r == Err::<(), GenError>(GenError::InvalidLvalue)
                && final(out)@ == old(out)@),
        decreases *node, 1int,
    {
        let ghost start = out@;
        match node {
            Expression::Integer(n) => {
                out.push(Instr::PushImm(*n as i64));
                Ok(())
            },
            Expression::LocalVariable { .. } => {
                self.gen_lval(node, out)?;
                out.push(Instr::Pop(Reg::Rax));
                out.push(Instr::Load);
                out.push(Instr::Push(Reg::Rax));
                Ok(())
            },
            Expression::Unary(u) => match u.op {
                UnaryOperator::Minus => {
                    self.gen_expr(&u.expr, out)?;
                    out.push(Instr::Pop(Reg::Rax));
                    out.push(Instr::Neg(Reg::Rax));
                    out.push(Instr::Push(Reg::Rax));
                    Ok(())
                },
                UnaryOperator::Reference => self.gen_lval(&u.expr, out),
                UnaryOperator::Dereference => {
                    self.gen_expr(&u.expr, out)?;
                    out.push(Instr::Pop(Reg::Rax));
                    out.push(Instr::Load);
                    out.push(Instr::Push(Reg::Rax));
                    Ok(())
                },
            },
            Expression::Binary(b) => {
                if b.op == BinaryOperator::Assignment {
                    self.gen_lval(&b.lhs, out)?;
                    self.gen_expr(&b.rhs, out)?;
                    out.push(Instr::Pop(Reg::Rdi));
                    out.push(Instr::Pop(Reg::Rax));
                    out.push(Instr::Store);
                    out.push(Instr::Push(Reg::Rdi));
                    return Ok(());
                }
                self.gen_expr(&b.lhs, out)?;
                self.gen_expr(&b.rhs, out)?;
                out.push(Instr::Pop(Reg::Rdi));
                out.push(Instr::Pop(Reg::Rax));
                let scale = match &*b.lhs {
                    Expression::LocalVariable { type_: Type::Pointer(t), .. } => Some(t.size()),
                    _ => None,
                };
                match (b.op, scale) {
                    (BinaryOperator::Plus, Some(k)) | (BinaryOperator::Minus, Some(k)) => {
                        out.push(Instr::ImulImm(Reg::Rdi, k));
                        out.push(Instr::Add(Reg::Rax, Reg::Rdi));
                    },
                    (op, _) => self.gen_binary_op(op, out),
                }
                out.push(Instr::Push(Reg::Rax));
                Ok(())
            },
            Expression::Call(c) => {
                if is_sizeof_name(&c.callee_name) {
                    if c.arguments.len() != 1 {
                        return Err(GenError::InvalidSizeof);
                    }
                    match sizeof_of(&c.arguments[0]) {
                        Some(n) => {
                            out.push(Instr::PushImm(n as i64));
                            return Ok(());
                        },
                        None => return Err(GenError::InvalidSizeof),
                    }
                }
                if c.arguments.len() > MAX_ARGS {
                    return Err(GenError::TooManyArguments);
                }
                let mut i: usize = 0;
                while i < c.arguments.len()
                    invariant
                        i <= c.arguments.len() <= MAX_ARGS,
                        *node == Expression::Call(*c),
                        !is_sizeof(c.callee_name@),
                        args_ok(c.arguments@, i as int),
                        out@ == start + args_code(c.arguments@, i as int),
                    decreases c.arguments.len() - i,
                {
                    proof {
                        assert(decreases_to!(*node => node->Call_0));
                        assert(decreases_to!(node->Call_0 => c.arguments));
                        vstd::std_specs::vec::axiom_vec_index_decreases(c.arguments, i as int);
                        assert(decreases_to!(*node => c.arguments[i as int]));
                    }
                    let r = self.gen_expr(&c.arguments[i], out);
                    if r.is_err() {
                        proof {
                            assert(!expr_ok(c.arguments@[i as int]));
                            assert(!args_ok(c.arguments@, i as int + 1));
                            lemma_args_prefix(c.arguments@, i as int + 1, c.arguments@.len() as int);
                            assert(!is_sizeof(c.callee_name@));
                        }
                        return r;
                    }
                    out.push(Instr::Pop(arg_register(i)));
                    i = i + 1;
                }
                out.push(Instr::MovImm(Reg::Rax, 0));
                out.push(Instr::Call(c.callee_name.clone()));
                out.push(Instr::Push(Reg::Rax));
                Ok(())
            },
        }
    }

    /// Emits the code of `node`, numbering its constructs from `next_label` on.
    pub fn gen_stmt(&mut self, node: &Statement, out: &mut Vec<Instr>) -> (r: Result<(), GenError>)
        ensures
            r is Ok <==> stmt_ok(*node) && old(self).next_label + labels_used(*node) <= u64::MAX,
            r is Ok ==> final(out)@ == old(out)@ + stmt_code(*node, old(self).next_label as int),
            r is Ok ==> final(self).next_label == old(self).next_label + labels_used(*node),
        decreases *node, 1int,
    {
        match node {
            Statement::If(if_stmt) => self.gen_if(if_stmt, out),
            Statement::While(while_stmt) => self.gen_while(while_stmt, out),
            Statement::For(for_stmt) => self.gen_for(for_stmt, out),
            Statement::Block(stmts) => {
                proof {
                    assert(decreases_to!(*node => *stmts));
                }
                self.gen_stmts(stmts, out)
            },
            Statement::Expression(expr) => {
                self.gen_expr(expr, out)?;
                out.push(Instr::Pop(Reg::Rax));
                Ok(())
            },
            Statement::Return(expr) => self.gen_return(expr, out),
            Statement::InitDeclaration(d) => match &d.initializer {
                Some(e) => {
                    out.push(Instr::Mov(Reg::Rax, Reg::Rbp));
                    out.push(Instr::SubImm(Reg::Rax, d.offset));
                    out.push(Instr::Push(Reg::Rax));
                    self.gen_expr(e, out)?;
                    out.push(Instr::Pop(Reg::Rdi));
                    out.push(Instr::Pop(Reg::Rax));
                    out.push(Instr::Store);
                    Ok(())
                },
                None => Ok(()),
            },
        }
    }

    /// Emits the code of each statement in turn.
    pub fn gen_stmts(&mut self, stmts: &Vec<Statement>, out: &mut Vec<Instr>) -> (r: Result<(), GenError>)
        ensures
            r is Ok <==> block_accepted(stmts@, old(self).next_label as int),
            r is Ok ==> final(out)@ == old(out)@ + block_code(
                stmts@,
                stmts@.len() as int,
                old(self).next_label as int,
            ),
            r is Ok ==> final(self).next_label == old(self).next_label + block_labels(
                stmts@,
                stmts@.len() as int,
            ),
        decreases *stmts, 0int,
    {
        let ghost n = self.next_label as int;
        let ghost start = out@;
        let mut i: usize = 0;
        while i < stmts.len()
            invariant
                i <= stmts.len(),
                n == old(self).next_label,
                start == old(out)@,
                block_ok(stmts@, i as int),
                self.next_label == n + block_labels(stmts@, i as int),
                out@ == start + block_code(stmts@, i as int, n),
            decreases stmts.len() - i,
        {
            proof {
                vstd::std_specs::vec::axiom_vec_index_decreases(*stmts, i as int);
            }
            let r = self.gen_stmt(&stmts[i], out);
            if r.is_err() {
                proof {
                    let ss = stmts@;
                    assert(block_labels(ss, i + 1) == block_labels(ss, i as int) + labels_used(ss[i as int]));
                    assert(block_ok(ss, i + 1) == (block_ok(ss, i as int) && stmt_ok(ss[i as int])));
                    lemma_block_prefix(ss, i as int + 1, ss.len() as int);
                }
                return r;
            }
            i = i + 1;
        }
        Ok(())
    }

    pub fn gen_if(&mut self, if_stmt: &IfStatement, out: &mut Vec<Instr>) -> (r: Result<(), GenError>)
        ensures
            ({
                let s = Statement::If(*if_stmt);
                &&& r is Ok <==> stmt_ok(s) && old(self).next_label + labels_used(s) <= u64::MAX
                &&& r is Ok ==> final(out)@ == old(out)@ + stmt_code(s, old(self).next_label as int)
                &&& r is Ok ==> final(self).next_label == old(self).next_label + labels_used(s)
            }),
        decreases *if_stmt, 0int,
    {
        let ghost start = out@;
        let id = self.fresh_label()?;
        self.gen_expr(&if_stmt.condition, out)?;
        match &if_stmt.alternative {
            Some(alternative) => {
                let label_else = Label { kind: LabelKind::Else, id };
                let label_end = Label { kind: LabelKind::End, id };
                gen_branch(label_else, out);
                proof {
                    assert(decreases_to!(*if_stmt => *if_stmt.consequence));
                    assert(decreases_to!(*if_stmt => **alternative));
                }
                self.gen_stmt(&if_stmt.consequence, out)?;
                out.push(Instr::Jmp(label_end));
                out.push(Instr::Mark(label_else));
                self.gen_stmt(alternative, out)?;
                out.push(Instr::Mark(label_end));
            },
            None => {
                let label_end = Label { kind: LabelKind::End, id };
                gen_branch(label_end, out);
                proof {
                    assert(decreases_to!(*if_stmt => *if_stmt.consequence));
                }
                self.gen_stmt(&if_stmt.consequence, out)?;
                out.push(Instr::Mark(label_end));
            },
        }
        proof {
            assert(out@ =~= start + stmt_code(Statement::If(*if_stmt), id as int));
        }
        Ok(())
    }

    pub fn gen_while(&mut self, while_stmt: &WhileStatement, out: &mut Vec<Instr>) -> (r: Result<(), GenError>)
        ensures
            ({
                let s = Statement::While(*while_stmt);
                &&& r is Ok <==> stmt_ok(s) && old(self).next_label + labels_used(s) <= u64::MAX
                &&& r is Ok ==> final(out)@ == old(out)@ + stmt_code(s, old(self).next_label as int)
                &&& r is Ok ==> final(self).next_label == old(self).next_label + labels_used(s)
            }),
        decreases *while_stmt, 0int,
    {
        let ghost start = out@;
        let id = self.fresh_label()?;
        let label_begin = Label { kind: LabelKind::Begin, id };
        let label_end = Label { kind: LabelKind::End, id };
        out.push(Instr::Mark(label_begin));
        self.gen_expr(&while_stmt.condition, out)?;
        gen_branch(label_end, out);
        proof {
            assert(decreases_to!(*while_stmt => *while_stmt.body));
        }
        self.gen_stmt(&while_stmt.body, out)?;
        out.push(Instr::Jmp(label_begin));
        out.push(Instr::Mark(label_end));
        proof {
            assert(out@ =~= start + stmt_code(Statement::While(*while_stmt), id as int));
        }
        Ok(())
    }

    pub fn gen_for(&mut self, for_stmt: &ForStatement, out: &mut Vec<Instr>) -> (r: Result<(), GenError>)
        ensures
            ({
                let s = Statement::For(*for_stmt);
                &&& r is Ok <==> stmt_ok(s) && old(self).next_label + labels_used(s) <= u64::MAX
                &&& r is Ok ==> final(out)@ == old(out)@ + stmt_code(s, old(self).next_label as int)
                &&& r is Ok ==> final(self).next_label == old(self).next_label + labels_used(s)
            }),
        decreases *for_stmt, 0int,
    {
        let ghost start = out@;
        let id = self.fresh_label()?;
        let label_begin = Label { kind: LabelKind::Begin, id };
        let label_end = Label { kind: LabelKind::End, id };
        proof {
            assert(decreases_to!(*for_stmt => *for_stmt.body));
            assert(for_stmt.init is Some ==> decreases_to!(*for_stmt => *for_stmt.init->0));
            assert(for_stmt.post is Some ==> decreases_to!(*for_stmt => *for_stmt.post->0));
        }
        match &for_stmt.init {
            Some(init) => self.gen_stmt(init, out)?,
            None => {},
        }
        let ghost after_init = out@;
        out.push(Instr::Mark(label_begin));
        match &for_stmt.condition {
            Some(condition) => {
                self.gen_expr(condition, out)?;
                gen_branch(label_end, out);
            },
            None => {},
        }
        self.gen_stmt(&for_stmt.body, out)?;
        match &for_stmt.post {
            Some(post) => self.gen_stmt(post, out)?,
            None => {},
        }
        out.push(Instr::Jmp(label_begin));
        out.push(Instr::Mark(label_end));
        proof {
            assert(out@ =~= start + stmt_code(Statement::For(*for_stmt), id as int));
        }
        Ok(())
    }

    pub fn gen_return(&self, node: &Expression, out: &mut Vec<Instr>) -> (r: Result<(), GenError>)
        ensures
            r is Ok <==> expr_ok(*node),
            r is Ok ==> final(out)@ == old(out)@ + stmt_code(Statement::Return(*node), 0),
    {
        self.gen_expr(node, out)?;
        out.push(Instr::Pop(Reg::Rax));
        out.push(Instr::Leave);
        out.push(Instr::Ret);
        Ok(())
    }

    fn gen_binary_op(&self, op: BinaryOperator, out: &mut Vec<Instr>)
        ensures
            final(out)@ == old(out)@ + binary_op_code(op),
    {
        match op {
            BinaryOperator::Plus => out.push(Instr::Add(Reg::Rax, Reg::Rdi)),
            BinaryOperator::Minus => out.push(Instr::Sub(Reg::Rax, Reg::Rdi)),
            BinaryOperator::Asterisk => out.push(Instr::Imul(Reg::Rax, Reg::Rdi)),
            BinaryOperator::Slash => {
                out.push(Instr::Cqo);
                out.push(Instr::Idiv(Reg::Rdi));
            },
            BinaryOperator::Lt => gen_compare(Cond::Less, out),
            BinaryOperator::LtEq => gen_compare(Cond::LessEq, out),
            BinaryOperator::Eq => gen_compare(Cond::Equal, out),
            BinaryOperator::NotEq => gen_compare(Cond::NotEqual, out),
            BinaryOperator::Assignment => {},
        }
    }
}

proof fn lemma_args_prefix(args: Seq<Expression>, i: int, k: int)
    requires
        0 <= i <= k <= args.len(),
    ensures
        args_ok(args, k) ==> args_ok(args, i),
    decreases k - i,
{
    if i < k {
        lemma_args_prefix(args, i, k - 1);
    }
}

/// Pops the condition's value and jumps to `l` where it is zero.
fn gen_branch(l: Label, out: &mut Vec<Instr>)
    ensures
        final(out)@ == old(out)@ + branch_code(l),
{
    out.push(Instr::Pop(Reg::Rax));
    out.push(Instr::CmpZero(Reg::Rax));
    out.push(Instr::Je(l));
}

fn gen_compare(c: Cond, out: &mut Vec<Instr>)
    ensures
        final(out)@ == old(out)@ + compare_code(c),
{
    out.push(Instr::Cmp(Reg::Rax, Reg::Rdi));
    out.push(Instr::SetCond(c));
    out.push(Instr::Movzb);
}

fn arg_register(i: usize) -> (r: Reg)
    ensures
        r == arg_reg(i as int),
{
    if i == 0 {
        Reg::Rdi
    } else if i == 1 {
        Reg::Rsi
    } else if i == 2 {
        Reg::Rdx
    } else if i == 3 {
        Reg::Rcx
    } else if i == 4 {
        Reg::R8
    } else {
        Reg::R9
    }
}

fn is_sizeof_name(name: &String) -> (r: bool)
    ensures
        r == is_sizeof(name@),
{
    proof {
        reveal_strlit("sizeof");
        assert("sizeof"@ =~= seq!['s', 'i', 'z', 'e', 'o', 'f']);
    }
    crate::lexer::spells(name, "sizeof")
}

fn sizeof_of(e: &Expression) -> (r: Option<u64>)
    ensures
        r == sizeof_value(*e),
{
    match e {
        Expression::LocalVariable { type_, .. } => Some(type_.size()),
        Expression::Integer(_) => Some(WORD_SIZE),
        Expression::Binary(_) => Some(WORD_SIZE),
        Expression::Unary(u) => match u.op {
            UnaryOperator::Reference => Some(WORD_SIZE),
            UnaryOperator::Dereference => match &*u.expr {
                Expression::LocalVariable { type_: Type::Pointer(t), .. } => Some(t.size()),
                Expression::LocalVariable { type_, .. } => Some(type_.size()),
                _ => None,
            },
            UnaryOperator::Minus => None,
        },
        Expression::Call(_) => None,
    }
}

/// Emits the code of a whole program, numbering its constructs from 0.
pub fn gen(node: &Program) -> (r: Result<Vec<Instr>, GenError>)
    ensures
        r is Ok <==> block_accepted(node.statements@, 0),
        r matches Ok(code) ==> code@ == block_code(
            node.statements@,
            node.statements@.len() as int,
            0,
        ),
{
    let mut codegen = CodeGenerator::new();
    let mut out: Vec<Instr> = Vec::new();
    codegen.gen_stmts(&node.statements, &mut out)?;
    Ok(out)
}

} // verus!
