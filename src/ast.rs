use vstd::prelude::*;

verus! {

/// The machine word size in bytes: the size of a pointer and of an `int`.
pub const WORD_SIZE: u64 = 8;

#[derive(Debug, PartialEq, Eq, Structural, Clone, Copy)]
pub enum TypeEnum {
    Int,
}

/// A static type: a primitive, or a pointer that owns its pointee type.
#[derive(Debug, PartialEq)]
pub enum Type {
    Primitive(TypeEnum),
    Pointer(Box<Type>),
}

impl Clone for Type {
    fn clone(&self) -> (r: Self)
        ensures
            r == *self,
        decreases self,
    {
        match self {
            Type::Primitive(k) => Type::Primitive(*k),
            Type::Pointer(t) => Type::Pointer(Box::new((**t).clone())),
        }
    }
}

impl Type {
    pub open spec fn spec_size(&self) -> u64 {
        match self {
            Type::Primitive(TypeEnum::Int) => WORD_SIZE,
            Type::Pointer(_) => WORD_SIZE,
        }
    }

    /// The storage size of a value of this type, in bytes.
    pub fn size(&self) -> (r: u64)
        ensures
            r == self.spec_size(),
    {
        match self {
            Type::Primitive(TypeEnum::Int) => WORD_SIZE,
            Type::Pointer(_) => WORD_SIZE,
        }
    }
}

#[derive(Debug, PartialEq, Eq, Structural, Clone, Copy)]
pub enum UnaryOperator {
    Minus,
    Reference,
    Dereference,
}

#[derive(Debug, PartialEq, Eq, Structural, Clone, Copy)]
pub enum BinaryOperator {
    Plus,
    Minus,
    Asterisk,
    Slash,
    Lt,
    LtEq,
    Eq,
    NotEq,
    Assignment,
}

#[derive(Debug, PartialEq)]
pub struct UnaryExpression {
    pub op: UnaryOperator,
    pub expr: Box<Expression>,
}

#[derive(Debug, PartialEq)]
pub struct BinaryExpression {
    pub op: BinaryOperator,
    pub lhs: Box<Expression>,
    pub rhs: Box<Expression>,
}

#[derive(Debug, PartialEq)]
pub struct CallExpression {
    pub callee_name: String,
    pub arguments: Vec<Expression>,
}

#[derive(Debug, PartialEq)]
pub enum Expression {
    Integer(i32),
    Unary(UnaryExpression),
    Binary(BinaryExpression),
    /// A variable of the one frame, at `offset` bytes below the frame base.
    LocalVariable { name: String, offset: u64, type_: Type },
    Call(CallExpression),
}

#[derive(Debug, PartialEq)]
pub struct IfStatement {
    pub condition: Expression,
    pub consequence: Box<Statement>,
    pub alternative: Option<Box<Statement>>,
}

#[derive(Debug, PartialEq)]
pub struct WhileStatement {
    pub condition: Expression,
    pub body: Box<Statement>,
}

#[derive(Debug, PartialEq)]
pub struct ForStatement {
    pub init: Option<Box<Statement>>,
    pub condition: Option<Expression>,
    pub post: Option<Box<Statement>>,
    pub body: Box<Statement>,
}

#[derive(Debug, PartialEq)]
pub struct InitDeclaration {
    pub name: String,
    pub offset: u64,
    pub type_: Type,
    pub initializer: Option<Expression>,
}

#[derive(Debug, PartialEq)]
pub enum Statement {
    If(IfStatement),
    While(WhileStatement),
    For(ForStatement),
    Block(Vec<Statement>),
    Expression(Expression),
    Return(Expression),
    InitDeclaration(InitDeclaration),
}

/// The statements of the one implicit function body, in order, and the bytes
/// of frame that its variables take.
#[derive(Debug, PartialEq)]
pub struct Program {
    pub statements: Vec<Statement>,
    pub frame_size: u64,
}

impl Expression {
    /// A variable whose static type is a pointer.
    pub open spec fn is_pointer_var(&self) -> bool {
        self matches Expression::LocalVariable { type_: Type::Pointer(_), .. }
    }
}

impl UnaryExpression {
    pub fn new(op: UnaryOperator, expr: Expression) -> (r: Self)
        ensures
            r.op == op,
            *r.expr == expr,
    {
        UnaryExpression { op, expr: Box::new(expr) }
    }
}

impl BinaryExpression {
    pub fn new(lhs: Expression, op: BinaryOperator, rhs: Expression) -> (r: Self)
        ensures
            r.op == op,
            *r.lhs == lhs,
            *r.rhs == rhs,
    {
        BinaryExpression { op, lhs: Box::new(lhs), rhs: Box::new(rhs) }
    }
}

impl CallExpression {
    pub fn new(callee_name: String, arguments: Vec<Expression>) -> (r: Self)
        ensures
            r.callee_name == callee_name,
            r.arguments == arguments,
    {
        CallExpression { callee_name, arguments }
    }
}

impl IfStatement {
    pub fn new(condition: Expression, consequence: Statement, alternative: Option<Statement>) -> (r: Self)
        ensures
            r.condition == condition,
            *r.consequence == consequence,
            alternative is None ==> r.alternative is None,
            alternative matches Some(a) ==> r.alternative matches Some(b) && *b == a,
    {
        let alternative = match alternative {
            Some(a) => Some(Box::new(a)),
            None => None,
        };
        IfStatement { condition, consequence: Box::new(consequence), alternative }
    }
}

impl WhileStatement {
    pub fn new(condition: Expression, body: Statement) -> (r: Self)
        ensures
            r.condition == condition,
            *r.body == body,
    {
        WhileStatement { condition, body: Box::new(body) }
    }
}

impl ForStatement {
    pub fn new(
        init: Option<Statement>,
        condition: Option<Expression>,
        post: Option<Statement>,
        body: Statement,
    ) -> (r: Self)
        ensures
            init is None ==> r.init is None,
            init matches Some(a) ==> r.init matches Some(b) && *b == a,
            r.condition == condition,
            post is None ==> r.post is None,
            post matches Some(a) ==> r.post matches Some(b) && *b == a,
            *r.body == body,
    {
        let init = match init {
            Some(a) => Some(Box::new(a)),
            None => None,
        };
        let post = match post {
            Some(a) => Some(Box::new(a)),
            None => None,
        };
        ForStatement { init, condition, post, body: Box::new(body) }
    }
}

impl InitDeclaration {
    pub fn new(name: String, offset: u64, type_: Type, initializer: Option<Expression>) -> (r: Self)
        ensures
            r.name == name,
            r.offset == offset,
            r.type_ == type_,
            r.initializer == initializer,
    {
        InitDeclaration { name, offset, type_, initializer }
    }
}

} // verus!
