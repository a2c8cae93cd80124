use vstd::prelude::*;

pub mod token;
pub mod lexer;
pub mod ast;
pub mod instr;
pub mod codegen;
pub mod laws;
pub mod symbols;
pub mod scope;
pub mod parser;
pub mod grammar;
pub mod emit;

pub use ast::{
    BinaryExpression, BinaryOperator, CallExpression, Expression, ForStatement, IfStatement,
    InitDeclaration, Program, Statement, Type, TypeEnum, UnaryExpression, UnaryOperator,
    WhileStatement,
};
pub use codegen::{gen, CodeGenerator, GenError};
pub use instr::{Cond, Instr, Label, LabelKind, Reg};
pub use lexer::Lexer;
pub use parser::{ParseError, Parser};
pub use token::{LexError, Token};

verus! {

} // verus!
