use vstd::prelude::*;

verus! {

/// One lexical token of the source language.
#[derive(Debug, PartialEq)]
pub enum Token {
    Plus,
    Minus,
    Slash,
    Asterisk,
    LParen,
    RParen,
    LBrace,
    RBrace,
    Comma,
    Ampersand,
    Gt,
    Lt,
    GtEq,
    LtEq,
    Eq,
    NotEq,
    Not,
    Assignment,
    Integer(i32),
    Identifier(String),
    Return,
    If,
    Else,
    While,
    For,
    SemiColon,
    Eof,
}

impl Clone for Token {
    fn clone(&self) -> (r: Self)
        ensures
            r == *self,
    {
        match self {
            Token::Plus => Token::Plus,
            Token::Minus => Token::Minus,
            Token::Slash => Token::Slash,
            Token::Asterisk => Token::Asterisk,
            Token::LParen => Token::LParen,
            Token::RParen => Token::RParen,
            Token::LBrace => Token::LBrace,
            Token::RBrace => Token::RBrace,
            Token::Comma => Token::Comma,
            Token::Ampersand => Token::Ampersand,
            Token::Gt => Token::Gt,
            Token::Lt => Token::Lt,
            Token::GtEq => Token::GtEq,
            Token::LtEq => Token::LtEq,
            Token::Eq => Token::Eq,
            Token::NotEq => Token::NotEq,
            Token::Not => Token::Not,
            Token::Assignment => Token::Assignment,
            Token::Return => Token::Return,
            Token::If => Token::If,
            Token::Else => Token::Else,
            Token::While => Token::While,
            Token::For => Token::For,
            Token::SemiColon => Token::SemiColon,
            Token::Eof => Token::Eof,
            Token::Integer(n) => Token::Integer(*n),
            Token::Identifier(w) => Token::Identifier(w.clone()),
        }
    }
}

/// Why the lexer stopped.
#[derive(Debug, PartialEq, Eq, Structural, Clone, Copy)]
pub enum LexError {
    /// A character that starts no token, at this character index.
    InvalidCharacter { position: usize, ch: char },
    /// A run of digits whose value does not fit in an `i32`, starting here.
    IntegerTooLarge { position: usize },
}

} // verus!
