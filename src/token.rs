//! The tokens that the lexer produces and the parser consumes.
use vstd::prelude::*;

verus! {

/// The reserved words of the language.
#[derive(Debug, Clone, Copy, PartialEq, Eq, Structural)]
pub enum Keyword {
    Let,
    If,
    Then,
    Else,
}

/// One lexical unit of a line.
#[derive(Debug)]
pub enum Token {
    Keyword(Keyword),
    Identifier(String),
    Int(i32),
    /// One of `= + - * / > <`.
    Operator(char),
    /// `(` or `)`.
    Paren(char),
}

/// The model of a `Token`, with its text as `Seq<char>`.
pub enum Lexeme {
    Keyword(Keyword),
    Identifier(Seq<char>),
    Int(i32),
    Operator(char),
    Paren(char),
}

impl View for Token {
    type V = Lexeme;

    open spec fn view(&self) -> Lexeme {
        match self {
            Token::Keyword(k) => Lexeme::Keyword(*k),
            Token::Identifier(s) => Lexeme::Identifier(s@),
            Token::Int(n) => Lexeme::Int(*n),
            Token::Operator(c) => Lexeme::Operator(*c),
            Token::Paren(c) => Lexeme::Paren(*c),
        }
    }
}

/// The models of a sequence of tokens.
pub open spec fn lexemes_of(tokens: Seq<Token>) -> Seq<Lexeme> {
    tokens.map_values(|t: Token| t@)
}

} // verus!
