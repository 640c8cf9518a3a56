//! The tokens of the language.

use vstd::prelude::*;

verus! {

/// A token as the lexer hands it out. An identifier borrows its text from the
/// source.
#[derive(Clone, Copy, PartialEq, Eq, Debug)]
pub enum Token<'a> {
    Let,
    Mut,
    Equals,
    LParen,
    RParen,
    LBrace,
    RBrace,
    Colon,
    Semicolon,
    Identifier(&'a str),
    Integer(i128),
    Plus,
    Minus,
    Asterisk,
    EOF,
}

/// The kind of a token, without its payload.
#[derive(Clone, Copy, PartialEq, Eq, Debug, Structural)]
pub enum TokenKind {
    Let,
    Mut,
    Equals,
    LParen,
    RParen,
    LBrace,
    RBrace,
    Colon,
    Semicolon,
    Identifier,
    Integer,
    Plus,
    Minus,
    Asterisk,
    EOF,
}

/// The mathematical value of a token: an identifier is its sequence of
/// characters.
pub enum TokenModel {
    Let,
    Mut,
    Equals,
    LParen,
    RParen,
    LBrace,
    RBrace,
    Colon,
    Semicolon,
    Identifier(Seq<char>),
    Integer(i128),
    Plus,
    Minus,
    Asterisk,
    EOF,
}

impl TokenModel {
    pub open spec fn kind(self) -> TokenKind {
        match self {
            TokenModel::Let => TokenKind::Let,
            TokenModel::Mut => TokenKind::Mut,
            TokenModel::Equals => TokenKind::Equals,
            TokenModel::LParen => TokenKind::LParen,
            TokenModel::RParen => TokenKind::RParen,
            TokenModel::LBrace => TokenKind::LBrace,
            TokenModel::RBrace => TokenKind::RBrace,
            TokenModel::Colon => TokenKind::Colon,
            TokenModel::Semicolon => TokenKind::Semicolon,
            TokenModel::Identifier(_) => TokenKind::Identifier,
            TokenModel::Integer(_) => TokenKind::Integer,
            TokenModel::Plus => TokenKind::Plus,
            TokenModel::Minus => TokenKind::Minus,
            TokenModel::Asterisk => TokenKind::Asterisk,
            TokenModel::EOF => TokenKind::EOF,
        }
    }
}

impl<'a> View for Token<'a> {
    type V = TokenModel;

    open spec fn view(&self) -> TokenModel {
        match *self {
            Token::Let => TokenModel::Let,
            Token::Mut => TokenModel::Mut,
            Token::Equals => TokenModel::Equals,
            Token::LParen => TokenModel::LParen,
            Token::RParen => TokenModel::RParen,
            Token::LBrace => TokenModel::LBrace,
            Token::RBrace => TokenModel::RBrace,
            Token::Colon => TokenModel::Colon,
            Token::Semicolon => TokenModel::Semicolon,
            Token::Identifier(name) => TokenModel::Identifier(name@),
            Token::Integer(value) => TokenModel::Integer(value),
            Token::Plus => TokenModel::Plus,
            Token::Minus => TokenModel::Minus,
            Token::Asterisk => TokenModel::Asterisk,
            Token::EOF => TokenModel::EOF,
        }
    }
}

impl<'a> Token<'a> {
    pub fn to_kind(&self) -> (kind: TokenKind)
        ensures
            kind == self@.kind(),
    {
        match self {
            Token::Let => TokenKind::Let,
            Token::Mut => TokenKind::Mut,
            Token::Equals => TokenKind::Equals,
            Token::LParen => TokenKind::LParen,
            Token::RParen => TokenKind::RParen,
            Token::LBrace => TokenKind::LBrace,
            Token::RBrace => TokenKind::RBrace,
            Token::Colon => TokenKind::Colon,
            Token::Semicolon => TokenKind::Semicolon,
            Token::Identifier(_) => TokenKind::Identifier,
            Token::Integer(_) => TokenKind::Integer,
            Token::Plus => TokenKind::Plus,
            Token::Minus => TokenKind::Minus,
            Token::Asterisk => TokenKind::Asterisk,
            Token::EOF => TokenKind::EOF,
        }
    }
}

} // verus!
