use vstd::prelude::*;
use crate::number::Number;

verus! {

/// The kinds of token.
#[derive(Clone, Copy, PartialEq, Eq, PartialOrd, Ord, Hash, Debug, Structural)]
pub enum TokenType {
    Eof,
    Ident,
    Number,
    String,
    LParen,
    RParen,
    LBrace,
    RBrace,
    Comma,
    Semicolon,
    Plus,
    Minus,
    Star,
    Slash,
    Percent,
    Bang,
    Equal,
    EqEqual,
    BangEqual,
    Less,
    LessEqual,
    Greater,
    GreaterEqual,
    DoubleAmper,
    DoubleVBar,
    DoublePlus,
    DoubleMinus,
    PlusEqual,
    MinusEqual,
    StarEqual,
    SlashEqual,
    PercentEqual,
    Null,
    True,
    False,
    Func,
    If,
    Else,
    While,
    Return,
    Delete,
    Echo,
    Break,
    Continue,
}

/// Returns `true` if the token type is `Eof`.
pub fn is_eof(ty: TokenType) -> (r: bool)
    ensures
        r == (ty == TokenType::Eof),
{
    ty == TokenType::Eof
}

/// A constant written in the source: the payload of a literal token and of a
/// constant expression.
#[derive(Clone, PartialEq, Debug)]
pub enum Literal {
    Number(Number),
    String(String),
    Bool(bool),
    Null,
}

/// The mathematical content of a `Literal`.
pub enum LiteralView {
    Number(Number),
    String(Seq<char>),
    Bool(bool),
    Null,
}

impl View for Literal {
    type V = LiteralView;

    open spec fn view(&self) -> LiteralView {
        match self {
            Literal::Number(n) => LiteralView::Number(*n),
            Literal::String(s) => LiteralView::String(s@),
            Literal::Bool(b) => LiteralView::Bool(*b),
            Literal::Null => LiteralView::Null,
        }
    }
}

/// A token: its kind, the source text it was read from, its literal value
/// if any, and the line it starts on.
#[derive(Clone, PartialEq, Debug)]
pub struct Token {
    pub ty: TokenType,
    pub lexeme: String,
    pub literal: Option<Literal>,
    pub line: usize,
}

/// The mathematical content of a `Token`.
pub struct TokenView {
    pub ty: TokenType,
    pub lexeme: Seq<char>,
    pub literal: Option<LiteralView>,
    pub line: nat,
}

pub open spec fn literal_option_view(l: Option<Literal>) -> Option<LiteralView> {
    match l {
        Some(v) => Some(v@),
        None => None,
    }
}

impl View for Token {
    type V = TokenView;

    open spec fn view(&self) -> TokenView {
        TokenView {
            ty: self.ty,
            lexeme: self.lexeme@,
            literal: literal_option_view(self.literal),
            line: self.line as nat,
        }
    }
}

/// Copies a literal, keeping its content.
pub fn copy_literal(l: &Literal) -> (r: Literal)
    ensures
        r == *l,
{
    match l {
        Literal::Number(n) => Literal::Number(*n),
        Literal::String(s) => Literal::String(s.clone()),
        Literal::Bool(b) => Literal::Bool(*b),
        Literal::Null => Literal::Null,
    }
}

impl Token {
    /// Creates a new `Token`.
    pub fn new(ty: TokenType, lexeme: String, literal: Option<Literal>, line: usize) -> (r: Token)
        ensures
            r == (Token { ty, lexeme, literal, line }),
    {
        Token { ty, lexeme, literal, line }
    }

    /// Copies the token, keeping its content.
    pub fn copy(&self) -> (r: Token)
        ensures
            r == *self,
    {
        let literal = match &self.literal {
            Some(l) => Some(copy_literal(l)),
            None => None,
        };
        Token { ty: self.ty, lexeme: self.lexeme.clone(), literal, line: self.line }
    }
}

} // verus!
