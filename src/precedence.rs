use vstd::prelude::*;

use crate::lexer::Token;

verus! {

/// Binding strength of an operator, weakest first.
#[derive(Debug, Clone, Copy, PartialEq, Eq, Structural)]
pub enum Precedence {
    Lowest,
    Assign,
    OrAnd,
    Equals,
    LessGreater,
    Sum,
    Product,
    Power,
    Method,
    Call,
    Index,
}

/// Position of a precedence in the order, weakest first.
pub open spec fn rank_of(p: Precedence) -> nat {
    match p {
        Precedence::Lowest => 0,
        Precedence::Assign => 1,
        Precedence::OrAnd => 2,
        Precedence::Equals => 3,
        Precedence::LessGreater => 4,
        Precedence::Sum => 5,
        Precedence::Product => 6,
        Precedence::Power => 7,
        Precedence::Method => 8,
        Precedence::Call => 9,
        Precedence::Index => 10,
    }
}

/// How strongly a token binds as an infix operator.
pub open spec fn precedence_of(t: Token) -> Precedence {
    match t {
        Token::Assign => Precedence::Assign,
        Token::Or | Token::And => Precedence::OrAnd,
        Token::Lt | Token::Gt | Token::Lte | Token::Gte => Precedence::LessGreater,
        Token::Eq | Token::Ne => Precedence::Equals,
        Token::Plus | Token::Minus => Precedence::Sum,
        Token::Slash | Token::Star | Token::Percent => Precedence::Product,
        Token::Caret => Precedence::Power,
        Token::Dot => Precedence::Method,
        Token::OpenParenthese => Precedence::Call,
        Token::OpenBracket => Precedence::Index,
        _ => Precedence::Lowest,
    }
}

impl Precedence {
    /// Position in the order, weakest first.
    pub fn rank(&self) -> (r: u8)
        ensures
            r == rank_of(*self),
    {
        match self {
            Precedence::Lowest => 0,
            Precedence::Assign => 1,
            Precedence::OrAnd => 2,
            Precedence::Equals => 3,
            Precedence::LessGreater => 4,
            Precedence::Sum => 5,
            Precedence::Product => 6,
            Precedence::Power => 7,
            Precedence::Method => 8,
            Precedence::Call => 9,
            Precedence::Index => 10,
        }
    }
}

impl<'a> Token<'a> {
    /// How strongly this token binds as an infix operator.
    pub fn precedence(&self) -> (r: Precedence)
        ensures
            r == precedence_of(*self),
    {
        match self {
            Token::Assign => Precedence::Assign,
            Token::Or | Token::And => Precedence::OrAnd,
            Token::Lt | Token::Gt | Token::Lte | Token::Gte => Precedence::LessGreater,
            Token::Eq | Token::Ne => Precedence::Equals,
            Token::Plus | Token::Minus => Precedence::Sum,
            Token::Slash | Token::Star | Token::Percent => Precedence::Product,
            Token::Caret => Precedence::Power,
            Token::Dot => Precedence::Method,
            Token::OpenParenthese => Precedence::Call,
            Token::OpenBracket => Precedence::Index,
            _ => Precedence::Lowest,
        }
    }
}

} // verus!
