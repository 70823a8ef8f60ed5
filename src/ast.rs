use vstd::prelude::*;

verus! {

/// A statement of the source language.
#[derive(Debug, PartialEq)]
pub enum Statement {
    Let(String, Expr),
    Expression(Expr),
    Block(Vec<Statement>),
    Return(Expr),
}

/// An expression of the source language.
#[derive(Debug, PartialEq)]
pub enum Expr {
    Identifier(String),
    Int { value: u32 },
    Bool { value: bool },
    Prefix { operator: Operator, right: Box<Expr> },
    Infix { left: Box<Expr>, operator: Operator, right: Box<Expr> },
    Break,
    Loop { body: Vec<Statement> },
    If { condition: Box<Expr>, consequence: Vec<Statement>, alternative: Option<Vec<Statement>> },
    Function { name: String, parameters: Vec<String>, body: Vec<Statement> },
    Call { left: Box<Expr>, arguments: Vec<Expr> },
    Assignment { left: Box<Expr>, right: Box<Expr> },
    Member { left: Box<Expr>, right: Box<Expr>, computed: bool },
    String { value: String },
    Array { values: Vec<Expr> },
    Index { left: Box<Expr>, index: Box<Expr> },
}

/// Operators of the source language.
#[derive(Debug, Clone, Copy, PartialEq, Eq, Structural)]
pub enum Operator {
    Add,
    Subtract,
    Multiply,
    Divide,
    Power,
    Gt,
    Gte,
    Lt,
    Lte,
    Eq,
    Ne,
    Not,
    Negate,
    And,
    Or,
    Modulo,
    Assign,
}

} // verus!
