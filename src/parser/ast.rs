use vstd::prelude::*;
use crate::lexer::token::{Keyword, Literal, Token, TokenKind};

verus! {

/// Comparison operators.
#[derive(Debug, Clone, Copy, PartialEq, Eq, Structural)]
pub enum Cmp {
    LessThan,
    LessThanEq,
    Eq,
    NotEq,
    GreaterThan,
    GreaterThanEq,
}

/// Binary operators.
#[derive(Debug, Clone, Copy, PartialEq, Eq, Structural)]
pub enum Operator {
    Plus,
    Minus,
    Slash,
    Asterisk,
    Cmp(Cmp),
}

/// Prefix operators.
#[derive(Debug, Clone, Copy, PartialEq, Eq, Structural)]
pub enum UnaryOp {
    Minus,
    Negate,
}

/// An expression. Each child is owned by its parent.
#[derive(Debug, PartialEq)]
pub enum Expr {
    Unit,
    Int(i32),
    String(String),
    Bool(bool),
    Unary { op: UnaryOp, expr: Box<Expr> },
    Binary { op: Operator, lhs: Box<Expr>, rhs: Box<Expr> },
}

/// A declaration.
#[derive(Debug, PartialEq)]
pub enum Decl {
    Let { identifier: String, expression: Expr },
    Fn { identifier: String },
}

/// A top-level statement of a program.
#[derive(Debug, PartialEq)]
pub enum Node {
    Expr(Expr),
    Decl(Decl),
    Identifier(String),
}

pub open spec fn comparison_of(k: TokenKind) -> Option<Cmp> {
    match k {
        TokenKind::LessThan => Some(Cmp::LessThan),
        TokenKind::LessThanEq => Some(Cmp::LessThanEq),
        TokenKind::EqEq => Some(Cmp::Eq),
        TokenKind::NotEq => Some(Cmp::NotEq),
        TokenKind::GreaterThan => Some(Cmp::GreaterThan),
        TokenKind::GreaterThanEq => Some(Cmp::GreaterThanEq),
        _ => None,
    }
}

pub open spec fn operator_of(k: TokenKind) -> Option<Operator> {
    match k {
        TokenKind::Plus => Some(Operator::Plus),
        TokenKind::Minus => Some(Operator::Minus),
        TokenKind::Slash => Some(Operator::Slash),
        TokenKind::Asterisk => Some(Operator::Asterisk),
        _ => None,
    }
}

pub open spec fn unary_of(k: TokenKind) -> Option<UnaryOp> {
    match k {
        TokenKind::Minus => Some(UnaryOp::Minus),
        TokenKind::Negate => Some(UnaryOp::Negate),
        _ => None,
    }
}

/// The expression that a literal token stands for.
pub open spec fn literal_expr(l: Literal) -> Expr {
    match l {
        Literal::Int(n) => Expr::Int(n),
        Literal::Bool(b) => Expr::Bool(b),
        Literal::String(s) => Expr::String(s),
    }
}

impl UnaryOp {
    pub fn from(token: &Token) -> (r: Option<UnaryOp>)
        ensures
            r == unary_of(token.kind),
    {
        match token.kind() {
            TokenKind::Minus => Some(UnaryOp::Minus),
            TokenKind::Negate => Some(UnaryOp::Negate),
            _ => None,
        }
    }
}

impl Token {
    pub fn as_comparison(&self) -> (r: Option<Cmp>)
        ensures
            r == comparison_of(self.kind),
    {
        match self.kind() {
            TokenKind::LessThan => Some(Cmp::LessThan),
            TokenKind::LessThanEq => Some(Cmp::LessThanEq),
            TokenKind::EqEq => Some(Cmp::Eq),
            TokenKind::NotEq => Some(Cmp::NotEq),
            TokenKind::GreaterThan => Some(Cmp::GreaterThan),
            TokenKind::GreaterThanEq => Some(Cmp::GreaterThanEq),
            _ => None,
        }
    }

    pub fn as_operator(&self) -> (r: Option<Operator>)
        ensures
            r == operator_of(self.kind),
    {
        match self.kind() {
            TokenKind::Plus => Some(Operator::Plus),
            TokenKind::Minus => Some(Operator::Minus),
            TokenKind::Slash => Some(Operator::Slash),
            TokenKind::Asterisk => Some(Operator::Asterisk),
            _ => None,
        }
    }

    pub fn as_literal_expr(&self) -> (r: Option<Expr>)
        ensures
            r == (match self.kind {
                TokenKind::Literal(l) => Some(literal_expr(l)),
                _ => None,
            }),
    {
        match self.kind() {
            TokenKind::Literal(Literal::Int(n)) => Some(Expr::Int(*n)),
            TokenKind::Literal(Literal::Bool(b)) => Some(Expr::Bool(*b)),
            TokenKind::Literal(Literal::String(s)) => Some(Expr::String(s.clone())),
            _ => None,
        }
    }

    pub fn as_keyword(&self) -> (r: Option<Keyword>)
        ensures
            r == (match self.kind {
                TokenKind::Keyword(k) => Some(k),
                _ => None,
            }),
    {
        match self.kind() {
            TokenKind::Keyword(k) => Some(*k),
            _ => None,
        }
    }

    pub fn as_identifier(&self) -> (r: Option<String>)
        ensures
            r == (match self.kind {
                TokenKind::Identifier(s) => Some(s),
                _ => None,
            }),
    {
        match self.kind() {
            TokenKind::Identifier(s) => Some(s.clone()),
            _ => None,
        }
    }
}

} // verus!
