//! The operators of the language and their precedences.

use vstd::prelude::*;

verus! {

#[derive(Copy, Clone, PartialEq, Eq, Debug, Structural)]
pub enum BinaryOperator {
    Add,
    Mul,
    Sub,
    Equals,
}

impl BinaryOperator {
    /// The binding strength of the operator: a higher number binds tighter.
    pub open spec fn precedence(self) -> int {
        match self {
            BinaryOperator::Mul => 3,
            BinaryOperator::Add | BinaryOperator::Sub => 2,
            BinaryOperator::Equals => 0,
        }
    }

    pub fn get_precedence(&self) -> (p: i32)
        ensures
            p == self.precedence(),
    {
        match self {
            BinaryOperator::Mul => 3,
            BinaryOperator::Add | BinaryOperator::Sub => 2,
            BinaryOperator::Equals => 0,
        }
    }
}

#[derive(Copy, Clone, PartialEq, Eq, Debug, Structural)]
pub enum UnaryOperator {
    Negate,
}

#[derive(Copy, Clone, PartialEq, Eq, Debug, Structural)]
pub enum Operator {
    Binary(BinaryOperator),
    Unary(UnaryOperator),
}

impl Operator {
    /// The precedence of an operator. The prefix operator has its own level; it
    /// applies to a single primary expression and so binds tighter than any
    /// binary operator, whatever the number.
    pub open spec fn precedence(self) -> int {
        match self {
            Operator::Binary(op) => op.precedence(),
            Operator::Unary(UnaryOperator::Negate) => 1,
        }
    }

    pub fn get_precedence(&self) -> (p: i32)
        ensures
            p == self.precedence(),
    {
        match self {
            Operator::Binary(BinaryOperator::Mul) => 3,
            Operator::Binary(BinaryOperator::Add) | Operator::Binary(BinaryOperator::Sub) => 2,
            Operator::Unary(UnaryOperator::Negate) => 1,
            Operator::Binary(BinaryOperator::Equals) => 0,
        }
    }
}

} // verus!
