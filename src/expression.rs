//! The expression tree and its mathematical model.
use vstd::prelude::*;

verus! {

/// The closed set of binary operators.
#[derive(PartialEq, Eq, Structural, Clone, Copy, Debug)]
pub enum Operator {
    Add,
    Subtract,
    Multiply,
    Divide,
}

/// A floating-point value, kept as the term that computes it: a decimal
/// literal, an integer promoted to floating point, or an operation on two
/// such values. Its number is the IEEE-754 double that the term computes.
#[derive(Debug)]
pub enum Real {
    Literal(String),
    FromInt(i64),
    Op { left: Box<Real>, op: Operator, right: Box<Real> },
}

/// The model of a `Real`.
pub enum RealTerm {
    Literal(Seq<char>),
    FromInt(i64),
    Op { left: Box<RealTerm>, op: Operator, right: Box<RealTerm> },
}

/// The expression types of the language.
#[derive(Debug)]
pub enum Expression {
    Assignment { identifier: String, value: Box<Expression> },
    Identifier(String),
    Int(i64),
    Float(Real),
    BinOp { left: Box<Expression>, op: Operator, right: Box<Expression> },
    Nil,
}

/// The model of an `Expression`: names as character sequences.
pub enum Term {
    Assignment { identifier: Seq<char>, value: Box<Term> },
    Identifier(Seq<char>),
    Int(i64),
    Float(RealTerm),
    BinOp { left: Box<Term>, op: Operator, right: Box<Term> },
    Nil,
}

impl View for Real {
    type V = RealTerm;

    open spec fn view(&self) -> RealTerm
        decreases self,
    {
        match self {
            Real::Literal(s) => RealTerm::Literal(s@),
            Real::FromInt(i) => RealTerm::FromInt(*i),
            Real::Op { left, op, right } => RealTerm::Op {
                left: Box::new((**left).view()),
                op: *op,
                right: Box::new((**right).view()),
            },
        }
    }
}

impl View for Expression {
    type V = Term;

    open spec fn view(&self) -> Term
        decreases self,
    {
        match self {
            Expression::Assignment { identifier, value } => Term::Assignment {
                identifier: identifier@,
                value: Box::new((**value).view()),
            },
            Expression::Identifier(s) => Term::Identifier(s@),
            Expression::Int(i) => Term::Int(*i),
            Expression::Float(r) => Term::Float(r@),
            Expression::BinOp { left, op, right } => Term::BinOp {
                left: Box::new((**left).view()),
                op: *op,
                right: Box::new((**right).view()),
            },
            Expression::Nil => Term::Nil,
        }
    }
}

impl Real {
    /// A copy of this value.
    pub fn duplicate(&self) -> (r: Real)
        ensures
            r@ == self@,
        decreases self,
    {
        match self {
            Real::Literal(s) => Real::Literal(s.clone()),
            Real::FromInt(i) => Real::FromInt(*i),
            Real::Op { left, op, right } => Real::Op {
                left: Box::new(left.duplicate()),
                op: *op,
                right: Box::new(right.duplicate()),
            },
        }
    }
}

impl Expression {
    /// A copy of this expression.
    pub fn duplicate(&self) -> (r: Expression)
        ensures
            r@ == self@,
        decreases self,
    {
        match self {
            Expression::Assignment { identifier, value } => Expression::Assignment {
                identifier: identifier.clone(),
                value: Box::new(value.duplicate()),
            },
            Expression::Identifier(s) => Expression::Identifier(s.clone()),
            Expression::Int(i) => Expression::Int(*i),
            Expression::Float(r) => Expression::Float(r.duplicate()),
            Expression::BinOp { left, op, right } => Expression::BinOp {
                left: Box::new(left.duplicate()),
                op: *op,
                right: Box::new(right.duplicate()),
            },
            Expression::Nil => Expression::Nil,
        }
    }
}

impl Clone for Real {
    fn clone(&self) -> (r: Real)
        ensures
            r@ == self@,
    {
        self.duplicate()
    }
}

impl Clone for Expression {
    fn clone(&self) -> (r: Expression)
        ensures
            r@ == self@,
    {
        self.duplicate()
    }
}

} // verus!
