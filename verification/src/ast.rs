//! The abstract syntax tree that the compiler consumes.
//!
//! The tree arrives fully formed from an external parser.  Operator
//! precedence is already encoded structurally: comparisons sit above
//! additive chains, which sit above multiplicative chains, which sit above
//! postfix chains (property access, calls, indexing) over primaries.
//!
//! Numbers are modelled as 64-bit signed integers throughout the library.

use vstd::prelude::*;

verus! {

/// A block: a sequence of named, lazily bound definitions followed by the
/// trailing expression that gives the block its value.
pub struct Statement {
    pub definitions: Vec<(String, Expression)>,
    pub body: Expression,
}

/// An expression: either a comparison chain or a conditional.
pub enum Expression {
    Comparison(Comparison),
    If { cond: Box<Expression>, cons: Box<Expression>, alt: Box<Expression> },
}

/// An equality chain over additive expressions, applied left to right.
pub struct Comparison {
    pub left: Additive,
    pub rights: Vec<ComparisonRight>,
}

pub enum ComparisonRight {
    Equal(Additive),
    NotEqual(Additive),
}

/// An addition/subtraction chain, applied left to right.
pub struct Additive {
    pub left: Multitive,
    pub rights: Vec<AdditiveRight>,
}

pub enum AdditiveRight {
    Add(Multitive),
    Sub(Multitive),
}

/// A multiplication/division/remainder chain, applied left to right.
pub struct Multitive {
    pub left: Operation,
    pub rights: Vec<MultitiveRight>,
}

pub enum MultitiveRight {
    Mul(Operation),
    Div(Operation),
    Surplus(Operation),
}

/// A primary together with its postfix chain of property accesses, calls
/// and indexings, applied left to right.
pub struct Operation {
    pub left: Primary,
    pub rights: Vec<OperationRight>,
}

pub enum OperationRight {
    Access(String),
    Call(Vec<Expression>),
    Index(Box<Expression>),
}

/// The atomic forms of the grammar.
pub enum Primary {
    Number(i64),
    Text(String),
    Variable(String),
    Block(Box<Statement>),
    Function(Vec<String>, Box<Expression>),
    Struct(Vec<(String, Expression)>),
    Array(Vec<Expression>),
}

} // verus!
