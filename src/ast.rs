use vstd::prelude::*;

verus! {

/// An expression tree. Every node owns its children.
#[derive(Debug, PartialEq, Eq, PartialOrd, Ord)]
pub enum Expr {
    Add { lhs: Box<Expr>, rhs: Box<Expr> },
    Sub { lhs: Box<Expr>, rhs: Box<Expr> },
    IntegerLiteral { value: i128 },
}

impl Expr {
    /// The arithmetic value of the expression, over unbounded integers.
    pub open spec fn eval(self) -> int
        decreases self,
    {
        match self {
            Expr::Add { lhs, rhs } => lhs.eval() + rhs.eval(),
            Expr::Sub { lhs, rhs } => lhs.eval() - rhs.eval(),
            Expr::IntegerLiteral { value } => value as int,
        }
    }
}

} // verus!
