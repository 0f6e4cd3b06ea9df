//! The expression tree that the parser builds, and its mathematical model.

use vstd::prelude::*;

verus! {

/// The mathematical model of an expression: the same shape as [`Expr`], with
/// literals that are unbounded natural numbers.
pub enum Tree {
    Number(nat),
    Multiply(Box<Tree>, Box<Tree>),
    Divide(Box<Tree>, Box<Tree>),
    Add(Box<Tree>, Box<Tree>),
    Subtract(Box<Tree>, Box<Tree>),
}

/// An arithmetic expression. Operands are exclusively owned sub-trees;
/// parentheses of the source text leave no trace in the tree.
#[derive(Debug, PartialEq, Eq)]
pub enum Expr {
    Number(u32),
    Multiply(Box<Expr>, Box<Expr>),
    Divide(Box<Expr>, Box<Expr>),
    Add(Box<Expr>, Box<Expr>),
    Subtract(Box<Expr>, Box<Expr>),
}

impl Expr {
    /// The tree that this expression stands for.
    pub open spec fn tree(self) -> Tree
        decreases self,
    {
        match self {
            Expr::Number(n) => Tree::Number(n as nat),
            Expr::Multiply(l, r) => Tree::Multiply(Box::new(l.tree()), Box::new(r.tree())),
            Expr::Divide(l, r) => Tree::Divide(Box::new(l.tree()), Box::new(r.tree())),
            Expr::Add(l, r) => Tree::Add(Box::new(l.tree()), Box::new(r.tree())),
            Expr::Subtract(l, r) => Tree::Subtract(Box::new(l.tree()), Box::new(r.tree())),
        }
    }
}

impl View for Expr {
    type V = Tree;

    open spec fn view(&self) -> Tree {
        self.tree()
    }
}

impl Clone for Expr {
    /// A deep copy: the clone is the same tree.
    fn clone(&self) -> (res: Self)
        ensures
            res == *self,
        decreases self,
    {
        match self {
            Expr::Number(n) => Expr::Number(*n),
            Expr::Multiply(l, r) => Expr::Multiply(Box::new((**l).clone()), Box::new((**r).clone())),
            Expr::Divide(l, r) => Expr::Divide(Box::new((**l).clone()), Box::new((**r).clone())),
            Expr::Add(l, r) => Expr::Add(Box::new((**l).clone()), Box::new((**r).clone())),
            Expr::Subtract(l, r) => Expr::Subtract(Box::new((**l).clone()), Box::new((**r).clone())),
        }
    }
}

/// Two expressions with the same model are the same expression.
pub proof fn lemma_view_injective(a: Expr, b: Expr)
    requires
        a@ == b@,
    ensures
        a == b,
    decreases a,
{
    match (a, b) {
        (Expr::Multiply(l1, r1), Expr::Multiply(l2, r2)) => {
            lemma_view_injective(*l1, *l2);
            lemma_view_injective(*r1, *r2);
        },
        (Expr::Divide(l1, r1), Expr::Divide(l2, r2)) => {
            lemma_view_injective(*l1, *l2);
            lemma_view_injective(*r1, *r2);
        },
        (Expr::Add(l1, r1), Expr::Add(l2, r2)) => {
            lemma_view_injective(*l1, *l2);
            lemma_view_injective(*r1, *r2);
        },
        (Expr::Subtract(l1, r1), Expr::Subtract(l2, r2)) => {
            lemma_view_injective(*l1, *l2);
            lemma_view_injective(*r1, *r2);
        },
        _ => {},
    }
}

} // verus!
