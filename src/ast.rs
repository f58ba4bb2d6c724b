use vstd::prelude::*;

use crate::ty::Type;

verus! {

#[derive(Debug, Clone, Copy, PartialEq, Eq, Structural)]
pub enum UnOpKind {
    /// `-e`
    Neg,
    /// `&e`
    Ref,
    /// `*e`
    Deref,
}

#[derive(Debug, Clone, Copy, PartialEq, Eq, Structural)]
pub enum BinOpKind {
    Add,
    Sub,
    Mul,
    Div,
    Eq,
    Neq,
    Lt,
    LtEq,
    Gt,
    GtEq,
}

/// Expressions and statements. Every node owns its children.
#[derive(Debug)]
pub enum Expr {
    /// An integer literal.
    Number { value: i64 },
    /// A reference to a local variable or parameter.
    Local { name: String },
    UnOp { kind: UnOpKind, expr: Box<Expr> },
    BinOp { op: BinOpKind, lhs: Box<Expr>, rhs: Box<Expr> },
    /// `let name: ty = value`
    Init { name: String, ty: Type, value: Box<Expr> },
    /// `lhs = rhs`, where `lhs` is a local or a dereference.
    Assign { lhs: Box<Expr>, rhs: Box<Expr> },
    Block(Block),
    /// An expression whose value is dropped.
    Stmt { expr: Box<Expr> },
    Return { expr: Box<Expr> },
    Loop { body: Block },
    IfElse { cond: Box<Expr>, if_body: Block, else_body: Option<Block> },
    FnCall { name: String, args: Vec<Expr> },
    /// A parenthesized expression.
    Enclosed { expr: Box<Expr> },
}

/// A sequence of expressions in one scope.
#[derive(Debug)]
pub struct Block {
    pub exprs: Vec<Expr>,
}

/// `fn name(arg: Type, ...) { body }`
#[derive(Debug)]
pub struct FnDef {
    pub name: String,
    pub args: Vec<(String, Type)>,
    pub body: Block,
}

/// The function definitions of a program, in order.
#[derive(Debug)]
pub struct Global {
    pub definitions: Vec<FnDef>,
}

/// The root of a parsed program.
#[derive(Debug)]
pub struct Ast {
    pub node: Global,
}

} // verus!
