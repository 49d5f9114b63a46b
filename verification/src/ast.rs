//! The syntax tree that the parser hands over.
//!
//! The tree is read, never changed. Every node keeps the tokens it was parsed
//! from beside the parts that carry meaning.

use vstd::prelude::*;
use crate::token::Token;

verus! {

/// An identifier is the token that spells it.
pub type Ident<'a> = Token<'a>;

/// A whole program: its top-level statements in source order.
#[derive(Debug, PartialEq)]
pub struct Program<'a>(pub Vec<Statement<'a>>);

/// `{ body.. ret }`: statements, then an optional tail expression whose value
/// is the value of the block.
#[derive(Debug, PartialEq)]
pub struct Block<'a> {
    pub lcurly: Token<'a>,
    pub body: Vec<Statement<'a>>,
    pub ret: Option<Box<Expr<'a>>>,
    pub rcurly: Token<'a>,
}

/// `while (cond) body`
#[derive(Debug, PartialEq)]
pub struct While<'a> {
    pub while_kw: Token<'a>,
    pub lparen: Token<'a>,
    pub cond: Box<Expr<'a>>,
    pub rparen: Token<'a>,
    pub body: Box<Expr<'a>>,
}

/// `loop body`
#[derive(Debug, PartialEq)]
pub struct Loop<'a> {
    pub loop_kw: Token<'a>,
    pub body: Box<Expr<'a>>,
}

/// `break;`
#[derive(Debug, PartialEq, Clone)]
pub struct Break<'a> {
    pub break_kw: Token<'a>,
    pub semicolon: Token<'a>,
}

/// `continue;`
#[derive(Debug, PartialEq, Clone)]
pub struct Continue<'a> {
    pub continue_kw: Token<'a>,
    pub semicolon: Token<'a>,
}

/// `return value;`
#[derive(Debug, PartialEq)]
pub struct Return<'a> {
    pub return_kw: Token<'a>,
    pub value: Expr<'a>,
    pub semicolon: Token<'a>,
}

/// `let name: type_name = value;` where the type and the initializer are
/// both optional.
#[derive(Debug, PartialEq)]
pub struct VarDecl<'a> {
    pub let_kw: Token<'a>,
    pub name: Ident<'a>,
    pub colon_token: Option<Token<'a>>,
    pub declared_type: Option<Ident<'a>>,
    pub eq_token: Option<Token<'a>>,
    pub value: Option<Expr<'a>>,
    pub semicolon: Token<'a>,
}

/// An expression in statement position.
#[derive(Debug, PartialEq)]
pub struct ExprStmt<'a> {
    pub expr: Box<Expr<'a>>,
    pub semicolon: Option<Token<'a>>,
}

/// A lone `;`
#[derive(Debug, PartialEq, Clone)]
pub struct Noop<'a> {
    pub semicolon: Token<'a>,
}

/// A statement.
#[derive(Debug, PartialEq)]
pub enum Statement<'a> {
    Return(Return<'a>),
    Break(Break<'a>),
    Continue(Continue<'a>),
    Noop(Noop<'a>),
    VarDecl(VarDecl<'a>),
    Expr(ExprStmt<'a>),
}

/// An expression. Loops, blocks and conditionals are expressions too.
#[derive(Debug, PartialEq)]
pub enum Expr<'a> {
    WhileExpr(While<'a>),
    LoopExpr(Loop<'a>),
    BlockExpr(Block<'a>),
    IfExpr(If<'a>),
    AssignExpr(Assignment<'a>),
    BinExpr(BinExpr<'a>),
    UnaryExpr(UnaryExpr<'a>),
    PrimaryExpr(PrimaryExpr<'a>),
}

/// `left op right`
#[derive(Debug, PartialEq)]
pub struct BinExpr<'a> {
    pub left: Box<Expr<'a>>,
    pub right: Box<Expr<'a>>,
    pub op: BinOp<'a>,
}

/// A binary operator: its token and what it stands for.
#[derive(Debug, PartialEq, Clone)]
pub struct BinOp<'a> {
    pub token: Token<'a>,
    pub kind: BinOpKind,
}

/// The binary operators.
#[derive(Debug, PartialEq, Eq, Clone, Copy, Structural)]
pub enum BinOpKind {
    Add,
    Sub,
    Mul,
    Div,
    Equal,
    NotEqual,
    Greater,
    GreaterEqual,
    LesserEqual,
    Lesser,
    LShift,
    RShift,
}

/// `op primary`
#[derive(Debug, PartialEq)]
pub struct UnaryExpr<'a> {
    pub primary: PrimaryExpr<'a>,
    pub op: UnaryOp<'a>,
}

/// A unary operator: its token and what it stands for.
#[derive(Debug, PartialEq, Clone)]
pub struct UnaryOp<'a> {
    pub token: Token<'a>,
    pub kind: UnaryOpKind,
}

/// The unary operators.
#[derive(Debug, PartialEq, Eq, Clone, Copy, Structural)]
pub enum UnaryOpKind {
    Plus,
    Minus,
}

/// `(expr)`
#[derive(Debug, PartialEq)]
pub struct ParenExpr<'a> {
    pub lparen: Token<'a>,
    pub expr: Box<Expr<'a>>,
    pub rparen: Token<'a>,
}

/// An expression that binds tighter than any operator.
#[derive(Debug, PartialEq)]
pub enum PrimaryExpr<'a> {
    Call(Call<'a>),
    Ident(Ident<'a>),
    IntLit(IntLit<'a>),
    VoidLit(VoidLit<'a>),
    /// A parenthesized expression, such as `(5 + 5)`.
    Paren(ParenExpr<'a>),
}

/// `name(first_arg, label value, ..)`: the arguments after the first come
/// with the token that introduces them.
#[derive(Debug, PartialEq)]
pub struct Call<'a> {
    pub name: Ident<'a>,
    pub lparen: Token<'a>,
    pub first_arg: Option<Box<Expr<'a>>>,
    pub other_args: Vec<(Token<'a>, Expr<'a>)>,
    pub rparen: Token<'a>,
}

/// `if (cond) then else _else`
#[derive(Debug, PartialEq)]
pub struct If<'a> {
    pub if_kw: Token<'a>,
    pub lparen: Token<'a>,
    pub cond: Box<Expr<'a>>,
    pub rparen: Token<'a>,
    pub then: Box<Expr<'a>>,
    pub else_kw: Option<Token<'a>>,
    pub _else: Option<Box<Expr<'a>>>,
}

/// `name = value`
#[derive(Debug, PartialEq)]
pub struct Assignment<'a> {
    pub name: Ident<'a>,
    pub eq_token: Token<'a>,
    pub value: Box<Expr<'a>>,
}

/// An integer literal: its token and its value.
#[derive(Debug, PartialEq, Clone)]
pub struct IntLit<'a> {
    pub token: Token<'a>,
    pub value: i128,
}

/// `()`
#[derive(Debug, PartialEq, Clone)]
pub struct VoidLit<'a> {
    pub lparen: Token<'a>,
    pub rparen: Token<'a>,
}

impl<'a> Expr<'a> {
    /// Whether the expression, standing as a statement, must be closed by a
    /// terminator. A loop asks for one exactly when its body does; an `if`
    /// goes by its last branch; a block never asks for one; everything else
    /// does.
    pub open spec fn requires_trailing_terminator(&self) -> bool
        decreases self,
    {
        match self {
            Expr::WhileExpr(w) => w.body.requires_trailing_terminator(),
            Expr::LoopExpr(l) => l.body.requires_trailing_terminator(),
            Expr::IfExpr(If { then: first, _else: last, .. }) => match last {
                Some(e) => e.requires_trailing_terminator(),
                None => first.requires_trailing_terminator(),
            },
            Expr::BlockExpr(_) => false,
            _ => true,
        }
    }

    /// Computes `requires_trailing_terminator`.
    pub fn require_semicolon(&self) -> (required: bool)
        ensures
            required == self.requires_trailing_terminator(),
        decreases self,
    {
        match self {
            Expr::WhileExpr(expr) => expr.body.require_semicolon(),
            Expr::LoopExpr(expr) => expr.body.require_semicolon(),
            Expr::IfExpr(If { then: first, _else: last, .. }) => match last {
                Some(e) => e.require_semicolon(),
                None => first.require_semicolon(),
            },
            Expr::BlockExpr(_) => false,
            _ => true,
        }
    }
}

impl BinOpKind {
    /// How tightly the operator binds: multiplicative operators bind
    /// tightest, additive ones next, all others loosest.
    pub open spec fn binding_power(&self) -> u8 {
        match self {
            BinOpKind::Mul | BinOpKind::Div => 2,
            BinOpKind::Add | BinOpKind::Sub => 1,
            _ => 0,
        }
    }

    /// Computes `binding_power`.
    pub fn precedence(&self) -> (level: u8)
        ensures
            level == self.binding_power(),
    {
        match self {
            BinOpKind::Add => 1,
            BinOpKind::Sub => 1,
            BinOpKind::Mul => 2,
            BinOpKind::Div => 2,
            BinOpKind::Equal => 0,
            BinOpKind::NotEqual => 0,
            BinOpKind::Greater => 0,
            BinOpKind::GreaterEqual => 0,
            BinOpKind::LesserEqual => 0,
            BinOpKind::Lesser => 0,
            BinOpKind::LShift => 0,
            BinOpKind::RShift => 0,
        }
    }
}

} // verus!
