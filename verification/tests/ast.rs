use jolang_compiler::ast::{
    BinExpr, BinOp, BinOpKind, Block, Expr, If, IntLit, Loop, PrimaryExpr, While,
};
use jolang_compiler::token::Token;

fn tok(text: &str) -> Token<'_> {
    Token::new(text, 0)
}

fn lit(value: i128) -> Expr<'static> {
    Expr::PrimaryExpr(PrimaryExpr::IntLit(IntLit { token: tok("0"), value }))
}

fn empty_block() -> Expr<'static> {
    Expr::BlockExpr(Block { lcurly: tok("{"), body: Vec::new(), ret: None, rcurly: tok("}") })
}

fn while_of(body: Expr<'static>) -> Expr<'static> {
    Expr::WhileExpr(While {
        while_kw: tok("while"),
        lparen: tok("("),
        cond: Box::new(lit(1)),
        rparen: tok(")"),
        body: Box::new(body),
    })
}

fn loop_of(body: Expr<'static>) -> Expr<'static> {
    Expr::LoopExpr(Loop { loop_kw: tok("loop"), body: Box::new(body) })
}

fn if_of(first: Expr<'static>, last: Option<Expr<'static>>) -> Expr<'static> {
    Expr::IfExpr(If {
        if_kw: tok("if"),
        lparen: tok("("),
        cond: Box::new(lit(1)),
        rparen: tok(")"),
        then: Box::new(first),
        else_kw: if last.is_some() { Some(tok("else")) } else { None },
        _else: last.map(Box::new),
    })
}

#[test]
fn token_keeps_text_and_offset() {
    let token = Token::new("while", 7);
    assert_eq!(token.text, "while");
    assert_eq!(token.offset, 7);
}

#[test]
fn block_never_requires_semicolon() {
    assert!(!empty_block().require_semicolon());
}

#[test]
fn literal_requires_semicolon() {
    assert!(lit(3).require_semicolon());
}

#[test]
fn binary_requires_semicolon() {
    let sum = Expr::BinExpr(BinExpr {
        left: Box::new(lit(1)),
        right: Box::new(lit(2)),
        op: BinOp { token: tok("+"), kind: BinOpKind::Add },
    });
    assert!(sum.require_semicolon());
}

#[test]
fn while_goes_by_its_body() {
    assert!(!while_of(empty_block()).require_semicolon());
    assert!(while_of(lit(1)).require_semicolon());
}

#[test]
fn loop_goes_by_its_body() {
    assert!(!loop_of(empty_block()).require_semicolon());
    assert!(loop_of(lit(1)).require_semicolon());
    assert!(loop_of(while_of(lit(1))).require_semicolon());
}

#[test]
fn if_without_else_goes_by_its_then_branch() {
    assert!(!if_of(empty_block(), None).require_semicolon());
    assert!(if_of(lit(1), None).require_semicolon());
}

#[test]
fn if_with_else_goes_by_its_else_branch() {
    assert!(if_of(empty_block(), Some(lit(2))).require_semicolon());
    assert!(!if_of(lit(1), Some(empty_block())).require_semicolon());
    assert!(!if_of(lit(1), Some(if_of(lit(2), Some(empty_block())))).require_semicolon());
}

#[test]
fn precedence_of_each_operator() {
    assert_eq!(BinOpKind::Add.precedence(), 1);
    assert_eq!(BinOpKind::Sub.precedence(), 1);
    assert_eq!(BinOpKind::Mul.precedence(), 2);
    assert_eq!(BinOpKind::Div.precedence(), 2);
    assert_eq!(BinOpKind::Equal.precedence(), 0);
    assert_eq!(BinOpKind::NotEqual.precedence(), 0);
    assert_eq!(BinOpKind::Greater.precedence(), 0);
    assert_eq!(BinOpKind::GreaterEqual.precedence(), 0);
    assert_eq!(BinOpKind::LesserEqual.precedence(), 0);
    assert_eq!(BinOpKind::Lesser.precedence(), 0);
    assert_eq!(BinOpKind::LShift.precedence(), 0);
    assert_eq!(BinOpKind::RShift.precedence(), 0);
}
