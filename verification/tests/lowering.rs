use jolang_compiler::ast::{
    Assignment, BinExpr, BinOp, BinOpKind, Block, Break, Call, Continue, Expr, ExprStmt, If,
    IntLit, Loop, Noop, ParenExpr, PrimaryExpr, Program, Return, Statement, UnaryExpr, UnaryOp,
    UnaryOpKind, VarDecl, VoidLit, While,
};
use jolang_compiler::error::LowerError;
use jolang_compiler::generator::IrGenerator;
use jolang_compiler::ir::{Instruction, Opcode, ValueHandle};
use jolang_compiler::scope::{Scope, ScopeKind};
use jolang_compiler::token::Token;

use jolang_compiler::ir::Instruction::{Binary, Br, Briz, Iconst, Reti, Varget, Varset};

fn tok(text: &str) -> Token<'_> {
    Token::new(text, 0)
}

fn at(block: usize, index: usize) -> ValueHandle {
    ValueHandle { block, index }
}

fn lit(value: i128) -> Expr<'static> {
    Expr::PrimaryExpr(PrimaryExpr::IntLit(IntLit { token: tok("0"), value }))
}

fn var(name: &'static str) -> Expr<'static> {
    Expr::PrimaryExpr(PrimaryExpr::Ident(tok(name)))
}

fn void() -> Expr<'static> {
    Expr::PrimaryExpr(PrimaryExpr::VoidLit(VoidLit { lparen: tok("("), rparen: tok(")") }))
}

fn paren(inner: Expr<'static>) -> PrimaryExpr<'static> {
    PrimaryExpr::Paren(ParenExpr { lparen: tok("("), expr: Box::new(inner), rparen: tok(")") })
}

fn binary(left: Expr<'static>, kind: BinOpKind, right: Expr<'static>) -> Expr<'static> {
    Expr::BinExpr(BinExpr {
        left: Box::new(left),
        right: Box::new(right),
        op: BinOp { token: tok("op"), kind },
    })
}

fn unary(kind: UnaryOpKind, primary: PrimaryExpr<'static>) -> Expr<'static> {
    Expr::UnaryExpr(UnaryExpr { primary, op: UnaryOp { token: tok("op"), kind } })
}

fn assign(name: &'static str, value: Expr<'static>) -> Expr<'static> {
    Expr::AssignExpr(Assignment { name: tok(name), eq_token: tok("="), value: Box::new(value) })
}

fn call(name: &'static str, mut arguments: Vec<Expr<'static>>) -> Expr<'static> {
    let first_arg = if arguments.is_empty() { None } else { Some(Box::new(arguments.remove(0))) };
    Expr::PrimaryExpr(PrimaryExpr::Call(Call {
        name: tok(name),
        lparen: tok("("),
        first_arg,
        other_args: arguments.into_iter().map(|argument| (tok(","), argument)).collect(),
        rparen: tok(")"),
    }))
}

fn block(body: Vec<Statement<'static>>, ret: Option<Expr<'static>>) -> Expr<'static> {
    Expr::BlockExpr(Block { lcurly: tok("{"), body, ret: ret.map(Box::new), rcurly: tok("}") })
}

fn while_of(cond: Expr<'static>, body: Expr<'static>) -> Expr<'static> {
    Expr::WhileExpr(While {
        while_kw: tok("while"),
        lparen: tok("("),
        cond: Box::new(cond),
        rparen: tok(")"),
        body: Box::new(body),
    })
}

fn loop_of(body: Expr<'static>) -> Expr<'static> {
    Expr::LoopExpr(Loop { loop_kw: tok("loop"), body: Box::new(body) })
}

fn if_of(cond: Expr<'static>, first: Expr<'static>, last: Option<Expr<'static>>) -> Expr<'static> {
    Expr::IfExpr(If {
        if_kw: tok("if"),
        lparen: tok("("),
        cond: Box::new(cond),
        rparen: tok(")"),
        then: Box::new(first),
        else_kw: if last.is_some() { Some(tok("else")) } else { None },
        _else: last.map(Box::new),
    })
}

fn stmt(expr: Expr<'static>) -> Statement<'static> {
    Statement::Expr(ExprStmt { expr: Box::new(expr), semicolon: Some(tok(";")) })
}

fn ret(value: Expr<'static>) -> Statement<'static> {
    Statement::Return(Return { return_kw: tok("return"), value, semicolon: tok(";") })
}

fn brk() -> Statement<'static> {
    Statement::Break(Break { break_kw: tok("break"), semicolon: tok(";") })
}

fn cont() -> Statement<'static> {
    Statement::Continue(Continue { continue_kw: tok("continue"), semicolon: tok(";") })
}

fn noop() -> Statement<'static> {
    Statement::Noop(Noop { semicolon: tok(";") })
}

fn decl(name: &'static str, value: Option<Expr<'static>>) -> Statement<'static> {
    Statement::VarDecl(VarDecl {
        let_kw: tok("let"),
        name: tok(name),
        colon_token: None,
        declared_type: None,
        eq_token: if value.is_some() { Some(tok("=")) } else { None },
        value,
        semicolon: tok(";"),
    })
}

/// Lowers the statements as a whole program into a fresh generator.
fn lower(statements: Vec<Statement<'static>>) -> Result<IrGenerator, LowerError> {
    let mut generator = IrGenerator::new();
    Program(statements).generate(&mut generator)?;
    Ok(generator)
}

/// All blocks of the generator, in handle order.
fn blocks(generator: &IrGenerator) -> Vec<Vec<Instruction>> {
    (0..generator.block_count()).map(|block| generator.instructions(block).clone()).collect()
}

/// A generator with one block, positioned there, for lowering a lone
/// expression or statement.
fn one_block() -> IrGenerator {
    let mut generator = IrGenerator::new();
    generator.append_block();
    generator
}

#[test]
fn empty_program_has_entry_and_exit() {
    let generator = lower(vec![]).unwrap();
    assert_eq!(blocks(&generator), vec![vec![Br(1)], vec![Iconst(0), Reti(at(1, 0))]]);
    assert_eq!(generator.current_block(), 0);
    assert_eq!(generator.scope_depth(), 0);
}

#[test]
fn program_appends_to_a_generator_that_holds_blocks() {
    let mut generator = one_block();
    generator.emit(Iconst(9));
    Program(vec![stmt(lit(4))]).generate(&mut generator).unwrap();
    assert_eq!(
        blocks(&generator),
        vec![vec![Iconst(9)], vec![Iconst(4), Br(2)], vec![Iconst(0), Reti(at(2, 0))]]
    );
    assert_eq!(generator.current_block(), 1);
}

#[test]
fn return_uses_the_value_of_its_expression() {
    let generator = lower(vec![ret(binary(lit(1), BinOpKind::Add, lit(2)))]).unwrap();
    assert_eq!(
        blocks(&generator),
        vec![
            vec![Iconst(1), Iconst(2), Binary(Opcode::Add, at(0, 0), at(0, 1)), Reti(at(0, 2)), Br(1)],
            vec![Iconst(0), Reti(at(1, 0))],
        ]
    );
}

#[test]
fn noop_emits_nothing() {
    let generator = lower(vec![noop(), noop()]).unwrap();
    assert_eq!(blocks(&generator), vec![vec![Br(1)], vec![Iconst(0), Reti(at(1, 0))]]);
}

#[test]
fn if_with_else_branches_to_a_shared_after_block() {
    // if (1) { 1; } else { 2; }
    let program = vec![stmt(if_of(
        lit(1),
        block(vec![stmt(lit(1))], None),
        Some(block(vec![stmt(lit(2))], None)),
    ))];
    let generator = lower(program).unwrap();
    assert_eq!(
        blocks(&generator),
        vec![
            // entry: the condition, once, then the branch on it
            vec![Iconst(1), Briz(3, 2, at(0, 0))],
            // exit
            vec![Iconst(0), Reti(at(1, 0))],
            // then block, into the block of the branch
            vec![Br(5)],
            // else block, into the block of the branch
            vec![Br(7)],
            // after block of the if
            vec![Iconst(0), Br(1)],
            // { 1; }
            vec![Iconst(1), Br(6)],
            vec![Iconst(0), Br(4)],
            // { 2; }
            vec![Iconst(2), Br(8)],
            vec![Iconst(0), Br(4)],
        ]
    );
    assert_eq!(generator.current_block(), 4);
}

#[test]
fn if_without_else_falls_to_the_else_block() {
    // if (x) x = 2;
    let program = vec![decl("x", Some(lit(1))), stmt(if_of(var("x"), assign("x", lit(2)), None))];
    let generator = lower(program).unwrap();
    assert_eq!(
        blocks(&generator),
        vec![
            vec![Varget(0), Briz(3, 2, at(0, 0))],
            vec![Iconst(0), Reti(at(1, 0))],
            vec![Iconst(2), Varset(0, at(2, 0)), Br(3)],
            vec![Iconst(0), Br(1)],
        ]
    );
    assert_eq!(generator.scope_depth(), 0);
}

#[test]
fn loop_with_break_branches_to_the_after_block() {
    // loop { break; }
    let generator = lower(vec![stmt(loop_of(block(vec![brk()], None)))]).unwrap();
    assert_eq!(
        blocks(&generator),
        vec![
            // entry: the loop puts nothing here
            vec![],
            // exit
            vec![Iconst(0), Reti(at(1, 0))],
            // body block of the loop
            vec![Br(4)],
            // after block of the loop, where the program goes on
            vec![Iconst(0), Br(1)],
            // { break; }: the break leads to the after block of the loop
            vec![Br(3), Br(5)],
            // after block of the block: back to the body block
            vec![Iconst(0), Br(2)],
        ]
    );
    assert_eq!(generator.current_block(), 3);
}

#[test]
fn loop_lowers_its_body_into_the_body_block() {
    // loop { 5 }
    let mut generator = one_block();
    generator.push_scope(Scope::new(ScopeKind::Root, 0, 0));
    let looped = Loop { loop_kw: tok("loop"), body: Box::new(block(vec![], Some(lit(5)))) };
    let value = looped.generate(&mut generator).unwrap();
    assert_eq!(value, at(2, 0));
    assert_eq!(
        blocks(&generator),
        vec![vec![], vec![Br(3)], vec![Iconst(0)], vec![Iconst(5), Br(4)], vec![Br(1)]]
    );
}

#[test]
fn while_wires_condition_body_and_after_blocks() {
    // while (0) { }
    let generator = lower(vec![stmt(while_of(lit(0), block(vec![], None)))]).unwrap();
    assert_eq!(
        blocks(&generator),
        vec![
            // entry -> condition block
            vec![Br(2)],
            // exit
            vec![Iconst(0), Reti(at(1, 0))],
            // condition block: zero -> after block, otherwise -> body block
            vec![Iconst(0), Briz(4, 3, at(2, 0))],
            // body block
            vec![Br(5)],
            // after block
            vec![Iconst(0), Br(1)],
            // { }
            vec![Br(6)],
            // back to the condition block
            vec![Iconst(0), Br(2)],
        ]
    );
    assert_eq!(generator.current_block(), 4);
}

#[test]
fn continue_in_while_branches_to_the_condition_block() {
    // while (1) { continue; break; }
    let generator =
        lower(vec![stmt(while_of(lit(1), block(vec![cont(), brk()], None)))]).unwrap();
    let all = blocks(&generator);
    assert_eq!(all[2], vec![Iconst(1), Briz(4, 3, at(2, 0))]);
    assert_eq!(all[5], vec![Br(2), Br(4), Br(6)]);
}

#[test]
fn continue_in_loop_branches_to_the_body_block() {
    // loop { continue; }
    let generator = lower(vec![stmt(loop_of(block(vec![cont()], None)))]).unwrap();
    let all = blocks(&generator);
    assert_eq!(all[2], vec![Br(4)]);
    assert_eq!(all[4], vec![Br(2), Br(5)]);
    assert_eq!(all[5], vec![Iconst(0), Br(2)]);
}

#[test]
fn break_binds_to_the_innermost_loop() {
    // while (1) { loop { break; } break; }
    let inner = loop_of(block(vec![brk()], None));
    let generator =
        lower(vec![stmt(while_of(lit(1), block(vec![stmt(inner), brk()], None)))]).unwrap();
    let all = blocks(&generator);
    // while: condition 2, body 3, after 4; its block: 5, 6; loop: body 7, after 8; its block: 9, 10
    assert_eq!(all[9], vec![Br(8), Br(10)]);
    assert_eq!(all[8], vec![Iconst(0), Br(4), Br(6)]);
    assert_eq!(all[10], vec![Iconst(0), Br(7)]);
}

#[test]
fn break_in_a_branch_of_an_if_finds_the_loop() {
    // loop if (1) { break; } else 3
    // the else branch is no block and gets a scope of its own; the break in the
    // then branch still finds the loop
    let body = if_of(lit(1), block(vec![brk()], None), Some(lit(3)));
    let generator = lower(vec![stmt(loop_of(body))]).unwrap();
    let all = blocks(&generator);
    // loop: body 2, after 3; if: then 4, else 5, after 6; block of the then branch: 7, 8
    assert_eq!(all[2], vec![Iconst(1), Briz(5, 4, at(2, 0))]);
    assert_eq!(all[7], vec![Br(3), Br(8)]);
    assert_eq!(all[5], vec![Iconst(3), Br(6)]);
    assert_eq!(all[6], vec![Iconst(0), Br(2)]);
    assert_eq!(generator.scope_depth(), 0);
}

#[test]
fn break_outside_a_loop_fails() {
    assert_eq!(lower(vec![brk()]).err(), Some(LowerError::BreakOutsideLoop));
    assert_eq!(
        lower(vec![stmt(block(vec![stmt(lit(1)), brk()], None))]).err(),
        Some(LowerError::BreakOutsideLoop)
    );
    assert_eq!(
        lower(vec![stmt(if_of(lit(1), block(vec![brk()], None), None))]).err(),
        Some(LowerError::BreakOutsideLoop)
    );
}

#[test]
fn continue_outside_a_loop_fails() {
    assert_eq!(lower(vec![cont()]).err(), Some(LowerError::ContinueOutsideLoop));
    assert_eq!(
        lower(vec![stmt(while_of(lit(1), block(vec![], None))), cont()]).err(),
        Some(LowerError::ContinueOutsideLoop)
    );
}

#[test]
fn the_first_failure_is_reported() {
    assert_eq!(lower(vec![cont(), brk()]).err(), Some(LowerError::ContinueOutsideLoop));
    assert_eq!(lower(vec![brk(), cont()]).err(), Some(LowerError::BreakOutsideLoop));
    assert_eq!(lower(vec![stmt(var("x")), brk()]).err(), Some(LowerError::UndeclaredVariable));
}

#[test]
fn statement_break_fails_on_an_empty_scope_stack() {
    let mut generator = one_block();
    assert_eq!(brk().generate(&mut generator), Err(LowerError::BreakOutsideLoop));
    assert_eq!(cont().generate(&mut generator), Err(LowerError::ContinueOutsideLoop));
    generator.push_scope(Scope::new(ScopeKind::Block, 0, 0));
    assert_eq!(brk().generate(&mut generator), Err(LowerError::BreakOutsideLoop));
    assert!(generator.instructions(0).is_empty());
}

#[test]
fn declaration_with_literal_emits_nothing() {
    let generator = lower(vec![decl("x", Some(lit(42)))]).unwrap();
    assert_eq!(blocks(&generator), vec![vec![Br(1)], vec![Iconst(0), Reti(at(1, 0))]]);
    assert_eq!(generator.variable_count(), 1);
    assert_eq!(generator.variable(0).name, "x");
    assert_eq!(generator.variable(0).initial, 42);
}

#[test]
fn declaration_with_literal_zero_emits_nothing() {
    let generator = lower(vec![decl("x", Some(lit(0)))]).unwrap();
    assert_eq!(blocks(&generator)[0], vec![Br(1)]);
    assert_eq!(generator.variable(0).initial, 0);
}

#[test]
fn declaration_without_initializer_defaults_to_zero() {
    let generator = lower(vec![decl("x", None)]).unwrap();
    assert_eq!(blocks(&generator)[0], vec![Br(1)]);
    assert_eq!(generator.variable(0).initial, 0);
}

#[test]
fn declaration_with_other_initializer_writes_the_variable() {
    // let x = 1 + 2; let y = (7); let z = -3;
    let program = vec![
        decl("x", Some(binary(lit(1), BinOpKind::Add, lit(2)))),
        decl("y", Some(Expr::PrimaryExpr(paren(lit(7))))),
        decl("z", Some(unary(UnaryOpKind::Minus, PrimaryExpr::IntLit(IntLit { token: tok("3"), value: 3 })))),
    ];
    let generator = lower(program).unwrap();
    assert_eq!(
        blocks(&generator)[0],
        vec![
            Iconst(1),
            Iconst(2),
            Binary(Opcode::Add, at(0, 0), at(0, 1)),
            Varset(0, at(0, 2)),
            Iconst(7),
            Varset(1, at(0, 4)),
            Iconst(3),
            Iconst(0),
            Binary(Opcode::Sub, at(0, 7), at(0, 6)),
            Varset(2, at(0, 8)),
            Br(1),
        ]
    );
    assert_eq!(generator.variable(0).initial, 0);
    assert_eq!(generator.variable(1).initial, 0);
    assert_eq!(generator.variable(2).initial, 0);
}

#[test]
fn declaration_is_visible_in_its_own_initializer() {
    // let x = x;
    let generator = lower(vec![decl("x", Some(var("x")))]).unwrap();
    assert_eq!(blocks(&generator)[0], vec![Varget(0), Varset(0, at(0, 0)), Br(1)]);
}

#[test]
fn redeclaration_allocates_a_fresh_slot() {
    // let x = 1; let x = 2; x;
    let generator =
        lower(vec![decl("x", Some(lit(1))), decl("x", Some(lit(2))), stmt(var("x"))]).unwrap();
    assert_eq!(blocks(&generator)[0], vec![Varget(1), Br(1)]);
    assert_eq!(generator.variable_count(), 2);
}

#[test]
fn undeclared_identifier_fails() {
    assert_eq!(lower(vec![stmt(var("x"))]).err(), Some(LowerError::UndeclaredVariable));
    assert_eq!(
        lower(vec![decl("y", None), stmt(var("x"))]).err(),
        Some(LowerError::UndeclaredVariable)
    );
}

#[test]
fn assignment_to_undeclared_variable_fails() {
    assert_eq!(lower(vec![stmt(assign("x", lit(1)))]).err(), Some(LowerError::UndeclaredVariable));
}

#[test]
fn binary_operands_are_lowered_left_to_right() {
    // 1 + 2 * 3
    let mut generator = one_block();
    let product = binary(lit(2), BinOpKind::Mul, lit(3));
    let value = binary(lit(1), BinOpKind::Add, product).generate(&mut generator).unwrap();
    assert_eq!(value, at(0, 4));
    assert_eq!(
        generator.instructions(0),
        &vec![
            Iconst(1),
            Iconst(2),
            Iconst(3),
            Binary(Opcode::Mul, at(0, 1), at(0, 2)),
            Binary(Opcode::Add, at(0, 0), at(0, 3)),
        ]
    );
}

#[test]
fn binary_operands_with_effects_keep_their_order() {
    // (x = 1) - f(x)
    let mut generator = one_block();
    generator.declare_variable(String::from("x"), 0);
    let left = Expr::PrimaryExpr(paren(assign("x", lit(1))));
    let right = call("f", vec![var("x")]);
    let value = binary(left, BinOpKind::Sub, right).generate(&mut generator).unwrap();
    assert_eq!(value, at(0, 4));
    assert_eq!(
        generator.instructions(0),
        &vec![
            Iconst(1),
            Varset(0, at(0, 0)),
            Varget(0),
            Instruction::Call(String::from("f"), vec![at(0, 2)]),
            Binary(Opcode::Sub, at(0, 1), at(0, 3)),
        ]
    );
}

#[test]
fn every_binary_operator_maps_to_its_opcode() {
    let cases = [
        (BinOpKind::Add, Opcode::Add),
        (BinOpKind::Sub, Opcode::Sub),
        (BinOpKind::Mul, Opcode::Mul),
        (BinOpKind::Div, Opcode::Div),
        (BinOpKind::Equal, Opcode::Equal),
        (BinOpKind::NotEqual, Opcode::NotEqual),
        (BinOpKind::Greater, Opcode::Greater),
        (BinOpKind::GreaterEqual, Opcode::GreaterEqual),
        (BinOpKind::LesserEqual, Opcode::LesserEqual),
        (BinOpKind::Lesser, Opcode::Lesser),
        (BinOpKind::LShift, Opcode::LShift),
        (BinOpKind::RShift, Opcode::RShift),
    ];
    for (kind, opcode) in cases {
        let mut generator = one_block();
        binary(lit(6), kind, lit(7)).generate(&mut generator).unwrap();
        assert_eq!(
            generator.instructions(0),
            &vec![Iconst(6), Iconst(7), Binary(opcode, at(0, 0), at(0, 1))]
        );
    }
}

#[test]
fn unary_plus_leaves_the_operand() {
    let mut generator = one_block();
    let operand = PrimaryExpr::IntLit(IntLit { token: tok("5"), value: 5 });
    let value = unary(UnaryOpKind::Plus, operand).generate(&mut generator).unwrap();
    assert_eq!(value, at(0, 0));
    assert_eq!(generator.instructions(0), &vec![Iconst(5)]);
}

#[test]
fn unary_minus_subtracts_from_zero() {
    let mut generator = one_block();
    let operand = PrimaryExpr::IntLit(IntLit { token: tok("5"), value: 5 });
    let value = unary(UnaryOpKind::Minus, operand).generate(&mut generator).unwrap();
    assert_eq!(value, at(0, 2));
    assert_eq!(
        generator.instructions(0),
        &vec![Iconst(5), Iconst(0), Binary(Opcode::Sub, at(0, 1), at(0, 0))]
    );
}

#[test]
fn void_literal_is_the_zero_sentinel() {
    let mut generator = one_block();
    let value = void().generate(&mut generator).unwrap();
    assert_eq!(value, at(0, 0));
    assert_eq!(generator.instructions(0), &vec![Iconst(0)]);
}

#[test]
fn parentheses_add_no_instruction() {
    let mut generator = one_block();
    let inner = Expr::PrimaryExpr(paren(Expr::PrimaryExpr(paren(lit(9)))));
    let value = inner.generate(&mut generator).unwrap();
    assert_eq!(value, at(0, 0));
    assert_eq!(generator.instructions(0), &vec![Iconst(9)]);
}

#[test]
fn assignment_yields_the_written_value() {
    // let a; let b; a = b = 4;
    let program = vec![decl("a", None), decl("b", None), stmt(assign("a", assign("b", lit(4))))];
    let generator = lower(program).unwrap();
    assert_eq!(
        blocks(&generator)[0],
        vec![Iconst(4), Varset(1, at(0, 0)), Varset(0, at(0, 1)), Br(1)]
    );
}

#[test]
fn call_lowers_arguments_in_order() {
    // f(1, x, 2 + 3)
    let mut generator = one_block();
    generator.declare_variable(String::from("x"), 0);
    let arguments = vec![lit(1), var("x"), binary(lit(2), BinOpKind::Add, lit(3))];
    let value = call("f", arguments).generate(&mut generator).unwrap();
    assert_eq!(value, at(0, 5));
    assert_eq!(
        generator.instructions(0),
        &vec![
            Iconst(1),
            Varget(0),
            Iconst(2),
            Iconst(3),
            Binary(Opcode::Add, at(0, 2), at(0, 3)),
            Instruction::Call(String::from("f"), vec![at(0, 0), at(0, 1), at(0, 4)]),
        ]
    );
}

#[test]
fn call_without_arguments() {
    let mut generator = one_block();
    let value = call("now", vec![]).generate(&mut generator).unwrap();
    assert_eq!(value, at(0, 0));
    assert_eq!(generator.instructions(0), &vec![Instruction::Call(String::from("now"), vec![])]);
}

#[test]
fn call_with_failing_argument_fails() {
    let mut generator = one_block();
    assert_eq!(
        call("f", vec![lit(1), var("missing")]).generate(&mut generator),
        Err(LowerError::UndeclaredVariable)
    );
}

#[test]
fn block_yields_the_value_of_its_tail() {
    // { 1; 2 }
    let mut generator = one_block();
    let value = block(vec![stmt(lit(1))], Some(lit(2))).generate(&mut generator).unwrap();
    assert_eq!(value, at(1, 1));
    assert_eq!(
        blocks(&generator),
        vec![vec![Br(1)], vec![Iconst(1), Iconst(2), Br(2)], vec![]]
    );
    assert_eq!(generator.current_block(), 2);
}

#[test]
fn block_without_tail_yields_the_sentinel() {
    let mut generator = one_block();
    let value = block(vec![stmt(lit(1))], None).generate(&mut generator).unwrap();
    assert_eq!(value, at(2, 0));
    assert_eq!(blocks(&generator), vec![vec![Br(1)], vec![Iconst(1), Br(2)], vec![Iconst(0)]]);
}

#[test]
fn return_inside_a_loop_stays_in_its_block() {
    // while (1) { return 5; }
    let generator =
        lower(vec![stmt(while_of(lit(1), block(vec![ret(lit(5))], None)))]).unwrap();
    let all = blocks(&generator);
    assert_eq!(all[5], vec![Iconst(5), Reti(at(5, 0)), Br(6)]);
    assert_eq!(all[4], vec![Iconst(0), Br(1)]);
}

#[test]
fn lowering_leaves_earlier_instructions_in_place() {
    let mut generator = one_block();
    generator.emit(Iconst(11));
    generator.declare_variable(String::from("kept"), 3);
    generator.push_scope(Scope::new(ScopeKind::Root, 0, 0));
    while_of(lit(1), block(vec![decl("x", Some(lit(2)))], None)).generate(&mut generator).unwrap();
    assert_eq!(generator.instructions(0), &vec![Iconst(11), Br(1)]);
    assert_eq!(generator.variable(0).name, "kept");
    assert_eq!(generator.variable(0).initial, 3);
    assert_eq!(generator.variable(1).name, "x");
    assert_eq!(generator.scope_depth(), 1);
    assert_eq!(generator.nearest(ScopeKind::Root), Some(Scope::new(ScopeKind::Root, 0, 0)));
}

#[test]
fn every_error_describes_itself() {
    assert_eq!(LowerError::BreakOutsideLoop.message(), "can't break outside a loop");
    assert_eq!(LowerError::ContinueOutsideLoop.message(), "can't continue outside a loop");
    assert_eq!(
        LowerError::UndeclaredVariable.message(),
        "can't use a variable that is not declared"
    );
}

/// The blocks that an instruction branches to.
fn targets(instruction: &Instruction) -> Vec<usize> {
    match instruction {
        Br(target) => vec![*target],
        Briz(zero, nonzero, _) => vec![*zero, *nonzero],
        _ => vec![],
    }
}

/// How many times the instructions of the generator branch to a block.
fn branches_to(generator: &IrGenerator, block: usize) -> usize {
    blocks(generator)
        .iter()
        .flatten()
        .map(|instruction| targets(instruction).iter().filter(|target| **target == block).count())
        .sum()
}

/// Whether a path of branches leads from one block to another.
fn reaches(generator: &IrGenerator, from: usize, to: usize) -> bool {
    let all = blocks(generator);
    let mut seen = vec![false; all.len()];
    let mut open = vec![from];
    seen[from] = true;
    while let Some(block) = open.pop() {
        for instruction in &all[block] {
            for target in targets(instruction) {
                if !seen[target] {
                    seen[target] = true;
                    open.push(target);
                }
            }
        }
    }
    seen[to]
}

fn count_returns(generator: &IrGenerator) -> usize {
    blocks(generator)
        .iter()
        .flatten()
        .filter(|instruction| matches!(instruction, Reti(_)))
        .count()
}

#[test]
fn lower_gives_the_finished_blocks() {
    let generator = Program(vec![ret(lit(3))]).lower().unwrap();
    assert_eq!(
        blocks(&generator),
        vec![vec![Iconst(3), Reti(at(0, 0)), Br(1)], vec![Iconst(0), Reti(at(1, 0))]]
    );
    assert_eq!(generator.scope_depth(), 0);
}

#[test]
fn lower_fails_as_generate_does() {
    assert_eq!(Program(vec![brk()]).lower().err(), Some(LowerError::BreakOutsideLoop));
    assert_eq!(Program(vec![cont()]).lower().err(), Some(LowerError::ContinueOutsideLoop));
    assert_eq!(Program(vec![stmt(var("x"))]).lower().err(), Some(LowerError::UndeclaredVariable));
}

#[test]
fn entry_reaches_exit_through_loops_and_branches() {
    // let x = 1; while (x) { if (x) { break; } else { continue; } x = x - 1; } return x;
    let body = block(
        vec![
            stmt(if_of(var("x"), block(vec![brk()], None), Some(block(vec![cont()], None)))),
            stmt(assign("x", binary(var("x"), BinOpKind::Sub, lit(1)))),
        ],
        None,
    );
    let program =
        Program(vec![decl("x", Some(lit(1))), stmt(while_of(var("x"), body)), ret(var("x"))]);
    let generator = program.lower().unwrap();
    assert!(reaches(&generator, 0, 1));
}

#[test]
fn entry_reaches_exit_by_a_break_in_the_condition() {
    // while ({ break; loop { } 0 }) { }
    let cond = block(vec![brk(), stmt(loop_of(block(vec![], None)))], Some(lit(0)));
    let generator = Program(vec![stmt(while_of(cond, block(vec![], None)))]).lower().unwrap();
    assert!(reaches(&generator, 0, 1));
}

#[test]
fn nothing_branches_into_the_body_of_a_loop() {
    // loop { break; }
    let generator = Program(vec![stmt(loop_of(block(vec![brk()], None)))]).lower().unwrap();
    // the body block is entered from the end of the body alone
    assert_eq!(branches_to(&generator, 2), 1);
    assert_eq!(blocks(&generator)[5], vec![Iconst(0), Br(2)]);
    assert!(!reaches(&generator, 0, 2));
    assert!(!reaches(&generator, 0, 1));
}

#[test]
fn after_block_of_a_while_is_entered_by_the_condition_and_by_breaks() {
    // while (1) { break; if (1) { break; } loop { break; continue; } continue; }
    let inner = loop_of(block(vec![brk(), cont()], None));
    let body = block(
        vec![brk(), stmt(if_of(lit(1), block(vec![brk()], None), None)), stmt(inner), cont()],
        None,
    );
    let generator = Program(vec![stmt(while_of(lit(1), body))]).lower().unwrap();
    // condition block 2, body block 3, after block 4
    assert_eq!(branches_to(&generator, 4), 1 + 2);
    assert_eq!(branches_to(&generator, 2), 2 + 1);
    assert_eq!(branches_to(&generator, 3), 1);
}

#[test]
fn after_block_of_a_loop_is_entered_by_breaks_alone() {
    // while (1) { loop { break; break; continue; } }
    let inner = loop_of(block(vec![brk(), brk(), cont()], None));
    let generator =
        Program(vec![stmt(while_of(lit(1), block(vec![stmt(inner)], None)))]).lower().unwrap();
    // while: 2, 3, 4; its block: 5, 6; loop: body block 7, after block 8
    assert_eq!(branches_to(&generator, 8), 2);
    assert_eq!(branches_to(&generator, 7), 1 + 1);
}

#[test]
fn every_branch_leads_to_a_block_that_is_there() {
    let body = block(vec![stmt(if_of(lit(1), lit(2), Some(lit(3)))), brk()], Some(lit(4)));
    let generator = Program(vec![stmt(while_of(lit(1), body))]).lower().unwrap();
    let count = generator.block_count();
    for instruction in blocks(&generator).iter().flatten() {
        for target in targets(instruction) {
            assert!(target < count);
        }
    }
}

#[test]
fn return_instructions_match_return_statements() {
    // return 1; while (1) { return 2; } if (1) { return 3; }
    let program = Program(vec![
        ret(lit(1)),
        stmt(while_of(lit(1), block(vec![ret(lit(2))], None))),
        stmt(if_of(lit(1), block(vec![ret(lit(3))], None), None)),
    ]);
    let generator = program.lower().unwrap();
    assert_eq!(count_returns(&generator), 1 + 3);
    assert_eq!(count_returns(&Program(vec![]).lower().unwrap()), 1);
}

#[test]
fn scopes_are_popped_when_lowering_ends() {
    let mut generator = one_block();
    generator.push_scope(Scope::new(ScopeKind::Loop, 0, 0));
    let body = block(vec![stmt(if_of(lit(1), lit(2), Some(block(vec![brk()], None))))], None);
    loop_of(body).generate(&mut generator).unwrap();
    assert_eq!(generator.scope_depth(), 1);
    assert_eq!(generator.nearest(ScopeKind::Loop), Some(Scope::new(ScopeKind::Loop, 0, 0)));
}
