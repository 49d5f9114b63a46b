//! Where return instructions come from: every return instruction but the one of the
//! exit block stands for a `return` statement of the program.

use vstd::prelude::*;
use crate::ast::{
    Assignment, BinExpr, Block, Call, Expr, If, Loop, PrimaryExpr, Program, Statement, UnaryExpr,
    While,
};
use crate::frame::{
    lemma_arguments_settle, lemma_branch_settles, lemma_expr_settles, lemma_primary_settles,
    lemma_statement_settles, lemma_statements_settle,
};
use crate::generator::IrState;
use crate::ir::{InstructionView, ValueView};
use crate::lowering::{
    block_entered, enter_branch, if_after_block, if_entered, loop_entered, lower_arguments,
    lower_assignment, lower_binary, lower_block, lower_branch, lower_call, lower_expr, lower_if,
    lower_loop, lower_primary, lower_program, lower_statement, lower_statements, lower_unary,
    lower_while, program_entered, void_sentinel, while_entered,
};
use crate::token::Token;

verus! {

/// How many `return` statements the expression holds, at any depth.
pub open spec fn returns_in_expr(e: &Expr) -> nat
    decreases e,
{
    match e {
        Expr::WhileExpr(w) => returns_in_expr(&w.cond) + returns_in_expr(&w.body),
        Expr::LoopExpr(l) => returns_in_expr(&l.body),
        Expr::BlockExpr(b) => returns_in_block(b),
        Expr::IfExpr(i) => returns_in_if(i),
        Expr::AssignExpr(a) => returns_in_expr(&a.value),
        Expr::BinExpr(b) => returns_in_expr(&b.left) + returns_in_expr(&b.right),
        Expr::UnaryExpr(u) => returns_in_primary(&u.primary),
        Expr::PrimaryExpr(p) => returns_in_primary(p),
    }
}

pub open spec fn returns_in_block(b: &Block) -> nat
    decreases b,
{
    returns_in_statements(&b.body, 0) + match b.ret {
        Some(tail) => returns_in_expr(&tail),
        None => 0nat,
    }
}

pub open spec fn returns_in_if(i: &If) -> nat
    decreases i,
{
    match i {
        If { cond, then: first, _else: last, .. } => returns_in_expr(cond) + returns_in_expr(first)
            + match last {
            Some(second) => returns_in_expr(second),
            None => 0nat,
        },
    }
}

pub open spec fn returns_in_primary(p: &PrimaryExpr) -> nat
    decreases p,
{
    match p {
        PrimaryExpr::Call(c) => returns_in_call(c),
        PrimaryExpr::Paren(inner) => returns_in_expr(&inner.expr),
        _ => 0,
    }
}

pub open spec fn returns_in_call(c: &Call) -> nat
    decreases c,
{
    returns_in_arguments(&c.other_args, 0) + match c.first_arg {
        Some(argument) => returns_in_expr(&argument),
        None => 0nat,
    }
}

pub open spec fn returns_in_arguments(arguments: &Vec<(Token, Expr)>, from: int) -> nat
    decreases arguments, arguments.len() - from,
{
    if 0 <= from < arguments.len() {
        returns_in_expr(&arguments[from].1) + returns_in_arguments(arguments, from + 1)
    } else {
        0
    }
}

pub open spec fn returns_in_statement(statement: &Statement) -> nat
    decreases statement,
{
    match statement {
        Statement::Return(r) => 1 + returns_in_expr(&r.value),
        Statement::VarDecl(d) => match d.value {
            Some(initializer) => returns_in_expr(&initializer),
            None => 0,
        },
        Statement::Expr(statement) => returns_in_expr(&statement.expr),
        _ => 0,
    }
}

pub open spec fn returns_in_statements(statements: &Vec<Statement>, from: int) -> nat
    decreases statements, statements.len() - from,
{
    if 0 <= from < statements.len() {
        returns_in_statement(&statements[from]) + returns_in_statements(statements, from + 1)
    } else {
        0
    }
}

/// One for a return instruction, zero for any other.
pub open spec fn return_weight(instruction: InstructionView) -> nat {
    if instruction is Reti {
        1
    } else {
        0
    }
}

/// How many return instructions one block holds.
pub open spec fn block_returns(instructions: Seq<InstructionView>) -> nat
    decreases instructions.len(),
{
    if instructions.len() == 0 {
        0
    } else {
        block_returns(instructions.drop_last()) + return_weight(instructions.last())
    }
}

/// How many return instructions all blocks hold.
pub open spec fn return_count(blocks: Seq<Seq<InstructionView>>) -> nat
    decreases blocks.len(),
{
    if blocks.len() == 0 {
        0
    } else {
        return_count(blocks.drop_last()) + block_returns(blocks.last())
    }
}

proof fn lemma_blocks_update(blocks: Seq<Seq<InstructionView>>, at: int, with: Seq<InstructionView>)
    requires
        0 <= at < blocks.len(),
    ensures
        return_count(blocks.update(at, with)) + block_returns(blocks[at]) == return_count(blocks)
            + block_returns(with),
    decreases blocks.len(),
{
    if at == blocks.len() - 1 {
        assert(blocks.update(at, with).drop_last() =~= blocks.drop_last());
    } else {
        lemma_blocks_update(blocks.drop_last(), at, with);
        assert(blocks.update(at, with).drop_last() =~= blocks.drop_last().update(at, with));
    }
}

/// An emitted instruction adds one return if it is one, and none otherwise.
pub proof fn lemma_emit_returns(s: IrState, instruction: InstructionView)
    requires
        s.positioned(),
    ensures
        return_count(s.emit(instruction).blocks) == return_count(s.blocks) + return_weight(instruction),
{
    let old_block = s.blocks[s.current];
    assert(old_block.push(instruction).drop_last() =~= old_block);
    lemma_blocks_update(s.blocks, s.current, old_block.push(instruction));
}

/// A new block adds no return.
pub proof fn lemma_append_returns(s: IrState)
    ensures
        return_count(s.append_block().blocks) == return_count(s.blocks),
{
    assert(s.append_block().blocks.drop_last() =~= s.blocks);
}

/// Lowering an expression adds one return instruction for each `return`
/// statement in it, and no other.
pub proof fn lemma_expr_returns(e: &Expr, s: IrState)
    requires
        s.positioned(),
    ensures
        lower_expr(e, s) matches Ok((t, _)) ==> return_count(t.blocks) == return_count(s.blocks)
            + returns_in_expr(e),
    decreases e, 0int,
{
    match e {
        Expr::WhileExpr(w) => lemma_while_returns(w, s),
        Expr::LoopExpr(l) => lemma_loop_returns(l, s),
        Expr::BlockExpr(b) => lemma_block_returns(b, s),
        Expr::IfExpr(i) => lemma_if_returns(i, s),
        Expr::AssignExpr(a) => lemma_assignment_returns(a, s),
        Expr::BinExpr(b) => lemma_binary_returns(b, s),
        Expr::UnaryExpr(u) => lemma_unary_returns(u, s),
        Expr::PrimaryExpr(p) => lemma_primary_returns(p, s),
    }
}

proof fn lemma_while_returns(w: &While, s: IrState)
    requires
        s.positioned(),
    ensures
        lower_while(w, s) matches Ok((t, _)) ==> return_count(t.blocks) == return_count(s.blocks)
            + returns_in_expr(&w.cond) + returns_in_expr(&w.body),
    decreases w,
{
    let n = s.next_block();
    let a1 = s.append_block();
    let a2 = a1.append_block();
    let a3 = a2.append_block();
    lemma_append_returns(s);
    lemma_append_returns(a1);
    lemma_append_returns(a2);
    lemma_emit_returns(a3, InstructionView::Br(n));
    let s1 = while_entered(s);
    lemma_expr_settles(&w.cond, s1);
    lemma_expr_returns(&w.cond, s1);
    match lower_expr(&w.cond, s1) {
        Err(_) => {},
        Ok((s2, cond)) => {
            let branch = InstructionView::Briz(n + 2, n + 1, cond);
            let s3 = s2.emit(branch).seek(n + 1);
            lemma_emit_returns(s2, branch);
            lemma_expr_settles(&w.body, s3);
            lemma_expr_returns(&w.body, s3);
            match lower_expr(&w.body, s3) {
                Err(_) => {},
                Ok((s4, _)) => {
                    lemma_emit_returns(s4, InstructionView::Br(n));
                    let s5 = s4.emit(InstructionView::Br(n)).pop_scope().seek(n + 2);
                    lemma_emit_returns(s5, void_sentinel());
                },
            }
        },
    }
}

proof fn lemma_loop_returns(l: &Loop, s: IrState)
    requires
        s.positioned(),
    ensures
        lower_loop(l, s) matches Ok((t, _)) ==> return_count(t.blocks) == return_count(s.blocks)
            + returns_in_expr(&l.body),
    decreases l,
{
    let n = s.next_block();
    let a1 = s.append_block();
    lemma_append_returns(s);
    lemma_append_returns(a1);
    let s1 = loop_entered(s);
    lemma_expr_settles(&l.body, s1);
    lemma_expr_returns(&l.body, s1);
    match lower_expr(&l.body, s1) {
        Err(_) => {},
        Ok((s2, _)) => {
            lemma_emit_returns(s2, InstructionView::Br(n));
            let s3 = s2.emit(InstructionView::Br(n)).pop_scope().seek(n + 1);
            lemma_emit_returns(s3, void_sentinel());
        },
    }
}

/// Lowering statements adds one return instruction for each `return`
/// statement in them, and no other.
pub proof fn lemma_statements_returns(statements: &Vec<Statement>, from: int, s: IrState)
    requires
        s.positioned(),
    ensures
        lower_statements(statements, from, s) matches Ok(t) ==> return_count(t.blocks) == return_count(
            s.blocks,
        ) + returns_in_statements(statements, from),
    decreases statements, statements.len() - from,
{
    if 0 <= from < statements.len() {
        lemma_statement_settles(&statements[from], s);
        lemma_statement_returns(&statements[from], s);
        match lower_statement(&statements[from], s) {
            Err(_) => {},
            Ok(s1) => {
                lemma_statements_returns(statements, from + 1, s1);
            },
        }
    }
}

proof fn lemma_block_returns(b: &Block, s: IrState)
    requires
        s.positioned(),
    ensures
        lower_block(b, s) matches Ok((t, _)) ==> return_count(t.blocks) == return_count(s.blocks)
            + returns_in_block(b),
    decreases b,
{
    let n = s.next_block();
    let a1 = s.append_block();
    let a2 = a1.append_block();
    lemma_append_returns(s);
    lemma_append_returns(a1);
    lemma_emit_returns(a2, InstructionView::Br(n));
    let s1 = block_entered(s);
    lemma_statements_settle(&b.body, 0, s1);
    lemma_statements_returns(&b.body, 0, s1);
    match lower_statements(&b.body, 0, s1) {
        Err(_) => {},
        Ok(s2) => {
            match b.ret {
                Some(tail) => {
                    lemma_expr_settles(&tail, s2);
                    lemma_expr_returns(&tail, s2);
                    match lower_expr(&tail, s2) {
                        Err(_) => {},
                        Ok((s3, _)) => {
                            lemma_emit_returns(s3, InstructionView::Br(n + 1));
                        },
                    }
                },
                None => {
                    lemma_emit_returns(s2, InstructionView::Br(n + 1));
                    let s3 = s2.emit(InstructionView::Br(n + 1)).pop_scope().seek(n + 1);
                    lemma_emit_returns(s3, void_sentinel());
                },
            }
        },
    }
}

proof fn lemma_branch_returns(branch: &Expr, s: IrState, entry: int, exit: int)
    requires
        s.positioned(),
    ensures
        lower_branch(branch, s, entry, exit) matches Ok((t, _)) ==> return_count(t.blocks) == return_count(
            s.blocks,
        ) + returns_in_expr(branch),
    decreases branch, 1int,
{
    lemma_expr_returns(branch, enter_branch(branch, s, entry, exit));
}

proof fn lemma_if_returns(i: &If, s: IrState)
    requires
        s.positioned(),
    ensures
        lower_if(i, s) matches Ok((t, _)) ==> return_count(t.blocks) == return_count(s.blocks)
            + returns_in_if(i),
    decreases i,
{
    match i {
        If { cond, then: first, _else: last, .. } => {
            lemma_expr_settles(cond, s);
            lemma_expr_returns(cond, s);
            match lower_expr(cond, s) {
                Err(_) => {},
                Ok((s1, value)) => {
                    let n = s1.next_block();
                    let after_block = if_after_block(i, s1);
                    let a1 = s1.append_block();
                    let a2 = a1.append_block();
                    let a3 = a2.append_block();
                    lemma_append_returns(s1);
                    lemma_append_returns(a1);
                    lemma_append_returns(a2);
                    let branch = InstructionView::Briz(n + 1, n, value);
                    if last is Some {
                        lemma_emit_returns(a3, branch);
                    } else {
                        lemma_emit_returns(a2, branch);
                    }
                    let s3 = if_entered(i, s1, value);
                    lemma_branch_settles(first, s3, n, after_block);
                    lemma_branch_returns(first, s3, n, after_block);
                    match lower_branch(first, s3, n, after_block) {
                        Err(_) => {},
                        Ok((s4, _)) => {
                            let jump = InstructionView::Br(after_block);
                            let s5 = s4.emit(jump).seek(n + 1);
                            lemma_emit_returns(s4, jump);
                            match last {
                                None => {
                                    lemma_emit_returns(s5, void_sentinel());
                                },
                                Some(second) => {
                                    lemma_branch_settles(second, s5, n + 1, after_block);
                                    lemma_branch_returns(second, s5, n + 1, after_block);
                                    match lower_branch(second, s5, n + 1, after_block) {
                                        Err(_) => {},
                                        Ok((s6, _)) => {
                                            let s7 = s6.emit(jump).seek(after_block);
                                            lemma_emit_returns(s6, jump);
                                            lemma_emit_returns(s7, void_sentinel());
                                        },
                                    }
                                },
                            }
                        },
                    }
                },
            }
        },
    }
}

proof fn lemma_assignment_returns(a: &Assignment, s: IrState)
    requires
        s.positioned(),
    ensures
        lower_assignment(a, s) matches Ok((t, _)) ==> return_count(t.blocks) == return_count(s.blocks)
            + returns_in_expr(&a.value),
    decreases a,
{
    lemma_expr_settles(&a.value, s);
    lemma_expr_returns(&a.value, s);
    match lower_assignment(a, s) {
        Err(_) => {},
        Ok((t, _)) => {
            let s1 = lower_expr(&a.value, s)->Ok_0.0;
            lemma_emit_returns(s1, t.blocks[t.current].last());
        },
    }
}

proof fn lemma_binary_returns(b: &BinExpr, s: IrState)
    requires
        s.positioned(),
    ensures
        lower_binary(b, s) matches Ok((t, _)) ==> return_count(t.blocks) == return_count(s.blocks)
            + returns_in_expr(&b.left) + returns_in_expr(&b.right),
    decreases b,
{
    lemma_expr_settles(&b.left, s);
    lemma_expr_returns(&b.left, s);
    match lower_expr(&b.left, s) {
        Err(_) => {},
        Ok((s1, _)) => {
            lemma_expr_settles(&b.right, s1);
            lemma_expr_returns(&b.right, s1);
            match lower_expr(&b.right, s1) {
                Err(_) => {},
                Ok((s2, _)) => {
                    let t = lower_binary(b, s)->Ok_0.0;
                    lemma_emit_returns(s2, t.blocks[t.current].last());
                },
            }
        },
    }
}

proof fn lemma_unary_returns(u: &UnaryExpr, s: IrState)
    requires
        s.positioned(),
    ensures
        lower_unary(u, s) matches Ok((t, _)) ==> return_count(t.blocks) == return_count(s.blocks)
            + returns_in_primary(&u.primary),
    decreases u,
{
    lemma_primary_settles(&u.primary, s);
    lemma_primary_returns(&u.primary, s);
    match lower_primary(&u.primary, s) {
        Err(_) => {},
        Ok((s1, operand)) => {
            let s2 = s1.emit(InstructionView::Iconst(0));
            lemma_emit_returns(s1, InstructionView::Iconst(0));
            lemma_emit_returns(
                s2,
                InstructionView::Binary(crate::ir::Opcode::Sub, s2.last_value(), operand),
            );
        },
    }
}

proof fn lemma_primary_returns(p: &PrimaryExpr, s: IrState)
    requires
        s.positioned(),
    ensures
        lower_primary(p, s) matches Ok((t, _)) ==> return_count(t.blocks) == return_count(s.blocks)
            + returns_in_primary(p),
    decreases p,
{
    match p {
        PrimaryExpr::Call(c) => lemma_call_returns(c, s),
        PrimaryExpr::Paren(inner) => lemma_expr_returns(&inner.expr, s),
        _ => {
            match lower_primary(p, s) {
                Err(_) => {},
                Ok((t, _)) => {
                    lemma_emit_returns(s, t.blocks[t.current].last());
                },
            }
        },
    }
}

proof fn lemma_arguments_returns(
    arguments: &Vec<(Token, Expr)>,
    from: int,
    s: IrState,
    values: Seq<ValueView>,
)
    requires
        s.positioned(),
    ensures
        lower_arguments(arguments, from, s, values) matches Ok((t, _)) ==> return_count(t.blocks)
            == return_count(s.blocks) + returns_in_arguments(arguments, from),
    decreases arguments, arguments.len() - from,
{
    if 0 <= from < arguments.len() {
        lemma_expr_settles(&arguments[from].1, s);
        lemma_expr_returns(&arguments[from].1, s);
        match lower_expr(&arguments[from].1, s) {
            Err(_) => {},
            Ok((s1, value)) => {
                lemma_arguments_returns(arguments, from + 1, s1, values.push(value));
            },
        }
    }
}

proof fn lemma_call_returns(c: &Call, s: IrState)
    requires
        s.positioned(),
    ensures
        lower_call(c, s) matches Ok((t, _)) ==> return_count(t.blocks) == return_count(s.blocks)
            + returns_in_call(c),
    decreases c,
{
    let (s1, values) = match c.first_arg {
        Some(argument) => {
            lemma_expr_settles(&argument, s);
            lemma_expr_returns(&argument, s);
            match lower_expr(&argument, s) {
                Err(_) => (s, Seq::<ValueView>::empty()),
                Ok((s1, value)) => (s1, seq![value]),
            }
        },
        None => (s, Seq::<ValueView>::empty()),
    };
    match lower_call(c, s) {
        Err(_) => {},
        Ok((t, _)) => {
            lemma_arguments_settle(&c.other_args, 0, s1, values);
            lemma_arguments_returns(&c.other_args, 0, s1, values);
            let s2 = lower_arguments(&c.other_args, 0, s1, values)->Ok_0.0;
            lemma_emit_returns(s2, t.blocks[t.current].last());
        },
    }
}

/// Lowering a statement adds one return instruction for each `return`
/// statement in it, and no other.
pub proof fn lemma_statement_returns(statement: &Statement, s: IrState)
    requires
        s.positioned(),
    ensures
        lower_statement(statement, s) matches Ok(t) ==> return_count(t.blocks) == return_count(s.blocks)
            + returns_in_statement(statement),
    decreases statement,
{
    match statement {
        Statement::Return(r) => {
            lemma_expr_settles(&r.value, s);
            lemma_expr_returns(&r.value, s);
            match lower_expr(&r.value, s) {
                Err(_) => {},
                Ok((s1, value)) => lemma_emit_returns(s1, InstructionView::Reti(value)),
            }
        },
        Statement::Break(_) | Statement::Continue(_) => {
            match lower_statement(statement, s) {
                Err(_) => {},
                Ok(t) => lemma_emit_returns(s, t.blocks[t.current].last()),
            }
        },
        Statement::Noop(_) => {},
        Statement::VarDecl(d) => match d.value {
            None => {},
            Some(Expr::PrimaryExpr(PrimaryExpr::IntLit(_))) => {},
            Some(initializer) => {
                let s0 = s.declare(d.name.text@, 0);
                lemma_expr_settles(&initializer, s0);
                lemma_expr_returns(&initializer, s0);
                match lower_expr(&initializer, s0) {
                    Err(_) => {},
                    Ok((s1, value)) => lemma_emit_returns(
                        s1,
                        InstructionView::Varset(s.next_slot(), value),
                    ),
                }
            },
        },
        Statement::Expr(statement) => lemma_expr_returns(&statement.expr, s),
    }
}

/// Lowering a program adds one return instruction for each `return`
/// statement of the program and one more, that of the exit block.
pub proof fn lemma_program_returns(program: &Program, s: IrState)
    ensures
        lower_program(program, s) matches Ok(t) ==> return_count(t.blocks) == return_count(s.blocks) + 1
            + returns_in_statements(&program.0, 0),
{
    let n = s.next_block();
    let a1 = s.append_block();
    let a2 = a1.append_block();
    let a3 = a2.seek(n + 1);
    let a4 = a3.emit(InstructionView::Iconst(0));
    lemma_append_returns(s);
    lemma_append_returns(a1);
    lemma_emit_returns(a3, InstructionView::Iconst(0));
    lemma_emit_returns(a4, InstructionView::Reti(a4.last_value()));
    let s2 = program_entered(s);
    lemma_statements_settle(&program.0, 0, s2);
    lemma_statements_returns(&program.0, 0, s2);
    match lower_statements(&program.0, 0, s2) {
        Err(_) => {},
        Ok(s3) => {
            lemma_emit_returns(s3.pop_scope(), InstructionView::Br(n + 1));
        },
    }
}

} // verus!
