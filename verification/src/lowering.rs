//! The lowering rules, as functions on the mathematical state of a generator.
//!
//! Each rule takes the state before a construct is lowered and gives the
//! state after it, or the error that ends the pass. An expression also gives
//! the position of the instruction that yields its value.

use vstd::prelude::*;
use crate::ast::{
    Assignment, BinExpr, Block, Call, Expr, If, Loop, PrimaryExpr, Program, Statement, UnaryExpr,
    UnaryOpKind, While,
};
use crate::error::LowerError;
use crate::generator::{resolve_variable, IrState};
use crate::ir::{InstructionView, Opcode, ValueView};
use crate::scope::{nearest_scope, ScopeKind, ScopeView};
use crate::token::Token;

verus! {

/// The state after an instruction is emitted, with the instruction's position.
pub open spec fn emitted(s: IrState, instruction: InstructionView) -> (IrState, ValueView) {
    let t = s.emit(instruction);
    (t, t.last_value())
}

/// The constant that stands for the value of a construct that yields none.
pub open spec fn void_sentinel() -> InstructionView {
    InstructionView::Iconst(0)
}

/// The scope that wraps a branch of an `if`: a branch that is a block brings
/// its own scope, any other gets a block scope from `entry` to `exit`.
pub open spec fn enter_branch(branch: &Expr, s: IrState, entry: int, exit: int) -> IrState {
    if branch is BlockExpr {
        s
    } else {
        s.push_scope(ScopeView { kind: ScopeKind::Block, entry_block: entry, exit_block: exit })
    }
}

/// Undoes `enter_branch` once the branch is lowered.
pub open spec fn leave_branch(branch: &Expr, s: IrState) -> IrState {
    if branch is BlockExpr {
        s
    } else {
        s.pop_scope()
    }
}

/// A branch of an `if`, lowered within the scope that `enter_branch` gives
/// it.
pub open spec fn lower_branch(branch: &Expr, s: IrState, entry: int, exit: int) -> Result<
    (IrState, ValueView),
    LowerError,
>
    decreases branch, 1int,
{
    match lower_expr(branch, enter_branch(branch, s, entry, exit)) {
        Err(err) => Err(err),
        Ok((t, value)) => Ok((leave_branch(branch, t), value)),
    }
}

/// An expression, by the rule of its kind.
pub open spec fn lower_expr(e: &Expr, s: IrState) -> Result<(IrState, ValueView), LowerError>
    decreases e, 0int,
{
    match e {
        Expr::WhileExpr(w) => lower_while(w, s),
        Expr::LoopExpr(l) => lower_loop(l, s),
        Expr::BlockExpr(b) => lower_block(b, s),
        Expr::IfExpr(i) => lower_if(i, s),
        Expr::AssignExpr(a) => lower_assignment(a, s),
        Expr::BinExpr(b) => lower_binary(b, s),
        Expr::UnaryExpr(u) => lower_unary(u, s),
        Expr::PrimaryExpr(p) => lower_primary(p, s),
    }
}

/// The state in which the condition of a `while` is lowered: the three blocks
/// are there, the block that was current branches to the condition block, the
/// loop scope is pushed and the insertion point is at the condition block.
pub open spec fn while_entered(s: IrState) -> IrState {
    let cond_block = s.next_block();
    let scope = ScopeView {
        kind: ScopeKind::Loop,
        entry_block: cond_block,
        exit_block: cond_block + 2,
    };
    s.append_block().append_block().append_block().emit(InstructionView::Br(cond_block)).push_scope(
        scope,
    ).seek(cond_block)
}

/// The state in which the body of a `loop` is lowered: the two blocks are
/// there, the loop scope is pushed and the insertion point is at the body
/// block.
pub open spec fn loop_entered(s: IrState) -> IrState {
    let body_block = s.next_block();
    let scope = ScopeView {
        kind: ScopeKind::Loop,
        entry_block: body_block,
        exit_block: body_block + 1,
    };
    s.append_block().append_block().push_scope(scope).seek(body_block)
}

/// The state in which the statements of a block are lowered: the two blocks
/// are there, the block that was current branches to the inner block, the
/// block scope is pushed and the insertion point is at the inner block.
pub open spec fn block_entered(s: IrState) -> IrState {
    let inner_block = s.next_block();
    let scope = ScopeView {
        kind: ScopeKind::Block,
        entry_block: inner_block,
        exit_block: inner_block + 1,
    };
    s.append_block().append_block().emit(InstructionView::Br(inner_block)).push_scope(scope).seek(
        inner_block,
    )
}

/// The block that both branches of an `if` lead to, where `s` is the state
/// after the condition.
pub open spec fn if_after_block(i: &If, s: IrState) -> int {
    if i._else is Some {
        s.next_block() + 2
    } else {
        s.next_block() + 1
    }
}

/// The state in which the first branch of an `if` is lowered, but for its
/// scope: `s` is the state after the condition, whose value is `value`. The
/// blocks are there, the block that was current branches on the value, and
/// the insertion point is at the then block.
pub open spec fn if_entered(i: &If, s: IrState, value: ValueView) -> IrState {
    let then_block = s.next_block();
    let blocks = if i._else is Some {
        s.append_block().append_block().append_block()
    } else {
        s.append_block().append_block()
    };
    blocks.emit(InstructionView::Briz(then_block + 1, then_block, value)).seek(then_block)
}

/// The state in which the statements of a program are lowered: the entry
/// block and the filled exit block are there, the root scope is pushed and
/// the insertion point is at the entry block.
pub open spec fn program_entered(s: IrState) -> IrState {
    let entry_block = s.next_block();
    let exit_block = entry_block + 1;
    let scope = ScopeView { kind: ScopeKind::Root, entry_block, exit_block };
    let (s1, code) = emitted(
        s.append_block().append_block().seek(exit_block),
        InstructionView::Iconst(0),
    );
    s1.emit(InstructionView::Reti(code)).push_scope(scope).seek(entry_block)
}

/// `while`: a condition block, a body block and an after block. The current
/// block branches to the condition block; the condition block ends in a
/// branch to the after block on zero and to the body block otherwise; the
/// body ends in a branch back to the condition block. Within condition and
/// body the innermost loop scope runs from the condition block to the after
/// block. The value is the sentinel, emitted in the after block.
pub open spec fn lower_while(w: &While, s: IrState) -> Result<(IrState, ValueView), LowerError>
    decreases w,
{
    let cond_block = s.next_block();
    let body_block = cond_block + 1;
    let after_block = cond_block + 2;
    let s1 = while_entered(s);
    match lower_expr(&w.cond, s1) {
        Err(err) => Err(err),
        Ok((s2, cond)) => {
            let s3 = s2.emit(InstructionView::Briz(after_block, body_block, cond)).seek(body_block);
            match lower_expr(&w.body, s3) {
                Err(err) => Err(err),
                Ok((s4, _)) => {
                    let s5 = s4.emit(InstructionView::Br(cond_block)).pop_scope().seek(after_block);
                    Ok(emitted(s5, void_sentinel()))
                },
            }
        },
    }
}

/// `loop`: a body block and an after block. The body is lowered into the
/// body block and ends in a branch back to it. Within the body the innermost
/// loop scope runs from the body block to the after block. The value is the
/// sentinel, emitted in the after block.
pub open spec fn lower_loop(l: &Loop, s: IrState) -> Result<(IrState, ValueView), LowerError>
    decreases l,
{
    let body_block = s.next_block();
    let after_block = body_block + 1;
    let s1 = loop_entered(s);
    match lower_expr(&l.body, s1) {
        Err(err) => Err(err),
        Ok((s2, _)) => {
            let s3 = s2.emit(InstructionView::Br(body_block)).pop_scope().seek(after_block);
            Ok(emitted(s3, void_sentinel()))
        },
    }
}

/// The statements of `statements` from index `from` on, in order.
pub open spec fn lower_statements(statements: &Vec<Statement>, from: int, s: IrState) -> Result<
    IrState,
    LowerError,
>
    decreases statements, statements.len() - from,
{
    if 0 <= from < statements.len() {
        match lower_statement(&statements[from], s) {
            Err(err) => Err(err),
            Ok(s1) => lower_statements(statements, from + 1, s1),
        }
    } else {
        Ok(s)
    }
}

/// A block: an inner block and an after block. The current block branches to
/// the inner block; statements and tail are lowered there under a block
/// scope from the inner block to the after block, and end in a branch to the
/// after block. The value is that of the tail; without a tail it is the
/// sentinel, emitted in the after block.
pub open spec fn lower_block(b: &Block, s: IrState) -> Result<(IrState, ValueView), LowerError>
    decreases b,
{
    let inner_block = s.next_block();
    let after_block = inner_block + 1;
    let s1 = block_entered(s);
    match lower_statements(&b.body, 0, s1) {
        Err(err) => Err(err),
        Ok(s2) => match b.ret {
            Some(tail) => match lower_expr(&tail, s2) {
                Err(err) => Err(err),
                Ok((s3, value)) => Ok(
                    (
                        s3.emit(InstructionView::Br(after_block)).pop_scope().seek(after_block),
                        value,
                    ),
                ),
            },
            None => Ok(
                emitted(
                    s2.emit(InstructionView::Br(after_block)).pop_scope().seek(after_block),
                    void_sentinel(),
                ),
            ),
        },
    }
}

/// `if`: the condition is lowered in the current block, which then branches
/// to the else block on zero and to the then block otherwise. Each branch is
/// lowered in its block and ends in a branch to the after block. Without an
/// `else` the else block is the after block. The value is the sentinel,
/// emitted in the after block.
pub open spec fn lower_if(i: &If, s: IrState) -> Result<(IrState, ValueView), LowerError>
    decreases i,
{
    match i {
        If { cond, then: first, _else: last, .. } => match lower_expr(cond, s) {
            Err(err) => Err(err),
            Ok((s1, value)) => {
                let then_block = s1.next_block();
                let else_block = then_block + 1;
                let after_block = if_after_block(i, s1);
                let s3 = if_entered(i, s1, value);
                match lower_branch(first, s3, then_block, after_block) {
                    Err(err) => Err(err),
                    Ok((s4, _)) => {
                        let s5 = s4.emit(InstructionView::Br(after_block)).seek(else_block);
                        match last {
                            None => Ok(emitted(s5, void_sentinel())),
                            Some(second) => match lower_branch(
                                second,
                                s5,
                                else_block,
                                after_block,
                            ) {
                                Err(err) => Err(err),
                                Ok((s6, _)) => Ok(
                                    emitted(
                                        s6.emit(InstructionView::Br(after_block)).seek(after_block),
                                        void_sentinel(),
                                    ),
                                ),
                            },
                        }
                    },
                }
            },
        },
    }
}

/// An assignment: the value is lowered, then written to the slot that the
/// name stands for at that point. The write yields the written value.
pub open spec fn lower_assignment(a: &Assignment, s: IrState) -> Result<
    (IrState, ValueView),
    LowerError,
>
    decreases a,
{
    match lower_expr(&a.value, s) {
        Err(err) => Err(err),
        Ok((s1, value)) => match resolve_variable(s1.variables, a.name.text@) {
            None => Err(LowerError::UndeclaredVariable),
            Some(slot) => Ok(emitted(s1, InstructionView::Varset(slot, value))),
        },
    }
}

/// A binary expression: the left operand, then the right operand, then the
/// operation on their two values.
pub open spec fn lower_binary(b: &BinExpr, s: IrState) -> Result<(IrState, ValueView), LowerError>
    decreases b,
{
    match lower_expr(&b.left, s) {
        Err(err) => Err(err),
        Ok((s1, left)) => match lower_expr(&b.right, s1) {
            Err(err) => Err(err),
            Ok((s2, right)) => Ok(
                emitted(s2, InstructionView::Binary(Opcode::of(b.op.kind), left, right)),
            ),
        },
    }
}

/// A unary expression: `+` leaves the operand's value as it is, `-` takes it
/// from a zero that is emitted after the operand.
pub open spec fn lower_unary(u: &UnaryExpr, s: IrState) -> Result<(IrState, ValueView), LowerError>
    decreases u,
{
    match lower_primary(&u.primary, s) {
        Err(err) => Err(err),
        Ok((s1, operand)) => match u.op.kind {
            UnaryOpKind::Plus => Ok((s1, operand)),
            UnaryOpKind::Minus => {
                let (s2, zero) = emitted(s1, InstructionView::Iconst(0));
                Ok(emitted(s2, InstructionView::Binary(Opcode::Sub, zero, operand)))
            },
        },
    }
}

/// A primary expression: an identifier reads the slot that its name stands
/// for, an integer literal is a constant, the void literal is the sentinel,
/// and parentheses add nothing to what they enclose.
pub open spec fn lower_primary(p: &PrimaryExpr, s: IrState) -> Result<
    (IrState, ValueView),
    LowerError,
>
    decreases p,
{
    match p {
        PrimaryExpr::Call(c) => lower_call(c, s),
        PrimaryExpr::Ident(name) => match resolve_variable(s.variables, name.text@) {
            None => Err(LowerError::UndeclaredVariable),
            Some(slot) => Ok(emitted(s, InstructionView::Varget(slot))),
        },
        PrimaryExpr::IntLit(literal) => Ok(emitted(s, InstructionView::Iconst(literal.value))),
        PrimaryExpr::VoidLit(_) => Ok(emitted(s, void_sentinel())),
        PrimaryExpr::Paren(inner) => lower_expr(&inner.expr, s),
    }
}

/// The arguments of `arguments` from index `from` on, in order; their values
/// are added to `values`.
pub open spec fn lower_arguments(
    arguments: &Vec<(Token, Expr)>,
    from: int,
    s: IrState,
    values: Seq<ValueView>,
) -> Result<(IrState, Seq<ValueView>), LowerError>
    decreases arguments, arguments.len() - from,
{
    if 0 <= from < arguments.len() {
        match lower_expr(&arguments[from].1, s) {
            Err(err) => Err(err),
            Ok((s1, value)) => lower_arguments(arguments, from + 1, s1, values.push(value)),
        }
    } else {
        Ok((s, values))
    }
}

/// The call instruction itself, emitted once the arguments are lowered.
pub open spec fn call_emitted(
    c: &Call,
    arguments: Result<(IrState, Seq<ValueView>), LowerError>,
) -> Result<(IrState, ValueView), LowerError> {
    match arguments {
        Err(err) => Err(err),
        Ok((s, values)) => Ok(emitted(s, InstructionView::Call(c.name.text@, values))),
    }
}

/// A call: the first argument, then the others in order, then the call on
/// the values of all of them.
pub open spec fn lower_call(c: &Call, s: IrState) -> Result<(IrState, ValueView), LowerError>
    decreases c,
{
    let first = match c.first_arg {
        Some(argument) => match lower_expr(&argument, s) {
            Err(err) => Err(err),
            Ok((s1, value)) => Ok((s1, seq![value])),
        },
        None => Ok((s, Seq::<ValueView>::empty())),
    };
    match first {
        Err(err) => Err(err),
        Ok((s1, values)) => call_emitted(c, lower_arguments(&c.other_args, 0, s1, values)),
    }
}

/// A statement. A `return` lowers its expression and returns its value. A
/// `break` branches to the exit block of the innermost loop scope, a
/// `continue` to its entry block; both fail where there is none. A lone `;`
/// emits nothing. A declaration takes the next slot: with a bare integer
/// literal as initializer the literal is the initial value and nothing is
/// emitted; otherwise the initial value is zero, and an initializer is
/// lowered and written to the slot. An expression statement lowers its
/// expression and drops the value.
pub open spec fn lower_statement(statement: &Statement, s: IrState) -> Result<IrState, LowerError>
    decreases statement,
{
    match statement {
        Statement::Return(r) => match lower_expr(&r.value, s) {
            Err(err) => Err(err),
            Ok((s1, value)) => Ok(s1.emit(InstructionView::Reti(value))),
        },
        Statement::Break(_) => match nearest_scope(s.scopes, ScopeKind::Loop) {
            None => Err(LowerError::BreakOutsideLoop),
            Some(scope) => Ok(s.emit(InstructionView::Br(scope.exit_block))),
        },
        Statement::Continue(_) => match nearest_scope(s.scopes, ScopeKind::Loop) {
            None => Err(LowerError::ContinueOutsideLoop),
            Some(scope) => Ok(s.emit(InstructionView::Br(scope.entry_block))),
        },
        Statement::Noop(_) => Ok(s),
        Statement::VarDecl(d) => match d.value {
            None => Ok(s.declare(d.name.text@, 0)),
            Some(Expr::PrimaryExpr(PrimaryExpr::IntLit(literal))) => Ok(
                s.declare(d.name.text@, literal.value),
            ),
            Some(initializer) => match lower_expr(&initializer, s.declare(d.name.text@, 0)) {
                Err(err) => Err(err),
                Ok((s1, value)) => Ok(s1.emit(InstructionView::Varset(s.next_slot(), value))),
            },
        },
        Statement::Expr(statement) => match lower_expr(&statement.expr, s) {
            Err(err) => Err(err),
            Ok((s1, _)) => Ok(s1),
        },
    }
}

/// A program: an entry block and an exit block. The exit block is filled
/// first, with a zero and the return of it. The statements are lowered from
/// the entry block on under the root scope, and end in a branch to the exit
/// block.
pub open spec fn lower_program(program: &Program, s: IrState) -> Result<IrState, LowerError> {
    let exit_block = s.next_block() + 1;
    let s2 = program_entered(s);
    match lower_statements(&program.0, 0, s2) {
        Err(err) => Err(err),
        Ok(s3) => Ok(s3.pop_scope().emit(InstructionView::Br(exit_block))),
    }
}

} // verus!
