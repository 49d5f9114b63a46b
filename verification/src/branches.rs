//! Where branches lead: how often the instructions of a generator name a
//! block as a branch target, and what lowering adds to that number.
//!
//! A `break` or `continue` belongs to the innermost loop around it. The
//! branches that lowering adds to a block that was there before are those of
//! the jumps that belong to the loop around the construct, and no others.

use vstd::prelude::*;
use crate::ast::{
    Assignment, BinExpr, Block, Call, Expr, If, Loop, PrimaryExpr, Program, Statement, UnaryExpr,
    While,
};
use crate::frame::{
    lemma_arguments_settle, lemma_branch_settles, lemma_expr_settles, lemma_primary_settles,
    lemma_statement_settles, lemma_statements_settle,
};
use crate::generator::IrState;
use crate::ir::{InstructionView, ValueView};
use crate::lowering::{
    block_entered, enter_branch, if_after_block, if_entered, loop_entered,
    lower_arguments, lower_assignment, lower_binary, lower_block, lower_branch, lower_call,
    lower_expr, lower_if, lower_loop, lower_primary, lower_program, lower_statement,
    lower_statements, lower_unary, lower_while, program_entered, void_sentinel, while_entered,
};
use crate::scope::{lemma_nearest_scope, nearest_scope, ScopeKind, ScopeView};
use crate::token::Token;

verus! {

/// The two statements that jump to a block of the loop around them.
pub enum Jump {
    Break,
    Continue,
}

/// How many jumps of the given kind in the expression belong to the loop
/// around the expression: those that no loop inside the expression encloses.
pub open spec fn jumps_in_expr(e: &Expr, jump: Jump) -> nat
    decreases e,
{
    match e {
        Expr::WhileExpr(_) => 0,
        Expr::LoopExpr(_) => 0,
        Expr::BlockExpr(b) => jumps_in_block(b, jump),
        Expr::IfExpr(i) => jumps_in_if(i, jump),
        Expr::AssignExpr(a) => jumps_in_expr(&a.value, jump),
        Expr::BinExpr(b) => jumps_in_expr(&b.left, jump) + jumps_in_expr(&b.right, jump),
        Expr::UnaryExpr(u) => jumps_in_primary(&u.primary, jump),
        Expr::PrimaryExpr(p) => jumps_in_primary(p, jump),
    }
}

pub open spec fn jumps_in_block(b: &Block, jump: Jump) -> nat
    decreases b,
{
    jumps_in_statements(&b.body, 0, jump) + match b.ret {
        Some(tail) => jumps_in_expr(&tail, jump),
        None => 0nat,
    }
}

pub open spec fn jumps_in_if(i: &If, jump: Jump) -> nat
    decreases i,
{
    match i {
        If { cond, then: first, _else: last, .. } => jumps_in_expr(cond, jump) + jumps_in_expr(
            first,
            jump,
        ) + match last {
            Some(second) => jumps_in_expr(second, jump),
            None => 0nat,
        },
    }
}

pub open spec fn jumps_in_primary(p: &PrimaryExpr, jump: Jump) -> nat
    decreases p,
{
    match p {
        PrimaryExpr::Call(c) => jumps_in_call(c, jump),
        PrimaryExpr::Paren(inner) => jumps_in_expr(&inner.expr, jump),
        _ => 0,
    }
}

pub open spec fn jumps_in_call(c: &Call, jump: Jump) -> nat
    decreases c,
{
    jumps_in_arguments(&c.other_args, 0, jump) + match c.first_arg {
        Some(argument) => jumps_in_expr(&argument, jump),
        None => 0nat,
    }
}

pub open spec fn jumps_in_arguments(arguments: &Vec<(Token, Expr)>, from: int, jump: Jump) -> nat
    decreases arguments, arguments.len() - from,
{
    if 0 <= from < arguments.len() {
        jumps_in_expr(&arguments[from].1, jump) + jumps_in_arguments(arguments, from + 1, jump)
    } else {
        0
    }
}

pub open spec fn jumps_in_statement(statement: &Statement, jump: Jump) -> nat
    decreases statement,
{
    match statement {
        Statement::Return(r) => jumps_in_expr(&r.value, jump),
        Statement::Break(_) => if jump is Break {
            1
        } else {
            0
        },
        Statement::Continue(_) => if jump is Continue {
            1
        } else {
            0
        },
        Statement::Noop(_) => 0,
        Statement::VarDecl(d) => match d.value {
            Some(initializer) => jumps_in_expr(&initializer, jump),
            None => 0,
        },
        Statement::Expr(statement) => jumps_in_expr(&statement.expr, jump),
    }
}

pub open spec fn jumps_in_statements(statements: &Vec<Statement>, from: int, jump: Jump) -> nat
    decreases statements, statements.len() - from,
{
    if 0 <= from < statements.len() {
        jumps_in_statement(&statements[from], jump) + jumps_in_statements(
            statements,
            from + 1,
            jump,
        )
    } else {
        0
    }
}

/// How many times the instructions of one block name `block` as a branch
/// target.
pub open spec fn block_branches_to(instructions: Seq<InstructionView>, block: int) -> nat
    decreases instructions.len(),
{
    if instructions.len() == 0 {
        0
    } else {
        block_branches_to(instructions.drop_last(), block) + instructions.last().branches_to(block)
    }
}

/// How many times the instructions of all blocks name `block` as a branch
/// target.
pub open spec fn branches_to(blocks: Seq<Seq<InstructionView>>, block: int) -> nat
    decreases blocks.len(),
{
    if blocks.len() == 0 {
        0
    } else {
        branches_to(blocks.drop_last(), block) + block_branches_to(blocks.last(), block)
    }
}

proof fn lemma_blocks_update(
    blocks: Seq<Seq<InstructionView>>,
    at: int,
    with: Seq<InstructionView>,
    block: int,
)
    requires
        0 <= at < blocks.len(),
    ensures
        branches_to(blocks.update(at, with), block) + block_branches_to(blocks[at], block)
            == branches_to(blocks, block) + block_branches_to(with, block),
    decreases blocks.len(),
{
    if at == blocks.len() - 1 {
        assert(blocks.update(at, with).drop_last() =~= blocks.drop_last());
    } else {
        lemma_blocks_update(blocks.drop_last(), at, with, block);
        assert(blocks.update(at, with).drop_last() =~= blocks.drop_last().update(at, with));
    }
}

/// An emitted instruction adds its own branches and nothing else.
pub proof fn lemma_emit_branches(s: IrState, instruction: InstructionView, block: int)
    requires
        s.positioned(),
    ensures
        branches_to(s.emit(instruction).blocks, block) == branches_to(s.blocks, block)
            + instruction.branches_to(block),
{
    let old_block = s.blocks[s.current];
    assert(old_block.push(instruction).drop_last() =~= old_block);
    lemma_blocks_update(s.blocks, s.current, old_block.push(instruction), block);
}

/// A new block adds no branch.
pub proof fn lemma_append_branches(s: IrState, block: int)
    ensures
        branches_to(s.append_block().blocks, block) == branches_to(s.blocks, block),
{
    assert(s.append_block().blocks.drop_last() =~= s.blocks);
}

/// Every scope on the stack runs between blocks that exist.
pub open spec fn scopes_bounded(s: IrState) -> bool {
    forall|i: int|
        0 <= i < s.scopes.len() ==> {
            &&& 0 <= (#[trigger] s.scopes[i]).entry_block < s.blocks.len()
            &&& 0 <= s.scopes[i].exit_block < s.blocks.len()
        }
}

proof fn lemma_nearest_bounded(s: IrState)
    requires
        scopes_bounded(s),
    ensures
        nearest_scope(s.scopes, ScopeKind::Loop) matches Some(scope) ==> {
            &&& 0 <= scope.entry_block < s.blocks.len()
            &&& 0 <= scope.exit_block < s.blocks.len()
        },
{
    lemma_nearest_scope(s.scopes, ScopeKind::Loop);
}

/// The branches that `breaks` breaks and `continues` continues add to a
/// block, under the given scope stack.
pub open spec fn jumps_to(scopes: Seq<ScopeView>, block: int, breaks: nat, continues: nat) -> nat {
    match nearest_scope(scopes, ScopeKind::Loop) {
        None => 0,
        Some(scope) => (if scope.exit_block == block {
            breaks
        } else {
            0
        }) + (if scope.entry_block == block {
            continues
        } else {
            0
        }),
    }
}

/// `block` is not among the blocks that were added between `s` and `t`.
pub open spec fn not_added(s: IrState, t: IrState, block: int) -> bool {
    block < s.blocks.len() || block >= t.blocks.len()
}

/// Between `s` and `t` the branches to `block` grew by those of the jumps,
/// and where no loop is around there are no jumps.
pub open spec fn accounted(s: IrState, t: IrState, block: int, breaks: nat, continues: nat) -> bool {
    &&& not_added(s, t, block) ==> branches_to(t.blocks, block) == branches_to(s.blocks, block)
        + jumps_to(s.scopes, block, breaks, continues)
    &&& nearest_scope(s.scopes, ScopeKind::Loop) is None ==> breaks == 0 && continues == 0
}

/// What lowering an expression adds to the branches to a block that it did
/// not add itself: one branch to the exit of the loop around it for each
/// `break` that belongs to that loop, one to the entry of that loop for each
/// such `continue`, and nothing else. If it succeeds with no loop around it,
/// it holds no such jump.
pub proof fn lemma_expr_accounted(e: &Expr, s: IrState, block: int)
    requires
        s.positioned(),
        scopes_bounded(s),
    ensures
        lower_expr(e, s) matches Ok((t, _)) ==> accounted(
            s,
            t,
            block,
            jumps_in_expr(e, Jump::Break),
            jumps_in_expr(e, Jump::Continue),
        ),
    decreases e, 0int,
{
    match e {
        Expr::WhileExpr(w) => lemma_while_accounted(w, s, block),
        Expr::LoopExpr(l) => lemma_loop_accounted(l, s, block),
        Expr::BlockExpr(b) => lemma_block_accounted(b, s, block),
        Expr::IfExpr(i) => lemma_if_accounted(i, s, block),
        Expr::AssignExpr(a) => lemma_assignment_accounted(a, s, block),
        Expr::BinExpr(b) => lemma_binary_accounted(b, s, block),
        Expr::UnaryExpr(u) => lemma_unary_accounted(u, s, block),
        Expr::PrimaryExpr(p) => lemma_primary_accounted(p, s, block),
    }
}

proof fn lemma_while_entered(s: IrState, block: int)
    requires
        s.positioned(),
        scopes_bounded(s),
    ensures
        while_entered(s).positioned(),
        scopes_bounded(while_entered(s)),
        while_entered(s).blocks.len() == s.blocks.len() + 3,
        nearest_scope(while_entered(s).scopes, ScopeKind::Loop) == Some(
            ScopeView {
                kind: ScopeKind::Loop,
                entry_block: s.next_block(),
                exit_block: s.next_block() + 2,
            },
        ),
        branches_to(while_entered(s).blocks, block) == branches_to(s.blocks, block) + (if block
            == s.next_block() {
            1nat
        } else {
            0nat
        }),
{
    let a1 = s.append_block();
    let a2 = a1.append_block();
    let a3 = a2.append_block();
    lemma_append_branches(s, block);
    lemma_append_branches(a1, block);
    lemma_append_branches(a2, block);
    lemma_emit_branches(a3, InstructionView::Br(s.next_block()), block);
}

/// The branches to the three blocks of a `while`, and to every block that
/// the loop did not add, once the loop is lowered.
pub open spec fn while_accounted(w: &While, s: IrState, t: IrState, block: int) -> bool {
    let cond_block = s.next_block();
    branches_to(t.blocks, block) == branches_to(s.blocks, block) + (if block == cond_block {
        2 + jumps_in_expr(&w.cond, Jump::Continue) + jumps_in_expr(&w.body, Jump::Continue)
    } else if block == cond_block + 1 {
        1
    } else if block == cond_block + 2 {
        1 + jumps_in_expr(&w.cond, Jump::Break) + jumps_in_expr(&w.body, Jump::Break)
    } else {
        0
    })
}

proof fn lemma_while_accounted(w: &While, s: IrState, block: int)
    requires
        s.positioned(),
        scopes_bounded(s),
    ensures
        lower_while(w, s) matches Ok((t, _)) ==> accounted(s, t, block, 0, 0) && (block
            < s.blocks.len() + 3 || block >= t.blocks.len() ==> while_accounted(w, s, t, block)),
    decreases w,
{
    let n = s.next_block();
    let s1 = while_entered(s);
    lemma_while_entered(s, block);
    lemma_expr_settles(&w.cond, s1);
    lemma_expr_accounted(&w.cond, s1, block);
    match lower_expr(&w.cond, s1) {
        Err(_) => {},
        Ok((s2, cond)) => {
            let branch = InstructionView::Briz(n + 2, n + 1, cond);
            let s3 = s2.emit(branch).seek(n + 1);
            lemma_emit_branches(s2, branch, block);
            lemma_expr_settles(&w.body, s3);
            lemma_expr_accounted(&w.body, s3, block);
            match lower_expr(&w.body, s3) {
                Err(_) => {},
                Ok((s4, _)) => {
                    lemma_emit_branches(s4, InstructionView::Br(n), block);
                    let s5 = s4.emit(InstructionView::Br(n)).pop_scope().seek(n + 2);
                    lemma_emit_branches(s5, void_sentinel(), block);
                },
            }
        },
    }
}

proof fn lemma_loop_entered(s: IrState, block: int)
    requires
        s.positioned(),
        scopes_bounded(s),
    ensures
        loop_entered(s).positioned(),
        scopes_bounded(loop_entered(s)),
        loop_entered(s).blocks.len() == s.blocks.len() + 2,
        nearest_scope(loop_entered(s).scopes, ScopeKind::Loop) == Some(
            ScopeView {
                kind: ScopeKind::Loop,
                entry_block: s.next_block(),
                exit_block: s.next_block() + 1,
            },
        ),
        branches_to(loop_entered(s).blocks, block) == branches_to(s.blocks, block),
{
    let a1 = s.append_block();
    lemma_append_branches(s, block);
    lemma_append_branches(a1, block);
}

/// The branches to the two blocks of a `loop`, and to every block that the
/// loop did not add, once the loop is lowered.
pub open spec fn loop_accounted(l: &Loop, s: IrState, t: IrState, block: int) -> bool {
    let body_block = s.next_block();
    branches_to(t.blocks, block) == branches_to(s.blocks, block) + (if block == body_block {
        1 + jumps_in_expr(&l.body, Jump::Continue)
    } else if block == body_block + 1 {
        jumps_in_expr(&l.body, Jump::Break)
    } else {
        0
    })
}

proof fn lemma_loop_accounted(l: &Loop, s: IrState, block: int)
    requires
        s.positioned(),
        scopes_bounded(s),
    ensures
        lower_loop(l, s) matches Ok((t, _)) ==> accounted(s, t, block, 0, 0) && (block
            < s.blocks.len() + 2 || block >= t.blocks.len() ==> loop_accounted(l, s, t, block)),
    decreases l,
{
    let n = s.next_block();
    let s1 = loop_entered(s);
    lemma_loop_entered(s, block);
    lemma_expr_settles(&l.body, s1);
    lemma_expr_accounted(&l.body, s1, block);
    match lower_expr(&l.body, s1) {
        Err(_) => {},
        Ok((s2, _)) => {
            lemma_emit_branches(s2, InstructionView::Br(n), block);
            let s3 = s2.emit(InstructionView::Br(n)).pop_scope().seek(n + 1);
            lemma_emit_branches(s3, void_sentinel(), block);
        },
    }
}

/// What lowering statements adds to the branches to a block, as for an
/// expression.
pub proof fn lemma_statements_accounted(
    statements: &Vec<Statement>,
    from: int,
    s: IrState,
    block: int,
)
    requires
        s.positioned(),
        scopes_bounded(s),
    ensures
        lower_statements(statements, from, s) matches Ok(t) ==> accounted(
            s,
            t,
            block,
            jumps_in_statements(statements, from, Jump::Break),
            jumps_in_statements(statements, from, Jump::Continue),
        ),
    decreases statements, statements.len() - from,
{
    if 0 <= from < statements.len() {
        lemma_statement_settles(&statements[from], s);
        lemma_statement_accounted(&statements[from], s, block);
        match lower_statement(&statements[from], s) {
            Err(_) => {},
            Ok(s1) => {
                lemma_statements_settle(statements, from + 1, s1);
                lemma_statements_accounted(statements, from + 1, s1, block);
            },
        }
    }
}

proof fn lemma_block_entered(s: IrState, block: int)
    requires
        s.positioned(),
        scopes_bounded(s),
    ensures
        block_entered(s).positioned(),
        scopes_bounded(block_entered(s)),
        block_entered(s).blocks.len() == s.blocks.len() + 2,
        nearest_scope(block_entered(s).scopes, ScopeKind::Loop) == nearest_scope(
            s.scopes,
            ScopeKind::Loop,
        ),
        branches_to(block_entered(s).blocks, block) == branches_to(s.blocks, block) + (if block
            == s.next_block() {
            1nat
        } else {
            0nat
        }),
{
    let a1 = s.append_block();
    let a2 = a1.append_block();
    lemma_append_branches(s, block);
    lemma_append_branches(a1, block);
    lemma_emit_branches(a2, InstructionView::Br(s.next_block()), block);
    assert(block_entered(s).scopes.drop_last() =~= s.scopes);
}

proof fn lemma_block_accounted(b: &Block, s: IrState, block: int)
    requires
        s.positioned(),
        scopes_bounded(s),
    ensures
        lower_block(b, s) matches Ok((t, _)) ==> accounted(
            s,
            t,
            block,
            jumps_in_block(b, Jump::Break),
            jumps_in_block(b, Jump::Continue),
        ),
    decreases b,
{
    let n = s.next_block();
    let s1 = block_entered(s);
    lemma_block_entered(s, block);
    lemma_statements_settle(&b.body, 0, s1);
    lemma_statements_accounted(&b.body, 0, s1, block);
    match lower_statements(&b.body, 0, s1) {
        Err(_) => {},
        Ok(s2) => {
            match b.ret {
                Some(tail) => {
                    lemma_expr_settles(&tail, s2);
                    lemma_expr_accounted(&tail, s2, block);
                    match lower_expr(&tail, s2) {
                        Err(_) => {},
                        Ok((s3, _)) => {
                            lemma_emit_branches(s3, InstructionView::Br(n + 1), block);
                        },
                    }
                },
                None => {
                    lemma_emit_branches(s2, InstructionView::Br(n + 1), block);
                    let s3 = s2.emit(InstructionView::Br(n + 1)).pop_scope().seek(n + 1);
                    lemma_emit_branches(s3, void_sentinel(), block);
                },
            }
        },
    }
}

proof fn lemma_branch_accounted(branch: &Expr, s: IrState, entry: int, exit: int, block: int)
    requires
        s.positioned(),
        scopes_bounded(s),
        0 <= entry < s.blocks.len(),
        0 <= exit < s.blocks.len(),
    ensures
        lower_branch(branch, s, entry, exit) matches Ok((t, _)) ==> accounted(
            s,
            t,
            block,
            jumps_in_expr(branch, Jump::Break),
            jumps_in_expr(branch, Jump::Continue),
        ),
    decreases branch, 1int,
{
    let s1 = enter_branch(branch, s, entry, exit);
    if !(branch is BlockExpr) {
        assert(s1.scopes.drop_last() =~= s.scopes);
    }
    lemma_expr_accounted(branch, s1, block);
}

proof fn lemma_if_entered(i: &If, s: IrState, value: ValueView, block: int)
    requires
        s.positioned(),
        scopes_bounded(s),
    ensures
        if_entered(i, s, value).positioned(),
        scopes_bounded(if_entered(i, s, value)),
        if_entered(i, s, value).scopes == s.scopes,
        if_entered(i, s, value).blocks.len() == if_after_block(i, s) + 1,
        branches_to(if_entered(i, s, value).blocks, block) == branches_to(s.blocks, block) + (
        if block == s.next_block() {
            1nat
        } else {
            0nat
        }) + (if block == s.next_block() + 1 {
            1nat
        } else {
            0nat
        }),
{
    let n = s.next_block();
    let a1 = s.append_block();
    let a2 = a1.append_block();
    let a3 = a2.append_block();
    lemma_append_branches(s, block);
    lemma_append_branches(a1, block);
    lemma_append_branches(a2, block);
    let branch = InstructionView::Briz(n + 1, n, value);
    if i._else is Some {
        lemma_emit_branches(a3, branch, block);
    } else {
        lemma_emit_branches(a2, branch, block);
    }
}

proof fn lemma_if_accounted(i: &If, s: IrState, block: int)
    requires
        s.positioned(),
        scopes_bounded(s),
    ensures
        lower_if(i, s) matches Ok((t, _)) ==> accounted(
            s,
            t,
            block,
            jumps_in_if(i, Jump::Break),
            jumps_in_if(i, Jump::Continue),
        ),
    decreases i,
{
    match i {
        If { cond, then: first, _else: last, .. } => {
            lemma_expr_settles(cond, s);
            lemma_expr_accounted(cond, s, block);
            match lower_expr(cond, s) {
                Err(_) => {},
                Ok((s1, value)) => {
                    let then_block = s1.next_block();
                    let else_block = then_block + 1;
                    let after_block = if_after_block(i, s1);
                    let s3 = if_entered(i, s1, value);
                    lemma_if_entered(i, s1, value, block);
                    lemma_branch_settles(first, s3, then_block, after_block);
                    lemma_branch_accounted(first, s3, then_block, after_block, block);
                    match lower_branch(first, s3, then_block, after_block) {
                        Err(_) => {},
                        Ok((s4, _)) => {
                            let s5 = s4.emit(InstructionView::Br(after_block)).seek(else_block);
                            lemma_emit_branches(s4, InstructionView::Br(after_block), block);
                            match last {
                                None => {
                                    lemma_emit_branches(s5, void_sentinel(), block);
                                },
                                Some(second) => {
                                    lemma_branch_settles(second, s5, else_block, after_block);
                                    lemma_branch_accounted(
                                        second,
                                        s5,
                                        else_block,
                                        after_block,
                                        block,
                                    );
                                    match lower_branch(second, s5, else_block, after_block) {
                                        Err(_) => {},
                                        Ok((s6, _)) => {
                                            let s7 = s6.emit(InstructionView::Br(after_block)).seek(
                                                after_block,
                                            );
                                            lemma_emit_branches(
                                                s6,
                                                InstructionView::Br(after_block),
                                                block,
                                            );
                                            lemma_emit_branches(s7, void_sentinel(), block);
                                        },
                                    }
                                },
                            }
                        },
                    }
                },
            }
        },
    }
}

proof fn lemma_assignment_accounted(a: &Assignment, s: IrState, block: int)
    requires
        s.positioned(),
        scopes_bounded(s),
    ensures
        lower_assignment(a, s) matches Ok((t, _)) ==> accounted(
            s,
            t,
            block,
            jumps_in_expr(&a.value, Jump::Break),
            jumps_in_expr(&a.value, Jump::Continue),
        ),
    decreases a,
{
    lemma_expr_settles(&a.value, s);
    lemma_expr_accounted(&a.value, s, block);
    match lower_assignment(a, s) {
        Err(_) => {},
        Ok((t, value)) => {
            let s1 = lower_expr(&a.value, s)->Ok_0.0;
            lemma_emit_branches(s1, t.blocks[t.current].last(), block);
        },
    }
}

proof fn lemma_binary_accounted(b: &BinExpr, s: IrState, block: int)
    requires
        s.positioned(),
        scopes_bounded(s),
    ensures
        lower_binary(b, s) matches Ok((t, _)) ==> accounted(
            s,
            t,
            block,
            jumps_in_expr(&b.left, Jump::Break) + jumps_in_expr(&b.right, Jump::Break),
            jumps_in_expr(&b.left, Jump::Continue) + jumps_in_expr(&b.right, Jump::Continue),
        ),
    decreases b,
{
    lemma_expr_settles(&b.left, s);
    lemma_expr_accounted(&b.left, s, block);
    match lower_expr(&b.left, s) {
        Err(_) => {},
        Ok((s1, _)) => {
            lemma_expr_settles(&b.right, s1);
            lemma_expr_accounted(&b.right, s1, block);
            match lower_expr(&b.right, s1) {
                Err(_) => {},
                Ok((s2, _)) => {
                    let t = lower_binary(b, s)->Ok_0.0;
                    lemma_emit_branches(s2, t.blocks[t.current].last(), block);
                },
            }
        },
    }
}

proof fn lemma_unary_accounted(u: &UnaryExpr, s: IrState, block: int)
    requires
        s.positioned(),
        scopes_bounded(s),
    ensures
        lower_unary(u, s) matches Ok((t, _)) ==> accounted(
            s,
            t,
            block,
            jumps_in_primary(&u.primary, Jump::Break),
            jumps_in_primary(&u.primary, Jump::Continue),
        ),
    decreases u,
{
    lemma_primary_settles(&u.primary, s);
    lemma_primary_accounted(&u.primary, s, block);
    match lower_primary(&u.primary, s) {
        Err(_) => {},
        Ok((s1, operand)) => {
            let s2 = s1.emit(InstructionView::Iconst(0));
            lemma_emit_branches(s1, InstructionView::Iconst(0), block);
            lemma_emit_branches(
                s2,
                InstructionView::Binary(crate::ir::Opcode::Sub, s2.last_value(), operand),
                block,
            );
        },
    }
}

proof fn lemma_primary_accounted(p: &PrimaryExpr, s: IrState, block: int)
    requires
        s.positioned(),
        scopes_bounded(s),
    ensures
        lower_primary(p, s) matches Ok((t, _)) ==> accounted(
            s,
            t,
            block,
            jumps_in_primary(p, Jump::Break),
            jumps_in_primary(p, Jump::Continue),
        ),
    decreases p,
{
    match p {
        PrimaryExpr::Call(c) => lemma_call_accounted(c, s, block),
        PrimaryExpr::Paren(inner) => lemma_expr_accounted(&inner.expr, s, block),
        _ => {
            match lower_primary(p, s) {
                Err(_) => {},
                Ok((t, _)) => {
                    lemma_emit_branches(s, t.blocks[t.current].last(), block);
                },
            }
        },
    }
}

proof fn lemma_arguments_accounted(
    arguments: &Vec<(Token, Expr)>,
    from: int,
    s: IrState,
    values: Seq<ValueView>,
    block: int,
)
    requires
        s.positioned(),
        scopes_bounded(s),
    ensures
        lower_arguments(arguments, from, s, values) matches Ok((t, _)) ==> accounted(
            s,
            t,
            block,
            jumps_in_arguments(arguments, from, Jump::Break),
            jumps_in_arguments(arguments, from, Jump::Continue),
        ),
    decreases arguments, arguments.len() - from,
{
    if 0 <= from < arguments.len() {
        lemma_expr_settles(&arguments[from].1, s);
        lemma_expr_accounted(&arguments[from].1, s, block);
        match lower_expr(&arguments[from].1, s) {
            Err(_) => {},
            Ok((s1, value)) => {
                lemma_arguments_settle(arguments, from + 1, s1, values.push(value));
                lemma_arguments_accounted(arguments, from + 1, s1, values.push(value), block);
            },
        }
    }
}

proof fn lemma_call_accounted(c: &Call, s: IrState, block: int)
    requires
        s.positioned(),
        scopes_bounded(s),
    ensures
        lower_call(c, s) matches Ok((t, _)) ==> accounted(
            s,
            t,
            block,
            jumps_in_call(c, Jump::Break),
            jumps_in_call(c, Jump::Continue),
        ),
    decreases c,
{
    let (s1, values) = match c.first_arg {
        Some(argument) => {
            lemma_expr_settles(&argument, s);
            lemma_expr_accounted(&argument, s, block);
            match lower_expr(&argument, s) {
                Err(_) => (s, Seq::<ValueView>::empty()),
                Ok((s1, value)) => (s1, seq![value]),
            }
        },
        None => (s, Seq::<ValueView>::empty()),
    };
    match lower_call(c, s) {
        Err(_) => {},
        Ok((t, _)) => {
            lemma_arguments_settle(&c.other_args, 0, s1, values);
            lemma_arguments_accounted(&c.other_args, 0, s1, values, block);
            let s2 = lower_arguments(&c.other_args, 0, s1, values)->Ok_0.0;
            lemma_emit_branches(s2, t.blocks[t.current].last(), block);
        },
    }
}

/// What lowering a statement adds to the branches to a block, as for an
/// expression.
pub proof fn lemma_statement_accounted(statement: &Statement, s: IrState, block: int)
    requires
        s.positioned(),
        scopes_bounded(s),
    ensures
        lower_statement(statement, s) matches Ok(t) ==> accounted(
            s,
            t,
            block,
            jumps_in_statement(statement, Jump::Break),
            jumps_in_statement(statement, Jump::Continue),
        ),
    decreases statement,
{
    lemma_nearest_bounded(s);
    match statement {
        Statement::Return(r) => {
            lemma_expr_settles(&r.value, s);
            lemma_expr_accounted(&r.value, s, block);
            match lower_expr(&r.value, s) {
                Err(_) => {},
                Ok((s1, value)) => {
                    lemma_emit_branches(s1, InstructionView::Reti(value), block);
                },
            }
        },
        Statement::Break(_) => match nearest_scope(s.scopes, ScopeKind::Loop) {
            None => {},
            Some(scope) => lemma_emit_branches(s, InstructionView::Br(scope.exit_block), block),
        },
        Statement::Continue(_) => match nearest_scope(s.scopes, ScopeKind::Loop) {
            None => {},
            Some(scope) => lemma_emit_branches(s, InstructionView::Br(scope.entry_block), block),
        },
        Statement::Noop(_) => {},
        Statement::VarDecl(d) => match d.value {
            None => {},
            Some(Expr::PrimaryExpr(PrimaryExpr::IntLit(_))) => {},
            Some(initializer) => {
                let s0 = s.declare(d.name.text@, 0);
                lemma_expr_settles(&initializer, s0);
                lemma_expr_accounted(&initializer, s0, block);
                match lower_expr(&initializer, s0) {
                    Err(_) => {},
                    Ok((s1, value)) => {
                        lemma_emit_branches(
                            s1,
                            InstructionView::Varset(s.next_slot(), value),
                            block,
                        );
                    },
                }
            },
        },
        Statement::Expr(statement) => lemma_expr_accounted(&statement.expr, s, block),
    }
}

/// What lowering a program adds to the branches to a block that it did not
/// add itself: the jumps among its statements that no loop of the program
/// encloses belong to the loop around the program, if there is one. If
/// lowering succeeds with no loop around the program, there is no such jump.
pub proof fn lemma_program_accounted(program: &Program, s: IrState, block: int)
    requires
        scopes_bounded(s),
    ensures
        lower_program(program, s) matches Ok(t) ==> accounted(
            s,
            t,
            block,
            jumps_in_statements(&program.0, 0, Jump::Break),
            jumps_in_statements(&program.0, 0, Jump::Continue),
        ),
{
    let n = s.next_block();
    let a1 = s.append_block();
    let a2 = a1.append_block();
    let a3 = a2.seek(n + 1);
    let a4 = a3.emit(InstructionView::Iconst(0));
    let s2 = program_entered(s);
    lemma_append_branches(s, block);
    lemma_append_branches(a1, block);
    lemma_emit_branches(a3, InstructionView::Iconst(0), block);
    lemma_emit_branches(a4, InstructionView::Reti(a4.last_value()), block);
    assert(s2.scopes.drop_last() =~= s.scopes);
    lemma_statements_settle(&program.0, 0, s2);
    lemma_statements_accounted(&program.0, 0, s2, block);
    match lower_statements(&program.0, 0, s2) {
        Err(_) => {},
        Ok(s3) => {
            lemma_emit_branches(s3.pop_scope(), InstructionView::Br(n + 1), block);
        },
    }
}

/// Which loop a jump belongs to: while the condition and the body of a
/// `while` are lowered, the innermost loop scope runs from its condition
/// block to its after block; while the body of a `loop` is lowered, from its
/// body block to its after block. A block and a branch of an `if` leave the
/// innermost loop scope as it is.
pub proof fn lemma_innermost_loop(s: IrState, branch: &Expr, entry: int, exit: int)
    ensures
        nearest_scope(while_entered(s).scopes, ScopeKind::Loop) == Some(
            ScopeView {
                kind: ScopeKind::Loop,
                entry_block: s.next_block(),
                exit_block: s.next_block() + 2,
            },
        ),
        nearest_scope(loop_entered(s).scopes, ScopeKind::Loop) == Some(
            ScopeView {
                kind: ScopeKind::Loop,
                entry_block: s.next_block(),
                exit_block: s.next_block() + 1,
            },
        ),
        nearest_scope(block_entered(s).scopes, ScopeKind::Loop) == nearest_scope(
            s.scopes,
            ScopeKind::Loop,
        ),
        nearest_scope(enter_branch(branch, s, entry, exit).scopes, ScopeKind::Loop)
            == nearest_scope(s.scopes, ScopeKind::Loop),
{
    assert(block_entered(s).scopes.drop_last() =~= s.scopes);
    if !(branch is BlockExpr) {
        assert(enter_branch(branch, s, entry, exit).scopes.drop_last() =~= s.scopes);
    }
}

/// No instruction names a block that is not there.
pub open spec fn closed(s: IrState) -> bool {
    forall|block: int|
        block < 0 || block >= s.blocks.len() ==> #[trigger] branches_to(s.blocks, block) == 0
}

/// What a `while` adds to the branches to its three blocks: to the after
/// block one branch by the condition and one by each `break` that belongs to
/// the loop, and no other; to the condition block one from the block before
/// the loop, one from the end of the body and one by each `continue` that
/// belongs to the loop; to the body block one, by the condition. From a
/// closed state these are all the branches to the three blocks.
pub proof fn lemma_while_branches(w: &While, s: IrState)
    requires
        s.positioned(),
        scopes_bounded(s),
    ensures
        lower_while(w, s) matches Ok((t, _)) ==> {
            let cond_block = s.next_block();
            &&& while_accounted(w, s, t, cond_block)
            &&& while_accounted(w, s, t, cond_block + 1)
            &&& while_accounted(w, s, t, cond_block + 2)
            &&& closed(s) ==> {
                &&& branches_to(t.blocks, cond_block) == 2 + jumps_in_expr(
                    &w.cond,
                    Jump::Continue,
                ) + jumps_in_expr(&w.body, Jump::Continue)
                &&& branches_to(t.blocks, cond_block + 1) == 1
                &&& branches_to(t.blocks, cond_block + 2) == 1 + jumps_in_expr(
                    &w.cond,
                    Jump::Break,
                ) + jumps_in_expr(&w.body, Jump::Break)
            }
        },
{
    let n = s.next_block();
    lemma_while_accounted(w, s, n);
    lemma_while_accounted(w, s, n + 1);
    lemma_while_accounted(w, s, n + 2);
    if closed(s) {
        assert(branches_to(s.blocks, n) == 0);
        assert(branches_to(s.blocks, n + 1) == 0);
        assert(branches_to(s.blocks, n + 2) == 0);
    }
}

/// What a `loop` adds to the branches to its two blocks: to the after block
/// one branch by each `break` that belongs to the loop, and no other; to the
/// body block one from the end of the body and one by each `continue` that
/// belongs to the loop. From a closed state these are all the branches to
/// the two blocks.
pub proof fn lemma_loop_branches(l: &Loop, s: IrState)
    requires
        s.positioned(),
        scopes_bounded(s),
    ensures
        lower_loop(l, s) matches Ok((t, _)) ==> {
            let body_block = s.next_block();
            &&& loop_accounted(l, s, t, body_block)
            &&& loop_accounted(l, s, t, body_block + 1)
            &&& closed(s) ==> {
                &&& branches_to(t.blocks, body_block) == 1 + jumps_in_expr(
                    &l.body,
                    Jump::Continue,
                )
                &&& branches_to(t.blocks, body_block + 1) == jumps_in_expr(&l.body, Jump::Break)
            }
        },
{
    let n = s.next_block();
    lemma_loop_accounted(l, s, n);
    lemma_loop_accounted(l, s, n + 1);
    if closed(s) {
        assert(branches_to(s.blocks, n) == 0);
        assert(branches_to(s.blocks, n + 1) == 0);
    }
}

/// Lowering an expression from a closed state gives a closed state: every
/// branch that it emits leads to a block that is there.
pub proof fn lemma_expr_closed(e: &Expr, s: IrState)
    requires
        s.positioned(),
        scopes_bounded(s),
        closed(s),
    ensures
        lower_expr(e, s) matches Ok((t, _)) ==> closed(t) && scopes_bounded(t),
{
    lemma_expr_settles(e, s);
    lemma_nearest_bounded(s);
    match lower_expr(e, s) {
        Err(_) => {},
        Ok((t, _)) => {
            assert forall|block: int| block < 0 || block >= t.blocks.len() implies #[trigger] branches_to(
                t.blocks,
                block,
            ) == 0 by {
                lemma_expr_accounted(e, s, block);
            }
        },
    }
}

/// Lowering a statement from a closed state gives a closed state.
pub proof fn lemma_statement_closed(statement: &Statement, s: IrState)
    requires
        s.positioned(),
        scopes_bounded(s),
        closed(s),
    ensures
        lower_statement(statement, s) matches Ok(t) ==> closed(t) && scopes_bounded(t),
{
    lemma_statement_settles(statement, s);
    lemma_nearest_bounded(s);
    match lower_statement(statement, s) {
        Err(_) => {},
        Ok(t) => {
            assert forall|block: int| block < 0 || block >= t.blocks.len() implies #[trigger] branches_to(
                t.blocks,
                block,
            ) == 0 by {
                lemma_statement_accounted(statement, s, block);
            }
        },
    }
}

/// Lowering a program from a closed state gives a closed state. The state
/// of a fresh generator is closed.
pub proof fn lemma_program_closed(program: &Program, s: IrState)
    requires
        scopes_bounded(s),
        closed(s),
    ensures
        lower_program(program, s) matches Ok(t) ==> closed(t) && scopes_bounded(t),
        closed(IrState::empty()),
        scopes_bounded(IrState::empty()),
{
    crate::frame::lemma_program_settles(program, s);
    lemma_nearest_bounded(s);
    match lower_program(program, s) {
        Err(_) => {},
        Ok(t) => {
            assert forall|block: int| block < 0 || block >= t.blocks.len() implies #[trigger] branches_to(
                t.blocks,
                block,
            ) == 0 by {
                lemma_program_accounted(program, s, block);
            }
        },
    }
}

/// A `break` or `continue` that no loop encloses makes the whole program
/// fail: where no loop is around the program, lowering succeeds only if
/// every jump among its statements lies in a loop of the program.
pub proof fn lemma_free_jump_fails(program: &Program, s: IrState)
    requires
        scopes_bounded(s),
        nearest_scope(s.scopes, ScopeKind::Loop) is None,
        jumps_in_statements(&program.0, 0, Jump::Break) + jumps_in_statements(
            &program.0,
            0,
            Jump::Continue,
        ) > 0,
    ensures
        lower_program(program, s) is Err,
{
    lemma_program_accounted(program, s, 0);
}

/// A `break` fails exactly when no scope on the stack is a loop, and then
/// with the error that says so; otherwise it emits one branch, to the exit
/// of the innermost loop. A `continue` does the same with the entry of the
/// innermost loop.
pub proof fn lemma_jump_outside_loop(statement: &Statement, s: IrState)
    requires
        statement is Break || statement is Continue,
    ensures
        (forall|i: int| 0 <= i < s.scopes.len() ==> s.scopes[i].kind != ScopeKind::Loop)
            <==> lower_statement(statement, s) is Err,
        lower_statement(statement, s) matches Err(err) ==> err == (if statement is Break {
            crate::error::LowerError::BreakOutsideLoop
        } else {
            crate::error::LowerError::ContinueOutsideLoop
        }),
        lower_statement(statement, s) matches Ok(t) ==> exists|i: int|
            0 <= i < s.scopes.len() && s.scopes[i].kind == ScopeKind::Loop && (forall|j: int|
                i < j < s.scopes.len() ==> s.scopes[j].kind != ScopeKind::Loop) && t == s.emit(
                InstructionView::Br(
                    if statement is Break {
                        s.scopes[i].exit_block
                    } else {
                        s.scopes[i].entry_block
                    },
                ),
            ),
{
    lemma_nearest_scope(s.scopes, ScopeKind::Loop);
}

} // verus!
