//! Which blocks lead to which: the edges that branch instructions draw
//! between blocks, and the paths that lowering lays along them.

use vstd::prelude::*;
use crate::ast::{
    Assignment, BinExpr, Block, Call, Expr, If, PrimaryExpr, Program, Statement, UnaryExpr, While,
};
use crate::scope::{nearest_scope, ScopeKind};
use crate::frame::{
    extends, lemma_arguments_settle, lemma_branch_settles, lemma_expr_settles,
    lemma_primary_settles, lemma_statement_settles, lemma_statements_settle,
};
use crate::generator::IrState;
use crate::ir::{InstructionView, ValueView};
use crate::lowering::{
    block_entered, enter_branch, if_after_block, if_entered, lower_arguments, lower_assignment,
    lower_binary, lower_block, lower_branch, lower_call, lower_expr, lower_if, lower_primary,
    lower_program, lower_statement, lower_statements, lower_unary, lower_while, program_entered,
    void_sentinel, while_entered,
};
use crate::token::Token;

verus! {

/// Some instruction of block `from` branches to block `to`.
pub open spec fn edge(blocks: Seq<Seq<InstructionView>>, from: int, to: int) -> bool {
    &&& 0 <= from < blocks.len()
    &&& exists|i: int| 0 <= i < blocks[from].len() && #[trigger] blocks[from][i].branches_to(to) > 0
}

/// `steps` edges in a row lead from `from` to `to`.
pub open spec fn reaches_within(
    blocks: Seq<Seq<InstructionView>>,
    from: int,
    to: int,
    steps: nat,
) -> bool
    decreases steps,
{
    if steps == 0 {
        from == to
    } else {
        exists|mid: int| #[trigger] edge(blocks, mid, to) && reaches_within(blocks, from, mid, (steps - 1) as nat)
    }
}

/// A path of edges leads from `from` to `to`; the empty path leads from a
/// block to itself.
pub open spec fn reaches(blocks: Seq<Seq<InstructionView>>, from: int, to: int) -> bool {
    exists|steps: nat| reaches_within(blocks, from, to, steps)
}

/// Every block reaches itself.
pub proof fn lemma_reaches_self(blocks: Seq<Seq<InstructionView>>, block: int)
    ensures
        reaches(blocks, block, block),
{
    assert(reaches_within(blocks, block, block, 0));
}

/// A path goes on along an edge.
pub proof fn lemma_reaches_step(blocks: Seq<Seq<InstructionView>>, from: int, mid: int, to: int)
    requires
        reaches(blocks, from, mid),
        edge(blocks, mid, to),
    ensures
        reaches(blocks, from, to),
{
    let steps = choose|steps: nat| reaches_within(blocks, from, mid, steps);
    assert(steps == ((steps + 1) - 1) as nat);
    assert(edge(blocks, mid, to));
    assert(reaches_within(blocks, from, to, steps + 1));
}

proof fn lemma_edge_extends(s: IrState, t: IrState, from: int, to: int)
    requires
        extends(s, t),
        edge(s.blocks, from, to),
    ensures
        edge(t.blocks, from, to),
{
    let i = choose|i: int|
        0 <= i < s.blocks[from].len() && #[trigger] s.blocks[from][i].branches_to(to) > 0;
    assert(crate::frame::block_extends(s.blocks[from], t.blocks[from]));
    assert(t.blocks[from][i] == s.blocks[from][i]);
}

proof fn lemma_within_extends(s: IrState, t: IrState, from: int, to: int, steps: nat)
    requires
        extends(s, t),
        reaches_within(s.blocks, from, to, steps),
    ensures
        reaches_within(t.blocks, from, to, steps),
    decreases steps,
{
    if steps > 0 {
        let mid = choose|mid: int| #[trigger] edge(s.blocks, mid, to) && reaches_within(s.blocks, from, mid, (steps - 1) as nat);
        lemma_within_extends(s, t, from, mid, (steps - 1) as nat);
        lemma_edge_extends(s, t, mid, to);
        assert(edge(t.blocks, mid, to));
    }
}

/// A path stays a path when the state is extended: no edge is ever taken
/// away.
pub proof fn lemma_reaches_extends(s: IrState, t: IrState, from: int, to: int)
    requires
        extends(s, t),
        reaches(s.blocks, from, to),
    ensures
        reaches(t.blocks, from, to),
{
    let steps = choose|steps: nat| reaches_within(s.blocks, from, to, steps);
    lemma_within_extends(s, t, from, to, steps);
}

/// A path stays a path when the state is extended, whether or not there is
/// one.
proof fn lemma_keep(s: IrState, t: IrState, from: int, to: int)
    requires
        extends(s, t),
    ensures
        reaches(s.blocks, from, to) ==> reaches(t.blocks, from, to),
{
    if reaches(s.blocks, from, to) {
        lemma_reaches_extends(s, t, from, to);
    }
}

/// A path to the current block is still one after an instruction is emitted
/// there, and it goes on to each block that the instruction branches to.
proof fn lemma_emit_leads(s: IrState, from: int, instruction: InstructionView, to: int)
    requires
        s.positioned(),
    ensures
        extends(s, s.emit(instruction)),
        reaches(s.blocks, from, to) ==> reaches(s.emit(instruction).blocks, from, to),
        reaches(s.blocks, from, s.current) && instruction.branches_to(to) > 0 ==> reaches(
            s.emit(instruction).blocks,
            from,
            to,
        ),
{
    let t = s.emit(instruction);
    lemma_keep(s, t, from, to);
    lemma_keep(s, t, from, s.current);
    if reaches(s.blocks, from, s.current) && instruction.branches_to(to) > 0 {
        let i = s.blocks[s.current].len() as int;
        assert(t.blocks[s.current][i] == instruction);
        assert(edge(t.blocks, s.current, to));
        lemma_reaches_step(t.blocks, from, s.current, to);
    }
}

/// Control that enters the expression gets to its end along branches. A
/// `loop` lets no control through, since nothing branches into its body. A
/// `while` lets control through by its condition, or by a `break` in its
/// condition; an `if` by one of its branches, or by its condition alone
/// where it has no `else`. The instructions behind a `return`, `break` or
/// `continue` stay in the block of the jump, so control gets past these.
pub open spec fn flows_expr(e: &Expr) -> bool
    decreases e,
{
    match e {
        Expr::WhileExpr(w) => flows_expr(&w.cond) || escapes_expr(&w.cond),
        Expr::LoopExpr(_) => false,
        Expr::BlockExpr(b) => flows_block(b),
        Expr::IfExpr(i) => flows_if(i),
        Expr::AssignExpr(a) => flows_expr(&a.value),
        Expr::BinExpr(b) => flows_expr(&b.left) && flows_expr(&b.right),
        Expr::UnaryExpr(u) => flows_primary(&u.primary),
        Expr::PrimaryExpr(p) => flows_primary(p),
    }
}

/// Control that enters the expression gets to a `break` that belongs to the
/// loop around the expression.
pub open spec fn escapes_expr(e: &Expr) -> bool
    decreases e,
{
    match e {
        Expr::WhileExpr(_) => false,
        Expr::LoopExpr(_) => false,
        Expr::BlockExpr(b) => escapes_block(b),
        Expr::IfExpr(i) => escapes_if(i),
        Expr::AssignExpr(a) => escapes_expr(&a.value),
        Expr::BinExpr(b) => escapes_expr(&b.left) || (flows_expr(&b.left) && escapes_expr(
            &b.right,
        )),
        Expr::UnaryExpr(u) => escapes_primary(&u.primary),
        Expr::PrimaryExpr(p) => escapes_primary(p),
    }
}

pub open spec fn flows_block(b: &Block) -> bool
    decreases b,
{
    flows_statements(&b.body, 0) && match b.ret {
        Some(tail) => flows_expr(&tail),
        None => true,
    }
}

pub open spec fn escapes_block(b: &Block) -> bool
    decreases b,
{
    escapes_statements(&b.body, 0) || (flows_statements(&b.body, 0) && match b.ret {
        Some(tail) => escapes_expr(&tail),
        None => false,
    })
}

pub open spec fn flows_if(i: &If) -> bool
    decreases i,
{
    match i {
        If { cond, then: first, _else: last, .. } => flows_expr(cond) && match last {
            Some(second) => flows_expr(first) || flows_expr(second),
            None => true,
        },
    }
}

pub open spec fn escapes_if(i: &If) -> bool
    decreases i,
{
    match i {
        If { cond, then: first, _else: last, .. } => escapes_expr(cond) || (flows_expr(cond) && (
        escapes_expr(first) || match last {
            Some(second) => escapes_expr(second),
            None => false,
        })),
    }
}

pub open spec fn flows_primary(p: &PrimaryExpr) -> bool
    decreases p,
{
    match p {
        PrimaryExpr::Call(c) => flows_call(c),
        PrimaryExpr::Paren(inner) => flows_expr(&inner.expr),
        _ => true,
    }
}

pub open spec fn escapes_primary(p: &PrimaryExpr) -> bool
    decreases p,
{
    match p {
        PrimaryExpr::Call(c) => escapes_call(c),
        PrimaryExpr::Paren(inner) => escapes_expr(&inner.expr),
        _ => false,
    }
}

pub open spec fn flows_call(c: &Call) -> bool
    decreases c,
{
    flows_arguments(&c.other_args, 0) && match c.first_arg {
        Some(argument) => flows_expr(&argument),
        None => true,
    }
}

pub open spec fn escapes_call(c: &Call) -> bool
    decreases c,
{
    match c.first_arg {
        Some(argument) => escapes_expr(&argument) || (flows_expr(&argument) && escapes_arguments(
            &c.other_args,
            0,
        )),
        None => escapes_arguments(&c.other_args, 0),
    }
}

pub open spec fn flows_arguments(arguments: &Vec<(Token, Expr)>, from: int) -> bool
    decreases arguments, arguments.len() - from,
{
    if 0 <= from < arguments.len() {
        flows_expr(&arguments[from].1) && flows_arguments(arguments, from + 1)
    } else {
        true
    }
}

pub open spec fn escapes_arguments(arguments: &Vec<(Token, Expr)>, from: int) -> bool
    decreases arguments, arguments.len() - from,
{
    if 0 <= from < arguments.len() {
        escapes_expr(&arguments[from].1) || (flows_expr(&arguments[from].1) && escapes_arguments(
            arguments,
            from + 1,
        ))
    } else {
        false
    }
}

/// Control that enters the statement gets to its end along branches.
pub open spec fn flows_statement(statement: &Statement) -> bool
    decreases statement,
{
    match statement {
        Statement::Return(r) => flows_expr(&r.value),
        Statement::VarDecl(d) => match d.value {
            Some(initializer) => flows_expr(&initializer),
            None => true,
        },
        Statement::Expr(statement) => flows_expr(&statement.expr),
        _ => true,
    }
}

/// Control that enters the statement gets to a `break` that belongs to the
/// loop around the statement.
pub open spec fn escapes_statement(statement: &Statement) -> bool
    decreases statement,
{
    match statement {
        Statement::Return(r) => escapes_expr(&r.value),
        Statement::Break(_) => true,
        Statement::VarDecl(d) => match d.value {
            Some(initializer) => escapes_expr(&initializer),
            None => false,
        },
        Statement::Expr(statement) => escapes_expr(&statement.expr),
        _ => false,
    }
}

pub open spec fn flows_statements(statements: &Vec<Statement>, from: int) -> bool
    decreases statements, statements.len() - from,
{
    if 0 <= from < statements.len() {
        flows_statement(&statements[from]) && flows_statements(statements, from + 1)
    } else {
        true
    }
}

pub open spec fn escapes_statements(statements: &Vec<Statement>, from: int) -> bool
    decreases statements, statements.len() - from,
{
    if 0 <= from < statements.len() {
        escapes_statement(&statements[from]) || (flows_statement(&statements[from])
            && escapes_statements(statements, from + 1))
    } else {
        false
    }
}

/// The exit block of the innermost loop scope, where there is one.
pub open spec fn loop_exit(s: IrState) -> int {
    nearest_scope(s.scopes, ScopeKind::Loop)->Some_0.exit_block
}

/// What a construct that is lowered between `s` and `t` does to a path that
/// leads from `from` to the block in which the construct starts: where
/// control gets through the construct, the path goes on to the block in
/// which the construct ends; where control gets to a `break` of the loop
/// around the construct, the path goes on to the exit block of that loop.
pub open spec fn carries(s: IrState, t: IrState, from: int, flows: bool, escapes: bool) -> bool {
    reaches(s.blocks, from, s.current) ==> {
        &&& flows ==> reaches(t.blocks, from, t.current)
        &&& escapes && nearest_scope(s.scopes, ScopeKind::Loop) is Some ==> reaches(
            t.blocks,
            from,
            loop_exit(s),
        )
    }
}

/// Lowering an expression carries every path to its start on to its end,
/// where control gets through it, and to the exit block of the loop around
/// it, where control gets to a `break` of that loop.
pub proof fn lemma_expr_carries(e: &Expr, s: IrState, from: int)
    requires
        s.positioned(),
    ensures
        lower_expr(e, s) matches Ok((t, _)) ==> carries(
            s,
            t,
            from,
            flows_expr(e),
            escapes_expr(e),
        ),
    decreases e, 0int,
{
    match e {
        Expr::WhileExpr(w) => lemma_while_carries(w, s, from),
        Expr::LoopExpr(_) => {},
        Expr::BlockExpr(b) => lemma_block_carries(b, s, from),
        Expr::IfExpr(i) => lemma_if_carries(i, s, from),
        Expr::AssignExpr(a) => lemma_assignment_carries(a, s, from),
        Expr::BinExpr(b) => lemma_binary_carries(b, s, from),
        Expr::UnaryExpr(u) => lemma_unary_carries(u, s, from),
        Expr::PrimaryExpr(p) => lemma_primary_carries(p, s, from),
    }
}

proof fn lemma_while_carries(w: &While, s: IrState, from: int)
    requires
        s.positioned(),
    ensures
        lower_while(w, s) matches Ok((t, _)) ==> carries(
            s,
            t,
            from,
            flows_expr(&w.cond) || escapes_expr(&w.cond),
            false,
        ),
    decreases w,
{
    let n = s.next_block();
    let a3 = s.append_block().append_block().append_block();
    let s1 = while_entered(s);
    assert(extends(s, a3));
    lemma_keep(s, a3, from, s.current);
    lemma_emit_leads(a3, from, InstructionView::Br(n), n);
    assert(s1.scopes.last().kind == ScopeKind::Loop);
    assert(loop_exit(s1) == n + 2);
    lemma_expr_settles(&w.cond, s1);
    lemma_expr_carries(&w.cond, s1, from);
    match lower_expr(&w.cond, s1) {
        Err(_) => {},
        Ok((s2, cond)) => {
            let branch = InstructionView::Briz(n + 2, n + 1, cond);
            lemma_emit_leads(s2, from, branch, n + 2);
            let s3 = s2.emit(branch).seek(n + 1);
            lemma_expr_settles(&w.body, s3);
            match lower_expr(&w.body, s3) {
                Err(_) => {},
                Ok((s4, _)) => {
                    lemma_keep(s3, s4, from, n + 2);
                    let s5 = s4.emit(InstructionView::Br(n)).pop_scope().seek(n + 2);
                    assert(extends(s4, s5));
                    lemma_keep(s4, s5, from, n + 2);
                    lemma_emit_leads(s5, from, void_sentinel(), n + 2);
                },
            }
        },
    }
}

/// Lowering statements carries paths as lowering an expression does.
pub proof fn lemma_statements_carry(
    statements: &Vec<Statement>,
    index: int,
    s: IrState,
    from: int,
)
    requires
        s.positioned(),
    ensures
        lower_statements(statements, index, s) matches Ok(t) ==> carries(
            s,
            t,
            from,
            flows_statements(statements, index),
            escapes_statements(statements, index),
        ),
    decreases statements, statements.len() - index,
{
    if 0 <= index < statements.len() {
        lemma_statement_settles(&statements[index], s);
        lemma_statement_carries(&statements[index], s, from);
        match lower_statement(&statements[index], s) {
            Err(_) => {},
            Ok(s1) => {
                lemma_statements_settle(statements, index + 1, s1);
                lemma_statements_carry(statements, index + 1, s1, from);
                match lower_statements(statements, index + 1, s1) {
                    Err(_) => {},
                    Ok(t) => lemma_keep(s1, t, from, loop_exit(s)),
                }
            },
        }
    }
}

proof fn lemma_block_carries(b: &Block, s: IrState, from: int)
    requires
        s.positioned(),
    ensures
        lower_block(b, s) matches Ok((t, _)) ==> carries(
            s,
            t,
            from,
            flows_block(b),
            escapes_block(b),
        ),
    decreases b,
{
    let n = s.next_block();
    let exit = loop_exit(s);
    let a2 = s.append_block().append_block();
    let s1 = block_entered(s);
    assert(extends(s, a2));
    lemma_keep(s, a2, from, s.current);
    lemma_emit_leads(a2, from, InstructionView::Br(n), n);
    assert(s1.scopes.drop_last() =~= s.scopes);
    lemma_statements_settle(&b.body, 0, s1);
    lemma_statements_carry(&b.body, 0, s1, from);
    match lower_statements(&b.body, 0, s1) {
        Err(_) => {},
        Ok(s2) => {
            let jump = InstructionView::Br(n + 1);
            match b.ret {
                Some(tail) => {
                    lemma_expr_settles(&tail, s2);
                    lemma_expr_carries(&tail, s2, from);
                    match lower_expr(&tail, s2) {
                        Err(_) => {},
                        Ok((s3, _)) => {
                            lemma_keep(s2, s3, from, exit);
                            lemma_emit_leads(s3, from, jump, n + 1);
                            lemma_emit_leads(s3, from, jump, exit);
                        },
                    }
                },
                None => {
                    lemma_emit_leads(s2, from, jump, n + 1);
                    lemma_emit_leads(s2, from, jump, exit);
                    let s3 = s2.emit(jump).pop_scope().seek(n + 1);
                    lemma_emit_leads(s3, from, void_sentinel(), n + 1);
                    lemma_emit_leads(s3, from, void_sentinel(), exit);
                },
            }
        },
    }
}

proof fn lemma_branch_carries(branch: &Expr, s: IrState, entry: int, exit: int, from: int)
    requires
        s.positioned(),
    ensures
        lower_branch(branch, s, entry, exit) matches Ok((t, _)) ==> carries(
            s,
            t,
            from,
            flows_expr(branch),
            escapes_expr(branch),
        ),
    decreases branch, 1int,
{
    let s1 = enter_branch(branch, s, entry, exit);
    if !(branch is BlockExpr) {
        assert(s1.scopes.drop_last() =~= s.scopes);
    }
    lemma_expr_carries(branch, s1, from);
}

proof fn lemma_if_carries(i: &If, s: IrState, from: int)
    requires
        s.positioned(),
    ensures
        lower_if(i, s) matches Ok((t, _)) ==> carries(s, t, from, flows_if(i), escapes_if(i)),
    decreases i,
{
    let exit = loop_exit(s);
    match i {
        If { cond, then: first, _else: last, .. } => {
            lemma_expr_settles(cond, s);
            lemma_expr_carries(cond, s, from);
            match lower_expr(cond, s) {
                Err(_) => {},
                Ok((s1, value)) => {
                    let n = s1.next_block();
                    let after_block = if_after_block(i, s1);
                    let a = if last is Some {
                        s1.append_block().append_block().append_block()
                    } else {
                        s1.append_block().append_block()
                    };
                    let branch = InstructionView::Briz(n + 1, n, value);
                    let s3 = if_entered(i, s1, value);
                    assert(extends(s1, a));
                    lemma_keep(s1, a, from, s1.current);
                    lemma_keep(s1, a, from, exit);
                    lemma_emit_leads(a, from, branch, n);
                    lemma_emit_leads(a, from, branch, n + 1);
                    lemma_emit_leads(a, from, branch, exit);
                    lemma_branch_settles(first, s3, n, after_block);
                    lemma_branch_carries(first, s3, n, after_block, from);
                    match lower_branch(first, s3, n, after_block) {
                        Err(_) => {},
                        Ok((s4, _)) => {
                            let jump = InstructionView::Br(after_block);
                            let s5 = s4.emit(jump).seek(n + 1);
                            lemma_keep(s3, s4, from, n + 1);
                            lemma_keep(s3, s4, from, exit);
                            lemma_emit_leads(s4, from, jump, n + 1);
                            lemma_emit_leads(s4, from, jump, exit);
                            lemma_emit_leads(s4, from, jump, after_block);
                            match last {
                                None => {
                                    lemma_emit_leads(s5, from, void_sentinel(), n + 1);
                                    lemma_emit_leads(s5, from, void_sentinel(), exit);
                                },
                                Some(second) => {
                                    lemma_branch_settles(second, s5, n + 1, after_block);
                                    lemma_branch_carries(second, s5, n + 1, after_block, from);
                                    match lower_branch(second, s5, n + 1, after_block) {
                                        Err(_) => {},
                                        Ok((s6, _)) => {
                                            let s7 = s6.emit(jump).seek(after_block);
                                            lemma_keep(s5, s6, from, after_block);
                                            lemma_keep(s5, s6, from, exit);
                                            lemma_emit_leads(s6, from, jump, after_block);
                                            lemma_emit_leads(s6, from, jump, exit);
                                            lemma_emit_leads(s7, from, void_sentinel(), after_block);
                                            lemma_emit_leads(s7, from, void_sentinel(), exit);
                                        },
                                    }
                                },
                            }
                        },
                    }
                },
            }
        },
    }
}

proof fn lemma_assignment_carries(a: &Assignment, s: IrState, from: int)
    requires
        s.positioned(),
    ensures
        lower_assignment(a, s) matches Ok((t, _)) ==> carries(
            s,
            t,
            from,
            flows_expr(&a.value),
            escapes_expr(&a.value),
        ),
    decreases a,
{
    lemma_expr_settles(&a.value, s);
    lemma_expr_carries(&a.value, s, from);
    match lower_assignment(a, s) {
        Err(_) => {},
        Ok((t, _)) => {
            let s1 = lower_expr(&a.value, s)->Ok_0.0;
            lemma_emit_leads(s1, from, t.blocks[t.current].last(), s1.current);
            lemma_emit_leads(s1, from, t.blocks[t.current].last(), loop_exit(s));
        },
    }
}

proof fn lemma_binary_carries(b: &BinExpr, s: IrState, from: int)
    requires
        s.positioned(),
    ensures
        lower_binary(b, s) matches Ok((t, _)) ==> carries(
            s,
            t,
            from,
            flows_expr(&b.left) && flows_expr(&b.right),
            escapes_expr(&b.left) || (flows_expr(&b.left) && escapes_expr(&b.right)),
        ),
    decreases b,
{
    let exit = loop_exit(s);
    lemma_expr_settles(&b.left, s);
    lemma_expr_carries(&b.left, s, from);
    match lower_expr(&b.left, s) {
        Err(_) => {},
        Ok((s1, _)) => {
            lemma_expr_settles(&b.right, s1);
            lemma_expr_carries(&b.right, s1, from);
            match lower_expr(&b.right, s1) {
                Err(_) => {},
                Ok((s2, _)) => {
                    let t = lower_binary(b, s)->Ok_0.0;
                    lemma_keep(s1, s2, from, exit);
                    lemma_emit_leads(s2, from, t.blocks[t.current].last(), s2.current);
                    lemma_emit_leads(s2, from, t.blocks[t.current].last(), exit);
                },
            }
        },
    }
}

proof fn lemma_unary_carries(u: &UnaryExpr, s: IrState, from: int)
    requires
        s.positioned(),
    ensures
        lower_unary(u, s) matches Ok((t, _)) ==> carries(
            s,
            t,
            from,
            flows_primary(&u.primary),
            escapes_primary(&u.primary),
        ),
    decreases u,
{
    let exit = loop_exit(s);
    lemma_primary_settles(&u.primary, s);
    lemma_primary_carries(&u.primary, s, from);
    match lower_primary(&u.primary, s) {
        Err(_) => {},
        Ok((s1, operand)) => {
            let zero = InstructionView::Iconst(0);
            let s2 = s1.emit(zero);
            let minus = InstructionView::Binary(crate::ir::Opcode::Sub, s2.last_value(), operand);
            lemma_emit_leads(s1, from, zero, s1.current);
            lemma_emit_leads(s1, from, zero, exit);
            lemma_emit_leads(s2, from, minus, s2.current);
            lemma_emit_leads(s2, from, minus, exit);
        },
    }
}

proof fn lemma_primary_carries(p: &PrimaryExpr, s: IrState, from: int)
    requires
        s.positioned(),
    ensures
        lower_primary(p, s) matches Ok((t, _)) ==> carries(
            s,
            t,
            from,
            flows_primary(p),
            escapes_primary(p),
        ),
    decreases p,
{
    match p {
        PrimaryExpr::Call(c) => lemma_call_carries(c, s, from),
        PrimaryExpr::Paren(inner) => lemma_expr_carries(&inner.expr, s, from),
        _ => {
            match lower_primary(p, s) {
                Err(_) => {},
                Ok((t, _)) => {
                    lemma_emit_leads(s, from, t.blocks[t.current].last(), s.current);
                },
            }
        },
    }
}

proof fn lemma_arguments_carry(
    arguments: &Vec<(Token, Expr)>,
    index: int,
    s: IrState,
    values: Seq<ValueView>,
    from: int,
)
    requires
        s.positioned(),
    ensures
        lower_arguments(arguments, index, s, values) matches Ok((t, _)) ==> carries(
            s,
            t,
            from,
            flows_arguments(arguments, index),
            escapes_arguments(arguments, index),
        ),
    decreases arguments, arguments.len() - index,
{
    if 0 <= index < arguments.len() {
        lemma_expr_settles(&arguments[index].1, s);
        lemma_expr_carries(&arguments[index].1, s, from);
        match lower_expr(&arguments[index].1, s) {
            Err(_) => {},
            Ok((s1, value)) => {
                lemma_arguments_settle(arguments, index + 1, s1, values.push(value));
                lemma_arguments_carry(arguments, index + 1, s1, values.push(value), from);
                match lower_arguments(arguments, index + 1, s1, values.push(value)) {
                    Err(_) => {},
                    Ok((t, _)) => lemma_keep(s1, t, from, loop_exit(s)),
                }
            },
        }
    }
}

proof fn lemma_call_carries(c: &Call, s: IrState, from: int)
    requires
        s.positioned(),
    ensures
        lower_call(c, s) matches Ok((t, _)) ==> carries(
            s,
            t,
            from,
            flows_call(c),
            escapes_call(c),
        ),
    decreases c,
{
    let exit = loop_exit(s);
    let (s1, values) = match c.first_arg {
        Some(argument) => {
            lemma_expr_settles(&argument, s);
            lemma_expr_carries(&argument, s, from);
            match lower_expr(&argument, s) {
                Err(_) => (s, Seq::<ValueView>::empty()),
                Ok((s1, value)) => (s1, seq![value]),
            }
        },
        None => (s, Seq::<ValueView>::empty()),
    };
    match lower_call(c, s) {
        Err(_) => {},
        Ok((t, _)) => {
            lemma_arguments_settle(&c.other_args, 0, s1, values);
            lemma_arguments_carry(&c.other_args, 0, s1, values, from);
            let s2 = lower_arguments(&c.other_args, 0, s1, values)->Ok_0.0;
            lemma_keep(s1, s2, from, exit);
            lemma_emit_leads(s2, from, t.blocks[t.current].last(), s2.current);
            lemma_emit_leads(s2, from, t.blocks[t.current].last(), exit);
        },
    }
}

/// Lowering a statement carries paths as lowering an expression does.
pub proof fn lemma_statement_carries(statement: &Statement, s: IrState, from: int)
    requires
        s.positioned(),
    ensures
        lower_statement(statement, s) matches Ok(t) ==> carries(
            s,
            t,
            from,
            flows_statement(statement),
            escapes_statement(statement),
        ),
    decreases statement,
{
    let exit = loop_exit(s);
    match statement {
        Statement::Return(r) => {
            lemma_expr_settles(&r.value, s);
            lemma_expr_carries(&r.value, s, from);
            match lower_expr(&r.value, s) {
                Err(_) => {},
                Ok((s1, value)) => {
                    lemma_emit_leads(s1, from, InstructionView::Reti(value), s1.current);
                    lemma_emit_leads(s1, from, InstructionView::Reti(value), exit);
                },
            }
        },
        Statement::Break(_) | Statement::Continue(_) => {
            match lower_statement(statement, s) {
                Err(_) => {},
                Ok(t) => {
                    lemma_emit_leads(s, from, t.blocks[t.current].last(), s.current);
                    lemma_emit_leads(s, from, t.blocks[t.current].last(), exit);
                },
            }
        },
        Statement::Noop(_) => {},
        Statement::VarDecl(d) => match d.value {
            None => {},
            Some(Expr::PrimaryExpr(PrimaryExpr::IntLit(_))) => {},
            Some(initializer) => {
                let s0 = s.declare(d.name.text@, 0);
                lemma_expr_settles(&initializer, s0);
                lemma_expr_carries(&initializer, s0, from);
                match lower_expr(&initializer, s0) {
                    Err(_) => {},
                    Ok((s1, value)) => {
                        let write = InstructionView::Varset(s.next_slot(), value);
                        lemma_emit_leads(s1, from, write, s1.current);
                        lemma_emit_leads(s1, from, write, exit);
                    },
                }
            },
        },
        Statement::Expr(statement) => lemma_expr_carries(&statement.expr, s, from),
    }
}

/// Where control gets through an expression, the block in which the
/// expression starts reaches the block in which it ends.
pub proof fn lemma_expr_reaches(e: &Expr, s: IrState)
    requires
        s.positioned(),
        flows_expr(e),
    ensures
        lower_expr(e, s) matches Ok((t, _)) ==> reaches(t.blocks, s.current, t.current),
{
    lemma_reaches_self(s.blocks, s.current);
    lemma_expr_carries(e, s, s.current);
}

/// Where control gets through the statements of a program, its entry block
/// reaches its exit block.
pub proof fn lemma_program_reaches_exit(program: &Program, s: IrState)
    requires
        flows_statements(&program.0, 0),
    ensures
        lower_program(program, s) matches Ok(t) ==> reaches(
            t.blocks,
            s.next_block(),
            s.next_block() + 1,
        ),
{
    let n = s.next_block();
    let s2 = program_entered(s);
    lemma_reaches_self(s2.blocks, n);
    lemma_statements_settle(&program.0, 0, s2);
    lemma_statements_carry(&program.0, 0, s2, n);
    match lower_statements(&program.0, 0, s2) {
        Err(_) => {},
        Ok(s3) => {
            lemma_emit_leads(s3.pop_scope(), n, InstructionView::Br(n + 1), n + 1);
        },
    }
}

} // verus!
