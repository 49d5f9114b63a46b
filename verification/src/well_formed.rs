//! What every instruction may rely on: the values it uses are positions of
//! instructions that are there, its slots are declared, and its branch
//! targets are blocks that are there.

use vstd::prelude::*;
use crate::ast::{
    Assignment, BinExpr, Block, Call, Expr, If, Loop, PrimaryExpr, Program, Statement, UnaryExpr,
    While,
};
use crate::branches::scopes_bounded;
use crate::frame::{
    block_extends, extends, lemma_arguments_settle, lemma_branch_settles, lemma_expr_settles,
    lemma_primary_settles, lemma_statement_settles, lemma_statements_settle,
};
use crate::generator::{resolve_variable, IrState, VariableView};
use crate::ir::{InstructionView, ValueView};
use crate::lowering::{
    block_entered, enter_branch, if_after_block, if_entered, loop_entered, lower_arguments,
    lower_assignment, lower_binary, lower_block, lower_branch, lower_call, lower_expr, lower_if,
    lower_loop, lower_primary, lower_program, lower_statement, lower_statements, lower_unary,
    lower_while, program_entered, void_sentinel, while_entered,
};
use crate::scope::{lemma_nearest_scope, ScopeKind};
use crate::token::Token;

verus! {

/// The state has what the instruction refers to: the instructions whose
/// values it uses, the variables it reads or writes, the blocks it branches
/// to.
pub open spec fn admits(s: IrState, instruction: InstructionView) -> bool {
    match instruction {
        InstructionView::Iconst(_) => true,
        InstructionView::Varget(slot) => 0 <= slot < s.variables.len(),
        InstructionView::Varset(slot, value) => 0 <= slot < s.variables.len() && s.holds(value),
        InstructionView::Binary(_, left, right) => s.holds(left) && s.holds(right),
        InstructionView::Br(target) => 0 <= target < s.blocks.len(),
        InstructionView::Briz(zero, nonzero, value) => {
            &&& 0 <= zero < s.blocks.len()
            &&& 0 <= nonzero < s.blocks.len()
            &&& s.holds(value)
        },
        InstructionView::Reti(value) => s.holds(value),
        InstructionView::Call(_, arguments) => all_held(s, arguments),
    }
}

/// Every value of the sequence is the position of an instruction that is
/// there.
pub open spec fn all_held(s: IrState, values: Seq<ValueView>) -> bool {
    forall|i: int| 0 <= i < values.len() ==> s.holds(#[trigger] values[i])
}

/// The state has what each of its instructions refers to.
pub open spec fn well_formed(s: IrState) -> bool {
    forall|b: int, i: int|
        0 <= b < s.blocks.len() && 0 <= i < s.blocks[b].len() ==> admits(
            s,
            #[trigger] s.blocks[b][i],
        )
}

proof fn lemma_holds_extends(s: IrState, t: IrState, value: ValueView)
    requires
        extends(s, t),
        s.holds(value),
    ensures
        t.holds(value),
{
    assert(block_extends(s.blocks[value.block], t.blocks[value.block]));
}

proof fn lemma_all_held_extends(s: IrState, t: IrState, values: Seq<ValueView>)
    requires
        extends(s, t),
        all_held(s, values),
    ensures
        all_held(t, values),
{
    assert forall|i: int| 0 <= i < values.len() implies t.holds(#[trigger] values[i]) by {
        lemma_holds_extends(s, t, values[i]);
    }
}

proof fn lemma_admits_extends(s: IrState, t: IrState, instruction: InstructionView)
    requires
        extends(s, t),
        admits(s, instruction),
    ensures
        admits(t, instruction),
{
    match instruction {
        InstructionView::Varset(_, value) => lemma_holds_extends(s, t, value),
        InstructionView::Binary(_, left, right) => {
            lemma_holds_extends(s, t, left);
            lemma_holds_extends(s, t, right);
        },
        InstructionView::Briz(_, _, value) => lemma_holds_extends(s, t, value),
        InstructionView::Reti(value) => lemma_holds_extends(s, t, value),
        InstructionView::Call(_, arguments) => lemma_all_held_extends(s, t, arguments),
        _ => {},
    }
}

/// A well-formed state stays well-formed when it is extended by
/// instructions that the extended state admits.
proof fn lemma_well_formed_step(s: IrState, t: IrState)
    requires
        well_formed(s),
        extends(s, t),
        forall|b: int, i: int|
            0 <= b < t.blocks.len() && 0 <= i < t.blocks[b].len() && !(b < s.blocks.len() && i
                < s.blocks[b].len()) ==> admits(t, #[trigger] t.blocks[b][i]),
    ensures
        well_formed(t),
{
    assert forall|b: int, i: int|
        0 <= b < t.blocks.len() && 0 <= i < t.blocks[b].len() implies admits(
        t,
        #[trigger] t.blocks[b][i],
    ) by {
        if b < s.blocks.len() && i < s.blocks[b].len() {
            assert(block_extends(s.blocks[b], t.blocks[b]));
            assert(t.blocks[b][i] == s.blocks[b][i]);
            lemma_admits_extends(s, t, s.blocks[b][i]);
        }
    }
}

/// A well-formed state stays well-formed when an instruction is emitted
/// that the state admits.
proof fn lemma_emit_well_formed(s: IrState, instruction: InstructionView)
    requires
        s.positioned(),
        well_formed(s),
        admits(s, instruction),
    ensures
        well_formed(s.emit(instruction)),
{
    let t = s.emit(instruction);
    lemma_admits_extends(s, t, instruction);
    lemma_well_formed_step(s, t);
}

proof fn lemma_resolve_bounded(variables: Seq<VariableView>, name: Seq<char>)
    ensures
        resolve_variable(variables, name) matches Some(slot) ==> 0 <= slot < variables.len()
            && variables[slot].name == name,
    decreases variables.len(),
{
    if variables.len() > 0 && variables.last().name != name {
        lemma_resolve_bounded(variables.drop_last(), name);
    }
}

/// Lowering an expression from a well-formed state gives a well-formed
/// state.
pub proof fn lemma_expr_well_formed(e: &Expr, s: IrState)
    requires
        s.positioned(),
        scopes_bounded(s),
        well_formed(s),
    ensures
        lower_expr(e, s) matches Ok((t, _)) ==> well_formed(t),
    decreases e, 0int,
{
    match e {
        Expr::WhileExpr(w) => lemma_while_well_formed(w, s),
        Expr::LoopExpr(l) => lemma_loop_well_formed(l, s),
        Expr::BlockExpr(b) => lemma_block_well_formed(b, s),
        Expr::IfExpr(i) => lemma_if_well_formed(i, s),
        Expr::AssignExpr(a) => lemma_assignment_well_formed(a, s),
        Expr::BinExpr(b) => lemma_binary_well_formed(b, s),
        Expr::UnaryExpr(u) => lemma_unary_well_formed(u, s),
        Expr::PrimaryExpr(p) => lemma_primary_well_formed(p, s),
    }
}

proof fn lemma_while_well_formed(w: &While, s: IrState)
    requires
        s.positioned(),
        scopes_bounded(s),
        well_formed(s),
    ensures
        lower_while(w, s) matches Ok((t, _)) ==> well_formed(t),
    decreases w,
{
    let n = s.next_block();
    let s1 = while_entered(s);
    lemma_well_formed_step(s, s1);
    lemma_expr_settles(&w.cond, s1);
    lemma_expr_well_formed(&w.cond, s1);
    match lower_expr(&w.cond, s1) {
        Err(_) => {},
        Ok((s2, cond)) => {
            let branch = InstructionView::Briz(n + 2, n + 1, cond);
            let s3 = s2.emit(branch).seek(n + 1);
            lemma_emit_well_formed(s2, branch);
            lemma_expr_settles(&w.body, s3);
            lemma_expr_well_formed(&w.body, s3);
            match lower_expr(&w.body, s3) {
                Err(_) => {},
                Ok((s4, _)) => {
                    lemma_emit_well_formed(s4, InstructionView::Br(n));
                    let s5 = s4.emit(InstructionView::Br(n)).pop_scope().seek(n + 2);
                    lemma_emit_well_formed(s5, void_sentinel());
                },
            }
        },
    }
}

proof fn lemma_loop_well_formed(l: &Loop, s: IrState)
    requires
        s.positioned(),
        scopes_bounded(s),
        well_formed(s),
    ensures
        lower_loop(l, s) matches Ok((t, _)) ==> well_formed(t),
    decreases l,
{
    let n = s.next_block();
    let s1 = loop_entered(s);
    lemma_well_formed_step(s, s1);
    lemma_expr_settles(&l.body, s1);
    lemma_expr_well_formed(&l.body, s1);
    match lower_expr(&l.body, s1) {
        Err(_) => {},
        Ok((s2, _)) => {
            lemma_emit_well_formed(s2, InstructionView::Br(n));
            let s3 = s2.emit(InstructionView::Br(n)).pop_scope().seek(n + 1);
            lemma_emit_well_formed(s3, void_sentinel());
        },
    }
}

/// Lowering statements from a well-formed state gives a well-formed state.
pub proof fn lemma_statements_well_formed(statements: &Vec<Statement>, from: int, s: IrState)
    requires
        s.positioned(),
        scopes_bounded(s),
        well_formed(s),
    ensures
        lower_statements(statements, from, s) matches Ok(t) ==> well_formed(t),
    decreases statements, statements.len() - from,
{
    if 0 <= from < statements.len() {
        lemma_statement_settles(&statements[from], s);
        lemma_statement_well_formed(&statements[from], s);
        match lower_statement(&statements[from], s) {
            Err(_) => {},
            Ok(s1) => {
                lemma_statements_well_formed(statements, from + 1, s1);
            },
        }
    }
}

proof fn lemma_block_well_formed(b: &Block, s: IrState)
    requires
        s.positioned(),
        scopes_bounded(s),
        well_formed(s),
    ensures
        lower_block(b, s) matches Ok((t, _)) ==> well_formed(t),
    decreases b,
{
    let n = s.next_block();
    let s1 = block_entered(s);
    lemma_well_formed_step(s, s1);
    lemma_statements_settle(&b.body, 0, s1);
    lemma_statements_well_formed(&b.body, 0, s1);
    match lower_statements(&b.body, 0, s1) {
        Err(_) => {},
        Ok(s2) => {
            match b.ret {
                Some(tail) => {
                    lemma_expr_settles(&tail, s2);
                    lemma_expr_well_formed(&tail, s2);
                    match lower_expr(&tail, s2) {
                        Err(_) => {},
                        Ok((s3, _)) => {
                            lemma_emit_well_formed(s3, InstructionView::Br(n + 1));
                        },
                    }
                },
                None => {
                    lemma_emit_well_formed(s2, InstructionView::Br(n + 1));
                    let s3 = s2.emit(InstructionView::Br(n + 1)).pop_scope().seek(n + 1);
                    lemma_emit_well_formed(s3, void_sentinel());
                },
            }
        },
    }
}

proof fn lemma_branch_well_formed(branch: &Expr, s: IrState, entry: int, exit: int)
    requires
        s.positioned(),
        scopes_bounded(s),
        well_formed(s),
        0 <= entry < s.blocks.len(),
        0 <= exit < s.blocks.len(),
    ensures
        lower_branch(branch, s, entry, exit) matches Ok((t, _)) ==> well_formed(t),
    decreases branch, 1int,
{
    lemma_expr_well_formed(branch, enter_branch(branch, s, entry, exit));
}

proof fn lemma_if_well_formed(i: &If, s: IrState)
    requires
        s.positioned(),
        scopes_bounded(s),
        well_formed(s),
    ensures
        lower_if(i, s) matches Ok((t, _)) ==> well_formed(t),
    decreases i,
{
    match i {
        If { cond, then: first, _else: last, .. } => {
            lemma_expr_settles(cond, s);
            lemma_expr_well_formed(cond, s);
            match lower_expr(cond, s) {
                Err(_) => {},
                Ok((s1, value)) => {
                    let n = s1.next_block();
                    let after_block = if_after_block(i, s1);
                    let s3 = if_entered(i, s1, value);
                    assert(s3.holds(value)) by {
                        lemma_holds_extends(s1, s3, value);
                    }
                    lemma_well_formed_step(s1, s3);
                    lemma_branch_settles(first, s3, n, after_block);
                    lemma_branch_well_formed(first, s3, n, after_block);
                    match lower_branch(first, s3, n, after_block) {
                        Err(_) => {},
                        Ok((s4, _)) => {
                            let jump = InstructionView::Br(after_block);
                            let s5 = s4.emit(jump).seek(n + 1);
                            lemma_emit_well_formed(s4, jump);
                            match last {
                                None => {
                                    lemma_emit_well_formed(s5, void_sentinel());
                                },
                                Some(second) => {
                                    lemma_branch_settles(second, s5, n + 1, after_block);
                                    lemma_branch_well_formed(second, s5, n + 1, after_block);
                                    match lower_branch(second, s5, n + 1, after_block) {
                                        Err(_) => {},
                                        Ok((s6, _)) => {
                                            let s7 = s6.emit(jump).seek(after_block);
                                            lemma_emit_well_formed(s6, jump);
                                            lemma_emit_well_formed(s7, void_sentinel());
                                        },
                                    }
                                },
                            }
                        },
                    }
                },
            }
        },
    }
}

proof fn lemma_assignment_well_formed(a: &Assignment, s: IrState)
    requires
        s.positioned(),
        scopes_bounded(s),
        well_formed(s),
    ensures
        lower_assignment(a, s) matches Ok((t, _)) ==> well_formed(t),
    decreases a,
{
    lemma_expr_settles(&a.value, s);
    lemma_expr_well_formed(&a.value, s);
    match lower_expr(&a.value, s) {
        Err(_) => {},
        Ok((s1, value)) => {
            lemma_resolve_bounded(s1.variables, a.name.text@);
            match resolve_variable(s1.variables, a.name.text@) {
                None => {},
                Some(slot) => lemma_emit_well_formed(s1, InstructionView::Varset(slot, value)),
            }
        },
    }
}

proof fn lemma_binary_well_formed(b: &BinExpr, s: IrState)
    requires
        s.positioned(),
        scopes_bounded(s),
        well_formed(s),
    ensures
        lower_binary(b, s) matches Ok((t, _)) ==> well_formed(t),
    decreases b,
{
    lemma_expr_settles(&b.left, s);
    lemma_expr_well_formed(&b.left, s);
    match lower_expr(&b.left, s) {
        Err(_) => {},
        Ok((s1, left)) => {
            lemma_expr_settles(&b.right, s1);
            lemma_expr_well_formed(&b.right, s1);
            match lower_expr(&b.right, s1) {
                Err(_) => {},
                Ok((s2, right)) => {
                    lemma_holds_extends(s1, s2, left);
                    lemma_emit_well_formed(
                        s2,
                        InstructionView::Binary(crate::ir::Opcode::of(b.op.kind), left, right),
                    );
                },
            }
        },
    }
}

proof fn lemma_unary_well_formed(u: &UnaryExpr, s: IrState)
    requires
        s.positioned(),
        scopes_bounded(s),
        well_formed(s),
    ensures
        lower_unary(u, s) matches Ok((t, _)) ==> well_formed(t),
    decreases u,
{
    lemma_primary_settles(&u.primary, s);
    lemma_primary_well_formed(&u.primary, s);
    match lower_primary(&u.primary, s) {
        Err(_) => {},
        Ok((s1, operand)) => {
            let s2 = s1.emit(InstructionView::Iconst(0));
            lemma_emit_well_formed(s1, InstructionView::Iconst(0));
            lemma_holds_extends(s1, s2, operand);
            lemma_emit_well_formed(
                s2,
                InstructionView::Binary(crate::ir::Opcode::Sub, s2.last_value(), operand),
            );
        },
    }
}

proof fn lemma_primary_well_formed(p: &PrimaryExpr, s: IrState)
    requires
        s.positioned(),
        scopes_bounded(s),
        well_formed(s),
    ensures
        lower_primary(p, s) matches Ok((t, _)) ==> well_formed(t),
    decreases p,
{
    match p {
        PrimaryExpr::Call(c) => lemma_call_well_formed(c, s),
        PrimaryExpr::Paren(inner) => lemma_expr_well_formed(&inner.expr, s),
        PrimaryExpr::Ident(name) => {
            lemma_resolve_bounded(s.variables, name.text@);
            match resolve_variable(s.variables, name.text@) {
                None => {},
                Some(slot) => lemma_emit_well_formed(s, InstructionView::Varget(slot)),
            }
        },
        PrimaryExpr::IntLit(literal) => lemma_emit_well_formed(
            s,
            InstructionView::Iconst(literal.value),
        ),
        PrimaryExpr::VoidLit(_) => lemma_emit_well_formed(s, void_sentinel()),
    }
}

proof fn lemma_arguments_well_formed(
    arguments: &Vec<(Token, Expr)>,
    from: int,
    s: IrState,
    values: Seq<ValueView>,
)
    requires
        s.positioned(),
        scopes_bounded(s),
        well_formed(s),
        all_held(s, values),
    ensures
        lower_arguments(arguments, from, s, values) matches Ok((t, all)) ==> well_formed(t)
            && all_held(t, all),
    decreases arguments, arguments.len() - from,
{
    if 0 <= from < arguments.len() {
        lemma_expr_settles(&arguments[from].1, s);
        lemma_expr_well_formed(&arguments[from].1, s);
        match lower_expr(&arguments[from].1, s) {
            Err(_) => {},
            Ok((s1, value)) => {
                lemma_all_held_extends(s, s1, values);
                assert(all_held(s1, values.push(value)));
                lemma_arguments_well_formed(arguments, from + 1, s1, values.push(value));
            },
        }
    }
}

proof fn lemma_call_well_formed(c: &Call, s: IrState)
    requires
        s.positioned(),
        scopes_bounded(s),
        well_formed(s),
    ensures
        lower_call(c, s) matches Ok((t, _)) ==> well_formed(t),
    decreases c,
{
    let (s1, values) = match c.first_arg {
        Some(argument) => {
            lemma_expr_settles(&argument, s);
            lemma_expr_well_formed(&argument, s);
            match lower_expr(&argument, s) {
                Err(_) => (s, Seq::<ValueView>::empty()),
                Ok((s1, value)) => (s1, seq![value]),
            }
        },
        None => (s, Seq::<ValueView>::empty()),
    };
    match lower_call(c, s) {
        Err(_) => {},
        Ok((t, _)) => {
            assert(all_held(s1, values));
            lemma_arguments_settle(&c.other_args, 0, s1, values);
            lemma_arguments_well_formed(&c.other_args, 0, s1, values);
            let (s2, all) = lower_arguments(&c.other_args, 0, s1, values)->Ok_0;
            lemma_emit_well_formed(s2, InstructionView::Call(c.name.text@, all));
        },
    }
}

/// Lowering a statement from a well-formed state gives a well-formed state.
pub proof fn lemma_statement_well_formed(statement: &Statement, s: IrState)
    requires
        s.positioned(),
        scopes_bounded(s),
        well_formed(s),
    ensures
        lower_statement(statement, s) matches Ok(t) ==> well_formed(t),
    decreases statement,
{
    lemma_nearest_scope(s.scopes, ScopeKind::Loop);
    match statement {
        Statement::Return(r) => {
            lemma_expr_settles(&r.value, s);
            lemma_expr_well_formed(&r.value, s);
            match lower_expr(&r.value, s) {
                Err(_) => {},
                Ok((s1, value)) => lemma_emit_well_formed(s1, InstructionView::Reti(value)),
            }
        },
        Statement::Break(_) | Statement::Continue(_) => {
            match lower_statement(statement, s) {
                Err(_) => {},
                Ok(t) => lemma_emit_well_formed(s, t.blocks[t.current].last()),
            }
        },
        Statement::Noop(_) => {},
        Statement::VarDecl(d) => {
            let literal = match d.value {
                Some(Expr::PrimaryExpr(PrimaryExpr::IntLit(literal))) => literal.value,
                _ => 0,
            };
            let s0 = s.declare(d.name.text@, literal);
            lemma_well_formed_step(s, s0);
            match d.value {
                None => {},
                Some(Expr::PrimaryExpr(PrimaryExpr::IntLit(_))) => {},
                Some(initializer) => {
                    lemma_expr_settles(&initializer, s0);
                    lemma_expr_well_formed(&initializer, s0);
                    match lower_expr(&initializer, s0) {
                        Err(_) => {},
                        Ok((s1, value)) => lemma_emit_well_formed(
                            s1,
                            InstructionView::Varset(s.next_slot(), value),
                        ),
                    }
                },
            }
        },
        Statement::Expr(statement) => lemma_expr_well_formed(&statement.expr, s),
    }
}

/// Lowering a program from a well-formed state gives a well-formed state.
/// The state of a fresh generator is well-formed.
pub proof fn lemma_program_well_formed(program: &Program, s: IrState)
    requires
        scopes_bounded(s),
        well_formed(s),
    ensures
        lower_program(program, s) matches Ok(t) ==> well_formed(t),
        well_formed(IrState::empty()),
{
    let n = s.next_block();
    let s2 = program_entered(s);
    lemma_well_formed_step(s, s2);
    lemma_statements_settle(&program.0, 0, s2);
    lemma_statements_well_formed(&program.0, 0, s2);
    match lower_statements(&program.0, 0, s2) {
        Err(_) => {},
        Ok(s3) => {
            lemma_emit_well_formed(s3.pop_scope(), InstructionView::Br(n + 1));
        },
    }
}

} // verus!
