//! What lowering leaves alone: instructions once written stay where they
//! are, variables keep their slots, and every scope pushed is popped again.

use vstd::prelude::*;
use crate::ast::{
    Assignment, BinExpr, Block, Call, Expr, If, Loop, PrimaryExpr, Program, Statement, UnaryExpr,
    While,
};
use crate::generator::IrState;
use crate::ir::{InstructionView, ValueView};
use crate::lowering::{
    block_entered, enter_branch, if_after_block, if_entered, leave_branch, loop_entered,
    lower_arguments, lower_assignment, lower_binary, lower_block, lower_branch, lower_call,
    lower_expr, lower_if, lower_loop, lower_primary, lower_program, lower_statement,
    lower_statements, lower_unary, lower_while, program_entered, while_entered,
};
use crate::token::Token;

verus! {

/// `after` holds the instructions of `before` at the same positions, and
/// maybe more behind them.
pub open spec fn block_extends(before: Seq<InstructionView>, after: Seq<InstructionView>) -> bool {
    &&& before.len() <= after.len()
    &&& forall|i: int| 0 <= i < before.len() ==> #[trigger] after[i] == before[i]
}

/// `after` holds every block of `before` under the same handle, extended at
/// most at its end, and every variable of `before` in the same slot.
pub open spec fn extends(before: IrState, after: IrState) -> bool {
    &&& before.blocks.len() <= after.blocks.len()
    &&& forall|b: int|
        0 <= b < before.blocks.len() ==> block_extends(before.blocks[b], #[trigger] after.blocks[b])
    &&& before.variables.len() <= after.variables.len()
    &&& forall|v: int|
        0 <= v < before.variables.len() ==> #[trigger] after.variables[v] == before.variables[v]
}

/// `after` extends `before`, has the same scope stack, and its insertion
/// point is at a block that exists.
pub open spec fn settles(before: IrState, after: IrState) -> bool {
    &&& extends(before, after)
    &&& after.scopes == before.scopes
    &&& after.positioned()
}

/// Extension carries over two steps.
pub proof fn lemma_extends_transitive(a: IrState, b: IrState, c: IrState)
    requires
        extends(a, b),
        extends(b, c),
    ensures
        extends(a, c),
{
    assert forall|i: int| 0 <= i < a.blocks.len() implies block_extends(
        a.blocks[i],
        #[trigger] c.blocks[i],
    ) by {
        assert(block_extends(a.blocks[i], b.blocks[i]));
        assert(block_extends(b.blocks[i], c.blocks[i]));
    }
}

/// Lowering an expression only appends: it never changes or removes an
/// instruction or a variable, it leaves the scope stack as it found it, and
/// it leaves the insertion point at a block that exists. The value that it
/// yields is the position of an instruction that is there.
pub proof fn lemma_expr_settles(e: &Expr, s: IrState)
    requires
        s.positioned(),
    ensures
        lower_expr(e, s) matches Ok((t, value)) ==> settles(s, t) && t.holds(value),
    decreases e, 0int,
{
    match e {
        Expr::WhileExpr(w) => lemma_while_settles(w, s),
        Expr::LoopExpr(l) => lemma_loop_settles(l, s),
        Expr::BlockExpr(b) => lemma_block_settles(b, s),
        Expr::IfExpr(i) => lemma_if_settles(i, s),
        Expr::AssignExpr(a) => lemma_assignment_settles(a, s),
        Expr::BinExpr(b) => lemma_binary_settles(b, s),
        Expr::UnaryExpr(u) => lemma_unary_settles(u, s),
        Expr::PrimaryExpr(p) => lemma_primary_settles(p, s),
    }
}

proof fn lemma_while_settles(w: &While, s: IrState)
    requires
        s.positioned(),
    ensures
        lower_while(w, s) matches Ok((t, value)) ==> settles(s, t) && t.holds(value),
    decreases w,
{
    let cond_block = s.next_block();
    let s1 = while_entered(s);
    assert(extends(s, s1));
    lemma_expr_settles(&w.cond, s1);
    match lower_expr(&w.cond, s1) {
        Err(_) => {},
        Ok((s2, cond)) => {
            let s3 = s2.emit(InstructionView::Briz(cond_block + 2, cond_block + 1, cond)).seek(
                cond_block + 1,
            );
            assert(extends(s2, s3));
            lemma_extends_transitive(s, s1, s2);
            lemma_extends_transitive(s, s2, s3);
            lemma_expr_settles(&w.body, s3);
            match lower_expr(&w.body, s3) {
                Err(_) => {},
                Ok((s4, _)) => {
                    let t = lower_while(w, s)->Ok_0.0;
                    assert(extends(s4, t));
                    assert(t.scopes =~= s.scopes);
                    lemma_extends_transitive(s, s3, s4);
                    lemma_extends_transitive(s, s4, t);
                },
            }
        },
    }
}

proof fn lemma_loop_settles(l: &Loop, s: IrState)
    requires
        s.positioned(),
    ensures
        lower_loop(l, s) matches Ok((t, value)) ==> settles(s, t) && t.holds(value),
    decreases l,
{
    let s1 = loop_entered(s);
    assert(extends(s, s1));
    lemma_expr_settles(&l.body, s1);
    match lower_expr(&l.body, s1) {
        Err(_) => {},
        Ok((s2, _)) => {
            let t = lower_loop(l, s)->Ok_0.0;
            assert(extends(s2, t));
            assert(t.scopes =~= s.scopes);
            lemma_extends_transitive(s, s1, s2);
            lemma_extends_transitive(s, s2, t);
        },
    }
}

/// Lowering statements only appends, as lowering an expression does.
pub proof fn lemma_statements_settle(statements: &Vec<Statement>, from: int, s: IrState)
    requires
        s.positioned(),
    ensures
        lower_statements(statements, from, s) matches Ok(t) ==> settles(s, t),
    decreases statements, statements.len() - from,
{
    if 0 <= from < statements.len() {
        lemma_statement_settles(&statements[from], s);
        match lower_statement(&statements[from], s) {
            Err(_) => {},
            Ok(s1) => {
                lemma_statements_settle(statements, from + 1, s1);
                match lower_statements(statements, from + 1, s1) {
                    Err(_) => {},
                    Ok(t) => lemma_extends_transitive(s, s1, t),
                }
            },
        }
    }
}

proof fn lemma_block_settles(b: &Block, s: IrState)
    requires
        s.positioned(),
    ensures
        lower_block(b, s) matches Ok((t, value)) ==> settles(s, t) && t.holds(value),
    decreases b,
{
    let s1 = block_entered(s);
    assert(extends(s, s1));
    lemma_statements_settle(&b.body, 0, s1);
    match lower_statements(&b.body, 0, s1) {
        Err(_) => {},
        Ok(s2) => {
            lemma_extends_transitive(s, s1, s2);
            match b.ret {
                Some(tail) => {
                    lemma_expr_settles(&tail, s2);
                    match lower_expr(&tail, s2) {
                        Err(_) => {},
                        Ok((s3, _)) => {
                            let t = lower_block(b, s)->Ok_0.0;
                            assert(extends(s3, t));
                            assert(t.scopes =~= s.scopes);
                            lemma_extends_transitive(s, s2, s3);
                            lemma_extends_transitive(s, s3, t);
                        },
                    }
                },
                None => {
                    let t = lower_block(b, s)->Ok_0.0;
                    assert(extends(s2, t));
                    assert(t.scopes =~= s.scopes);
                    lemma_extends_transitive(s, s2, t);
                },
            }
        },
    }
}

/// A branch of an `if`, with the scope that wraps it.
pub proof fn lemma_branch_settles(branch: &Expr, s: IrState, entry: int, exit: int)
    requires
        s.positioned(),
    ensures
        lower_branch(branch, s, entry, exit) matches Ok((t, value)) ==> settles(s, t) && t.holds(value),
    decreases branch, 1int,
{
    let s1 = enter_branch(branch, s, entry, exit);
    lemma_expr_settles(branch, s1);
    match lower_expr(branch, s1) {
        Err(_) => {},
        Ok((t, _)) => {
            assert(leave_branch(branch, t).scopes =~= s.scopes);
        },
    }
}

proof fn lemma_if_settles(i: &If, s: IrState)
    requires
        s.positioned(),
    ensures
        lower_if(i, s) matches Ok((t, value)) ==> settles(s, t) && t.holds(value),
    decreases i,
{
    match i {
        If { cond, then: first, _else: last, .. } => {
            lemma_expr_settles(cond, s);
            match lower_expr(cond, s) {
                Err(_) => {},
                Ok((s1, value)) => {
                    let then_block = s1.next_block();
                    let else_block = then_block + 1;
                    let after_block = if_after_block(i, s1);
                    let s3 = if_entered(i, s1, value);
                    assert(extends(s1, s3));
                    lemma_extends_transitive(s, s1, s3);
                    lemma_branch_settles(first, s3, then_block, after_block);
                    match lower_branch(first, s3, then_block, after_block) {
                        Err(_) => {},
                        Ok((s4, _)) => {
                            let s5 = s4.emit(InstructionView::Br(after_block)).seek(else_block);
                            assert(extends(s4, s5));
                            lemma_extends_transitive(s, s3, s4);
                            lemma_extends_transitive(s, s4, s5);
                            match last {
                                None => {
                                    let t = lower_if(i, s)->Ok_0.0;
                                    assert(extends(s5, t));
                                    lemma_extends_transitive(s, s5, t);
                                },
                                Some(second) => {
                                    lemma_branch_settles(second, s5, else_block, after_block);
                                    match lower_branch(second, s5, else_block, after_block) {
                                        Err(_) => {},
                                        Ok((s6, _)) => {
                                            let t = lower_if(i, s)->Ok_0.0;
                                            assert(extends(s6, t));
                                            lemma_extends_transitive(s, s5, s6);
                                            lemma_extends_transitive(s, s6, t);
                                        },
                                    }
                                },
                            }
                        },
                    }
                },
            }
        },
    }
}

proof fn lemma_assignment_settles(a: &Assignment, s: IrState)
    requires
        s.positioned(),
    ensures
        lower_assignment(a, s) matches Ok((t, value)) ==> settles(s, t) && t.holds(value),
    decreases a,
{
    lemma_expr_settles(&a.value, s);
    match lower_assignment(a, s) {
        Err(_) => {},
        Ok((t, _)) => {
            let s1 = lower_expr(&a.value, s)->Ok_0.0;
            assert(extends(s1, t));
            lemma_extends_transitive(s, s1, t);
        },
    }
}

proof fn lemma_binary_settles(b: &BinExpr, s: IrState)
    requires
        s.positioned(),
    ensures
        lower_binary(b, s) matches Ok((t, value)) ==> settles(s, t) && t.holds(value),
    decreases b,
{
    lemma_expr_settles(&b.left, s);
    match lower_expr(&b.left, s) {
        Err(_) => {},
        Ok((s1, _)) => {
            lemma_expr_settles(&b.right, s1);
            match lower_expr(&b.right, s1) {
                Err(_) => {},
                Ok((s2, _)) => {
                    let t = lower_binary(b, s)->Ok_0.0;
                    assert(extends(s2, t));
                    lemma_extends_transitive(s, s1, s2);
                    lemma_extends_transitive(s, s2, t);
                },
            }
        },
    }
}

proof fn lemma_unary_settles(u: &UnaryExpr, s: IrState)
    requires
        s.positioned(),
    ensures
        lower_unary(u, s) matches Ok((t, value)) ==> settles(s, t) && t.holds(value),
    decreases u,
{
    lemma_primary_settles(&u.primary, s);
    match lower_unary(u, s) {
        Err(_) => {},
        Ok((t, _)) => {
            let s1 = lower_primary(&u.primary, s)->Ok_0.0;
            let s2 = s1.emit(InstructionView::Iconst(0));
            assert(extends(s1, s2));
            assert(extends(s2, t) || t == s1);
            lemma_extends_transitive(s, s1, s2);
            if t != s1 {
                lemma_extends_transitive(s, s2, t);
            }
        },
    }
}

pub proof fn lemma_primary_settles(p: &PrimaryExpr, s: IrState)
    requires
        s.positioned(),
    ensures
        lower_primary(p, s) matches Ok((t, value)) ==> settles(s, t) && t.holds(value),
    decreases p,
{
    match p {
        PrimaryExpr::Call(c) => lemma_call_settles(c, s),
        PrimaryExpr::Paren(inner) => lemma_expr_settles(&inner.expr, s),
        _ => {},
    }
}

pub proof fn lemma_arguments_settle(
    arguments: &Vec<(Token, Expr)>,
    from: int,
    s: IrState,
    values: Seq<ValueView>,
)
    requires
        s.positioned(),
    ensures
        lower_arguments(arguments, from, s, values) matches Ok((t, _)) ==> settles(s, t),
    decreases arguments, arguments.len() - from,
{
    if 0 <= from < arguments.len() {
        lemma_expr_settles(&arguments[from].1, s);
        match lower_expr(&arguments[from].1, s) {
            Err(_) => {},
            Ok((s1, value)) => {
                lemma_arguments_settle(arguments, from + 1, s1, values.push(value));
                match lower_arguments(arguments, from + 1, s1, values.push(value)) {
                    Err(_) => {},
                    Ok((t, _)) => lemma_extends_transitive(s, s1, t),
                }
            },
        }
    }
}

proof fn lemma_call_settles(c: &Call, s: IrState)
    requires
        s.positioned(),
    ensures
        lower_call(c, s) matches Ok((t, value)) ==> settles(s, t) && t.holds(value),
    decreases c,
{
    let (s1, values) = match c.first_arg {
        Some(argument) => {
            lemma_expr_settles(&argument, s);
            match lower_expr(&argument, s) {
                Err(_) => (s, Seq::<ValueView>::empty()),
                Ok((s1, value)) => (s1, seq![value]),
            }
        },
        None => (s, Seq::<ValueView>::empty()),
    };
    match lower_call(c, s) {
        Err(_) => {},
        Ok((t, _)) => {
            lemma_arguments_settle(&c.other_args, 0, s1, values);
            let s2 = lower_arguments(&c.other_args, 0, s1, values)->Ok_0.0;
            assert(extends(s2, t));
            lemma_extends_transitive(s, s1, s2);
            lemma_extends_transitive(s, s2, t);
        },
    }
}

/// Lowering a statement only appends, as lowering an expression does.
pub proof fn lemma_statement_settles(statement: &Statement, s: IrState)
    requires
        s.positioned(),
    ensures
        lower_statement(statement, s) matches Ok(t) ==> settles(s, t),
    decreases statement,
{
    match statement {
        Statement::Return(r) => {
            lemma_expr_settles(&r.value, s);
            match lower_statement(statement, s) {
                Err(_) => {},
                Ok(t) => {
                    let s1 = lower_expr(&r.value, s)->Ok_0.0;
                    assert(extends(s1, t));
                    lemma_extends_transitive(s, s1, t);
                },
            }
        },
        Statement::VarDecl(d) => match d.value {
            None => {},
            Some(Expr::PrimaryExpr(PrimaryExpr::IntLit(_))) => {},
            Some(initializer) => {
                let s0 = s.declare(d.name.text@, 0);
                lemma_expr_settles(&initializer, s0);
                match lower_statement(statement, s) {
                    Err(_) => {},
                    Ok(t) => {
                        let s1 = lower_expr(&initializer, s0)->Ok_0.0;
                        assert(extends(s, s0));
                        assert(extends(s1, t));
                        lemma_extends_transitive(s, s0, s1);
                        lemma_extends_transitive(s, s1, t);
                    },
                }
            },
        },
        Statement::Expr(statement) => lemma_expr_settles(&statement.expr, s),
        _ => {},
    }
}

/// Lowering a program only appends, and leaves the scope stack as it found
/// it. It asks nothing of the state it starts from.
pub proof fn lemma_program_settles(program: &Program, s: IrState)
    ensures
        lower_program(program, s) matches Ok(t) ==> settles(s, t),
{
    let s2 = program_entered(s);
    assert(extends(s, s2));
    lemma_statements_settle(&program.0, 0, s2);
    match lower_statements(&program.0, 0, s2) {
        Err(_) => {},
        Ok(s3) => {
            let t = lower_program(program, s)->Ok_0;
            assert(extends(s3, t));
            assert(t.scopes =~= s.scopes);
            lemma_extends_transitive(s, s2, s3);
            lemma_extends_transitive(s, s3, t);
        },
    }
}

} // verus!
