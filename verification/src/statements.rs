//! What single statements emit: the write of a declaration and the return
//! of a `return`.

use vstd::prelude::*;
use crate::ast::{Expr, PrimaryExpr, Return, Statement, VarDecl};
use crate::error::LowerError;
use crate::frame::lemma_expr_settles;
use crate::generator::{IrState, VariableView};
use crate::ir::InstructionView;
use crate::lowering::{lower_expr, lower_statement};

verus! {

/// A declaration always takes a fresh slot. With a bare integer literal as
/// its initializer it gives the variable that literal as initial value and
/// emits nothing, so no write. With any other initializer the initial value
/// is zero, the initializer is lowered with the variable already declared,
/// and the last instruction emitted writes the initializer's value to the
/// new slot. Without an initializer the initial value is zero and nothing is
/// emitted.
pub proof fn lemma_declaration(d: VarDecl, s: IrState)
    requires
        s.positioned(),
    ensures
        match d.value {
            Some(Expr::PrimaryExpr(PrimaryExpr::IntLit(literal))) => {
                &&& lower_statement(&Statement::VarDecl(d), s) == Ok::<IrState, LowerError>(
                    s.declare(d.name.text@, literal.value),
                )
                &&& s.declare(d.name.text@, literal.value).blocks == s.blocks
            },
            Some(initializer) => match lower_expr(&initializer, s.declare(d.name.text@, 0)) {
                Ok((s1, value)) => {
                    let write = InstructionView::Varset(s.next_slot(), value);
                    &&& lower_statement(&Statement::VarDecl(d), s) == Ok::<IrState, LowerError>(
                        s1.emit(write),
                    )
                    &&& s1.emit(write).blocks[s1.current].last() == write
                    &&& s1.emit(write).variables[s.next_slot()] == VariableView {
                        name: d.name.text@,
                        initial: 0,
                    }
                    &&& s1.holds(value)
                },
                Err(err) => lower_statement(&Statement::VarDecl(d), s) == Err::<
                    IrState,
                    LowerError,
                >(err),
            },
            None => {
                &&& lower_statement(&Statement::VarDecl(d), s) == Ok::<IrState, LowerError>(
                    s.declare(d.name.text@, 0),
                )
                &&& s.declare(d.name.text@, 0).blocks == s.blocks
            },
        },
{
    match d.value {
        Some(Expr::PrimaryExpr(PrimaryExpr::IntLit(_))) => {},
        Some(initializer) => {
            let s0 = s.declare(d.name.text@, 0);
            lemma_expr_settles(&initializer, s0);
            match lower_expr(&initializer, s0) {
                Ok((s1, value)) => {
                    assert(s1.variables[s.next_slot()] == s0.variables[s.next_slot()]);
                },
                Err(_) => {},
            }
        },
        None => {},
    }
}

/// A `return` lowers its expression and then emits the return of that
/// expression's value, which is the position of an instruction that is
/// there. It fails exactly when its expression fails.
pub proof fn lemma_return(r: Return, s: IrState)
    requires
        s.positioned(),
    ensures
        match lower_expr(&r.value, s) {
            Ok((s1, value)) => {
                let returned = InstructionView::Reti(value);
                &&& lower_statement(&Statement::Return(r), s) == Ok::<IrState, LowerError>(
                    s1.emit(returned),
                )
                &&& s1.emit(returned).blocks[s1.current].last() == returned
                &&& s1.holds(value)
            },
            Err(err) => lower_statement(&Statement::Return(r), s) == Err::<IrState, LowerError>(
                err,
            ),
        },
{
    lemma_expr_settles(&r.value, s);
}

} // verus!
