//! The lowering pass: every node of the syntax tree emits its instructions
//! into a generator, by the rule that the lowering functions state for it.

use vstd::prelude::*;
use crate::ast::{
    Assignment, BinExpr, Block, Call, Expr, If, Loop, PrimaryExpr, Program, Statement, UnaryExpr,
    UnaryOpKind, While,
};
use crate::error::LowerError;
use crate::frame::{lemma_expr_settles, lemma_statement_settles, lemma_statements_settle};
use crate::generator::{IrGenerator, IrState};
use crate::ir::{values_view, Instruction, Opcode, ValueHandle, ValueView};
use crate::lowering::{
    block_entered, call_emitted, if_after_block, if_entered, loop_entered, lower_arguments,
    lower_assignment, lower_binary, lower_block, lower_branch, lower_call, lower_expr, lower_if,
    lower_loop, lower_primary, lower_program, lower_statement, lower_statements, lower_unary,
    lower_while, program_entered, while_entered,
};
use crate::branches::{
    closed, jumps_in_statements, lemma_program_accounted, lemma_program_closed, Jump,
};
use crate::reach::{flows_statements, lemma_program_reaches_exit, reaches};
use crate::return_count::{lemma_program_returns, return_count, returns_in_statements};
use crate::scope::{Scope, ScopeKind};
use crate::well_formed::{lemma_program_well_formed, well_formed};

verus! {

/// What an expression's `generate` owes: on success the generator is in the
/// state that the rule gives and the value is at the position that the rule
/// gives; on failure the error is the one that the rule gives.
pub open spec fn expr_outcome(
    result: Result<ValueHandle, LowerError>,
    after: IrState,
    rule: Result<(IrState, ValueView), LowerError>,
) -> bool {
    match result {
        Ok(value) => rule == Ok::<(IrState, ValueView), LowerError>((after, value@)),
        Err(err) => rule == Err::<(IrState, ValueView), LowerError>(err),
    }
}

/// What a statement's `generate` owes: on success the generator is in the
/// state that the rule gives; on failure the error is the one that the rule
/// gives.
pub open spec fn statement_outcome(
    result: Result<(), LowerError>,
    after: IrState,
    rule: Result<IrState, LowerError>,
) -> bool {
    match result {
        Ok(_) => rule == Ok::<IrState, LowerError>(after),
        Err(err) => rule == Err::<IrState, LowerError>(err),
    }
}

impl<'a> Expr<'a> {
    /// Lowers the expression into the generator and returns the position of
    /// its value.
    pub fn generate(&self, generator: &mut IrGenerator) -> (result: Result<ValueHandle, LowerError>)
        requires
            old(generator)@.positioned(),
        ensures
            expr_outcome(result, final(generator)@, lower_expr(self, old(generator)@)),
        decreases self, 0int,
    {
        match self {
            Expr::WhileExpr(w) => w.generate(generator),
            Expr::LoopExpr(l) => l.generate(generator),
            Expr::BlockExpr(b) => b.generate(generator),
            Expr::IfExpr(i) => i.generate(generator),
            Expr::AssignExpr(a) => a.generate(generator),
            Expr::BinExpr(b) => b.generate(generator),
            Expr::UnaryExpr(u) => u.generate(generator),
            Expr::PrimaryExpr(p) => p.generate(generator),
        }
    }

    fn is_block(&self) -> (block: bool)
        ensures
            block == (self is BlockExpr),
    {
        match self {
            Expr::BlockExpr(_) => true,
            _ => false,
        }
    }

    /// Lowers the expression as a branch of an `if` whose block is `entry`
    /// and whose continuation is `exit`.
    fn generate_branch(&self, generator: &mut IrGenerator, entry: usize, exit: usize) -> (result:
        Result<ValueHandle, LowerError>)
        requires
            old(generator)@.positioned(),
        ensures
            expr_outcome(
                result,
                final(generator)@,
                lower_branch(self, old(generator)@, entry as int, exit as int),
            ),
        decreases self, 1int,
    {
        let scoped = !self.is_block();
        if scoped {
            generator.push_scope(Scope::new(ScopeKind::Block, entry, exit));
        }
        let ghost s1 = generator@;
        let value = match self.generate(generator) {
            Ok(value) => value,
            Err(err) => {
                return Err(err);
            },
        };
        proof {
            lemma_expr_settles(self, s1);
        }
        if scoped {
            generator.pop_scope();
        }
        Ok(value)
    }
}

impl<'a> While<'a> {
    /// Lowers the loop into the generator.
    pub fn generate(&self, generator: &mut IrGenerator) -> (result: Result<ValueHandle, LowerError>)
        requires
            old(generator)@.positioned(),
        ensures
            expr_outcome(result, final(generator)@, lower_while(self, old(generator)@)),
        decreases self,
    {
        let cond_block = generator.append_block();
        let body_block = generator.append_block();
        let after_block = generator.append_block();
        generator.emit(Instruction::Br(cond_block));
        generator.push_scope(Scope::new(ScopeKind::Loop, cond_block, after_block));
        generator.seek(cond_block);
        let ghost s1 = generator@;
        assert(s1 == while_entered(old(generator)@));
        let cond = match self.cond.generate(generator) {
            Ok(value) => value,
            Err(err) => {
                return Err(err);
            },
        };
        proof {
            lemma_expr_settles(&self.cond, s1);
        }
        generator.emit(Instruction::Briz(after_block, body_block, cond));
        generator.seek(body_block);
        let ghost s3 = generator@;
        match self.body.generate(generator) {
            Ok(_) => {},
            Err(err) => {
                return Err(err);
            },
        }
        proof {
            lemma_expr_settles(&self.body, s3);
        }
        generator.emit(Instruction::Br(cond_block));
        generator.pop_scope();
        generator.seek(after_block);
        Ok(generator.emit(Instruction::Iconst(0)))
    }
}

impl<'a> Loop<'a> {
    /// Lowers the loop into the generator.
    pub fn generate(&self, generator: &mut IrGenerator) -> (result: Result<ValueHandle, LowerError>)
        requires
            old(generator)@.positioned(),
        ensures
            expr_outcome(result, final(generator)@, lower_loop(self, old(generator)@)),
        decreases self,
    {
        let body_block = generator.append_block();
        let after_block = generator.append_block();
        generator.push_scope(Scope::new(ScopeKind::Loop, body_block, after_block));
        generator.seek(body_block);
        let ghost s1 = generator@;
        assert(s1 == loop_entered(old(generator)@));
        match self.body.generate(generator) {
            Ok(_) => {},
            Err(err) => {
                return Err(err);
            },
        }
        proof {
            lemma_expr_settles(&self.body, s1);
        }
        generator.emit(Instruction::Br(body_block));
        generator.pop_scope();
        generator.seek(after_block);
        Ok(generator.emit(Instruction::Iconst(0)))
    }
}

/// Lowers the statements into the generator, in order, and stops at the
/// first that fails.
fn generate_statements(statements: &Vec<Statement>, generator: &mut IrGenerator) -> (result: Result<
    (),
    LowerError,
>)
    requires
        old(generator)@.positioned(),
    ensures
        statement_outcome(
            result,
            final(generator)@,
            lower_statements(statements, 0, old(generator)@),
        ),
    decreases statements,
{
    let mut i: usize = 0;
    while i < statements.len()
        invariant
            i <= statements.len(),
            generator@.positioned(),
            lower_statements(statements, 0, old(generator)@) == lower_statements(
                statements,
                i as int,
                generator@,
            ),
        decreases statements.len() - i,
    {
        let ghost si = generator@;
        match statements[i].generate(generator) {
            Ok(_) => {},
            Err(err) => {
                return Err(err);
            },
        }
        proof {
            lemma_statement_settles(&statements[i as int], si);
        }
        i = i + 1;
    }
    Ok(())
}

impl<'a> Block<'a> {
    /// Lowers the block into the generator.
    pub fn generate(&self, generator: &mut IrGenerator) -> (result: Result<ValueHandle, LowerError>)
        requires
            old(generator)@.positioned(),
        ensures
            expr_outcome(result, final(generator)@, lower_block(self, old(generator)@)),
        decreases self,
    {
        let inner_block = generator.append_block();
        let after_block = generator.append_block();
        generator.emit(Instruction::Br(inner_block));
        generator.push_scope(Scope::new(ScopeKind::Block, inner_block, after_block));
        generator.seek(inner_block);
        let ghost s1 = generator@;
        assert(s1 == block_entered(old(generator)@));
        match generate_statements(&self.body, generator) {
            Ok(_) => {},
            Err(err) => {
                return Err(err);
            },
        }
        proof {
            lemma_statements_settle(&self.body, 0, s1);
        }
        match &self.ret {
            Some(tail) => {
                let ghost s2 = generator@;
                let value = match tail.generate(generator) {
                    Ok(value) => value,
                    Err(err) => {
                        return Err(err);
                    },
                };
                proof {
                    lemma_expr_settles(tail, s2);
                }
                generator.emit(Instruction::Br(after_block));
                generator.pop_scope();
                generator.seek(after_block);
                Ok(value)
            },
            None => {
                generator.emit(Instruction::Br(after_block));
                generator.pop_scope();
                generator.seek(after_block);
                Ok(generator.emit(Instruction::Iconst(0)))
            },
        }
    }
}

impl<'a> If<'a> {
    /// Lowers the conditional into the generator.
    pub fn generate(&self, generator: &mut IrGenerator) -> (result: Result<ValueHandle, LowerError>)
        requires
            old(generator)@.positioned(),
        ensures
            expr_outcome(result, final(generator)@, lower_if(self, old(generator)@)),
        decreases self,
    {
        match self {
            If { cond, then: first, _else: last, .. } => {
                let value = match cond.generate(generator) {
                    Ok(value) => value,
                    Err(err) => {
                        return Err(err);
                    },
                };
                proof {
                    lemma_expr_settles(cond, old(generator)@);
                }
                let ghost s1 = generator@;
                let then_block = generator.append_block();
                let else_block = generator.append_block();
                let after_block = match last {
                    Some(_) => generator.append_block(),
                    None => else_block,
                };
                generator.emit(Instruction::Briz(else_block, then_block, value));
                generator.seek(then_block);
                let ghost s3 = generator@;
                assert(s3 == if_entered(self, s1, value@));
                assert(after_block == if_after_block(self, s1));
                match first.generate_branch(generator, then_block, after_block) {
                    Ok(_) => {},
                    Err(err) => {
                        return Err(err);
                    },
                }
                proof {
                    crate::frame::lemma_branch_settles(
                        first,
                        s3,
                        then_block as int,
                        after_block as int,
                    );
                }
                generator.emit(Instruction::Br(after_block));
                generator.seek(else_block);
                match last {
                    None => {},
                    Some(second) => {
                        let ghost s5 = generator@;
                        match second.generate_branch(generator, else_block, after_block) {
                            Ok(_) => {},
                            Err(err) => {
                                return Err(err);
                            },
                        }
                        proof {
                            crate::frame::lemma_branch_settles(
                                second,
                                s5,
                                else_block as int,
                                after_block as int,
                            );
                        }
                        generator.emit(Instruction::Br(after_block));
                        generator.seek(after_block);
                    },
                }
                Ok(generator.emit(Instruction::Iconst(0)))
            },
        }
    }
}

impl<'a> Assignment<'a> {
    /// Lowers the assignment into the generator.
    pub fn generate(&self, generator: &mut IrGenerator) -> (result: Result<ValueHandle, LowerError>)
        requires
            old(generator)@.positioned(),
        ensures
            expr_outcome(result, final(generator)@, lower_assignment(self, old(generator)@)),
        decreases self,
    {
        let value = match self.value.generate(generator) {
            Ok(value) => value,
            Err(err) => {
                return Err(err);
            },
        };
        proof {
            lemma_expr_settles(&self.value, old(generator)@);
        }
        let name = self.name.text.to_owned();
        match generator.resolve(&name) {
            None => Err(LowerError::UndeclaredVariable),
            Some(slot) => Ok(generator.emit(Instruction::Varset(slot, value))),
        }
    }
}

impl<'a> BinExpr<'a> {
    /// Lowers the expression into the generator.
    pub fn generate(&self, generator: &mut IrGenerator) -> (result: Result<ValueHandle, LowerError>)
        requires
            old(generator)@.positioned(),
        ensures
            expr_outcome(result, final(generator)@, lower_binary(self, old(generator)@)),
        decreases self,
    {
        let left = match self.left.generate(generator) {
            Ok(value) => value,
            Err(err) => {
                return Err(err);
            },
        };
        proof {
            lemma_expr_settles(&self.left, old(generator)@);
        }
        let ghost s1 = generator@;
        let right = match self.right.generate(generator) {
            Ok(value) => value,
            Err(err) => {
                return Err(err);
            },
        };
        proof {
            lemma_expr_settles(&self.right, s1);
        }
        Ok(generator.emit(Instruction::Binary(Opcode::from_kind(self.op.kind), left, right)))
    }
}

impl<'a> UnaryExpr<'a> {
    /// Lowers the expression into the generator.
    pub fn generate(&self, generator: &mut IrGenerator) -> (result: Result<ValueHandle, LowerError>)
        requires
            old(generator)@.positioned(),
        ensures
            expr_outcome(result, final(generator)@, lower_unary(self, old(generator)@)),
        decreases self,
    {
        let operand = match self.primary.generate(generator) {
            Ok(value) => value,
            Err(err) => {
                return Err(err);
            },
        };
        proof {
            crate::frame::lemma_primary_settles(&self.primary, old(generator)@);
        }
        match self.op.kind {
            UnaryOpKind::Plus => Ok(operand),
            UnaryOpKind::Minus => {
                let zero = generator.emit(Instruction::Iconst(0));
                Ok(generator.emit(Instruction::Binary(Opcode::Sub, zero, operand)))
            },
        }
    }
}

impl<'a> PrimaryExpr<'a> {
    /// Lowers the expression into the generator.
    pub fn generate(&self, generator: &mut IrGenerator) -> (result: Result<ValueHandle, LowerError>)
        requires
            old(generator)@.positioned(),
        ensures
            expr_outcome(result, final(generator)@, lower_primary(self, old(generator)@)),
        decreases self,
    {
        match self {
            PrimaryExpr::Call(c) => c.generate(generator),
            PrimaryExpr::Ident(name) => {
                let name = name.text.to_owned();
                match generator.resolve(&name) {
                    None => Err(LowerError::UndeclaredVariable),
                    Some(slot) => Ok(generator.emit(Instruction::Varget(slot))),
                }
            },
            PrimaryExpr::IntLit(literal) => Ok(generator.emit(Instruction::Iconst(literal.value))),
            PrimaryExpr::VoidLit(_) => Ok(generator.emit(Instruction::Iconst(0))),
            PrimaryExpr::Paren(inner) => inner.expr.generate(generator),
        }
    }
}

impl<'a> Call<'a> {
    /// Lowers the call into the generator.
    pub fn generate(&self, generator: &mut IrGenerator) -> (result: Result<ValueHandle, LowerError>)
        requires
            old(generator)@.positioned(),
        ensures
            expr_outcome(result, final(generator)@, lower_call(self, old(generator)@)),
        decreases self,
    {
        let mut values: Vec<ValueHandle> = Vec::new();
        match &self.first_arg {
            Some(argument) => {
                let value = match argument.generate(generator) {
                    Ok(value) => value,
                    Err(err) => {
                        return Err(err);
                    },
                };
                proof {
                    lemma_expr_settles(argument, old(generator)@);
                }
                values.push(value);
                assert(values_view(values@) =~= seq![value@]);
            },
            None => {
                assert(values_view(values@) =~= Seq::<ValueView>::empty());
            },
        }
        let mut i: usize = 0;
        while i < self.other_args.len()
            invariant
                i <= self.other_args.len(),
                generator@.positioned(),
                lower_call(self, old(generator)@) == call_emitted(
                    self,
                    lower_arguments(&self.other_args, i as int, generator@, values_view(values@)),
                ),
            decreases self.other_args.len() - i,
        {
            let ghost si = generator@;
            let ghost before = values_view(values@);
            let value = match self.other_args[i].1.generate(generator) {
                Ok(value) => value,
                Err(err) => {
                    return Err(err);
                },
            };
            proof {
                lemma_expr_settles(&self.other_args[i as int].1, si);
            }
            values.push(value);
            assert(values_view(values@) =~= before.push(value@));
            i = i + 1;
        }
        Ok(generator.emit(Instruction::Call(self.name.text.to_owned(), values)))
    }
}

impl<'a> Statement<'a> {
    /// Lowers the statement into the generator.
    pub fn generate(&self, generator: &mut IrGenerator) -> (result: Result<(), LowerError>)
        requires
            old(generator)@.positioned(),
        ensures
            statement_outcome(result, final(generator)@, lower_statement(self, old(generator)@)),
        decreases self,
    {
        match self {
            Statement::Return(r) => {
                let value = match r.value.generate(generator) {
                    Ok(value) => value,
                    Err(err) => {
                        return Err(err);
                    },
                };
                proof {
                    lemma_expr_settles(&r.value, old(generator)@);
                }
                generator.emit(Instruction::Reti(value));
                Ok(())
            },
            Statement::Break(_) => match generator.nearest(ScopeKind::Loop) {
                None => Err(LowerError::BreakOutsideLoop),
                Some(scope) => {
                    generator.emit(Instruction::Br(scope.exit_block));
                    Ok(())
                },
            },
            Statement::Continue(_) => match generator.nearest(ScopeKind::Loop) {
                None => Err(LowerError::ContinueOutsideLoop),
                Some(scope) => {
                    generator.emit(Instruction::Br(scope.entry_block));
                    Ok(())
                },
            },
            Statement::Noop(_) => Ok(()),
            Statement::VarDecl(d) => {
                let name = d.name.text.to_owned();
                match &d.value {
                    None => {
                        generator.declare_variable(name, 0);
                        Ok(())
                    },
                    Some(Expr::PrimaryExpr(PrimaryExpr::IntLit(literal))) => {
                        generator.declare_variable(name, literal.value);
                        Ok(())
                    },
                    Some(initializer) => {
                        let slot = generator.declare_variable(name, 0);
                        let ghost s0 = generator@;
                        let value = match initializer.generate(generator) {
                            Ok(value) => value,
                            Err(err) => {
                                return Err(err);
                            },
                        };
                        proof {
                            lemma_expr_settles(initializer, s0);
                        }
                        generator.emit(Instruction::Varset(slot, value));
                        Ok(())
                    },
                }
            },
            Statement::Expr(statement) => match statement.expr.generate(generator) {
                Ok(_) => Ok(()),
                Err(err) => Err(err),
            },
        }
    }
}

impl<'a> Program<'a> {
    /// Lowers the program into a generator of its own and hands the
    /// generator over, or fails and hands over nothing. The entry block is
    /// block 0 and the exit block is block 1. What comes out is well-formed
    /// and closed, holds no scope, and has one return instruction for each
    /// `return` statement beside the one of the exit block; and where control
    /// gets through the statements, the entry block reaches the exit block.
    pub fn lower(&self) -> (result: Result<IrGenerator, LowerError>)
        ensures
            match result {
                Ok(generator) => {
                    &&& lower_program(self, IrState::empty()) == Ok::<IrState, LowerError>(
                        generator@,
                    )
                    &&& well_formed(generator@)
                    &&& closed(generator@)
                    &&& generator@.scopes.len() == 0
                    &&& return_count(generator@.blocks) == 1 + returns_in_statements(&self.0, 0)
                    &&& jumps_in_statements(&self.0, 0, Jump::Break) == 0
                    &&& jumps_in_statements(&self.0, 0, Jump::Continue) == 0
                    &&& flows_statements(&self.0, 0) ==> reaches(generator@.blocks, 0, 1)
                },
                Err(err) => lower_program(self, IrState::empty()) == Err::<IrState, LowerError>(
                    err,
                ),
            },
    {
        let mut generator = IrGenerator::new();
        match self.generate(&mut generator) {
            Ok(_) => {
                proof {
                    let s = IrState::empty();
                    crate::frame::lemma_program_settles(self, s);
                    lemma_program_well_formed(self, s);
                    lemma_program_closed(self, s);
                    lemma_program_returns(self, s);
                    lemma_program_accounted(self, s, 0);
                    if flows_statements(&self.0, 0) {
                        lemma_program_reaches_exit(self, s);
                    }
                }
                Ok(generator)
            },
            Err(err) => Err(err),
        }
    }

    /// Lowers the program into the generator: an entry block that the
    /// statements start in, and an exit block that returns zero and that
    /// the last statement leads to.
    pub fn generate(&self, generator: &mut IrGenerator) -> (result: Result<(), LowerError>)
        ensures
            statement_outcome(result, final(generator)@, lower_program(self, old(generator)@)),
    {
        let entry_block = generator.append_block();
        let exit_block = generator.append_block();
        generator.seek(exit_block);
        let code = generator.emit(Instruction::Iconst(0));
        generator.emit(Instruction::Reti(code));
        generator.push_scope(Scope::new(ScopeKind::Root, entry_block, exit_block));
        generator.seek(entry_block);
        let ghost s2 = generator@;
        assert(s2 == program_entered(old(generator)@));
        match generate_statements(&self.0, generator) {
            Ok(_) => {},
            Err(err) => {
                return Err(err);
            },
        }
        proof {
            lemma_statements_settle(&self.0, 0, s2);
        }
        generator.pop_scope();
        generator.emit(Instruction::Br(exit_block));
        Ok(())
    }
}

} // verus!
