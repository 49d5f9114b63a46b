//! The instruction set of the intermediate representation.
//!
//! Instructions are plain data. An instruction that computes something is
//! named afterwards by its position: the block it stands in and its index
//! there.

use vstd::prelude::*;
use crate::ast::BinOpKind;

verus! {

/// The position of an emitted instruction, which stands for the value that
/// the instruction yields.
#[derive(Debug, PartialEq, Eq, Clone, Copy)]
pub struct ValueHandle {
    /// The block that holds the instruction.
    pub block: usize,
    /// The index of the instruction in that block.
    pub index: usize,
}

/// A `ValueHandle` as contracts see it.
pub struct ValueView {
    pub block: int,
    pub index: int,
}

impl View for ValueHandle {
    type V = ValueView;

    open spec fn view(&self) -> ValueView {
        ValueView { block: self.block as int, index: self.index as int }
    }
}

/// The operation of a binary instruction.
#[derive(Debug, PartialEq, Eq, Clone, Copy, Structural)]
pub enum Opcode {
    Add,
    Sub,
    Mul,
    Div,
    Equal,
    NotEqual,
    Greater,
    GreaterEqual,
    LesserEqual,
    Lesser,
    LShift,
    RShift,
}

impl Opcode {
    /// The operation that a binary operator of the source language stands for.
    pub open spec fn of(kind: BinOpKind) -> Opcode {
        match kind {
            BinOpKind::Add => Opcode::Add,
            BinOpKind::Sub => Opcode::Sub,
            BinOpKind::Mul => Opcode::Mul,
            BinOpKind::Div => Opcode::Div,
            BinOpKind::Equal => Opcode::Equal,
            BinOpKind::NotEqual => Opcode::NotEqual,
            BinOpKind::Greater => Opcode::Greater,
            BinOpKind::GreaterEqual => Opcode::GreaterEqual,
            BinOpKind::LesserEqual => Opcode::LesserEqual,
            BinOpKind::Lesser => Opcode::Lesser,
            BinOpKind::LShift => Opcode::LShift,
            BinOpKind::RShift => Opcode::RShift,
        }
    }

    /// Computes `of`.
    pub fn from_kind(kind: BinOpKind) -> (opcode: Opcode)
        ensures
            opcode == Opcode::of(kind),
    {
        match kind {
            BinOpKind::Add => Opcode::Add,
            BinOpKind::Sub => Opcode::Sub,
            BinOpKind::Mul => Opcode::Mul,
            BinOpKind::Div => Opcode::Div,
            BinOpKind::Equal => Opcode::Equal,
            BinOpKind::NotEqual => Opcode::NotEqual,
            BinOpKind::Greater => Opcode::Greater,
            BinOpKind::GreaterEqual => Opcode::GreaterEqual,
            BinOpKind::LesserEqual => Opcode::LesserEqual,
            BinOpKind::Lesser => Opcode::Lesser,
            BinOpKind::LShift => Opcode::LShift,
            BinOpKind::RShift => Opcode::RShift,
        }
    }
}

/// One instruction of the intermediate representation.
#[derive(Debug, PartialEq, Eq, Clone)]
pub enum Instruction {
    /// An integer constant.
    Iconst(i128),
    /// Reads the variable in the given slot.
    Varget(usize),
    /// Writes a value to the variable in the given slot; yields that value.
    Varset(usize, ValueHandle),
    /// Applies the operation to a left and a right operand.
    Binary(Opcode, ValueHandle, ValueHandle),
    /// Branches to the given block.
    Br(usize),
    /// Branches to the first block when the value is zero, to the second
    /// otherwise.
    Briz(usize, usize, ValueHandle),
    /// Returns the value.
    Reti(ValueHandle),
    /// Calls the named function on the argument values, in order.
    Call(String, Vec<ValueHandle>),
}

/// An `Instruction` as contracts see it.
pub enum InstructionView {
    Iconst(i128),
    Varget(int),
    Varset(int, ValueView),
    Binary(Opcode, ValueView, ValueView),
    Br(int),
    Briz(int, int, ValueView),
    Reti(ValueView),
    Call(Seq<char>, Seq<ValueView>),
}

/// The views of a sequence of value handles, in order.
pub open spec fn values_view(values: Seq<ValueHandle>) -> Seq<ValueView> {
    values.map_values(|v: ValueHandle| v@)
}

impl View for Instruction {
    type V = InstructionView;

    open spec fn view(&self) -> InstructionView {
        match self {
            Instruction::Iconst(n) => InstructionView::Iconst(*n),
            Instruction::Varget(slot) => InstructionView::Varget(*slot as int),
            Instruction::Varset(slot, value) => InstructionView::Varset(*slot as int, value@),
            Instruction::Binary(op, left, right) => InstructionView::Binary(*op, left@, right@),
            Instruction::Br(target) => InstructionView::Br(*target as int),
            Instruction::Briz(zero, nonzero, value) => InstructionView::Briz(
                *zero as int,
                *nonzero as int,
                value@,
            ),
            Instruction::Reti(value) => InstructionView::Reti(value@),
            Instruction::Call(callee, arguments) => InstructionView::Call(
                callee@,
                values_view(arguments@),
            ),
        }
    }
}

/// The views of a sequence of instructions, in order.
pub open spec fn instructions_view(instructions: Seq<Instruction>) -> Seq<InstructionView> {
    instructions.map_values(|i: Instruction| i@)
}

impl InstructionView {
    /// How many times the instruction names `block` as a branch target.
    pub open spec fn branches_to(self, block: int) -> nat {
        match self {
            InstructionView::Br(target) => if target == block { 1 } else { 0 },
            InstructionView::Briz(zero, nonzero, _) => {
                (if zero == block { 1nat } else { 0nat }) + (if nonzero == block { 1nat } else { 0nat })
            },
            _ => 0,
        }
    }
}

} // verus!
