//! The generator: the basic blocks under construction with their insertion
//! point, the scope stack and the table of declared variables.

use vstd::prelude::*;
use crate::ir::{instructions_view, Instruction, InstructionView, ValueHandle, ValueView};
use crate::scope::{nearest_scope, scopes_view, Scope, ScopeKind, ScopeView};

verus! {

/// A declared variable. Its slot is its position in the table.
#[derive(Debug, PartialEq, Eq, Clone)]
pub struct Variable {
    pub name: String,
    /// The value that the variable holds before anything is written to it.
    pub initial: i128,
}

/// A `Variable` as contracts see it.
pub struct VariableView {
    pub name: Seq<char>,
    pub initial: i128,
}

impl View for Variable {
    type V = VariableView;

    open spec fn view(&self) -> VariableView {
        VariableView { name: self.name@, initial: self.initial }
    }
}

/// The slot that a name stands for: that of its latest declaration.
pub open spec fn resolve_variable(variables: Seq<VariableView>, name: Seq<char>) -> Option<int>
    decreases variables.len(),
{
    if variables.len() == 0 {
        None
    } else if variables.last().name == name {
        Some(variables.len() - 1)
    } else {
        resolve_variable(variables.drop_last(), name)
    }
}

/// The mathematical state of a generator.
pub struct IrState {
    /// The blocks, each the sequence of its instructions. A block's handle is
    /// its index here.
    pub blocks: Seq<Seq<InstructionView>>,
    /// The block that instructions are appended to.
    pub current: int,
    /// The scope stack; its top is the last element.
    pub scopes: Seq<ScopeView>,
    /// The declared variables; a variable's slot is its index here.
    pub variables: Seq<VariableView>,
}

impl IrState {
    /// The state of a fresh generator.
    pub open spec fn empty() -> IrState {
        IrState { blocks: Seq::empty(), current: 0, scopes: Seq::empty(), variables: Seq::empty() }
    }

    /// The insertion point is at a block that exists.
    pub open spec fn positioned(self) -> bool {
        0 <= self.current < self.blocks.len()
    }

    /// The handle that the next new block gets.
    pub open spec fn next_block(self) -> int {
        self.blocks.len() as int
    }

    /// A new, empty block after the others; the insertion point stays.
    pub open spec fn append_block(self) -> IrState {
        IrState { blocks: self.blocks.push(Seq::empty()), ..self }
    }

    /// The insertion point moves to `block`.
    pub open spec fn seek(self, block: int) -> IrState {
        IrState { current: block, ..self }
    }

    /// The instruction is appended to the current block.
    pub open spec fn emit(self, instruction: InstructionView) -> IrState {
        IrState {
            blocks: self.blocks.update(self.current, self.blocks[self.current].push(instruction)),
            ..self
        }
    }

    /// The position of the last instruction of the current block.
    pub open spec fn last_value(self) -> ValueView {
        ValueView { block: self.current, index: self.blocks[self.current].len() - 1 }
    }

    pub open spec fn push_scope(self, scope: ScopeView) -> IrState {
        IrState { scopes: self.scopes.push(scope), ..self }
    }

    pub open spec fn pop_scope(self) -> IrState {
        IrState { scopes: self.scopes.drop_last(), ..self }
    }

    /// A new variable after the others.
    pub open spec fn declare(self, name: Seq<char>, initial: i128) -> IrState {
        IrState { variables: self.variables.push(VariableView { name, initial }), ..self }
    }

    /// The value is the position of an instruction that is there.
    pub open spec fn holds(self, value: ValueView) -> bool {
        &&& 0 <= value.block < self.blocks.len()
        &&& 0 <= value.index < self.blocks[value.block].len()
    }

    /// The slot that the next declared variable gets.
    pub open spec fn next_slot(self) -> int {
        self.variables.len() as int
    }
}

/// The views of a sequence of blocks, in order.
pub open spec fn blocks_view(blocks: Seq<Vec<Instruction>>) -> Seq<Seq<InstructionView>> {
    blocks.map_values(|b: Vec<Instruction>| instructions_view(b@))
}

/// The views of a sequence of variables, in order.
pub open spec fn variables_view(variables: Seq<Variable>) -> Seq<VariableView> {
    variables.map_values(|v: Variable| v@)
}

/// The blocks under construction, the insertion point, the scope stack and
/// the declared variables of one lowering pass. Blocks and instructions are
/// only ever appended; handles and positions once given stay valid.
pub struct IrGenerator {
    blocks: Vec<Vec<Instruction>>,
    current: usize,
    scopes: Vec<Scope>,
    variables: Vec<Variable>,
}

impl View for IrGenerator {
    type V = IrState;

    closed spec fn view(&self) -> IrState {
        IrState {
            blocks: blocks_view(self.blocks@),
            current: self.current as int,
            scopes: scopes_view(self.scopes@),
            variables: variables_view(self.variables@),
        }
    }
}

impl IrGenerator {
    /// A generator with no block, no scope and no variable.
    pub fn new() -> (generator: IrGenerator)
        ensures
            generator@ == IrState::empty(),
    {
        let generator = IrGenerator {
            blocks: Vec::new(),
            current: 0,
            scopes: Vec::new(),
            variables: Vec::new(),
        };
        proof {
            assert(generator@.blocks =~= Seq::empty());
            assert(generator@.scopes =~= Seq::empty());
            assert(generator@.variables =~= Seq::empty());
        }
        generator
    }

    /// Adds an empty block and returns its handle. The insertion point does
    /// not move.
    pub fn append_block(&mut self) -> (handle: usize)
        ensures
            final(self)@ == old(self)@.append_block(),
            handle == old(self)@.next_block(),
    {
        let handle = self.blocks.len();
        self.blocks.push(Vec::new());
        proof {
            assert(instructions_view(self.blocks@[handle as int]@) =~= Seq::empty());
            assert(self@.blocks =~= old(self)@.blocks.push(Seq::empty()));
        }
        handle
    }

    /// Moves the insertion point to `block`.
    pub fn seek(&mut self, block: usize)
        requires
            block < old(self)@.blocks.len(),
        ensures
            final(self)@ == old(self)@.seek(block as int),
    {
        self.current = block;
    }

    /// The block that the insertion point is at.
    pub fn current_block(&self) -> (handle: usize)
        ensures
            handle == self@.current,
    {
        self.current
    }

    /// Appends the instruction to the current block and returns its position
    /// there.
    pub fn emit(&mut self, instruction: Instruction) -> (value: ValueHandle)
        requires
            old(self)@.positioned(),
        ensures
            final(self)@ == old(self)@.emit(instruction@),
            value@ == final(self)@.last_value(),
    {
        let current = self.current;
        let ghost pushed = instruction@;
        self.blocks[current].push(instruction);
        let index = self.blocks[current].len() - 1;
        proof {
            let before = old(self)@.blocks;
            assert(instructions_view(self.blocks@[current as int]@) =~= before[current as int].push(
                pushed,
            ));
            assert(self@.blocks =~= before.update(current as int, before[current as int].push(pushed)));
        }
        ValueHandle { block: current, index }
    }

    /// How many blocks there are.
    pub fn block_count(&self) -> (count: usize)
        ensures
            count == self@.blocks.len(),
    {
        self.blocks.len()
    }

    /// The instructions of a block, in order.
    pub fn instructions(&self, block: usize) -> (instructions: &Vec<Instruction>)
        requires
            block < self@.blocks.len(),
        ensures
            instructions_view(instructions@) == self@.blocks[block as int],
    {
        &self.blocks[block]
    }

    /// Pushes a scope on the stack.
    pub fn push_scope(&mut self, scope: Scope)
        ensures
            final(self)@ == old(self)@.push_scope(scope@),
    {
        self.scopes.push(scope);
        proof {
            assert(self@.scopes =~= old(self)@.scopes.push(scope@));
        }
    }

    /// Pops the top scope off the stack and returns it.
    pub fn pop_scope(&mut self) -> (scope: Scope)
        requires
            old(self)@.scopes.len() > 0,
        ensures
            final(self)@ == old(self)@.pop_scope(),
            scope@ == old(self)@.scopes.last(),
    {
        let scope = self.scopes.pop().unwrap();
        proof {
            assert(self@.scopes =~= old(self)@.scopes.drop_last());
        }
        scope
    }

    /// How many scopes are on the stack.
    pub fn scope_depth(&self) -> (depth: usize)
        ensures
            depth == self@.scopes.len(),
    {
        self.scopes.len()
    }

    /// The innermost scope of the given kind, or `None` where the stack
    /// holds no scope of that kind.
    pub fn nearest(&self, kind: ScopeKind) -> (found: Option<Scope>)
        ensures
            match found {
                Some(scope) => nearest_scope(self@.scopes, kind) == Some(scope@),
                None => nearest_scope(self@.scopes, kind) is None,
            },
    {
        let mut i: usize = self.scopes.len();
        proof {
            assert(self@.scopes.subrange(0, i as int) =~= self@.scopes);
        }
        while i > 0
            invariant
                i <= self.scopes.len(),
                nearest_scope(self@.scopes, kind) == nearest_scope(
                    self@.scopes.subrange(0, i as int),
                    kind,
                ),
            decreases i,
        {
            let scope = self.scopes[i - 1];
            proof {
                let prefix = self@.scopes.subrange(0, i as int);
                assert(prefix.last() == scope@);
                assert(prefix.drop_last() =~= self@.scopes.subrange(0, i - 1));
            }
            if Self::same_kind(scope.kind, kind) {
                return Some(scope);
            }
            i = i - 1;
        }
        proof {
            assert(self@.scopes.subrange(0, 0).len() == 0);
        }
        None
    }

    fn same_kind(a: ScopeKind, b: ScopeKind) -> (same: bool)
        ensures
            same == (a == b),
    {
        match (a, b) {
            (ScopeKind::Root, ScopeKind::Root) => true,
            (ScopeKind::Block, ScopeKind::Block) => true,
            (ScopeKind::Loop, ScopeKind::Loop) => true,
            _ => false,
        }
    }

    /// Declares a variable and returns its slot, which no earlier variable
    /// has.
    pub fn declare_variable(&mut self, name: String, initial: i128) -> (slot: usize)
        ensures
            final(self)@ == old(self)@.declare(name@, initial),
            slot == old(self)@.next_slot(),
    {
        let slot = self.variables.len();
        let ghost declared = VariableView { name: name@, initial };
        self.variables.push(Variable { name, initial });
        proof {
            assert(self@.variables =~= old(self)@.variables.push(declared));
        }
        slot
    }

    /// The slot of the latest declaration of `name`, or `None` where the
    /// name was never declared.
    pub fn resolve(&self, name: &String) -> (found: Option<usize>)
        ensures
            match found {
                Some(slot) => resolve_variable(self@.variables, name@) == Some(slot as int),
                None => resolve_variable(self@.variables, name@) is None,
            },
    {
        let mut i: usize = self.variables.len();
        proof {
            assert(self@.variables.subrange(0, i as int) =~= self@.variables);
        }
        while i > 0
            invariant
                i <= self.variables.len(),
                resolve_variable(self@.variables, name@) == resolve_variable(
                    self@.variables.subrange(0, i as int),
                    name@,
                ),
            decreases i,
        {
            proof {
                let prefix = self@.variables.subrange(0, i as int);
                assert(prefix.last() == self.variables@[i - 1]@);
                assert(prefix.drop_last() =~= self@.variables.subrange(0, i - 1));
            }
            if self.variables[i - 1].name.eq(name) {
                return Some(i - 1);
            }
            i = i - 1;
        }
        proof {
            assert(self@.variables.subrange(0, 0).len() == 0);
        }
        None
    }

    /// How many variables were declared.
    pub fn variable_count(&self) -> (count: usize)
        ensures
            count == self@.variables.len(),
    {
        self.variables.len()
    }

    /// The variable in a slot.
    pub fn variable(&self, slot: usize) -> (variable: &Variable)
        requires
            slot < self@.variables.len(),
        ensures
            variable@ == self@.variables[slot as int],
    {
        &self.variables[slot]
    }
}

} // verus!
