//! The ways in which lowering fails.

use vstd::prelude::*;

verus! {

/// Why a program could not be lowered. Every failure ends the whole pass.
#[derive(Debug, PartialEq, Eq, Clone, Copy, Structural)]
pub enum LowerError {
    /// A `break` with no loop around it.
    BreakOutsideLoop,
    /// A `continue` with no loop around it.
    ContinueOutsideLoop,
    /// A name that is read or assigned before any declaration of it.
    UndeclaredVariable,
}

impl LowerError {
    /// The words that describe the failure.
    pub open spec fn text(&self) -> Seq<char> {
        match self {
            LowerError::BreakOutsideLoop => "can't break outside a loop"@,
            LowerError::ContinueOutsideLoop => "can't continue outside a loop"@,
            LowerError::UndeclaredVariable => "can't use a variable that is not declared"@,
        }
    }

    /// Describes the failure in words.
    pub fn message(&self) -> (message: &'static str)
        ensures
            message@ == self.text(),
    {
        match self {
            LowerError::BreakOutsideLoop => "can't break outside a loop",
            LowerError::ContinueOutsideLoop => "can't continue outside a loop",
            LowerError::UndeclaredVariable => "can't use a variable that is not declared",
        }
    }
}

} // verus!
