//! Scopes: the regions of the program that `break`, `continue` and
//! declarations are resolved against.

use vstd::prelude::*;

verus! {

/// What kind of region a scope stands for.
#[derive(Debug, PartialEq, Eq, Clone, Copy, Structural)]
pub enum ScopeKind {
    /// The whole program.
    Root,
    /// A block, or a branch of an `if` that is not a block itself.
    Block,
    /// A `while` or a `loop`.
    Loop,
}

/// One region: its kind, the block that control re-enters it by and the
/// block that control leaves it to.
#[derive(Debug, PartialEq, Eq, Clone, Copy)]
pub struct Scope {
    pub kind: ScopeKind,
    pub entry_block: usize,
    pub exit_block: usize,
}

/// A `Scope` as contracts see it.
pub struct ScopeView {
    pub kind: ScopeKind,
    pub entry_block: int,
    pub exit_block: int,
}

impl View for Scope {
    type V = ScopeView;

    open spec fn view(&self) -> ScopeView {
        ScopeView {
            kind: self.kind,
            entry_block: self.entry_block as int,
            exit_block: self.exit_block as int,
        }
    }
}

impl Scope {
    /// Makes a scope of the given kind between the two blocks.
    pub fn new(kind: ScopeKind, entry_block: usize, exit_block: usize) -> (scope: Scope)
        ensures
            scope.kind == kind,
            scope.entry_block == entry_block,
            scope.exit_block == exit_block,
    {
        Scope { kind, entry_block, exit_block }
    }
}

/// The views of a sequence of scopes, in order.
pub open spec fn scopes_view(scopes: Seq<Scope>) -> Seq<ScopeView> {
    scopes.map_values(|s: Scope| s@)
}

/// The innermost scope of the given kind on a stack whose top is its last
/// element, if there is one.
pub open spec fn nearest_scope(scopes: Seq<ScopeView>, kind: ScopeKind) -> Option<ScopeView>
    decreases scopes.len(),
{
    if scopes.len() == 0 {
        None
    } else if scopes.last().kind == kind {
        Some(scopes.last())
    } else {
        nearest_scope(scopes.drop_last(), kind)
    }
}

/// The innermost scope of a kind is on the stack, has that kind, and no
/// scope above it has; there is none exactly when no scope has the kind.
pub proof fn lemma_nearest_scope(scopes: Seq<ScopeView>, kind: ScopeKind)
    ensures
        match nearest_scope(scopes, kind) {
            Some(scope) => exists|i: int|
                0 <= i < scopes.len() && scopes[i] == scope && scope.kind == kind && forall|j: int|
                    i < j < scopes.len() ==> scopes[j].kind != kind,
            None => forall|j: int| 0 <= j < scopes.len() ==> scopes[j].kind != kind,
        },
    decreases scopes.len(),
{
    if scopes.len() == 0 {
    } else if scopes.last().kind == kind {
        let i = scopes.len() - 1;
        assert(scopes[i] == scopes.last());
    } else {
        let rest = scopes.drop_last();
        lemma_nearest_scope(rest, kind);
        match nearest_scope(rest, kind) {
            Some(scope) => {
                let i = choose|i: int|
                    0 <= i < rest.len() && rest[i] == scope && scope.kind == kind && forall|j: int|
                        i < j < rest.len() ==> rest[j].kind != kind;
                assert(scopes[i] == scope);
                assert forall|j: int| i < j < scopes.len() implies scopes[j].kind != kind by {
                    if j < rest.len() {
                        assert(rest[j] == scopes[j]);
                    }
                }
            },
            None => {
                assert forall|j: int| 0 <= j < scopes.len() implies scopes[j].kind != kind by {
                    if j < rest.len() {
                        assert(rest[j] == scopes[j]);
                    }
                }
            },
        }
    }
}

} // verus!
