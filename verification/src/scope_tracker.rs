//! The stack of block kinds the parser is inside of.

use vstd::prelude::*;

verus! {

/// The kinds of blocks.
#[derive(Debug, Clone, Copy, PartialEq, Eq, Structural)]
pub enum BlockScope {
    If,
    Else,
    Loop,
    Function,
    Global,
}

/// The blocks entered so far, innermost last; the global block is at the bottom.
///
/// There is one tracker for each parse, and every guard is made and released through it (by
/// `&mut`), so every block entered is seen by whoever holds the tracker. The tracker offers no
/// copy: a copy would be a separate stack, and a block entered through it would not be seen
/// through the tracker it came from.
#[derive(Debug)]
pub struct ScopeTracker(Vec<BlockScope>);

/// A block entered with `ScopeTracker::guard`; handing it back to `ScopeTracker::release`
/// leaves the block.
#[derive(Debug)]
pub struct ScopeGuard {
    scope: BlockScope,
}

impl ScopeGuard {
    /// The block this guard stands for.
    pub closed spec fn spec_scope(&self) -> BlockScope {
        self.scope
    }

    /// Enters `scope` on `stack`, and gives the guard that leaves it.
    pub fn new(stack: &mut ScopeTracker, scope: BlockScope) -> (r: ScopeGuard)
        ensures
            final(stack).scopes() == old(stack).scopes().push(scope),
            r.spec_scope() == scope,
    {
        stack.0.push(scope);
        ScopeGuard { scope }
    }
}

impl ScopeTracker {
    /// The blocks entered, innermost last.
    pub closed spec fn scopes(&self) -> Seq<BlockScope> {
        self.0@
    }

    /// Only the global block.
    pub fn new() -> (r: ScopeTracker)
        ensures
            r.scopes() == seq![BlockScope::Global],
    {
        let mut v = Vec::new();
        v.push(BlockScope::Global);
        ScopeTracker(v)
    }

    /// The blocks, to read or change.
    pub fn get(&mut self) -> (r: &mut Vec<BlockScope>)
        ensures
            r@ == old(self).scopes(),
            final(self).scopes() == final(r)@,
    {
        &mut self.0
    }

    /// Enters `scope`, and gives the guard that leaves it.
    pub fn guard(&mut self, scope: BlockScope) -> (r: ScopeGuard)
        ensures
            final(self).scopes() == old(self).scopes().push(scope),
            r.spec_scope() == scope,
    {
        ScopeGuard::new(self, scope)
    }

    /// Leaves the innermost block (the guard's block when guards are released in the reverse
    /// order of their making).
    pub fn release(&mut self, guard: ScopeGuard)
        ensures
            old(self).scopes().len() > 0 ==> final(self).scopes() == old(self).scopes().drop_last(),
            old(self).scopes().len() == 0 ==> final(self).scopes() == old(self).scopes(),
    {
        let _ = guard;
        self.0.pop();
    }

    /// Whether a block of this kind has been entered.
    pub fn has_scope(&self, scope: BlockScope) -> (r: bool)
        ensures
            r == self.scopes().contains(scope),
    {
        let mut i: usize = 0;
        while i < self.0.len()
            invariant
                i <= self.0.len(),
                forall|j: int| 0 <= j < i ==> self.0@[j] != scope,
            decreases self.0.len() - i,
        {
            if self.0[i] == scope {
                assert(self.0@[i as int] == scope);
                return true;
            }
            i = i + 1;
        }
        false
    }

    /// How many blocks have been entered, the global one included.
    pub fn depth(&self) -> (r: usize)
        ensures
            r == self.scopes().len(),
    {
        self.0.len()
    }

    /// Whether only the global block is entered.
    pub fn at_toplevel(&self) -> (r: bool)
        ensures
            r == (self.scopes().len() == 1),
    {
        self.depth() == 1
    }
}

impl Default for ScopeTracker {
    /// Only the global block, as `new` gives.
    fn default() -> (r: ScopeTracker)
        ensures
            r.scopes() == seq![BlockScope::Global],
    {
        ScopeTracker::new()
    }
}

/// Entering a block and leaving it restores the blocks as they were.
pub proof fn guard_then_release_restores(before: Seq<BlockScope>, scope: BlockScope)
    ensures
        before.push(scope).len() > 0,
        before.push(scope).drop_last() == before,
{
    assert(before.push(scope).drop_last() =~= before);
}

/// The blocks after a run of guards and releases from `start`: `Some(scope)` enters `scope`, as
/// `ScopeTracker::guard` and `ScopeGuard::new` do, and `None` leaves the innermost block, as
/// `ScopeTracker::release` does.
pub open spec fn after_steps(start: Seq<BlockScope>, steps: Seq<Option<BlockScope>>) -> Seq<BlockScope>
    decreases steps.len(),
{
    if steps.len() == 0 {
        start
    } else {
        let before = after_steps(start, steps.drop_last());
        match steps.last() {
            Some(scope) => before.push(scope),
            None => if before.len() > 0 {
                before.drop_last()
            } else {
                before
            },
        }
    }
}

/// How many guards of the run are not released yet.
pub open spec fn open_guards(steps: Seq<Option<BlockScope>>) -> int
    decreases steps.len(),
{
    if steps.len() == 0 {
        0
    } else {
        open_guards(steps.drop_last()) + if steps.last() is Some {
            1int
        } else {
            -1int
        }
    }
}

/// Every release of the run hands back a guard made before it and not yet released.
pub open spec fn releases_match(steps: Seq<Option<BlockScope>>) -> bool {
    forall|i: int| 0 <= i <= steps.len() ==> open_guards(#[trigger] steps.take(i)) >= 0
}

/// A tracker that starts at the global block is at the top level exactly when every guard
/// made on it has been released: its depth is one more than the guards still open.
pub proof fn toplevel_iff_guards_released(steps: Seq<Option<BlockScope>>)
    requires
        releases_match(steps),
    ensures
        after_steps(seq![BlockScope::Global], steps).len() == 1 + open_guards(steps),
        (after_steps(seq![BlockScope::Global], steps).len() == 1) == (open_guards(steps) == 0),
    decreases steps.len(),
{
    if steps.len() > 0 {
        let prefix = steps.drop_last();
        assert(releases_match(prefix)) by {
            assert forall|i: int| 0 <= i <= prefix.len() implies open_guards(#[trigger] prefix.take(i)) >= 0 by {
                assert(prefix.take(i) =~= steps.take(i));
            }
        }
        toplevel_iff_guards_released(prefix);
        assert(steps.take(steps.len() as int) =~= steps);
    }
}

} // verus!
