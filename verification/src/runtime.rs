//! The embedding runtime around the codec: the owner of the allocation
//! scope and of the global context object that scripts and host exchange
//! values through.

use vstd::prelude::*;
use crate::scope::{NodeData, Scope};

verus! {

/// A minimal runtime: one allocation scope and one global context object
/// allocated inside it at start-up.
pub struct BasicRuntime {
    scope: Scope,
    context: usize,
}

impl View for BasicRuntime {
    type V = Seq<NodeData>;

    closed spec fn view(&self) -> Seq<NodeData> {
        self.scope@
    }
}

impl BasicRuntime {
    /// The handle of the global context object.
    pub closed spec fn context_spec(&self) -> usize {
        self.context
    }

    /// The runtime's scope is well formed and its context is an object node
    /// inside it.
    pub open spec fn wf(&self) -> bool {
        &&& crate::scope::arena_wf(self@)
        &&& (self.context_spec() as int) < self@.len()
        &&& self@[self.context_spec() as int] is Object
    }

    /// Starts a runtime: a fresh scope holding one empty global context
    /// object.
    pub fn new() -> (r: BasicRuntime)
        ensures
            r.wf(),
            r@.len() == 1,
            r.context_spec() == 0,
    {
        let mut scope = Scope::new();
        let context = scope.allocate(NodeData::Object(Vec::new()));
        BasicRuntime { scope, context }
    }

    /// Borrows the runtime's allocation scope for a traversal.
    pub fn scope(&mut self) -> (s: &mut Scope)
        ensures
            (*s)@ == old(self)@,
            final(self)@ == (*final(s))@,
            final(self).context_spec() == old(self).context_spec(),
    {
        &mut self.scope
    }

    /// The handle of the global context object.
    pub fn global_context(&self) -> (c: usize)
        ensures
            c == self.context_spec(),
    {
        self.context
    }
}

} // verus!
