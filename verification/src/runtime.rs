//! Runtime support for generated traversal code: the control signal returned
//! by enter hooks, the traversal capability itself, and pass-through
//! implementations for the three universal wrapper shapes (optional value,
//! ordered sequence, exclusive-ownership indirection).

use vstd::prelude::*;

verus! {

/// Directs the visitor to continue processing the children of the
/// current node or not.
#[derive(Debug, PartialEq, Eq, Structural, Clone, Copy)]
pub enum Control {
    Continue,
    Break,
}

/// A tree node that can be visited.
///
/// Implementations are usually generated (see [`crate::emit::impl_visit`]);
/// the three wrapper implementations below forward transparently so that
/// generated code never special-cases containers.
pub trait Visit {
    /// Read-only traversal: visit this node and its children with `v`.
    fn visit<'ast, V>(&'ast self, v: &mut V);

    /// Mutable traversal: visit this node and its children with `v`,
    /// allowing hooks to rewrite the tree in place.
    fn visit_mut<V>(&mut self, v: &mut V);
}

impl<T> Visit for Box<T> where T: Visit {
    /// The indirection is invisible: visiting the box visits its contents.
    fn visit<'ast, V>(&'ast self, v: &mut V) {
        (**self).visit(v)
    }

    fn visit_mut<V>(&mut self, v: &mut V) {
        (**self).visit_mut(v)
    }
}

impl<T> Visit for Option<T> where T: Visit {
    /// An empty wrapper yields no child visits and leaves the visitor
    /// untouched; a full one yields exactly one.
    fn visit<'ast, V>(&'ast self, v: &mut V)
        ensures
            (*self) is None ==> *final(v) == *old(v),
    {
        match self {
            Option::Some(i) => i.visit(v),
            Option::None => (),
        }
    }

    /// The wrapper itself is untouched: it stays full or empty as it was,
    /// and an empty one is left exactly as it came, the visitor too.
    fn visit_mut<V>(&mut self, v: &mut V)
        ensures
            (*old(self)) is Some == (*final(self)) is Some,
            (*old(self)) is None ==> *final(self) == *old(self),
            (*old(self)) is None ==> *final(v) == *old(v),
    {
        match self {
            Option::Some(i) => i.visit_mut(v),
            Option::None => (),
        }
    }
}

impl<T> Visit for Vec<T> where T: Visit {
    /// Every element is visited, in order; an empty sequence is a no-op
    /// that leaves the visitor untouched.
    fn visit<'ast, V>(&'ast self, v: &mut V)
        ensures
            self@.len() == 0 ==> *final(v) == *old(v),
    {
        let mut idx: usize = 0;
        while idx < self.len()
            invariant
                self@.len() == 0 ==> *v == *old(v),
            decreases self.len() - idx,
        {
            self[idx].visit(v);
            idx = idx + 1;
        }
    }

    /// The wrapper itself adds and removes no elements: the length is
    /// kept, and a sequence with no elements is left exactly as it came,
    /// the visitor too.
    fn visit_mut<V>(&mut self, v: &mut V)
        ensures
            final(self).len() == old(self).len(),
            old(self).len() == 0 ==> *final(self) == *old(self),
            old(self).len() == 0 ==> *final(v) == *old(v),
    {
        let n: usize = self.len();
        let mut idx: usize = 0;
        while idx < n
            invariant
                self.len() == n,
                n == 0 ==> *self == *old(self),
                n == 0 ==> *v == *old(v),
            decreases n - idx,
        {
            let elem = &mut self[idx];
            elem.visit_mut(v);
            idx = idx + 1;
        }
    }
}

} // verus!
