//! An ideal wire between two nodes.

use vstd::prelude::*;

verus! {

/// A direct connection between two nodes. It produces no stamps; a builder
/// uses it to merge node identifiers before assembly.
#[derive(Clone, Copy, Debug)]
pub struct Wire {
    a_node: u64,
    b_node: u64,
}

impl Wire {
    pub closed spec fn spec_a_node(self) -> u64 {
        self.a_node
    }

    pub closed spec fn spec_b_node(self) -> u64 {
        self.b_node
    }

    pub fn new(a_node: u64, b_node: u64) -> (s: Self)
        ensures
            s.spec_a_node() == a_node,
            s.spec_b_node() == b_node,
    {
        Self { a_node, b_node }
    }
}

} // verus!
