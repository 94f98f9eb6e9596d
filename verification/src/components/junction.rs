//! A junction of several node connections.

use vstd::prelude::*;

verus! {

/// A named meeting point of node connections, each marked as an input or an
/// output. It produces no stamps; it only records topology for a builder.
#[derive(Debug)]
pub struct Junction {
    nodes: Vec<u64>,
    inouts: Vec<bool>,
}

impl Junction {
    pub closed spec fn spec_nodes(self) -> Seq<u64> {
        self.nodes@
    }

    pub closed spec fn spec_inouts(self) -> Seq<bool> {
        self.inouts@
    }

    pub fn new() -> (s: Self)
        ensures
            s.spec_nodes() == Seq::<u64>::empty(),
            s.spec_inouts() == Seq::<bool>::empty(),
    {
        Self { nodes: Vec::new(), inouts: Vec::new() }
    }

    pub fn add_node(&mut self, node_id: u64, is_input: bool)
        ensures
            final(self).spec_nodes() == old(self).spec_nodes().push(node_id),
            final(self).spec_inouts() == old(self).spec_inouts().push(is_input),
    {
        self.nodes.push(node_id);
        self.inouts.push(is_input);
    }
}

} // verus!
