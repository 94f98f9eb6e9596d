//! Circuit elements and their matrix stamps.
//!
//! Each element kind contributes fixed entries ("stamps") to the submatrices
//! of the augmented MNA system: conductance (G), voltage incidence (B),
//! current incidence (C), dependent-source coupling (D) and excitation (Z).
//! A stamp whose row or column would be the ground node `0` is omitted.

pub mod cc_current_source;
pub mod cc_voltage_source;
pub mod independent_current_source;
pub mod independent_voltage_source;
pub mod junction;
pub mod resistor;
pub mod vc_current_source;
pub mod wire;

use vstd::prelude::*;

use crate::rational::{Q, Rat};

verus! {

/// One elementary contribution `(row, col, value)` to a submatrix, in
/// 1-based node or auxiliary-variable coordinates.
#[derive(Clone, Copy, Debug)]
pub struct Stamp(pub usize, pub usize, pub Rat);

impl View for Stamp {
    type V = (int, int, Q);

    open spec fn view(&self) -> (int, int, Q) {
        (self.0 as int, self.1 as int, self.2@)
    }
}

/// The specification views of a list of stamps.
pub open spec fn stamp_views(s: Seq<Stamp>) -> Seq<(int, int, Q)> {
    s.map_values(|t: Stamp| t@)
}

/// The closed set of element kinds a netlist is made of.
#[derive(Clone, Copy, Debug)]
pub enum Component {
    Resistor(resistor::Resistor),
    IVoltageSource(independent_voltage_source::IVoltageSource),
    ICurrentSource(independent_current_source::ICurrentSource),
    VCCurrentSource(vc_current_source::VCCurrentSource),
    CCCurrentSource(cc_current_source::CCCurrentSource),
    CCVoltageSource(cc_voltage_source::CCVoltageSource),
}

/// Every kind in the closed set is linear; a future nonlinear kind would
/// report false here and be rejected by the solver precondition.
pub open spec fn spec_component_linear(c: Component) -> bool {
    match c {
        Component::Resistor(_) => true,
        Component::IVoltageSource(_) => true,
        Component::ICurrentSource(_) => true,
        Component::VCCurrentSource(_) => true,
        Component::CCCurrentSource(_) => true,
        Component::CCVoltageSource(_) => true,
    }
}

/// The node identifiers an element connects to (ground `0` included).
/// The stored but unused sensing nodes of a current-controlled voltage
/// source are deliberately not listed: they produce no stamps, so they do
/// not make a node exist.
pub open spec fn component_nodes(c: Component) -> Seq<u64> {
    match c {
        Component::Resistor(x) => seq![x.a_node, x.b_node],
        Component::IVoltageSource(x) => seq![x.positive_node, x.negative_node],
        Component::ICurrentSource(x) => seq![x.source_node, x.sink_node],
        Component::VCCurrentSource(x) => seq![
            x.source_node,
            x.sink_node,
            x.source_sensing_node,
            x.sink_sensing_node,
        ],
        Component::CCCurrentSource(x) => seq![x.source_node, x.sink_node],
        Component::CCVoltageSource(x) => seq![x.positive_node, x.negative_node],
    }
}

impl Component {
    /// True iff the wrapped element reports linear.
    pub fn is_linear(&self) -> (r: bool)
        ensures
            r == spec_component_linear(*self),
    {
        match self {
            Component::Resistor(x) => x.is_linear(),
            Component::IVoltageSource(x) => x.is_linear(),
            Component::ICurrentSource(x) => x.is_linear(),
            Component::VCCurrentSource(x) => x.is_linear(),
            Component::CCCurrentSource(x) => x.is_linear(),
            Component::CCVoltageSource(x) => x.is_linear(),
        }
    }

    /// The node identifiers this element connects to.
    pub fn node_ids(&self) -> (v: Vec<u64>)
        ensures
            v@ == component_nodes(*self),
    {
        let mut v: Vec<u64> = Vec::new();
        match self {
            Component::Resistor(x) => {
                v.push(x.a_node);
                v.push(x.b_node);
            },
            Component::IVoltageSource(x) => {
                v.push(x.positive_node);
                v.push(x.negative_node);
            },
            Component::ICurrentSource(x) => {
                v.push(x.source_node);
                v.push(x.sink_node);
            },
            Component::VCCurrentSource(x) => {
                v.push(x.source_node);
                v.push(x.sink_node);
                v.push(x.source_sensing_node);
                v.push(x.sink_sensing_node);
            },
            Component::CCCurrentSource(x) => {
                v.push(x.source_node);
                v.push(x.sink_node);
            },
            Component::CCVoltageSource(x) => {
                v.push(x.positive_node);
                v.push(x.negative_node);
            },
        }
        proof {
            assert(v@ =~= component_nodes(*self));
        }
        v
    }
}

} // verus!
