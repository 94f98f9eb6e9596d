//! A voltage-controlled current source.

use vstd::prelude::*;

use crate::components::{stamp_views, Stamp};
use crate::rational::{q_neg, Q, Rat};

verus! {

/// A current source between `source_node` and `sink_node` whose value is
/// `gain` times the voltage sensed between the two sensing nodes.
#[derive(Clone, Copy, Debug)]
pub struct VCCurrentSource {
    pub source_sensing_node: u64,
    pub sink_sensing_node: u64,
    pub source_node: u64,
    pub sink_node: u64,
    pub gain: Rat,
}

/// Conductance stamps coupling the output nodes to the sensed nodes with
/// `gain`; each cell touching ground is omitted.
pub open spec fn vccs_g_stamps(s: VCCurrentSource) -> Seq<(int, int, Q)> {
    let g = s.gain@;
    let ng = q_neg(s.gain@);
    let a: Seq<(int, int, Q)> = if s.source_node != 0 && s.source_sensing_node != 0 {
        seq![(s.source_node as int, s.source_sensing_node as int, g)]
    } else {
        seq![]
    };
    let b: Seq<(int, int, Q)> = if s.sink_node != 0 && s.source_sensing_node != 0 {
        seq![(s.sink_node as int, s.source_sensing_node as int, ng)]
    } else {
        seq![]
    };
    let c: Seq<(int, int, Q)> = if s.source_node != 0 && s.sink_sensing_node != 0 {
        seq![(s.source_node as int, s.sink_sensing_node as int, ng)]
    } else {
        seq![]
    };
    let d: Seq<(int, int, Q)> = if s.sink_node != 0 && s.sink_sensing_node != 0 {
        seq![(s.sink_node as int, s.sink_sensing_node as int, g)]
    } else {
        seq![]
    };
    a + b + c + d
}

impl VCCurrentSource {
    pub fn new(
        source_sensing_node: u64,
        sink_sensing_node: u64,
        source_node: u64,
        sink_node: u64,
        gain: Rat,
    ) -> (s: Self)
        ensures
            s == (VCCurrentSource {
                source_sensing_node,
                sink_sensing_node,
                source_node,
                sink_node,
                gain,
            }),
    {
        Self { source_sensing_node, sink_sensing_node, source_node, sink_node, gain }
    }

    pub fn is_linear(&self) -> (r: bool)
        ensures
            r,
    {
        true
    }

    pub fn get_gmat_stamps(&self) -> (v: Vec<Stamp>)
        requires
            self.source_sensing_node as int <= usize::MAX as int,
            self.sink_sensing_node as int <= usize::MAX as int,
            self.source_node as int <= usize::MAX as int,
            self.sink_node as int <= usize::MAX as int,
        ensures
            stamp_views(v@) == vccs_g_stamps(*self),
    {
        let mut ret: Vec<Stamp> = Vec::new();
        if self.source_node != 0 && self.source_sensing_node != 0 {
            ret.push(
                Stamp(self.source_node as usize, self.source_sensing_node as usize, self.gain),
            );
        }
        if self.sink_node != 0 && self.source_sensing_node != 0 {
            ret.push(
                Stamp(
                    self.sink_node as usize,
                    self.source_sensing_node as usize,
                    self.gain.neg(),
                ),
            );
        }
        if self.source_node != 0 && self.sink_sensing_node != 0 {
            ret.push(
                Stamp(
                    self.source_node as usize,
                    self.sink_sensing_node as usize,
                    self.gain.neg(),
                ),
            );
        }
        if self.sink_node != 0 && self.sink_sensing_node != 0 {
            ret.push(Stamp(self.sink_node as usize, self.sink_sensing_node as usize, self.gain));
        }
        proof {
            assert(stamp_views(ret@) =~= vccs_g_stamps(*self));
        }
        ret
    }

    /// A voltage-controlled current source adds nothing to the excitation
    /// vector.
    pub fn get_zmat_stamps(&self) -> (v: Vec<Stamp>)
        ensures
            stamp_views(v@) == Seq::<(int, int, Q)>::empty(),
    {
        let v: Vec<Stamp> = Vec::new();
        proof {
            assert(stamp_views(v@) =~= Seq::<(int, int, Q)>::empty());
        }
        v
    }
}

} // verus!
