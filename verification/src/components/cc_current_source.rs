//! A current-controlled current source.

use vstd::prelude::*;

use crate::components::{stamp_views, Stamp};
use crate::rational::{q_neg, Q, Rat};

verus! {

/// A current source between `source_node` and `sink_node` whose value is
/// `gain` times the branch current of the auxiliary variable numbered
/// `dep_source_num` (any voltage-defining source's variable may be
/// referenced).
#[derive(Clone, Copy, Debug)]
pub struct CCCurrentSource {
    pub dep_source_num: u64,
    pub source_node: u64,
    pub sink_node: u64,
    pub gain: Rat,
}

/// Voltage-incidence stamps coupling the output nodes to the sensed
/// auxiliary column with `gain`; ground rows are omitted.
pub open spec fn cccs_b_stamps(s: CCCurrentSource) -> Seq<(int, int, Q)> {
    let from: Seq<(int, int, Q)> = if s.source_node != 0 {
        seq![(s.source_node as int, s.dep_source_num as int, s.gain@)]
    } else {
        seq![]
    };
    let into: Seq<(int, int, Q)> = if s.sink_node != 0 {
        seq![(s.sink_node as int, s.dep_source_num as int, q_neg(s.gain@))]
    } else {
        seq![]
    };
    from + into
}

impl CCCurrentSource {
    pub fn new(dep_source_num: u64, source_node: u64, sink_node: u64, gain: Rat) -> (s: Self)
        ensures
            s == (CCCurrentSource { dep_source_num, source_node, sink_node, gain }),
    {
        Self { dep_source_num, source_node, sink_node, gain }
    }

    pub fn is_linear(&self) -> (r: bool)
        ensures
            r,
    {
        true
    }

    pub fn get_gmat_stamps(&self) -> (v: Vec<Stamp>)
        ensures
            stamp_views(v@) == Seq::<(int, int, Q)>::empty(),
    {
        let v: Vec<Stamp> = Vec::new();
        proof {
            assert(stamp_views(v@) =~= Seq::<(int, int, Q)>::empty());
        }
        v
    }

    pub fn get_bmat_stamps(&self) -> (v: Vec<Stamp>)
        requires
            self.dep_source_num as int <= usize::MAX as int,
            self.source_node as int <= usize::MAX as int,
            self.sink_node as int <= usize::MAX as int,
        ensures
            stamp_views(v@) == cccs_b_stamps(*self),
    {
        let mut ret: Vec<Stamp> = Vec::new();
        if self.source_node != 0 {
            ret.push(Stamp(self.source_node as usize, self.dep_source_num as usize, self.gain));
        }
        if self.sink_node != 0 {
            ret.push(
                Stamp(self.sink_node as usize, self.dep_source_num as usize, self.gain.neg()),
            );
        }
        proof {
            assert(stamp_views(ret@) =~= cccs_b_stamps(*self));
        }
        ret
    }

    pub fn get_cmat_stamps(&self) -> (v: Vec<Stamp>)
        ensures
            stamp_views(v@) == Seq::<(int, int, Q)>::empty(),
    {
        let v: Vec<Stamp> = Vec::new();
        proof {
            assert(stamp_views(v@) =~= Seq::<(int, int, Q)>::empty());
        }
        v
    }

    /// A current-controlled current source adds nothing to the excitation
    /// vector.
    pub fn get_zmat_stamps(&self) -> (v: Vec<Stamp>)
        ensures
            stamp_views(v@) == Seq::<(int, int, Q)>::empty(),
    {
        let v: Vec<Stamp> = Vec::new();
        proof {
            assert(stamp_views(v@) =~= Seq::<(int, int, Q)>::empty());
        }
        v
    }
}

} // verus!
