//! A current-controlled voltage source.

use vstd::prelude::*;

use crate::components::{stamp_views, Stamp};
use crate::rational::{q_neg, q_one, Q, Rat};

verus! {

/// A voltage source between `positive_node` and `negative_node` whose value
/// is `gain` times the branch current of the auxiliary variable numbered
/// `dep_source_num`; it owns the auxiliary variable numbered `source_num`.
///
/// The two sensing-node fields are stored but used by no stamp query: the
/// sensed quantity is the referenced auxiliary branch current, so the
/// sensing nodes neither create nodes nor constrain the system.
#[derive(Clone, Copy, Debug)]
pub struct CCVoltageSource {
    pub source_num: u64,
    pub dep_source_num: u64,
    pub source_sensing_node: u64,
    pub sink_sensing_node: u64,
    pub positive_node: u64,
    pub negative_node: u64,
    pub gain: Rat,
}

/// Voltage-incidence stamps: as for an independent voltage source.
pub open spec fn ccvs_b_stamps(s: CCVoltageSource) -> Seq<(int, int, Q)> {
    let pos: Seq<(int, int, Q)> = if s.positive_node != 0 {
        seq![(s.positive_node as int, s.source_num as int, q_one())]
    } else {
        seq![]
    };
    let neg: Seq<(int, int, Q)> = if s.negative_node != 0 {
        seq![(s.negative_node as int, s.source_num as int, q_neg(q_one()))]
    } else {
        seq![]
    };
    pos + neg
}

/// Current-incidence stamps: the transpose of the voltage incidence.
pub open spec fn ccvs_c_stamps(s: CCVoltageSource) -> Seq<(int, int, Q)> {
    let pos: Seq<(int, int, Q)> = if s.positive_node != 0 {
        seq![(s.source_num as int, s.positive_node as int, q_one())]
    } else {
        seq![]
    };
    let neg: Seq<(int, int, Q)> = if s.negative_node != 0 {
        seq![(s.source_num as int, s.negative_node as int, q_neg(q_one()))]
    } else {
        seq![]
    };
    pos + neg
}

/// Coupling stamp: `gain` at the owned row and the sensed column.
pub open spec fn ccvs_d_stamps(s: CCVoltageSource) -> Seq<(int, int, Q)> {
    seq![(s.source_num as int, s.dep_source_num as int, s.gain@)]
}

impl CCVoltageSource {
    pub fn new(
        source_num: u64,
        dep_source_num: u64,
        source_sensing_node: u64,
        sink_sensing_node: u64,
        positive_node: u64,
        negative_node: u64,
        gain: Rat,
    ) -> (s: Self)
        ensures
            s == (CCVoltageSource {
                source_num,
                dep_source_num,
                source_sensing_node,
                sink_sensing_node,
                positive_node,
                negative_node,
                gain,
            }),
    {
        Self {
            source_num,
            dep_source_num,
            source_sensing_node,
            sink_sensing_node,
            positive_node,
            negative_node,
            gain,
        }
    }

    pub fn is_linear(&self) -> (r: bool)
        ensures
            r,
    {
        true
    }

    pub fn get_gmat_stamps(&self) -> (v: Vec<Stamp>)
        ensures
            stamp_views(v@) == Seq::<(int, int, Q)>::empty(),
    {
        let v: Vec<Stamp> = Vec::new();
        proof {
            assert(stamp_views(v@) =~= Seq::<(int, int, Q)>::empty());
        }
        v
    }

    pub fn get_bmat_stamps(&self) -> (v: Vec<Stamp>)
        requires
            self.source_num as int <= usize::MAX as int,
            self.positive_node as int <= usize::MAX as int,
            self.negative_node as int <= usize::MAX as int,
        ensures
            stamp_views(v@) == ccvs_b_stamps(*self),
    {
        let mut ret: Vec<Stamp> = Vec::new();
        if self.positive_node != 0 {
            ret.push(Stamp(self.positive_node as usize, self.source_num as usize, Rat::one()));
        }
        if self.negative_node != 0 {
            ret.push(
                Stamp(self.negative_node as usize, self.source_num as usize, Rat::one().neg()),
            );
        }
        proof {
            assert(stamp_views(ret@) =~= ccvs_b_stamps(*self));
        }
        ret
    }

    pub fn get_cmat_stamps(&self) -> (v: Vec<Stamp>)
        requires
            self.source_num as int <= usize::MAX as int,
            self.positive_node as int <= usize::MAX as int,
            self.negative_node as int <= usize::MAX as int,
        ensures
            stamp_views(v@) == ccvs_c_stamps(*self),
    {
        let mut ret: Vec<Stamp> = Vec::new();
        if self.positive_node != 0 {
            ret.push(Stamp(self.source_num as usize, self.positive_node as usize, Rat::one()));
        }
        if self.negative_node != 0 {
            ret.push(
                Stamp(self.source_num as usize, self.negative_node as usize, Rat::one().neg()),
            );
        }
        proof {
            assert(stamp_views(ret@) =~= ccvs_c_stamps(*self));
        }
        ret
    }

    pub fn get_dmat_stamps(&self) -> (v: Vec<Stamp>)
        requires
            self.source_num as int <= usize::MAX as int,
            self.dep_source_num as int <= usize::MAX as int,
        ensures
            stamp_views(v@) == ccvs_d_stamps(*self),
    {
        let mut ret: Vec<Stamp> = Vec::new();
        ret.push(Stamp(self.source_num as usize, self.dep_source_num as usize, self.gain));
        proof {
            assert(stamp_views(ret@) =~= ccvs_d_stamps(*self));
        }
        ret
    }

    pub fn get_zmat_stamps(&self) -> (v: Vec<Stamp>)
        ensures
            stamp_views(v@) == Seq::<(int, int, Q)>::empty(),
    {
        let v: Vec<Stamp> = Vec::new();
        proof {
            assert(stamp_views(v@) =~= Seq::<(int, int, Q)>::empty());
        }
        v
    }
}

} // verus!
