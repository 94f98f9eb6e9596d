//! An independent voltage source.

use vstd::prelude::*;

use crate::components::{stamp_views, Stamp};
use crate::rational::{q_neg, q_one, Q, Rat};

verus! {

/// An independent voltage source forcing `voltage` between its positive and
/// negative terminals; it owns the auxiliary branch-current variable
/// numbered `source_num`.
#[derive(Clone, Copy, Debug)]
pub struct IVoltageSource {
    pub source_num: u64,
    pub positive_node: u64,
    pub negative_node: u64,
    pub voltage: Rat,
}

/// Voltage-incidence stamps: `+1` at the positive terminal's row, `-1` at
/// the negative terminal's row, in the source's auxiliary column.
pub open spec fn ivs_b_stamps(s: IVoltageSource) -> Seq<(int, int, Q)> {
    let pos: Seq<(int, int, Q)> = if s.positive_node != 0 {
        seq![(s.positive_node as int, s.source_num as int, q_one())]
    } else {
        seq![]
    };
    let neg: Seq<(int, int, Q)> = if s.negative_node != 0 {
        seq![(s.negative_node as int, s.source_num as int, q_neg(q_one()))]
    } else {
        seq![]
    };
    pos + neg
}

/// Current-incidence stamps: the transpose of the voltage incidence.
pub open spec fn ivs_c_stamps(s: IVoltageSource) -> Seq<(int, int, Q)> {
    let pos: Seq<(int, int, Q)> = if s.positive_node != 0 {
        seq![(s.source_num as int, s.positive_node as int, q_one())]
    } else {
        seq![]
    };
    let neg: Seq<(int, int, Q)> = if s.negative_node != 0 {
        seq![(s.source_num as int, s.negative_node as int, q_neg(q_one()))]
    } else {
        seq![]
    };
    pos + neg
}

/// Excitation stamp: the source value in the source's row of the voltage
/// part of `Z`.
pub open spec fn ivs_z_stamps(s: IVoltageSource) -> Seq<(int, int, Q)> {
    seq![(s.source_num as int, 1, s.voltage@)]
}

impl IVoltageSource {
    pub fn new(source_num: u64, positive_node: u64, negative_node: u64, voltage: Rat) -> (s: Self)
        ensures
            s == (IVoltageSource { source_num, positive_node, negative_node, voltage }),
    {
        Self { source_num, positive_node, negative_node, voltage }
    }

    pub fn is_linear(&self) -> (r: bool)
        ensures
            r,
    {
        true
    }

    pub fn get_gmat_stamps(&self) -> (v: Vec<Stamp>)
        ensures
            stamp_views(v@) == Seq::<(int, int, Q)>::empty(),
    {
        let v: Vec<Stamp> = Vec::new();
        proof {
            assert(stamp_views(v@) =~= Seq::<(int, int, Q)>::empty());
        }
        v
    }

    pub fn get_bmat_stamps(&self) -> (v: Vec<Stamp>)
        requires
            self.source_num as int <= usize::MAX as int,
            self.positive_node as int <= usize::MAX as int,
            self.negative_node as int <= usize::MAX as int,
        ensures
            stamp_views(v@) == ivs_b_stamps(*self),
    {
        let mut ret: Vec<Stamp> = Vec::new();
        if self.positive_node != 0 {
            ret.push(Stamp(self.positive_node as usize, self.source_num as usize, Rat::one()));
        }
        if self.negative_node != 0 {
            ret.push(
                Stamp(self.negative_node as usize, self.source_num as usize, Rat::one().neg()),
            );
        }
        proof {
            assert(stamp_views(ret@) =~= ivs_b_stamps(*self));
        }
        ret
    }

    pub fn get_cmat_stamps(&self) -> (v: Vec<Stamp>)
        requires
            self.source_num as int <= usize::MAX as int,
            self.positive_node as int <= usize::MAX as int,
            self.negative_node as int <= usize::MAX as int,
        ensures
            stamp_views(v@) == ivs_c_stamps(*self),
    {
        let mut ret: Vec<Stamp> = Vec::new();
        if self.positive_node != 0 {
            ret.push(Stamp(self.source_num as usize, self.positive_node as usize, Rat::one()));
        }
        if self.negative_node != 0 {
            ret.push(
                Stamp(self.source_num as usize, self.negative_node as usize, Rat::one().neg()),
            );
        }
        proof {
            assert(stamp_views(ret@) =~= ivs_c_stamps(*self));
        }
        ret
    }

    pub fn get_dmat_stamps(&self) -> (v: Vec<Stamp>)
        ensures
            stamp_views(v@) == Seq::<(int, int, Q)>::empty(),
    {
        let v: Vec<Stamp> = Vec::new();
        proof {
            assert(stamp_views(v@) =~= Seq::<(int, int, Q)>::empty());
        }
        v
    }

    pub fn get_zmat_stamps(&self) -> (v: Vec<Stamp>)
        requires
            self.source_num as int <= usize::MAX as int,
        ensures
            stamp_views(v@) == ivs_z_stamps(*self),
    {
        let mut ret: Vec<Stamp> = Vec::new();
        ret.push(Stamp(self.source_num as usize, 1, self.voltage));
        proof {
            assert(stamp_views(ret@) =~= ivs_z_stamps(*self));
        }
        ret
    }
}

} // verus!
