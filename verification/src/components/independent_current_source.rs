//! An independent current source.

use vstd::prelude::*;

use crate::components::{stamp_views, Stamp};
use crate::rational::{q_neg, Q, Rat};

verus! {

/// An independent current source driving `current` from `source_node` into
/// `sink_node`.
#[derive(Clone, Copy, Debug)]
pub struct ICurrentSource {
    pub source_node: u64,
    pub sink_node: u64,
    pub current: Rat,
}

/// Excitation stamps in the current part of `Z`: the current leaves the
/// source node and enters the sink node; ground rows are omitted. The
/// column of these 1-based stamps is always `1`.
pub open spec fn ics_z_stamps(s: ICurrentSource) -> Seq<(int, int, Q)> {
    let from: Seq<(int, int, Q)> = if s.source_node != 0 {
        seq![(s.source_node as int, 1, q_neg(s.current@))]
    } else {
        seq![]
    };
    let into: Seq<(int, int, Q)> = if s.sink_node != 0 {
        seq![(s.sink_node as int, 1, s.current@)]
    } else {
        seq![]
    };
    from + into
}

impl ICurrentSource {
    pub fn new(source_node: u64, sink_node: u64, current: Rat) -> (s: Self)
        ensures
            s == (ICurrentSource { source_node, sink_node, current }),
    {
        Self { source_node, sink_node, current }
    }

    pub fn is_linear(&self) -> (r: bool)
        ensures
            r,
    {
        true
    }

    pub fn get_gmat_stamps(&self) -> (v: Vec<Stamp>)
        ensures
            stamp_views(v@) == Seq::<(int, int, Q)>::empty(),
    {
        let v: Vec<Stamp> = Vec::new();
        proof {
            assert(stamp_views(v@) =~= Seq::<(int, int, Q)>::empty());
        }
        v
    }

    pub fn get_bmat_stamps(&self) -> (v: Vec<Stamp>)
        ensures
            stamp_views(v@) == Seq::<(int, int, Q)>::empty(),
    {
        let v: Vec<Stamp> = Vec::new();
        proof {
            assert(stamp_views(v@) =~= Seq::<(int, int, Q)>::empty());
        }
        v
    }

    pub fn get_cmat_stamps(&self) -> (v: Vec<Stamp>)
        ensures
            stamp_views(v@) == Seq::<(int, int, Q)>::empty(),
    {
        let v: Vec<Stamp> = Vec::new();
        proof {
            assert(stamp_views(v@) =~= Seq::<(int, int, Q)>::empty());
        }
        v
    }

    pub fn get_dmat_stamps(&self) -> (v: Vec<Stamp>)
        ensures
            stamp_views(v@) == Seq::<(int, int, Q)>::empty(),
    {
        let v: Vec<Stamp> = Vec::new();
        proof {
            assert(stamp_views(v@) =~= Seq::<(int, int, Q)>::empty());
        }
        v
    }

    pub fn get_zmat_stamps(&self) -> (v: Vec<Stamp>)
        requires
            self.source_node as int <= usize::MAX as int,
            self.sink_node as int <= usize::MAX as int,
        ensures
            stamp_views(v@) == ics_z_stamps(*self),
    {
        let mut ret: Vec<Stamp> = Vec::new();
        if self.source_node != 0 {
            ret.push(Stamp(self.source_node as usize, 1, self.current.neg()));
        }
        if self.sink_node != 0 {
            ret.push(Stamp(self.sink_node as usize, 1, self.current));
        }
        proof {
            assert(stamp_views(ret@) =~= ics_z_stamps(*self));
        }
        ret
    }
}

} // verus!
