//! A two-terminal resistor.

use vstd::prelude::*;

use crate::components::{stamp_views, Stamp};
use crate::rational::{q_neg, q_recip, Q, Rat};

verus! {

/// A resistor between nodes `a_node` and `b_node`.
#[derive(Clone, Copy, Debug)]
pub struct Resistor {
    pub a_node: u64,
    pub b_node: u64,
    pub resistance: Rat,
}

/// Conductance stamps of a resistor: `1/R` on both diagonal cells and
/// `-1/R` on both coupling cells, each omitted when it touches ground.
pub open spec fn resistor_g_stamps(s: Resistor) -> Seq<(int, int, Q)> {
    let g = q_recip(s.resistance@);
    let ng = q_neg(q_recip(s.resistance@));
    let diag_a: Seq<(int, int, Q)> = if s.a_node != 0 {
        seq![(s.a_node as int, s.a_node as int, g)]
    } else {
        seq![]
    };
    let diag_b: Seq<(int, int, Q)> = if s.b_node != 0 {
        seq![(s.b_node as int, s.b_node as int, g)]
    } else {
        seq![]
    };
    let cross: Seq<(int, int, Q)> = if s.a_node != 0 && s.b_node != 0 {
        seq![(s.a_node as int, s.b_node as int, ng), (s.b_node as int, s.a_node as int, ng)]
    } else {
        seq![]
    };
    diag_a + diag_b + cross
}

impl Resistor {
    pub fn new(a_node: u64, b_node: u64, resistance: Rat) -> (s: Self)
        ensures
            s == (Resistor { a_node, b_node, resistance }),
    {
        Self { a_node, b_node, resistance }
    }

    pub fn is_linear(&self) -> (r: bool)
        ensures
            r,
    {
        true
    }

    pub fn get_gmat_stamps(&self) -> (v: Vec<Stamp>)
        requires
            self.resistance@.n != 0,
            self.a_node as int <= usize::MAX as int,
            self.b_node as int <= usize::MAX as int,
        ensures
            stamp_views(v@) == resistor_g_stamps(*self),
    {
        let mut ret: Vec<Stamp> = Vec::new();
        let g = self.resistance.recip();
        if self.a_node != 0 {
            ret.push(Stamp(self.a_node as usize, self.a_node as usize, g));
        }
        if self.b_node != 0 {
            ret.push(Stamp(self.b_node as usize, self.b_node as usize, g));
        }
        if self.a_node != 0 && self.b_node != 0 {
            ret.push(Stamp(self.a_node as usize, self.b_node as usize, g.neg()));
            ret.push(Stamp(self.b_node as usize, self.a_node as usize, g.neg()));
        }
        proof {
            assert(stamp_views(ret@) =~= resistor_g_stamps(*self));
        }
        ret
    }

    pub fn get_bmat_stamps(&self) -> (v: Vec<Stamp>)
        ensures
            stamp_views(v@) == Seq::<(int, int, Q)>::empty(),
    {
        let v: Vec<Stamp> = Vec::new();
        proof {
            assert(stamp_views(v@) =~= Seq::<(int, int, Q)>::empty());
        }
        v
    }

    pub fn get_cmat_stamps(&self) -> (v: Vec<Stamp>)
        ensures
            stamp_views(v@) == Seq::<(int, int, Q)>::empty(),
    {
        let v: Vec<Stamp> = Vec::new();
        proof {
            assert(stamp_views(v@) =~= Seq::<(int, int, Q)>::empty());
        }
        v
    }

    pub fn get_dmat_stamps(&self) -> (v: Vec<Stamp>)
        ensures
            stamp_views(v@) == Seq::<(int, int, Q)>::empty(),
    {
        let v: Vec<Stamp> = Vec::new();
        proof {
            assert(stamp_views(v@) =~= Seq::<(int, int, Q)>::empty());
        }
        v
    }

    pub fn get_zmat_stamps(&self) -> (v: Vec<Stamp>)
        ensures
            stamp_views(v@) == Seq::<(int, int, Q)>::empty(),
    {
        let v: Vec<Stamp> = Vec::new();
        proof {
            assert(stamp_views(v@) =~= Seq::<(int, int, Q)>::empty());
        }
        v
    }
}

} // verus!
