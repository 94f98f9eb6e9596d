//! DC circuit analysis by Modified Nodal Analysis (MNA).
//!
//! A netlist of circuit elements (resistors, independent and dependent
//! sources) is turned into one augmented linear system `A * X = Z` over the
//! node voltages and the auxiliary branch currents of the voltage-defining
//! sources, and that system is solved by a direct elimination with pivoting.
//! All values are exact rationals, so the assembled matrices and the solved
//! voltages are reproducible bit for bit and every solution is certified
//! against the assembled system.

use vstd::prelude::*;

pub mod components;
pub mod laws;
pub mod matrix;
pub mod netlist;
pub mod rational;
pub mod solve;

verus! {

/// Sum of two sizes.
pub fn add(left: usize, right: usize) -> (r: usize)
    requires
        left + right <= usize::MAX,
    ensures
        r == left + right,
{
    left + right
}

} // verus!
