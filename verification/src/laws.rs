//! Laws of the assembly and solve pipeline, stated and proved over the
//! public contracts.

use vstd::prelude::*;
use vstd::arithmetic::div_mod::{
    lemma_fundamental_div_mod, lemma_mod_division_less_than_divisor, lemma_multiply_divide_lt,
    lemma_div_pos_is_pos,
};

use crate::components::independent_voltage_source::IVoltageSource;
use crate::components::resistor::Resistor;
use crate::components::Component;
use crate::netlist::{
    a_entry, a_stamps, acc_stamps_from, assembled_from, assembly_fits, has_zero_resistance,
    ids_set_from, node_id_set_from, pass_stamps_from, source_nums_from, spec_aux_count,
    spec_node_count, used_node_set, valid_topology, z_entry, z_stamps, MatSel, Netlist,
};
use crate::rational::{
    abs_int, gcd, lemma_q_eq_sym, lemma_q_eq_trans, lemma_q_norm_equiv, lemma_rat_view_injective,
    q_add,
    q_eq, q_fits, q_mul, q_norm, q_one, q_recip, q_zero, Q, Rat,
};
use crate::solve::{row_dot, row_dot_from};

verus! {

/// Assembly is a function of the component list alone: two netlists
/// assembled from the same components hold bit-identical matrices and
/// excitation vectors, so repeating `initialize_dc_mna` on an unchanged
/// list reproduces `A` and `Z` exactly.
pub proof fn lemma_assemble_deterministic(x: Netlist, y: Netlist, comps: Seq<Component>)
    requires
        assembled_from(x, comps),
        assembled_from(y, comps),
    ensures
        x.a().spec_rows() == y.a().spec_rows(),
        x.a().spec_cols() == y.a().spec_cols(),
        x.a().spec_data() == y.a().spec_data(),
        x.z().spec_rows() == y.z().spec_rows(),
        x.z().spec_cols() == y.z().spec_cols(),
        x.z().spec_data() == y.z().spec_data(),
{
    let n = spec_node_count(comps);
    let m = spec_aux_count(comps);
    let t = n + m;
    assert forall|idx: int| 0 <= idx < x.a().spec_data().len() implies x.a().spec_data()[idx]
        == y.a().spec_data()[idx] by {
        let r = idx / t;
        let c = idx % t;
        lemma_fundamental_div_mod(idx, t);
        lemma_mod_division_less_than_divisor(idx, t);
        lemma_div_pos_is_pos(idx, t);
        lemma_multiply_divide_lt(idx, t, t);
        assert(r * t + c == idx);
        assert(x.a().entry(r, c) == a_entry(comps, n, r, c));
        assert(y.a().entry(r, c) == a_entry(comps, n, r, c));
        lemma_rat_view_injective(x.a().spec_data()[idx], y.a().spec_data()[idx]);
    }
    assert(x.a().spec_data() =~= y.a().spec_data());
    assert forall|idx: int| 0 <= idx < x.z().spec_data().len() implies x.z().spec_data()[idx]
        == y.z().spec_data()[idx] by {
        assert(x.z().entry(idx, 0) == z_entry(comps, n, idx));
        assert(y.z().entry(idx, 0) == z_entry(comps, n, idx));
        lemma_rat_view_injective(x.z().spec_data()[idx], y.z().spec_data()[idx]);
    }
    assert(x.z().spec_data() =~= y.z().spec_data());
}

/// The empty component list is valid, has no zero resistance and fits the
/// machine limits, so assembling an empty netlist is owed to succeed with
/// the degenerate 0 x 0 system.
pub proof fn lemma_empty_netlist_assembles()
    ensures
        valid_topology(Seq::<Component>::empty()),
        !has_zero_resistance(Seq::<Component>::empty()),
        assembly_fits(Seq::<Component>::empty()),
{
    let comps = Seq::<Component>::empty();
    assert(node_id_set_from(comps, 0) =~= Set::<u64>::empty());
    assert(used_node_set(comps) =~= Set::<u64>::empty());
    assert(source_nums_from(comps, 0) =~= Seq::<u64>::empty());
    assert(spec_node_count(comps) == 0);
    assert(spec_aux_count(comps) == 0);
    assert(0 * 0 <= usize::MAX as int);
}

/// The two-component netlist of an independent voltage source of value `v`
/// from node 1 to ground and a resistor of resistance `r` across the same
/// pair.
pub open spec fn source_across_resistor(v: Rat, r: Rat) -> Seq<Component> {
    seq![
        Component::IVoltageSource(
            IVoltageSource { source_num: 1, positive_node: 1, negative_node: 0, voltage: v },
        ),
        Component::Resistor(Resistor { a_node: 1, b_node: 0, resistance: r }),
    ]
}

/// For every resistance `R > 0` and source value `V` wired directly across
/// node 1 and ground, any exact solution of the assembled system gives
/// node 1 the voltage `V`, independent of `R`.
pub proof fn lemma_grounded_source_fixes_node(nl: Netlist, v: Rat, r: Rat, xv: Seq<Rat>)
    requires
        q_fits(v@),
        q_fits(r@),
        r@.n > 0,
        nl.components() == source_across_resistor(v, r),
        assembled_from(nl, nl.components()),
        xv.len() == nl.a().spec_rows(),
        forall|j: int| 0 <= j < xv.len() ==> q_fits((#[trigger] xv[j])@),
        forall|i: int|
            0 <= i < nl.a().spec_rows() ==> q_eq(#[trigger] row_dot(nl.a(), xv, i), nl.z().entry(i, 0)),
    ensures
        q_eq(xv[0]@, v@),
{
    let comps = source_across_resistor(v, r);
    let src = comps[0];
    let res = comps[1];
    // one node, one auxiliary variable
    assert(node_id_set_from(comps, 2) =~= Set::<u64>::empty());
    assert(node_id_set_from(comps, 1) =~= ids_set_from(crate::components::component_nodes(res), 0));
    assert(crate::components::component_nodes(res) == seq![1u64, 0u64]);
    assert(ids_set_from(seq![1u64, 0u64], 2) =~= Set::<u64>::empty());
    assert(ids_set_from(seq![1u64, 0u64], 1) =~= Set::<u64>::empty().insert(0u64));
    assert(ids_set_from(seq![1u64, 0u64], 0) =~= Set::<u64>::empty().insert(0u64).insert(1u64));
    assert(crate::components::component_nodes(src) == seq![1u64, 0u64]);
    assert(node_id_set_from(comps, 0) =~= Set::<u64>::empty().insert(0u64).insert(1u64));
    assert(used_node_set(comps) =~= Set::<u64>::empty().insert(1u64));
    assert(Set::<u64>::empty().insert(1u64).len() == 1) by {
        assert(Set::<u64>::empty().insert(1u64).remove(1u64) =~= Set::<u64>::empty());
    }
    let n: int = 1;
    assert(spec_node_count(comps) == n);
    assert(source_nums_from(comps, 2) =~= Seq::<u64>::empty());
    assert(source_nums_from(comps, 1) =~= Seq::<u64>::empty());
    assert(source_nums_from(comps, 0) =~= seq![1u64]);
    assert(spec_aux_count(comps) == 1);
    let t: int = 2;
    assert(nl.a().spec_rows() == t);

    // the translated stamps of the four passes
    let gq = q_recip(r@);
    assert(crate::components::resistor::resistor_g_stamps(
        Resistor { a_node: 1, b_node: 0, resistance: r },
    ) =~= seq![(1int, 1int, gq)]);
    assert(crate::netlist::sel_stamps(src, MatSel::GMat) =~= Seq::<(int, int, Q)>::empty());
    assert(pass_stamps_from(comps, 2, MatSel::GMat, n) =~= Seq::<(int, int, Q)>::empty());
    assert(pass_stamps_from(comps, 1, MatSel::GMat, n) =~= seq![(0int, 0int, gq)]);
    assert(pass_stamps_from(comps, 0, MatSel::GMat, n) =~= seq![(0int, 0int, gq)]);

    assert(crate::components::independent_voltage_source::ivs_b_stamps(
        IVoltageSource { source_num: 1, positive_node: 1, negative_node: 0, voltage: v },
    ) =~= seq![(1int, 1int, q_one())]);
    assert(pass_stamps_from(comps, 2, MatSel::BMat, n) =~= Seq::<(int, int, Q)>::empty());
    assert(pass_stamps_from(comps, 1, MatSel::BMat, n) =~= Seq::<(int, int, Q)>::empty());
    assert(pass_stamps_from(comps, 0, MatSel::BMat, n) =~= seq![(0int, 1int, q_one())]);

    assert(crate::components::independent_voltage_source::ivs_c_stamps(
        IVoltageSource { source_num: 1, positive_node: 1, negative_node: 0, voltage: v },
    ) =~= seq![(1int, 1int, q_one())]);
    assert(pass_stamps_from(comps, 2, MatSel::CMat, n) =~= Seq::<(int, int, Q)>::empty());
    assert(pass_stamps_from(comps, 1, MatSel::CMat, n) =~= Seq::<(int, int, Q)>::empty());
    assert(pass_stamps_from(comps, 0, MatSel::CMat, n) =~= seq![(1int, 0int, q_one())]);

    assert(pass_stamps_from(comps, 2, MatSel::DMat, n) =~= Seq::<(int, int, Q)>::empty());
    assert(pass_stamps_from(comps, 1, MatSel::DMat, n) =~= Seq::<(int, int, Q)>::empty());
    assert(pass_stamps_from(comps, 0, MatSel::DMat, n) =~= Seq::<(int, int, Q)>::empty());

    let stamps = a_stamps(comps, n);
    assert(stamps =~= seq![(0int, 0int, gq), (0int, 1int, q_one()), (1int, 0int, q_one())]);

    // row 1 of the assembled matrix: [1, 0]
    assert(a_entry(comps, n, 1, 0) == q_norm(q_add(q_zero(), q_one()))) by {
        assert(acc_stamps_from(stamps, 3, 1, 0, q_norm(q_add(q_zero(), q_one())))
            == q_norm(q_add(q_zero(), q_one())));
        assert(acc_stamps_from(stamps, 2, 1, 0, q_zero()) == acc_stamps_from(
            stamps,
            3,
            1,
            0,
            q_norm(q_add(q_zero(), q_one())),
        ));
        assert(acc_stamps_from(stamps, 1, 1, 0, q_zero()) == acc_stamps_from(stamps, 2, 1, 0, q_zero()));
        assert(acc_stamps_from(stamps, 0, 1, 0, q_zero()) == acc_stamps_from(stamps, 1, 1, 0, q_zero()));
    }
    assert(q_add(q_zero(), q_one()) == q_one()) by {
        assert(q_zero().n == 0 && q_zero().d == 1);
        assert(q_one().n == 1 && q_one().d == 1);
        assert(q_add(q_zero(), q_one()).n == 0 * 1 + 1 * 1);
        assert(q_add(q_zero(), q_one()).d == 1 * 1);
    }
    assert(q_norm(q_one()) == q_one()) by {
        assert(abs_int(1) == 1nat);
        assert(gcd(1nat, 1nat) == gcd(1nat, 0nat));
        assert(gcd(1nat, 0nat) == 1nat);
        assert(1int / 1int == 1int);
    }
    assert(a_entry(comps, n, 1, 0) == q_one());
    assert(a_entry(comps, n, 1, 1) == q_zero()) by {
        assert(acc_stamps_from(stamps, 3, 1, 1, q_zero()) == q_zero());
        assert(acc_stamps_from(stamps, 2, 1, 1, q_zero()) == acc_stamps_from(stamps, 3, 1, 1, q_zero()));
        assert(acc_stamps_from(stamps, 1, 1, 1, q_zero()) == acc_stamps_from(stamps, 2, 1, 1, q_zero()));
        assert(acc_stamps_from(stamps, 0, 1, 1, q_zero()) == acc_stamps_from(stamps, 1, 1, 1, q_zero()));
    }

    // row 1 of the excitation vector: the source value
    assert(crate::components::independent_voltage_source::ivs_z_stamps(
        IVoltageSource { source_num: 1, positive_node: 1, negative_node: 0, voltage: v },
    ) =~= seq![(1int, 1int, v@)]);
    assert(pass_stamps_from(comps, 2, MatSel::ZCurrent, n) =~= Seq::<(int, int, Q)>::empty());
    assert(pass_stamps_from(comps, 1, MatSel::ZCurrent, n) =~= Seq::<(int, int, Q)>::empty());
    assert(pass_stamps_from(comps, 0, MatSel::ZCurrent, n) =~= Seq::<(int, int, Q)>::empty());
    assert(pass_stamps_from(comps, 2, MatSel::ZVoltage, n) =~= Seq::<(int, int, Q)>::empty());
    assert(pass_stamps_from(comps, 1, MatSel::ZVoltage, n) =~= Seq::<(int, int, Q)>::empty());
    assert(pass_stamps_from(comps, 0, MatSel::ZVoltage, n) =~= seq![(1int, 0int, v@)]);
    let zs = z_stamps(comps, n);
    assert(zs =~= seq![(1int, 0int, v@)]);
    assert(z_entry(comps, n, 1) == q_norm(q_add(q_zero(), v@))) by {
        assert(acc_stamps_from(zs, 1, 1, 0, q_norm(q_add(q_zero(), v@))) == q_norm(
            q_add(q_zero(), v@),
        ));
        assert(acc_stamps_from(zs, 0, 1, 0, q_zero()) == acc_stamps_from(
            zs,
            1,
            1,
            0,
            q_norm(q_add(q_zero(), v@)),
        ));
    }
    assert(q_add(q_zero(), v@) == v@);
    let z1 = z_entry(comps, n, 1);
    assert(z1 == q_norm(v@));
    lemma_q_norm_equiv(v@);
    // z1 has the value v

    // the dot product of row 1 with the solution is the voltage at node 1
    assert(xv.len() == 2);
    assert(q_fits(xv[0]@));
    assert(q_fits(xv[1]@));
    let x0 = xv[0]@;
    let x1 = xv[1]@;
    let a10 = nl.a().entry(1, 0);
    let a11 = nl.a().entry(1, 1);
    assert(a10 == q_one());
    assert(a11 == q_zero());
    let dot = row_dot(nl.a(), xv, 1);
    assert(row_dot_from(nl.a(), xv, 1, 2) == q_zero());
    assert(row_dot_from(nl.a(), xv, 1, 1) == q_add(
        q_mul(a11, x1),
        row_dot_from(nl.a(), xv, 1, 2),
    ));
    assert(row_dot_from(nl.a(), xv, 1, 0) == q_add(
        q_mul(a10, x0),
        row_dot_from(nl.a(), xv, 1, 1),
    ));
    assert(dot == q_add(q_mul(a10, x0), q_add(q_mul(a11, x1), q_zero())));
    assert(q_mul(q_one(), x0) == x0) by {
        assert(q_mul(q_one(), x0).n == 1 * x0.n);
        assert(q_mul(q_one(), x0).d == 1 * x0.d);
    }
    assert(q_mul(q_zero(), x1) == (Q { n: 0, d: x1.d })) by {
        assert(q_mul(q_zero(), x1).n == 0 * x1.n);
        assert(q_mul(q_zero(), x1).d == 1 * x1.d);
    }
    assert(q_add(Q { n: 0, d: x1.d }, q_zero()) == (Q { n: 0, d: x1.d })) by {
        assert(q_add(Q { n: 0, d: x1.d }, q_zero()).n == 0 * 1 + 0 * x1.d);
        assert(q_add(Q { n: 0, d: x1.d }, q_zero()).d == x1.d * 1);
    }
    assert(dot == q_add(x0, Q { n: 0, d: x1.d }));
    assert(dot == (Q { n: x0.n * x1.d, d: x0.d * x1.d })) by {
        assert(q_add(x0, Q { n: 0, d: x1.d }).n == x0.n * x1.d + 0 * x0.d);
        assert(q_add(x0, Q { n: 0, d: x1.d }).d == x0.d * x1.d);
    }
    assert(q_eq(dot, x0)) by {
        assert((x0.n * x1.d) * x0.d == x0.n * (x0.d * x1.d)) by (nonlinear_arith);
    }
    // chain: x0 = dot = z1 = v
    assert(q_eq(row_dot(nl.a(), xv, 1), nl.z().entry(1, 0)));
    assert(nl.z().entry(1, 0) == z1);
    assert(q_eq(dot, z1));
    lemma_q_eq_sym(dot, x0);
    assert(x0.d * x1.d > 0) by (nonlinear_arith)
        requires
            x0.d > 0,
            x1.d > 0,
    ;
    lemma_q_eq_trans(x0, dot, z1);
    lemma_q_eq_trans(x0, z1, v@);
}

} // verus!
