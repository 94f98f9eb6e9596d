//! The netlist: an ordered component list, its assembled MNA system and the
//! solved unknown vector.

use vstd::prelude::*;
use vstd::seq_lib::group_seq_properties;
use vstd::set_lib::group_set_properties;

use crate::components::{component_nodes, spec_component_linear, stamp_views, Component, Stamp};
use crate::components::cc_current_source::cccs_b_stamps;
use crate::components::cc_voltage_source::{ccvs_b_stamps, ccvs_c_stamps, ccvs_d_stamps};
use crate::components::independent_current_source::ics_z_stamps;
use crate::components::independent_voltage_source::{ivs_b_stamps, ivs_c_stamps, ivs_z_stamps};
use crate::components::resistor::resistor_g_stamps;
use crate::components::vc_current_source::vccs_g_stamps;
use crate::matrix::{lemma_row_major_bound, Mat};
use crate::rational::{q_add, q_eq, q_fits, q_norm, q_zero, Q, Rat};

verus! {

/// Why an assembly or solve step failed.
#[derive(Clone, Copy, Debug, PartialEq, Eq, Structural)]
pub enum SolveError {
    /// Solving or reading results was attempted before assembly.
    NotAssembled,
    /// Some component reported itself nonlinear at solve time.
    NonlinearUnsupported,
    /// The assembled matrix is not invertible.
    SingularSystem,
    /// Node or auxiliary-variable identifiers are not dense, or a dependent
    /// source references an auxiliary variable that does not exist.
    InvalidTopology,
    /// A resistor with zero resistance has no finite conductance stamp.
    ZeroResistance,
    /// An exact rational ran out of the machine range.
    Overflow,
}

// ------------------------------------------------------------------
// Node and auxiliary-variable counting, at the specification level.
// ------------------------------------------------------------------

/// The set of identifiers in `ids` from position `j` on.
pub open spec fn ids_set_from(ids: Seq<u64>, j: int) -> Set<u64>
    decreases ids.len() - j,
{
    if j < 0 || j >= ids.len() {
        Set::empty()
    } else {
        ids_set_from(ids, j + 1).insert(ids[j])
    }
}

/// The set of node identifiers referenced by the components from `k` on.
pub open spec fn node_id_set_from(comps: Seq<Component>, k: int) -> Set<u64>
    decreases comps.len() - k,
{
    if k < 0 || k >= comps.len() {
        Set::empty()
    } else {
        ids_set_from(component_nodes(comps[k]), 0).union(node_id_set_from(comps, k + 1))
    }
}

/// The non-ground nodes the netlist actually uses.
pub open spec fn used_node_set(comps: Seq<Component>) -> Set<u64> {
    node_id_set_from(comps, 0).remove(0)
}

/// `N`: the number of distinct non-ground nodes.
pub open spec fn spec_node_count(comps: Seq<Component>) -> int {
    used_node_set(comps).len() as int
}

/// The auxiliary-variable numbers of the voltage-defining sources, in
/// netlist order.
pub open spec fn source_nums_from(comps: Seq<Component>, k: int) -> Seq<u64>
    decreases comps.len() - k,
{
    if k < 0 || k >= comps.len() {
        Seq::empty()
    } else {
        (match comps[k] {
            Component::IVoltageSource(x) => seq![x.source_num],
            Component::CCVoltageSource(x) => seq![x.source_num],
            _ => Seq::empty(),
        }) + source_nums_from(comps, k + 1)
    }
}

/// `M`: the number of auxiliary branch-current variables.
pub open spec fn spec_aux_count(comps: Seq<Component>) -> int {
    source_nums_from(comps, 0).len() as int
}

/// Whether a dependent source's reference stays within the existing
/// auxiliary variables.
pub open spec fn dep_ref_ok(c: Component, m: int) -> bool {
    match c {
        Component::CCCurrentSource(x) => 1 <= x.dep_source_num as int <= m,
        Component::CCVoltageSource(x) => 1 <= x.dep_source_num as int <= m,
        _ => true,
    }
}

/// The density invariant on caller-assigned identifiers: node identifiers
/// fill `1..=N`, auxiliary numbers fill `1..=M` without repetition, and
/// every dependent-source reference names an existing auxiliary variable.
pub open spec fn valid_topology(comps: Seq<Component>) -> bool {
    let n = spec_node_count(comps);
    let m = spec_aux_count(comps);
    let nums = source_nums_from(comps, 0);
    &&& forall|id: u64| used_node_set(comps).contains(id) ==> id as int <= n
    &&& nums.no_duplicates()
    &&& forall|i: int| 0 <= i < nums.len() ==> 1 <= (#[trigger] nums[i]) as int <= m
    &&& forall|k: int| 0 <= k < comps.len() ==> dep_ref_ok(#[trigger] comps[k], m)
}

/// Whether a component is a resistor of zero resistance.
pub open spec fn is_zero_resistor(c: Component) -> bool {
    match c {
        Component::Resistor(x) => x.resistance@.n == 0,
        _ => false,
    }
}

/// Whether any resistor in the list has zero resistance.
pub open spec fn has_zero_resistance(comps: Seq<Component>) -> bool {
    exists|k: int| 0 <= k < comps.len() && is_zero_resistor(#[trigger] comps[k])
}

/// Every component reports linear.
pub open spec fn spec_netlist_linear(comps: Seq<Component>) -> bool {
    forall|k: int| 0 <= k < comps.len() ==> spec_component_linear(#[trigger] comps[k])
}

// ------------------------------------------------------------------
// Membership lemmas for the counting sets.
// ------------------------------------------------------------------

proof fn lemma_ids_set_contains(ids: Seq<u64>, i: int, j: int)
    requires
        0 <= i <= j < ids.len(),
    ensures
        ids_set_from(ids, i).contains(ids[j]),
    decreases j - i,
{
    if i < j {
        lemma_ids_set_contains(ids, i + 1, j);
    }
}

/// A node identifier written in some component is in the node set.
proof fn lemma_comp_node_in(comps: Seq<Component>, i: int, k: int, j: int)
    requires
        0 <= i <= k < comps.len(),
        0 <= j < component_nodes(comps[k]).len(),
    ensures
        node_id_set_from(comps, i).contains(component_nodes(comps[k])[j]),
    decreases k - i,
{
    if i == k {
        lemma_ids_set_contains(component_nodes(comps[k]), 0, j);
    } else {
        lemma_comp_node_in(comps, i + 1, k, j);
    }
}

proof fn lemma_ids_set_member_source(ids: Seq<u64>, j: int, id: u64)
    requires
        ids_set_from(ids, j).contains(id),
    ensures
        exists|t: int| j <= t < ids.len() && ids[t] == id,
    decreases ids.len() - j,
{
    if j < 0 || j >= ids.len() {
        assert(false);
    } else {
        if ids[j] == id {
            assert(j <= j < ids.len() && ids[j] == id);
        } else {
            lemma_ids_set_member_source(ids, j + 1, id);
        }
    }
}

/// Every member of the node set is written in some component.
proof fn lemma_node_set_member_source(comps: Seq<Component>, k: int, id: u64)
    requires
        node_id_set_from(comps, k).contains(id),
        0 <= k,
    ensures
        exists|kk: int, j: int|
            k <= kk < comps.len() && 0 <= j < component_nodes(comps[kk]).len()
                && component_nodes(comps[kk])[j] == id,
    decreases comps.len() - k,
{
    if k >= comps.len() {
        assert(false);
    } else {
        if ids_set_from(component_nodes(comps[k]), 0).contains(id) {
            lemma_ids_set_member_source(component_nodes(comps[k]), 0, id);
            let t = choose|t: int|
                0 <= t < component_nodes(comps[k]).len() && component_nodes(comps[k])[t] == id;
            assert(k <= k < comps.len() && 0 <= t < component_nodes(comps[k]).len()
                && component_nodes(comps[k])[t] == id);
        } else {
            lemma_node_set_member_source(comps, k + 1, id);
        }
    }
}

proof fn lemma_push_to_set(s: Seq<u64>, x: u64)
    ensures
        s.push(x).to_set() =~= s.to_set().insert(x),
{
    assert forall|y: u64| #[trigger] s.push(x).contains(y) implies (s.contains(y) || y == x) by {
        let t = choose|t: int| 0 <= t < s.push(x).len() && s.push(x)[t] == y;
        if t < s.len() {
            assert(s[t] == y);
        }
    }
    assert forall|y: u64| s.contains(y) implies #[trigger] s.push(x).contains(y) by {
        let t = choose|t: int| 0 <= t < s.len() && s[t] == y;
        assert(s.push(x)[t] == y);
    }
    assert(s.push(x)[s.len() as int] == x);
}

// ------------------------------------------------------------------
// Executable counting and validation.
// ------------------------------------------------------------------

fn contains_u64(v: &Vec<u64>, x: u64) -> (b: bool)
    ensures
        b == v@.contains(x),
{
    let mut i: usize = 0;
    while i < v.len()
        invariant
            i <= v@.len(),
            forall|t: int| 0 <= t < i ==> v@[t] != x,
        decreases v@.len() - i,
    {
        if v[i] == x {
            return true;
        }
        i += 1;
    }
    false
}

/// Count the distinct non-ground node identifiers.
fn count_nodes(comps: &Vec<Component>) -> (r: usize)
    ensures
        r as int == spec_node_count(comps@),
{
    broadcast use group_seq_properties, group_set_properties, vstd::seq_lib::seq_to_set_is_finite;

    let goal = Ghost(used_node_set(comps@));
    let mut seen: Vec<u64> = Vec::new();
    let mut k: usize = 0;
    while k < comps.len()
        invariant
            k <= comps@.len(),
            seen@.no_duplicates(),
            !seen@.contains(0u64),
            goal@ == used_node_set(comps@),
            goal@ =~= seen@.to_set().union(node_id_set_from(comps@, k as int).remove(0)),
        decreases comps@.len() - k,
    {
        let c = comps[k];
        let ids = c.node_ids();
        let ghost idseq = component_nodes(comps@[k as int]);
        let mut j: usize = 0;
        while j < ids.len()
            invariant
                j <= ids@.len(),
                ids@ == idseq,
                seen@.no_duplicates(),
                !seen@.contains(0u64),
                goal@ == used_node_set(comps@),
                k < comps@.len(),
                goal@ =~= seen@.to_set().union(
                    ids_set_from(idseq, j as int).remove(0).union(
                        node_id_set_from(comps@, k as int + 1).remove(0),
                    ),
                ),
            decreases ids@.len() - j,
        {
            let id = ids[j];
            proof {
                assert(ids_set_from(idseq, j as int) == ids_set_from(idseq, j as int + 1).insert(
                    idseq[j as int],
                ));
            }
            if id != 0 && !contains_u64(&seen, id) {
                proof {
                    lemma_push_to_set(seen@, id);
                }
                seen.push(id);
            }
            proof {
                assert(goal@ =~= seen@.to_set().union(
                    ids_set_from(idseq, j as int + 1).remove(0).union(
                        node_id_set_from(comps@, k as int + 1).remove(0),
                    ),
                ));
            }
            j += 1;
        }
        proof {
            assert(ids_set_from(idseq, ids@.len() as int) =~= Set::<u64>::empty());
        }
        k += 1;
    }
    proof {
        assert(node_id_set_from(comps@, comps@.len() as int) =~= Set::<u64>::empty());
        assert(goal@ =~= seen@.to_set());
        seen@.unique_seq_to_set();
    }
    seen.len()
}

/// Count the auxiliary branch-current variables.
fn count_aux(comps: &Vec<Component>) -> (r: usize)
    ensures
        r as int == spec_aux_count(comps@),
{
    let mut count: usize = 0;
    let mut k: usize = 0;
    while k < comps.len()
        invariant
            k <= comps@.len(),
            count as int + source_nums_from(comps@, k as int).len() == spec_aux_count(comps@),
            count <= k,
        decreases comps@.len() - k,
    {
        match comps[k] {
            Component::IVoltageSource(_) => {
                count += 1;
            },
            Component::CCVoltageSource(_) => {
                count += 1;
            },
            _ => {},
        }
        k += 1;
    }
    count
}

/// Check the density invariant against the given counts.
fn check_topology(comps: &Vec<Component>, n: usize, m: usize) -> (b: bool)
    requires
        n as int == spec_node_count(comps@),
        m as int == spec_aux_count(comps@),
    ensures
        b == valid_topology(comps@),
{
    broadcast use group_seq_properties;

    let ghost whole = source_nums_from(comps@, 0);
    let mut nums: Vec<u64> = Vec::new();
    let mut k: usize = 0;
    while k < comps.len()
        invariant
            k <= comps@.len(),
            n as int == spec_node_count(comps@),
            m as int == spec_aux_count(comps@),
            whole == source_nums_from(comps@, 0),
            whole =~= nums@ + source_nums_from(comps@, k as int),
            nums@.no_duplicates(),
            forall|i: int| 0 <= i < nums@.len() ==> 1 <= (#[trigger] nums@[i]) as int <= m as int,
            forall|kk: int, j: int|
                0 <= kk < k && 0 <= j < component_nodes(comps@[kk]).len() ==> (#[trigger] component_nodes(
                    comps@[kk],
                )[j] == 0 || component_nodes(comps@[kk])[j] as int <= n as int),
            forall|kk: int| 0 <= kk < k ==> dep_ref_ok(#[trigger] comps@[kk], m as int),
        decreases comps@.len() - k,
    {
        let c = comps[k];
        let ids = c.node_ids();
        let ghost idseq = component_nodes(comps@[k as int]);
        let mut j: usize = 0;
        while j < ids.len()
            invariant
                j <= ids@.len(),
                ids@ == idseq,
                idseq == component_nodes(comps@[k as int]),
                k < comps@.len(),
                n as int == spec_node_count(comps@),
                forall|t: int|
                    0 <= t < j ==> (#[trigger] idseq[t] == 0 || idseq[t] as int <= n as int),
            decreases ids@.len() - j,
        {
            let id = ids[j];
            if id != 0 && id > (n as u64) {
                proof {
                    lemma_comp_node_in(comps@, 0, k as int, j as int);
                    assert(node_id_set_from(comps@, 0).contains(id));
                    assert(used_node_set(comps@).contains(id));
                }
                return false;
            }
            j += 1;
        }
        match c {
            Component::IVoltageSource(x) => {
                proof {
                    assert(source_nums_from(comps@, k as int) == seq![x.source_num]
                        + source_nums_from(comps@, k as int + 1));
                    assert(whole[nums@.len() as int] == x.source_num);
                }
                if x.source_num < 1 || x.source_num > (m as u64) {
                    return false;
                }
                if contains_u64(&nums, x.source_num) {
                    proof {
                        let t = choose|t: int|
                            0 <= t < nums@.len() && nums@[t] == x.source_num;
                        assert(whole[t] == whole[nums@.len() as int]);
                    }
                    return false;
                }
                nums.push(x.source_num);
            },
            Component::CCVoltageSource(x) => {
                proof {
                    assert(source_nums_from(comps@, k as int) == seq![x.source_num]
                        + source_nums_from(comps@, k as int + 1));
                    assert(whole[nums@.len() as int] == x.source_num);
                }
                if x.source_num < 1 || x.source_num > (m as u64) {
                    return false;
                }
                if contains_u64(&nums, x.source_num) {
                    proof {
                        let t = choose|t: int|
                            0 <= t < nums@.len() && nums@[t] == x.source_num;
                        assert(whole[t] == whole[nums@.len() as int]);
                    }
                    return false;
                }
                if x.dep_source_num < 1 || x.dep_source_num > (m as u64) {
                    return false;
                }
                nums.push(x.source_num);
            },
            Component::CCCurrentSource(x) => {
                if x.dep_source_num < 1 || x.dep_source_num > (m as u64) {
                    return false;
                }
            },
            _ => {},
        }
        k += 1;
    }
    proof {
        assert(source_nums_from(comps@, comps@.len() as int) =~= Seq::<u64>::empty());
        assert(nums@ =~= whole);
        assert forall|id: u64| used_node_set(comps@).contains(id) implies id as int
            <= n as int by {
            lemma_node_set_member_source(comps@, 0, id);
        }
    }
    true
}

// ------------------------------------------------------------------
// Assembly, at the specification level: the augmented matrix is the fold
// of all components' translated stamps over a zero matrix.
// ------------------------------------------------------------------

/// Which submatrix a pass of the assembly fills.
#[derive(Clone, Copy, Debug)]
pub enum MatSel {
    GMat,
    BMat,
    CMat,
    DMat,
    ZCurrent,
    ZVoltage,
}

/// The 1-based stamps a component contributes to the selected submatrix.
/// This mirrors the per-pass dispatch of the assembly: kinds not named in
/// a pass contribute nothing to it.
pub open spec fn sel_stamps(c: Component, sel: MatSel) -> Seq<(int, int, Q)> {
    match sel {
        MatSel::GMat => match c {
            Component::Resistor(x) => resistor_g_stamps(x),
            Component::VCCurrentSource(x) => vccs_g_stamps(x),
            _ => Seq::empty(),
        },
        MatSel::BMat => match c {
            Component::IVoltageSource(x) => ivs_b_stamps(x),
            Component::CCCurrentSource(x) => cccs_b_stamps(x),
            Component::CCVoltageSource(x) => ccvs_b_stamps(x),
            _ => Seq::empty(),
        },
        MatSel::CMat => match c {
            Component::IVoltageSource(x) => ivs_c_stamps(x),
            Component::CCVoltageSource(x) => ccvs_c_stamps(x),
            _ => Seq::empty(),
        },
        MatSel::DMat => match c {
            Component::CCVoltageSource(x) => ccvs_d_stamps(x),
            _ => Seq::empty(),
        },
        MatSel::ZCurrent => match c {
            Component::ICurrentSource(x) => ics_z_stamps(x),
            _ => Seq::empty(),
        },
        MatSel::ZVoltage => match c {
            Component::IVoltageSource(x) => ivs_z_stamps(x),
            _ => Seq::empty(),
        },
    }
}

/// Row offset of a pass in the augmented system: the C, D and voltage
/// excitation quadrants sit below the first `n` node rows.
pub open spec fn sel_row_off(sel: MatSel, n: int) -> int {
    match sel {
        MatSel::CMat => n,
        MatSel::DMat => n,
        MatSel::ZVoltage => n,
        _ => 0,
    }
}

/// Column offset of a pass: the B and D quadrants sit right of the first
/// `n` node columns.
pub open spec fn sel_col_off(sel: MatSel, n: int) -> int {
    match sel {
        MatSel::BMat => n,
        MatSel::DMat => n,
        _ => 0,
    }
}

/// Largest 1-based row a pass may address.
pub open spec fn sel_row_bound(sel: MatSel, n: int, m: int) -> int {
    match sel {
        MatSel::GMat => n,
        MatSel::BMat => n,
        MatSel::CMat => m,
        MatSel::DMat => m,
        MatSel::ZCurrent => n,
        MatSel::ZVoltage => m,
    }
}

/// Largest 1-based column a pass may address.
pub open spec fn sel_col_bound(sel: MatSel, n: int, m: int) -> int {
    match sel {
        MatSel::GMat => n,
        MatSel::BMat => m,
        MatSel::CMat => n,
        MatSel::DMat => m,
        MatSel::ZCurrent => 1,
        MatSel::ZVoltage => 1,
    }
}

/// Exclusive 0-based column cap of a pass's translated stamps.
pub open spec fn sel_col_cap(sel: MatSel, t: int) -> int {
    match sel {
        MatSel::ZCurrent => 1,
        MatSel::ZVoltage => 1,
        _ => t,
    }
}

/// Map 1-based stamp coordinates into the augmented system's 0-based cells.
pub open spec fn translate_stamps(s: Seq<(int, int, Q)>, ro: int, co: int) -> Seq<(int, int, Q)> {
    s.map_values(|t: (int, int, Q)| (t.0 - 1 + ro, t.1 - 1 + co, t.2))
}

/// All translated stamps of one pass, in netlist order, from component `k`
/// on.
pub open spec fn pass_stamps_from(comps: Seq<Component>, k: int, sel: MatSel, n: int) -> Seq<
    (int, int, Q),
>
    decreases comps.len() - k,
{
    if k < 0 || k >= comps.len() {
        Seq::empty()
    } else {
        translate_stamps(sel_stamps(comps[k], sel), sel_row_off(sel, n), sel_col_off(sel, n))
            + pass_stamps_from(comps, k + 1, sel, n)
    }
}

/// All stamps folded into the augmented matrix `A`, in assembly order:
/// a full G pass, then B, then C, then D.
pub open spec fn a_stamps(comps: Seq<Component>, n: int) -> Seq<(int, int, Q)> {
    pass_stamps_from(comps, 0, MatSel::GMat, n) + pass_stamps_from(comps, 0, MatSel::BMat, n)
        + pass_stamps_from(comps, 0, MatSel::CMat, n) + pass_stamps_from(
        comps,
        0,
        MatSel::DMat,
        n,
    )
}

/// All stamps folded into the excitation vector `Z`: the current
/// contributions, then the voltage contributions.
pub open spec fn z_stamps(comps: Seq<Component>, n: int) -> Seq<(int, int, Q)> {
    pass_stamps_from(comps, 0, MatSel::ZCurrent, n) + pass_stamps_from(
        comps,
        0,
        MatSel::ZVoltage,
        n,
    )
}

/// One additive fold step of a stamp into the cell `(r, c)`.
pub open spec fn stamp_step(cur: Q, t: (int, int, Q), r: int, c: int) -> Q {
    if t.0 == r && t.1 == c {
        q_norm(q_add(cur, t.2))
    } else {
        cur
    }
}

/// Fold the stamps from position `i` on into the cell `(r, c)`.
pub open spec fn acc_stamps_from(s: Seq<(int, int, Q)>, i: int, r: int, c: int, cur: Q) -> Q
    decreases s.len() - i,
{
    if i < 0 || i >= s.len() {
        cur
    } else {
        acc_stamps_from(s, i + 1, r, c, stamp_step(cur, s[i], r, c))
    }
}

/// Every intermediate value of the additive fold of `s` into cell `(r, c)`,
/// starting from zero, fits the machine range.
pub open spec fn fold_fits(s: Seq<(int, int, Q)>, r: int, c: int) -> bool {
    forall|i: int|
        0 <= i <= s.len() ==> q_fits(acc_stamps_from(#[trigger] s.take(i), 0, r, c, q_zero()))
}

/// Whether assembling `comps` stays within the machine limits: the
/// augmented dimensions fit the address space, and in every cell every
/// partial sum of the stamp folds fits the exact-rational range. Assembly
/// succeeds on a valid netlist exactly when this holds.
pub open spec fn assembly_fits(comps: Seq<Component>) -> bool {
    let n = spec_node_count(comps);
    let m = spec_aux_count(comps);
    let t = n + m;
    &&& t * t <= usize::MAX
    &&& forall|r: int, c: int| 0 <= r < t && 0 <= c < t ==> fold_fits(a_stamps(comps, n), r, c)
    &&& forall|r: int| 0 <= r < t ==> fold_fits(z_stamps(comps, n), r, 0)
}

/// Folding one more stamp extends the fold by one step.
proof fn lemma_acc_push(s: Seq<(int, int, Q)>, t: (int, int, Q), i: int, r: int, c: int, cur: Q)
    requires
        0 <= i <= s.len(),
    ensures
        acc_stamps_from(s.push(t), i, r, c, cur) == stamp_step(
            acc_stamps_from(s, i, r, c, cur),
            t,
            r,
            c,
        ),
    decreases s.len() - i,
{
    if i == s.len() {
        assert(s.push(t)[i] == t);
        assert(acc_stamps_from(s.push(t), i, r, c, cur) == acc_stamps_from(
            s.push(t),
            i + 1,
            r,
            c,
            stamp_step(cur, t, r, c),
        ));
        assert(acc_stamps_from(s.push(t), i + 1, r, c, stamp_step(cur, t, r, c)) == stamp_step(
            cur,
            t,
            r,
            c,
        ));
        assert(acc_stamps_from(s, i, r, c, cur) == cur);
    } else {
        assert(s.push(t)[i] == s[i]);
        assert(acc_stamps_from(s.push(t), i, r, c, cur) == acc_stamps_from(
            s.push(t),
            i + 1,
            r,
            c,
            stamp_step(cur, s[i], r, c),
        ));
        assert(acc_stamps_from(s, i, r, c, cur) == acc_stamps_from(
            s,
            i + 1,
            r,
            c,
            stamp_step(cur, s[i], r, c),
        ));
        lemma_acc_push(s, t, i + 1, r, c, stamp_step(cur, s[i], r, c));
    }
}

/// The assembled value of cell `(r, c)` of the augmented matrix.
pub open spec fn a_entry(comps: Seq<Component>, n: int, r: int, c: int) -> Q {
    acc_stamps_from(a_stamps(comps, n), 0, r, c, q_zero())
}

/// The assembled value of row `r` of the excitation vector.
pub open spec fn z_entry(comps: Seq<Component>, n: int, r: int) -> Q {
    acc_stamps_from(z_stamps(comps, n), 0, r, 0, q_zero())
}

// ------------------------------------------------------------------
// Bounds of the stamps a valid netlist produces.
// ------------------------------------------------------------------

/// The identifier bounds one component obeys under the density invariant.
pub open spec fn comp_bounds_ok(c: Component, n: int, m: int) -> bool {
    match c {
        Component::Resistor(x) => {
            &&& (x.a_node != 0 ==> x.a_node as int <= n)
            &&& (x.b_node != 0 ==> x.b_node as int <= n)
        },
        Component::IVoltageSource(x) => {
            &&& (x.positive_node != 0 ==> x.positive_node as int <= n)
            &&& (x.negative_node != 0 ==> x.negative_node as int <= n)
            &&& 1 <= x.source_num as int <= m
        },
        Component::ICurrentSource(x) => {
            &&& (x.source_node != 0 ==> x.source_node as int <= n)
            &&& (x.sink_node != 0 ==> x.sink_node as int <= n)
        },
        Component::VCCurrentSource(x) => {
            &&& (x.source_node != 0 ==> x.source_node as int <= n)
            &&& (x.sink_node != 0 ==> x.sink_node as int <= n)
            &&& (x.source_sensing_node != 0 ==> x.source_sensing_node as int <= n)
            &&& (x.sink_sensing_node != 0 ==> x.sink_sensing_node as int <= n)
        },
        Component::CCCurrentSource(x) => {
            &&& (x.source_node != 0 ==> x.source_node as int <= n)
            &&& (x.sink_node != 0 ==> x.sink_node as int <= n)
            &&& 1 <= x.dep_source_num as int <= m
        },
        Component::CCVoltageSource(x) => {
            &&& (x.positive_node != 0 ==> x.positive_node as int <= n)
            &&& (x.negative_node != 0 ==> x.negative_node as int <= n)
            &&& 1 <= x.source_num as int <= m
            &&& 1 <= x.dep_source_num as int <= m
        },
    }
}

/// The auxiliary number a voltage-defining component owns.
pub open spec fn aux_num_of(c: Component) -> u64 {
    match c {
        Component::IVoltageSource(x) => x.source_num,
        Component::CCVoltageSource(x) => x.source_num,
        _ => 0,
    }
}

proof fn lemma_source_num_in(comps: Seq<Component>, i: int, k: int)
    requires
        0 <= i <= k < comps.len(),
        comps[k] is IVoltageSource || comps[k] is CCVoltageSource,
    ensures
        source_nums_from(comps, i).contains(aux_num_of(comps[k])),
    decreases k - i,
{
    if i == k {
        assert(source_nums_from(comps, i)[0] == aux_num_of(comps[k]));
    } else {
        lemma_source_num_in(comps, i + 1, k);
        let tail = source_nums_from(comps, i + 1);
        let t = choose|t: int| 0 <= t < tail.len() && tail[t] == aux_num_of(comps[k]);
        let head = (match comps[i] {
            Component::IVoltageSource(x) => seq![x.source_num],
            Component::CCVoltageSource(x) => seq![x.source_num],
            _ => Seq::<u64>::empty(),
        });
        assert(source_nums_from(comps, i)[head.len() + t] == aux_num_of(comps[k]));
    }
}

/// The density invariant bounds every identifier of every component.
proof fn lemma_valid_comp_bounds(comps: Seq<Component>, k: int)
    requires
        valid_topology(comps),
        0 <= k < comps.len(),
    ensures
        comp_bounds_ok(comps[k], spec_node_count(comps), spec_aux_count(comps)),
{
    let n = spec_node_count(comps);
    let m = spec_aux_count(comps);
    let nodes = component_nodes(comps[k]);
    assert forall|j: int| 0 <= j < nodes.len() && nodes[j] != 0 implies (#[trigger] nodes[j]) as int
        <= n by {
        lemma_comp_node_in(comps, 0, k, j);
        assert(used_node_set(comps).contains(nodes[j]));
    }
    if comps[k] is IVoltageSource || comps[k] is CCVoltageSource {
        lemma_source_num_in(comps, 0, k);
        let nums = source_nums_from(comps, 0);
        let t = choose|t: int| 0 <= t < nums.len() && nums[t] == aux_num_of(comps[k]);
        assert(1 <= nums[t] as int <= m);
    }
    assert(dep_ref_ok(comps[k], m));
}

/// Every 1-based stamp of a bounded component stays within its pass's
/// bounds.
proof fn lemma_sel_stamps_bounds(c: Component, sel: MatSel, n: int, m: int)
    requires
        comp_bounds_ok(c, n, m),
    ensures
        forall|j: int|
            0 <= j < sel_stamps(c, sel).len() ==> {
                let t = #[trigger] sel_stamps(c, sel)[j];
                1 <= t.0 <= sel_row_bound(sel, n, m) && 1 <= t.1 <= sel_col_bound(sel, n, m)
            },
{
}

/// The views of a concatenation are the concatenated views.
proof fn lemma_views_decompose(s: Seq<Stamp>, l: int)
    requires
        0 <= l <= s.len(),
    ensures
        stamp_views(s) =~= stamp_views(s.take(l)) + stamp_views(s.skip(l)),
{
}

/// Collect one pass's translated stamps, appending to `out`.
fn collect_pass(comps: &Vec<Component>, sel: MatSel, n: usize, m: usize, out: &mut Vec<Stamp>)
    requires
        valid_topology(comps@),
        !has_zero_resistance(comps@),
        n as int == spec_node_count(comps@),
        m as int == spec_aux_count(comps@),
        n + m <= usize::MAX,
    ensures
        final(out)@.len() >= old(out)@.len(),
        final(out)@.take(old(out)@.len() as int) == old(out)@,
        stamp_views(final(out)@.skip(old(out)@.len() as int)) == pass_stamps_from(
            comps@,
            0,
            sel,
            n as int,
        ),
        forall|j: int|
            old(out)@.len() <= j < final(out)@.len() ==> {
                let t = (#[trigger] final(out)@[j])@;
                0 <= t.0 < n + m && 0 <= t.1 < sel_col_cap(sel, n as int + m as int)
            },
{
    let ghost base = out@.len() as int;
    let ghost total = pass_stamps_from(comps@, 0, sel, n as int);
    let ro: usize = match sel {
        MatSel::CMat => n,
        MatSel::DMat => n,
        MatSel::ZVoltage => n,
        _ => 0,
    };
    let co: usize = match sel {
        MatSel::BMat => n,
        MatSel::DMat => n,
        _ => 0,
    };
    let mut k: usize = 0;
    while k < comps.len()
        invariant
            valid_topology(comps@),
            !has_zero_resistance(comps@),
            n as int == spec_node_count(comps@),
            m as int == spec_aux_count(comps@),
            n + m <= usize::MAX,
            ro as int == sel_row_off(sel, n as int),
            co as int == sel_col_off(sel, n as int),
            ro <= n + m,
            co <= n + m,
            k <= comps@.len(),
            base == old(out)@.len(),
            0 <= base <= out@.len(),
            out@.take(base) == old(out)@,
            total == pass_stamps_from(comps@, 0, sel, n as int),
            total =~= stamp_views(out@.skip(base)) + pass_stamps_from(comps@, k as int, sel, n as int),
            forall|j: int|
                base <= j < out@.len() ==> {
                    let t = (#[trigger] out@[j])@;
                    0 <= t.0 < n + m && 0 <= t.1 < sel_col_cap(sel, n as int + m as int)
                },
        decreases comps@.len() - k,
    {
        let c = comps[k];
        proof {
            lemma_valid_comp_bounds(comps@, k as int);
            lemma_sel_stamps_bounds(c, sel, n as int, m as int);
            assert(!is_zero_resistor(comps@[k as int]));
        }
        let stamps: Vec<Stamp> = match sel {
            MatSel::GMat => match &c {
                Component::Resistor(x) => x.get_gmat_stamps(),
                Component::VCCurrentSource(x) => x.get_gmat_stamps(),
                _ => Vec::new(),
            },
            MatSel::BMat => match &c {
                Component::IVoltageSource(x) => x.get_bmat_stamps(),
                Component::CCCurrentSource(x) => x.get_bmat_stamps(),
                Component::CCVoltageSource(x) => x.get_bmat_stamps(),
                _ => Vec::new(),
            },
            MatSel::CMat => match &c {
                Component::IVoltageSource(x) => x.get_cmat_stamps(),
                Component::CCVoltageSource(x) => x.get_cmat_stamps(),
                _ => Vec::new(),
            },
            MatSel::DMat => match &c {
                Component::CCVoltageSource(x) => x.get_dmat_stamps(),
                _ => Vec::new(),
            },
            MatSel::ZCurrent => match &c {
                Component::ICurrentSource(x) => x.get_zmat_stamps(),
                _ => Vec::new(),
            },
            MatSel::ZVoltage => match &c {
                Component::IVoltageSource(x) => x.get_zmat_stamps(),
                _ => Vec::new(),
            },
        };
        proof {
            assert(stamp_views(stamps@) =~= sel_stamps(comps@[k as int], sel));
        }
        let ghost srcv = sel_stamps(comps@[k as int], sel);
        let ghost tr = translate_stamps(srcv, ro as int, co as int);
        let mut j: usize = 0;
        while j < stamps.len()
            invariant
                j <= stamps@.len(),
                stamp_views(stamps@) == srcv,
                srcv == sel_stamps(comps@[k as int], sel),
                k < comps@.len(),
                tr == translate_stamps(srcv, ro as int, co as int),
                ro as int == sel_row_off(sel, n as int),
                co as int == sel_col_off(sel, n as int),
                n + m <= usize::MAX,
                forall|jj: int|
                    0 <= jj < srcv.len() ==> {
                        let t = #[trigger] srcv[jj];
                        1 <= t.0 <= sel_row_bound(sel, n as int, m as int) && 1 <= t.1
                            <= sel_col_bound(sel, n as int, m as int)
                    },
                sel_row_off(sel, n as int) + sel_row_bound(sel, n as int, m as int) <= n + m,
                sel_col_off(sel, n as int) + sel_col_bound(sel, n as int, m as int) <= sel_col_cap(
                    sel,
                    n as int + m as int,
                ),
                0 <= base <= out@.len(),
                out@.take(base) == old(out)@,
                total == pass_stamps_from(comps@, 0, sel, n as int),
                total =~= stamp_views(out@.skip(base)) + tr.skip(j as int) + pass_stamps_from(
                    comps@,
                    k as int + 1,
                    sel,
                    n as int,
                ),
                forall|jj: int|
                    base <= jj < out@.len() ==> {
                        let t = (#[trigger] out@[jj])@;
                        0 <= t.0 < n + m && 0 <= t.1 < sel_col_cap(sel, n as int + m as int)
                    },
            decreases stamps@.len() - j,
        {
            let s = stamps[j];
            proof {
                assert(stamp_views(stamps@)[j as int] == stamps@[j as int]@);
                assert(s@ == srcv[j as int]);
            }
            let ghost prev = out@;
            let e = Stamp(ro + (s.0 - 1), co + (s.1 - 1), s.2);
            out.push(e);
            proof {
                assert(e@ == tr[j as int]);
                assert(out@.take(base) =~= prev.take(base));
                assert(out@.skip(base) =~= prev.skip(base).push(e));
                assert(stamp_views(prev.skip(base).push(e)) =~= stamp_views(prev.skip(base)).push(
                    e@,
                ));
                assert(tr.skip(j as int) =~= seq![tr[j as int]] + tr.skip(j as int + 1));
                assert(total =~= stamp_views(out@.skip(base)) + tr.skip(j as int + 1)
                    + pass_stamps_from(comps@, k as int + 1, sel, n as int));
            }
            j += 1;
        }
        proof {
            assert(tr.skip(stamps@.len() as int) =~= Seq::<(int, int, Q)>::empty());
            assert(total =~= stamp_views(out@.skip(base)) + pass_stamps_from(
                comps@,
                k as int + 1,
                sel,
                n as int,
            ));
        }
        k += 1;
    }
    proof {
        assert(pass_stamps_from(comps@, comps@.len() as int, sel, n as int) =~= Seq::<
            (int, int, Q),
        >::empty());
        assert(stamp_views(out@.skip(base)) =~= total);
    }
}

/// Fold a list of 0-based stamps additively into a zeroed matrix. On
/// success every cell holds the full fold and every partial sum fitted the
/// machine range; an overflow report certifies a cell whose fold does not
/// fit.
fn apply_stamps(mat: &mut Mat, stamps: &Vec<Stamp>) -> (res: Result<(), SolveError>)
    requires
        old(mat).wf(),
        forall|j: int|
            0 <= j < stamps@.len() ==> 0 <= (#[trigger] stamps@[j])@.0 < old(mat).spec_rows() && 0
                <= stamps@[j]@.1 < old(mat).spec_cols(),
        forall|r: int, c: int|
            0 <= r < old(mat).spec_rows() && 0 <= c < old(mat).spec_cols() ==> #[trigger] old(
                mat,
            ).entry(r, c) == q_zero(),
    ensures
        final(mat).wf(),
        final(mat).spec_rows() == old(mat).spec_rows(),
        final(mat).spec_cols() == old(mat).spec_cols(),
        match res {
            Ok(()) => forall|r: int, c: int|
                0 <= r < old(mat).spec_rows() && 0 <= c < old(mat).spec_cols()
                    ==> #[trigger] final(mat).entry(r, c) == acc_stamps_from(
                    stamp_views(stamps@),
                    0,
                    r,
                    c,
                    q_zero(),
                ) && fold_fits(stamp_views(stamps@), r, c),
            Err(e) => e == SolveError::Overflow && exists|r: int, c: int|
                0 <= r < old(mat).spec_rows() && 0 <= c < old(mat).spec_cols() && !fold_fits(
                    stamp_views(stamps@),
                    r,
                    c,
                ),
        },
{
    let ghost views = stamp_views(stamps@);
    let mut i: usize = 0;
    while i < stamps.len()
        invariant
            mat.wf(),
            mat.spec_rows() == old(mat).spec_rows(),
            mat.spec_cols() == old(mat).spec_cols(),
            i <= stamps@.len(),
            views == stamp_views(stamps@),
            forall|j: int|
                0 <= j < stamps@.len() ==> 0 <= (#[trigger] stamps@[j])@.0 < old(mat).spec_rows()
                    && 0 <= stamps@[j]@.1 < old(mat).spec_cols(),
            forall|r: int, c: int|
                0 <= r < old(mat).spec_rows() && 0 <= c < old(mat).spec_cols()
                    ==> #[trigger] mat.entry(r, c) == acc_stamps_from(
                    views.take(i as int),
                    0,
                    r,
                    c,
                    q_zero(),
                ),
            forall|r: int, c: int, jj: int|
                0 <= r < old(mat).spec_rows() && 0 <= c < old(mat).spec_cols() && 0 <= jj <= i
                    ==> q_fits(
                    #[trigger] acc_stamps_from(views.take(jj), 0, r, c, q_zero()),
                ),
        decreases stamps@.len() - i,
    {
        let s = stamps[i];
        let ghost pre = views.take(i as int);
        let ghost post = views.take(i as int + 1);
        proof {
            assert(views[i as int] == stamps@[i as int]@);
            assert(post =~= pre.push(views[i as int]));
        }
        let cur = mat.get(s.0, s.1);
        let v = match cur.add(s.2) {
            Some(v) => v,
            None => {
                proof {
                    lemma_acc_push(pre, views[i as int], 0, s.0 as int, s.1 as int, q_zero());
                    assert(acc_stamps_from(post, 0, s.0 as int, s.1 as int, q_zero()) == q_norm(
                        q_add(cur@, s.2@),
                    ));
                    assert(!fold_fits(views, s.0 as int, s.1 as int));
                }
                return Err(SolveError::Overflow);
            },
        };
        proof {
            use_type_invariant(v);
        }
        let ghost before = *mat;
        mat.set(s.0, s.1, v);
        proof {
            assert forall|r: int, c: int|
                0 <= r < old(mat).spec_rows() && 0 <= c < old(mat).spec_cols() implies #[trigger] mat.entry(
                r,
                c,
            ) == acc_stamps_from(post, 0, r, c, q_zero()) by {
                lemma_acc_push(pre, views[i as int], 0, r, c, q_zero());
                if r == s.0 as int && c == s.1 as int {
                    assert(mat.entry(r, c) == v@);
                    assert(v@ == q_norm(q_add(before.entry(r, c), s.2@)));
                } else {
                    assert(mat.entry(r, c) == before.entry(r, c));
                }
            }
            assert forall|r: int, c: int, jj: int|
                0 <= r < old(mat).spec_rows() && 0 <= c < old(mat).spec_cols() && 0 <= jj <= i
                    + 1 implies q_fits(
                #[trigger] acc_stamps_from(views.take(jj), 0, r, c, q_zero()),
            ) by {
                if jj == i + 1 {
                    assert(views.take(jj) == post);
                    assert(acc_stamps_from(post, 0, r, c, q_zero()) == mat.entry(r, c));
                    lemma_row_major_bound(mat.spec_rows(), mat.spec_cols(), r, c);
                    assert(q_fits(mat.entry(r, c)));
                }
            }
        }
        i += 1;
    }
    proof {
        assert(views.take(stamps@.len() as int) =~= views);
        assert forall|r: int, c: int|
            0 <= r < old(mat).spec_rows() && 0 <= c < old(mat).spec_cols() implies fold_fits(
            views,
            r,
            c,
        ) by {
            assert forall|jj: int|
                0 <= jj <= views.len() implies q_fits(
                acc_stamps_from(#[trigger] views.take(jj), 0, r, c, q_zero()),
            ) by {
                assert(q_fits(acc_stamps_from(views.take(jj), 0, r, c, q_zero())));
            }
        }
    }
    Ok(())
}

/// Find a zero-resistance resistor.
fn find_zero_resistance(comps: &Vec<Component>) -> (b: bool)
    ensures
        b == has_zero_resistance(comps@),
{
    let mut k: usize = 0;
    while k < comps.len()
        invariant
            k <= comps@.len(),
            forall|t: int| 0 <= t < k ==> !is_zero_resistor(#[trigger] comps@[t]),
        decreases comps@.len() - k,
    {
        match comps[k] {
            Component::Resistor(x) => {
                if x.resistance.is_zero() {
                    return true;
                }
            },
            _ => {},
        }
        k += 1;
    }
    false
}

// ------------------------------------------------------------------
// The netlist itself.
// ------------------------------------------------------------------

/// The post-state of a successful assembly: the matrices have the augmented
/// dimensions and hold exactly the folded stamps of `comps`.
pub open spec fn assembled_from(nl: Netlist, comps: Seq<Component>) -> bool {
    let n = spec_node_count(comps);
    let m = spec_aux_count(comps);
    let t = n + m;
    &&& nl.a().wf()
    &&& nl.z().wf()
    &&& nl.x().wf()
    &&& nl.a().spec_rows() == t && nl.a().spec_cols() == t
    &&& nl.z().spec_rows() == t && nl.z().spec_cols() == 1
    &&& nl.x().spec_rows() == t && nl.x().spec_cols() == 1
    &&& forall|r: int, c: int|
        0 <= r < t && 0 <= c < t ==> #[trigger] nl.a().entry(r, c) == a_entry(comps, n, r, c)
    &&& forall|r: int| 0 <= r < t ==> #[trigger] nl.z().entry(r, 0) == z_entry(comps, n, r)
    &&& forall|r: int| 0 <= r < t ==> #[trigger] nl.x().entry(r, 0) == q_zero()
    &&& nl.cached_nodes() == Some(n as usize)
}

/// An ordered component list and, once assembled, the augmented system
/// `A * X = Z`.
pub struct Netlist {
    component_list: Vec<Component>,
    initialized: bool,
    x_mat_valid: bool,
    num_nodes_cache: Option<usize>,
    a_mat: Mat,
    x_mat: Mat,
    z_mat: Mat,
}

impl Netlist {
    pub closed spec fn components(self) -> Seq<Component> {
        self.component_list@
    }

    pub closed spec fn assembled(self) -> bool {
        self.initialized
    }

    pub closed spec fn solved(self) -> bool {
        self.x_mat_valid
    }

    pub closed spec fn cached_nodes(self) -> Option<usize> {
        self.num_nodes_cache
    }

    pub closed spec fn a(self) -> Mat {
        self.a_mat
    }

    pub closed spec fn x(self) -> Mat {
        self.x_mat
    }

    pub closed spec fn z(self) -> Mat {
        self.z_mat
    }

    #[verifier::type_invariant]
    spec fn inv(self) -> bool {
        &&& self.a_mat.wf()
        &&& self.x_mat.wf()
        &&& self.z_mat.wf()
        &&& self.initialized ==> {
            &&& self.a_mat.spec_rows() == self.a_mat.spec_cols()
            &&& self.z_mat.spec_rows() == self.a_mat.spec_rows()
            &&& self.z_mat.spec_cols() == 1
            &&& self.x_mat.spec_rows() == self.a_mat.spec_rows()
            &&& self.x_mat.spec_cols() == 1
            &&& match self.num_nodes_cache {
                Some(n) => n as int <= self.a_mat.spec_rows(),
                None => false,
            }
        }
        &&& self.x_mat_valid ==> self.initialized
    }

    /// An empty netlist with unassembled 0 x 0 matrices.
    pub fn new() -> (nl: Netlist)
        ensures
            nl.components() == Seq::<Component>::empty(),
            !nl.assembled(),
            !nl.solved(),
            nl.cached_nodes() is None,
            nl.a().spec_rows() == 0 && nl.a().spec_cols() == 0,
            nl.z().spec_rows() == 0 && nl.z().spec_cols() == 0,
            nl.x().spec_rows() == 0 && nl.x().spec_cols() == 0,
    {
        Netlist {
            component_list: Vec::new(),
            initialized: false,
            x_mat_valid: false,
            num_nodes_cache: None,
            a_mat: Mat::empty(),
            x_mat: Mat::empty(),
            z_mat: Mat::empty(),
        }
    }

    /// Append a component; nothing is validated until assembly.
    pub fn add_component(&mut self, new_component: Component)
        ensures
            final(self).components() == old(self).components().push(new_component),
            final(self).assembled() == old(self).assembled(),
            final(self).solved() == old(self).solved(),
            final(self).cached_nodes() == old(self).cached_nodes(),
            final(self).a() == old(self).a(),
            final(self).x() == old(self).x(),
            final(self).z() == old(self).z(),
    {
        proof {
            use_type_invariant(&*self);
        }
        let mut list: Vec<Component> = Vec::new();
        std::mem::swap(&mut list, &mut self.component_list);
        list.push(new_component);
        self.component_list = list;
    }

    /// True iff every component reports linear.
    pub fn is_linear(&self) -> (r: bool)
        ensures
            r == spec_netlist_linear(self.components()),
    {
        let mut k: usize = 0;
        while k < self.component_list.len()
            invariant
                k <= self.component_list@.len(),
                forall|t: int|
                    0 <= t < k ==> spec_component_linear(#[trigger] self.component_list@[t]),
            decreases self.component_list@.len() - k,
        {
            if !self.component_list[k].is_linear() {
                return false;
            }
            k += 1;
        }
        true
    }

    /// The number of distinct non-ground nodes referenced by any component.
    pub fn num_nodes(&self) -> (r: usize)
        ensures
            r as int == spec_node_count(self.components()),
    {
        count_nodes(&self.component_list)
    }

    /// The number of auxiliary branch-current variables: one per
    /// voltage-defining source.
    pub fn num_aux_variables(&self) -> (r: usize)
        ensures
            r as int == spec_aux_count(self.components()),
    {
        count_aux(&self.component_list)
    }

    /// Build `A` and `Z` from scratch out of all components' stamps.
    ///
    /// Starting from freshly zeroed matrices on every call makes assembly
    /// idempotent: the result depends on the component list alone. Any
    /// previously solved result becomes invalid on entry, so a failed
    /// re-assembly never leaves a stale result readable. The identifiers
    /// are validated first, as `valid_topology` states; a zero resistance
    /// is reported next; and on a valid netlist assembly succeeds exactly
    /// when it stays within the machine limits (`assembly_fits`) — an
    /// exact value out of range is reported, never folded in silently.
    pub fn initialize_dc_mna(&mut self) -> (res: Result<(), SolveError>)
        ensures
            final(self).components() == old(self).components(),
            !final(self).solved(),
            match res {
                Ok(()) => {
                    &&& valid_topology(old(self).components())
                    &&& !has_zero_resistance(old(self).components())
                    &&& assembly_fits(old(self).components())
                    &&& final(self).assembled()
                    &&& assembled_from(*final(self), old(self).components())
                },
                Err(e) => {
                    &&& final(self).assembled() == old(self).assembled()
                    &&& final(self).cached_nodes() == old(self).cached_nodes()
                    &&& final(self).a() == old(self).a()
                    &&& final(self).x() == old(self).x()
                    &&& final(self).z() == old(self).z()
                    &&& (e == SolveError::InvalidTopology <==> !valid_topology(
                        old(self).components(),
                    ))
                    &&& (e == SolveError::ZeroResistance <==> valid_topology(
                        old(self).components(),
                    ) && has_zero_resistance(old(self).components()))
                    &&& (e == SolveError::Overflow <==> valid_topology(old(self).components())
                        && !has_zero_resistance(old(self).components()) && !assembly_fits(
                        old(self).components(),
                    ))
                    &&& (e == SolveError::InvalidTopology || e == SolveError::ZeroResistance || e
                        == SolveError::Overflow)
                },
            },
    {
        proof {
            use_type_invariant(&*self);
        }
        // a prior solved result becomes invalid now, success or failure
        self.x_mat_valid = false;
        let ghost comps = self.component_list@;
        let n = count_nodes(&self.component_list);
        let m = count_aux(&self.component_list);
        if !check_topology(&self.component_list, n, m) {
            return Err(SolveError::InvalidTopology);
        }
        if find_zero_resistance(&self.component_list) {
            return Err(SolveError::ZeroResistance);
        }
        let t = match n.checked_add(m) {
            Some(t) => t,
            None => {
                proof {
                    let ti = spec_node_count(comps) + spec_aux_count(comps);
                    assert(ti * ti >= ti * 1) by (nonlinear_arith)
                        requires
                            ti >= 1,
                    ;
                    assert(!assembly_fits(comps));
                }
                return Err(SolveError::Overflow);
            },
        };
        let mut a = match Mat::zero(t, t) {
            Some(x) => x,
            None => {
                proof {
                    assert(!assembly_fits(comps));
                }
                return Err(SolveError::Overflow);
            },
        };
        let mut z = match Mat::zero(t, 1) {
            Some(x) => x,
            None => {
                return Err(SolveError::Overflow);
            },
        };
        let x = match Mat::zero(t, 1) {
            Some(x) => x,
            None => {
                return Err(SolveError::Overflow);
            },
        };
        let mut astamps: Vec<Stamp> = Vec::new();
        collect_pass(&self.component_list, MatSel::GMat, n, m, &mut astamps);
        let ghost s1 = astamps@;
        collect_pass(&self.component_list, MatSel::BMat, n, m, &mut astamps);
        let ghost s2 = astamps@;
        collect_pass(&self.component_list, MatSel::CMat, n, m, &mut astamps);
        let ghost s3 = astamps@;
        collect_pass(&self.component_list, MatSel::DMat, n, m, &mut astamps);
        proof {
            lemma_views_decompose(astamps@, s3.len() as int);
            lemma_views_decompose(s3, s2.len() as int);
            lemma_views_decompose(s2, s1.len() as int);
            assert(s2.take(s1.len() as int) == s1);
            assert(s3.take(s2.len() as int) == s2);
            assert(astamps@.take(s3.len() as int) == s3);
            assert(stamp_views(astamps@) =~= a_stamps(comps, n as int));
            assert forall|j: int| 0 <= j < astamps@.len() implies 0 <= (#[trigger] astamps@[j])@.0
                < t && 0 <= astamps@[j]@.1 < t by {
                if j < s1.len() {
                    assert(astamps@[j] == s3[j]);
                    assert(s3[j] == s2[j]);
                    assert(s2[j] == s1[j]);
                } else if j < s2.len() {
                    assert(astamps@[j] == s3[j]);
                    assert(s3[j] == s2[j]);
                } else if j < s3.len() {
                    assert(astamps@[j] == s3[j]);
                }
            }
        }
        match apply_stamps(&mut a, &astamps) {
            Ok(()) => {},
            Err(_) => {
                proof {
                    let (br, bc) = choose|br: int, bc: int|
                        0 <= br < t && 0 <= bc < t && !fold_fits(stamp_views(astamps@), br, bc);
                    assert(!fold_fits(a_stamps(comps, n as int), br, bc));
                    assert(!assembly_fits(comps));
                }
                return Err(SolveError::Overflow);
            },
        }
        let mut zstamps: Vec<Stamp> = Vec::new();
        collect_pass(&self.component_list, MatSel::ZCurrent, n, m, &mut zstamps);
        let ghost zs1 = zstamps@;
        collect_pass(&self.component_list, MatSel::ZVoltage, n, m, &mut zstamps);
        proof {
            lemma_views_decompose(zstamps@, zs1.len() as int);
            assert(zstamps@.take(zs1.len() as int) == zs1);
            assert(stamp_views(zstamps@) =~= z_stamps(comps, n as int));
            assert forall|j: int| 0 <= j < zstamps@.len() implies 0 <= (#[trigger] zstamps@[j])@.0
                < t && 0 <= zstamps@[j]@.1 < 1 by {
                if j < zs1.len() {
                    assert(zstamps@[j] == zs1[j]);
                }
            }
        }
        match apply_stamps(&mut z, &zstamps) {
            Ok(()) => {},
            Err(_) => {
                proof {
                    let (br, bc) = choose|br: int, bc: int|
                        0 <= br < t && 0 <= bc < 1 && !fold_fits(stamp_views(zstamps@), br, bc);
                    assert(bc == 0);
                    assert(!fold_fits(z_stamps(comps, n as int), br, 0));
                    assert(!assembly_fits(comps));
                }
                return Err(SolveError::Overflow);
            },
        }
        proof {
            assert forall|r: int, c: int|
                0 <= r < t && 0 <= c < t implies fold_fits(a_stamps(comps, n as int), r, c) by {
                assert(a.entry(r, c) == acc_stamps_from(stamp_views(astamps@), 0, r, c, q_zero()));
                assert(fold_fits(stamp_views(astamps@), r, c));
            }
            assert forall|r: int| 0 <= r < t implies fold_fits(z_stamps(comps, n as int), r, 0) by {
                assert(z.entry(r, 0) == acc_stamps_from(stamp_views(zstamps@), 0, r, 0, q_zero()));
                assert(fold_fits(stamp_views(zstamps@), r, 0));
            }
            assert(assembly_fits(comps));
        }
        self.x_mat_valid = false;
        self.initialized = false;
        self.a_mat = a;
        self.x_mat = x;
        self.z_mat = z;
        self.num_nodes_cache = Some(n);
        self.initialized = true;
        Ok(())
    }

    /// Solve the assembled system `A * X = Z` by a direct elimination with
    /// pivoting, never by inversion.
    ///
    /// On success the stored unknown vector satisfies every row of the
    /// assembled system exactly. A netlist that was never assembled, or a
    /// nonlinear one, is rejected before any arithmetic; the degenerate
    /// empty system is never solved; a singular system is reported, never
    /// answered numerically.
    pub fn solve_dc_mna(&mut self) -> (res: Result<(), SolveError>)
        ensures
            match res {
                Ok(()) => {
                    &&& old(self).assembled()
                    &&& spec_netlist_linear(old(self).components())
                    &&& final(self).components() == old(self).components()
                    &&& final(self).assembled()
                    &&& final(self).solved()
                    &&& final(self).a() == old(self).a()
                    &&& final(self).z() == old(self).z()
                    &&& final(self).cached_nodes() == old(self).cached_nodes()
                    &&& final(self).x().wf()
                    &&& final(self).x().spec_rows() == old(self).a().spec_rows()
                    &&& final(self).x().spec_cols() == 1
                    &&& forall|i: int|
                        0 <= i < old(self).a().spec_rows() ==> q_eq(
                            #[trigger] crate::solve::row_dot(
                                old(self).a(),
                                final(self).x().spec_data(),
                                i,
                            ),
                            old(self).z().entry(i, 0),
                        )
                },
                Err(e) => {
                    &&& *final(self) == *old(self)
                    &&& (e == SolveError::NotAssembled <==> !old(self).assembled())
                    &&& (e == SolveError::NonlinearUnsupported ==> !spec_netlist_linear(
                        old(self).components(),
                    ))
                    &&& (e == SolveError::InvalidTopology <==> old(self).assembled()
                        && spec_netlist_linear(old(self).components()) && old(
                        self,
                    ).a().spec_rows() == 0)
                    &&& (e == SolveError::NotAssembled || e == SolveError::NonlinearUnsupported
                        || e == SolveError::InvalidTopology || e == SolveError::SingularSystem
                        || e == SolveError::Overflow)
                },
            },
    {
        proof {
            use_type_invariant(&*self);
        }
        if !self.initialized {
            return Err(SolveError::NotAssembled);
        }
        if !self.is_linear() {
            return Err(SolveError::NonlinearUnsupported);
        }
        let t = self.a_mat.nrows();
        if t == 0 {
            return Err(SolveError::InvalidTopology);
        }
        match crate::solve::solve_system(&self.a_mat, &self.z_mat) {
            Ok(xs) => {
                let xm = Mat::from_column(xs);
                self.x_mat = xm;
                self.x_mat_valid = true;
                Ok(())
            },
            Err(e) => Err(e),
        }
    }

    /// The assembled augmented matrix; 0 x 0 before the first assembly.
    pub fn a_mat(&self) -> (r: &Mat)
        ensures
            *r == self.a(),
    {
        &self.a_mat
    }

    /// The solved unknown vector; valid only after a successful solve.
    pub fn x_mat(&self) -> (r: &Mat)
        ensures
            *r == self.x(),
    {
        &self.x_mat
    }

    /// The assembled excitation vector; 0 x 0 before the first assembly.
    pub fn z_mat(&self) -> (r: &Mat)
        ensures
            *r == self.z(),
    {
        &self.z_mat
    }

    /// The solved node voltages, ordered by node identifier ascending from
    /// 1, or `None` when no solve has succeeded since the last assembly.
    pub fn get_node_voltages(&self) -> (r: Option<Vec<Rat>>)
        ensures
            match r {
                Some(v) => {
                    &&& self.solved()
                    &&& self.cached_nodes() matches Some(n) && v@.len() == n
                    &&& forall|i: int|
                        0 <= i < v@.len() ==> #[trigger] v@[i] == self.x().spec_data()[i]
                },
                None => !(self.solved() && self.cached_nodes() is Some),
            },
    {
        proof {
            use_type_invariant(&*self);
        }
        if !self.x_mat_valid {
            return None;
        }
        match self.num_nodes_cache {
            Some(n) => {
                let mut v: Vec<Rat> = Vec::new();
                let mut i: usize = 0;
                while i < n
                    invariant
                        i <= n,
                        v@.len() == i,
                        n as int <= self.x().spec_rows(),
                        self.x().spec_cols() == 1,
                        self.x().wf(),
                        forall|j: int|
                            0 <= j < v@.len() ==> #[trigger] v@[j] == self.x().spec_data()[j],
                    decreases n - i,
                {
                    let e = self.x_mat.get(i, 0);
                    v.push(e);
                    i += 1;
                }
                Some(v)
            },
            None => None,
        }
    }
}

impl Default for Netlist {
    fn default() -> Self {
        Netlist::new()
    }
}

} // verus!
