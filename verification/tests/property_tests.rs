//! Laws and failure modes: idempotent assembly, source-fixed node voltage,
//! singular systems, and each rejection the pipeline can report.

use dc_mna::components::cc_current_source::CCCurrentSource;
use dc_mna::components::independent_voltage_source::IVoltageSource;
use dc_mna::components::resistor::Resistor;
use dc_mna::components::Component;
use dc_mna::netlist::{Netlist, SolveError};
use dc_mna::rational::Rat;

/// Assembling twice with an unchanged component list reproduces `A` and
/// `Z` bit for bit.
#[test]
fn assemble_twice_identical() {
    let mut net = Netlist::new();
    net.add_component(Component::IVoltageSource(IVoltageSource::new(
        1,
        1,
        0,
        Rat::from_int(1),
    )));
    net.add_component(Component::Resistor(Resistor::new(1, 2, Rat::from_int(5))));
    net.add_component(Component::Resistor(Resistor::new(0, 2, Rat::from_int(10))));

    net.initialize_dc_mna().unwrap();
    let a_first = net.a_mat().duplicate();
    let z_first = net.z_mat().duplicate();

    net.initialize_dc_mna().unwrap();
    assert!(net.a_mat().mat_eq(&a_first));
    assert!(net.z_mat().mat_eq(&z_first));
}

/// A source directly across node 1 and ground fixes that node's voltage,
/// whatever the resistance.
#[test]
fn grounded_source_voltage_independent_of_resistance() {
    let resistances: [i64; 4] = [1, 5, 7, 1000000];
    for r in resistances {
        let mut net = Netlist::new();
        net.add_component(Component::IVoltageSource(IVoltageSource::new(
            1,
            1,
            0,
            Rat::from_int(12),
        )));
        net.add_component(Component::Resistor(Resistor::new(1, 0, Rat::from_int(r))));
        net.initialize_dc_mna().unwrap();
        net.solve_dc_mna().unwrap();
        let v = net.get_node_voltages().expect("voltages should be valid here");
        assert_eq!(v[0], Rat::from_int(12));
    }
}

/// Two sources forcing different voltages across the same node pair with
/// no resistive path: the system is singular and is reported as such.
#[test]
fn conflicting_sources_are_singular() {
    let mut net = Netlist::new();
    net.add_component(Component::IVoltageSource(IVoltageSource::new(
        1,
        1,
        0,
        Rat::from_int(1),
    )));
    net.add_component(Component::IVoltageSource(IVoltageSource::new(
        2,
        1,
        0,
        Rat::from_int(2),
    )));
    net.initialize_dc_mna().unwrap();
    assert_eq!(net.solve_dc_mna(), Err(SolveError::SingularSystem));
    assert!(net.get_node_voltages().is_none());
}

#[test]
fn solve_before_assembly_is_rejected() {
    let mut net = Netlist::new();
    net.add_component(Component::Resistor(Resistor::new(1, 0, Rat::from_int(1))));
    assert_eq!(net.solve_dc_mna(), Err(SolveError::NotAssembled));
    assert!(net.get_node_voltages().is_none());
}

#[test]
fn node_identifier_gap_is_invalid() {
    let mut net = Netlist::new();
    // nodes 1 and 3 are used but 2 is not: the identifiers are not dense
    net.add_component(Component::IVoltageSource(IVoltageSource::new(
        1,
        1,
        0,
        Rat::from_int(1),
    )));
    net.add_component(Component::Resistor(Resistor::new(1, 3, Rat::from_int(1))));
    net.add_component(Component::Resistor(Resistor::new(3, 0, Rat::from_int(1))));
    assert_eq!(net.initialize_dc_mna(), Err(SolveError::InvalidTopology));
}

#[test]
fn aux_identifier_gap_is_invalid() {
    let mut net = Netlist::new();
    // the only source numbers itself 2: auxiliary numbers are not dense
    net.add_component(Component::IVoltageSource(IVoltageSource::new(
        2,
        1,
        0,
        Rat::from_int(1),
    )));
    net.add_component(Component::Resistor(Resistor::new(1, 0, Rat::from_int(1))));
    assert_eq!(net.initialize_dc_mna(), Err(SolveError::InvalidTopology));
}

#[test]
fn duplicate_aux_identifier_is_invalid() {
    let mut net = Netlist::new();
    net.add_component(Component::IVoltageSource(IVoltageSource::new(
        1,
        1,
        0,
        Rat::from_int(1),
    )));
    net.add_component(Component::IVoltageSource(IVoltageSource::new(
        1,
        2,
        0,
        Rat::from_int(2),
    )));
    net.add_component(Component::Resistor(Resistor::new(1, 2, Rat::from_int(1))));
    assert_eq!(net.initialize_dc_mna(), Err(SolveError::InvalidTopology));
}

#[test]
fn dangling_dependent_reference_is_invalid() {
    let mut net = Netlist::new();
    net.add_component(Component::IVoltageSource(IVoltageSource::new(
        1,
        1,
        0,
        Rat::from_int(1),
    )));
    net.add_component(Component::Resistor(Resistor::new(1, 0, Rat::from_int(1))));
    // references auxiliary variable 2, which no source owns
    net.add_component(Component::CCCurrentSource(CCCurrentSource::new(
        2,
        1,
        0,
        Rat::from_int(1),
    )));
    assert_eq!(net.initialize_dc_mna(), Err(SolveError::InvalidTopology));
}

#[test]
fn zero_resistance_is_rejected() {
    let mut net = Netlist::new();
    net.add_component(Component::Resistor(Resistor::new(1, 0, Rat::from_int(0))));
    assert_eq!(net.initialize_dc_mna(), Err(SolveError::ZeroResistance));
}

#[test]
fn conductance_overflow_is_reported() {
    let mut net = Netlist::new();
    // each conductance is 9 * 10^18; two in parallel overflow the exact
    // numerator range
    let tiny = Rat::new(1, 9_000_000_000_000_000_000).unwrap();
    net.add_component(Component::Resistor(Resistor::new(1, 0, tiny)));
    net.add_component(Component::Resistor(Resistor::new(1, 0, tiny)));
    assert_eq!(net.initialize_dc_mna(), Err(SolveError::Overflow));
}

/// An empty netlist assembles to the degenerate 0 x 0 system, which is
/// permitted, but solving it is not.
#[test]
fn empty_netlist_cannot_be_solved() {
    let mut net = Netlist::new();
    net.initialize_dc_mna().unwrap();
    assert!(net.a_mat().nrows() == 0);
    assert_eq!(net.solve_dc_mna(), Err(SolveError::InvalidTopology));
}

/// Re-assembly invalidates the previously solved result even when it
/// fails: no stale voltages stay readable after the component list broke
/// the density invariant.
#[test]
fn failed_reassembly_invalidates_result() {
    let mut net = Netlist::new();
    net.add_component(Component::IVoltageSource(IVoltageSource::new(
        1,
        1,
        0,
        Rat::from_int(12),
    )));
    net.add_component(Component::Resistor(Resistor::new(1, 0, Rat::from_int(3))));
    net.initialize_dc_mna().unwrap();
    net.solve_dc_mna().unwrap();
    assert!(net.get_node_voltages().is_some());

    // node 5 leaves a gap, so re-assembly fails; the old result is gone
    net.add_component(Component::Resistor(Resistor::new(5, 0, Rat::from_int(1))));
    assert_eq!(net.initialize_dc_mna(), Err(SolveError::InvalidTopology));
    assert!(net.get_node_voltages().is_none());
}

/// Adding a component does not touch a previously assembled system until
/// the next assembly.
#[test]
fn assembly_is_explicit() {
    let mut net = Netlist::new();
    net.add_component(Component::IVoltageSource(IVoltageSource::new(
        1,
        1,
        0,
        Rat::from_int(1),
    )));
    net.add_component(Component::Resistor(Resistor::new(1, 0, Rat::from_int(1))));
    net.initialize_dc_mna().unwrap();
    let rows = net.a_mat().nrows();
    net.add_component(Component::Resistor(Resistor::new(2, 0, Rat::from_int(1))));
    assert_eq!(net.a_mat().nrows(), rows);
}
