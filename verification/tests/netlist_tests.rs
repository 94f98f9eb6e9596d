//! Assembly and solve tests on the voltage-divider example.

use dc_mna::add;
use dc_mna::components::independent_current_source::ICurrentSource;
use dc_mna::components::independent_voltage_source::IVoltageSource;
use dc_mna::components::resistor::Resistor;
use dc_mna::components::Component;
use dc_mna::netlist::Netlist;
use dc_mna::rational::Rat;

#[test]
fn it_works() {
    let result = add(2, 2);
    assert_eq!(result, 4);
}

#[test]
fn netlist_simulation_creation() {
    let _ = Netlist::new();
}

#[test]
fn netlist_adding_components() {
    let mut net = Netlist::new();

    let resistor = Resistor::new(1, 0, Rat::from_int(1));
    let voltage_source = IVoltageSource::new(1, 1, 0, Rat::from_int(12));
    net.add_component(Component::Resistor(resistor));
    net.add_component(Component::IVoltageSource(voltage_source));
}

#[test]
fn netlist_simple_vs_resistor_test() {
    let mut net = Netlist::new();

    let resistor = Resistor::new(1, 0, Rat::from_int(1));
    let voltage_source = IVoltageSource::new(1, 1, 0, Rat::from_int(12));
    net.add_component(Component::Resistor(resistor));
    net.add_component(Component::IVoltageSource(voltage_source));
}

/// The divider: source 1 V at node 1, 5 ohm between nodes 1 and 2, 10 ohm
/// from node 2 to ground, 1 A injected into node 2.
fn divider() -> Netlist {
    let mut net = Netlist::new();

    let v1 = IVoltageSource::new(1, 1, 0, Rat::from_int(1));
    let r1 = Resistor::new(1, 2, Rat::from_int(5));
    let r2 = Resistor::new(0, 2, Rat::from_int(10));
    let i1 = ICurrentSource::new(0, 2, Rat::from_int(1));

    net.add_component(Component::IVoltageSource(v1));
    net.add_component(Component::Resistor(r1));
    net.add_component(Component::Resistor(r2));
    net.add_component(Component::ICurrentSource(i1));
    net
}

#[test]
fn init_matrix_dimensions() {
    let mut net = divider();

    // before assembly the matrices are 0 x 0
    assert!(net.a_mat().ncols() == 0);
    assert!(net.a_mat().nrows() == 0);
    assert!(net.z_mat().ncols() == 0);
    assert!(net.z_mat().nrows() == 0);

    net.initialize_dc_mna().unwrap();

    // now (2 nodes + 1 independent voltage source) on each side
    assert!(net.a_mat().ncols() == 3);
    assert!(net.a_mat().nrows() == 3);
    assert!(net.z_mat().ncols() == 1);
    assert!(net.z_mat().nrows() == 3);
}

#[test]
fn init_matrix_values() {
    let mut net = divider();

    net.initialize_dc_mna().unwrap();

    assert_eq!(net.a_mat().get(0, 0), Rat::new(1, 5).unwrap());
    assert_eq!(net.a_mat().get(0, 1), Rat::new(-1, 5).unwrap());
    assert_eq!(net.a_mat().get(1, 0), Rat::new(-1, 5).unwrap());
    assert_eq!(net.a_mat().get(1, 1), Rat::new(3, 10).unwrap());
    assert_eq!(net.a_mat().get(0, 2), Rat::from_int(1));
    assert_eq!(net.a_mat().get(2, 0), Rat::from_int(1));
    assert_eq!(net.z_mat().get(0, 0), Rat::from_int(0));
    assert_eq!(net.z_mat().get(1, 0), Rat::from_int(1));
    assert_eq!(net.z_mat().get(2, 0), Rat::from_int(1));
}

#[test]
fn dc_mna_solve() {
    let mut net = divider();

    net.initialize_dc_mna().unwrap();

    net.solve_dc_mna().unwrap();

    assert_eq!(net.x_mat().get(0, 0), Rat::from_int(1));
    assert_eq!(net.x_mat().get(1, 0), Rat::from_int(4));
    assert_eq!(net.x_mat().get(2, 0), Rat::new(3, 5).unwrap());
}

#[test]
fn get_node_voltages() {
    let mut net = divider();

    net.initialize_dc_mna().unwrap();

    net.solve_dc_mna().unwrap();

    let node_voltages = net.get_node_voltages().expect("voltages should be valid here");
    assert_eq!(node_voltages[0], Rat::from_int(1));
    assert_eq!(node_voltages[1], Rat::from_int(4));
}

#[test]
fn netlist_is_linear() {
    let net = divider();
    assert!(net.is_linear());
}

#[test]
fn node_and_aux_counts() {
    let net = divider();
    assert_eq!(net.num_nodes(), 2);
    assert_eq!(net.num_aux_variables(), 1);
}
