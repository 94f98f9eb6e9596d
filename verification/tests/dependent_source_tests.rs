//! Solve tests for the dependent source kinds.

use dc_mna::components::cc_current_source::CCCurrentSource;
use dc_mna::components::cc_voltage_source::CCVoltageSource;
use dc_mna::components::independent_voltage_source::IVoltageSource;
use dc_mna::components::resistor::Resistor;
use dc_mna::components::vc_current_source::VCCurrentSource;
use dc_mna::components::Component;
use dc_mna::netlist::Netlist;
use dc_mna::rational::Rat;

#[test]
fn vc_current_source_basic_function_grounded() {
    let mut net = Netlist::new();

    let v1 = IVoltageSource::new(1, 1, 0, Rat::from_int(2));
    let r1 = Resistor::new(1, 2, Rat::from_int(1));
    let r2 = Resistor::new(0, 2, Rat::from_int(1));
    let vccs = VCCurrentSource::new(2, 0, 3, 0, Rat::from_int(-1));
    let r3 = Resistor::new(3, 0, Rat::from_int(2));

    net.add_component(Component::IVoltageSource(v1));
    net.add_component(Component::Resistor(r1));
    net.add_component(Component::Resistor(r2));
    net.add_component(Component::Resistor(r3));
    net.add_component(Component::VCCurrentSource(vccs));

    net.initialize_dc_mna().unwrap();

    net.solve_dc_mna().unwrap();

    let node_voltages = net.get_node_voltages().expect("voltages should be valid here");
    assert_eq!(node_voltages[1 - 1], Rat::from_int(2));
    assert_eq!(node_voltages[2 - 1], Rat::from_int(1));
    assert_eq!(node_voltages[3 - 1], Rat::from_int(2));
}

#[test]
fn vc_current_source_basic_function_ungrounded() {
    let mut net = Netlist::new();

    let v1 = IVoltageSource::new(1, 1, 0, Rat::from_int(2));
    let r1 = Resistor::new(1, 2, Rat::from_int(1));
    let r2 = Resistor::new(0, 2, Rat::from_int(1));
    let vccs = VCCurrentSource::new(2, 0, 4, 3, Rat::from_int(1));
    let r3 = Resistor::new(3, 0, Rat::from_int(1));
    let r4 = Resistor::new(4, 0, Rat::from_int(1));

    net.add_component(Component::IVoltageSource(v1));
    net.add_component(Component::Resistor(r1));
    net.add_component(Component::Resistor(r2));
    net.add_component(Component::Resistor(r3));
    net.add_component(Component::Resistor(r4));
    net.add_component(Component::VCCurrentSource(vccs));

    net.initialize_dc_mna().unwrap();

    net.solve_dc_mna().unwrap();

    let node_voltages = net.get_node_voltages().expect("voltages should be valid here");
    assert_eq!(node_voltages[1 - 1], Rat::from_int(2));
    assert_eq!(node_voltages[2 - 1], Rat::from_int(1));
    assert_eq!(node_voltages[3 - 1], Rat::from_int(1));
    assert_eq!(node_voltages[4 - 1], Rat::from_int(-1));
}

#[test]
fn cc_current_source_basic_function_grounded() {
    let mut net = Netlist::new();

    let v1 = IVoltageSource::new(1, 1, 0, Rat::from_int(2));
    let v2 = IVoltageSource::new(2, 0, 2, Rat::from_int(0));
    let r1 = Resistor::new(1, 2, Rat::from_int(2));
    let r2 = Resistor::new(3, 0, Rat::new(1, 2).unwrap());
    let cccs = CCCurrentSource::new(2, 3, 0, Rat::from_int(2));

    net.add_component(Component::IVoltageSource(v1));
    net.add_component(Component::IVoltageSource(v2));
    net.add_component(Component::Resistor(r1));
    net.add_component(Component::Resistor(r2));
    net.add_component(Component::CCCurrentSource(cccs));

    net.initialize_dc_mna().unwrap();

    net.solve_dc_mna().unwrap();

    let node_voltages = net.get_node_voltages().expect("voltages should be valid here");

    assert_eq!(node_voltages[1 - 1], Rat::from_int(2));
    assert_eq!(node_voltages[2 - 1], Rat::from_int(0));
    assert_eq!(node_voltages[3 - 1], Rat::from_int(1));
}

#[test]
fn cc_voltage_source_basic_function_grounded() {
    let mut net = Netlist::new();

    let v1 = IVoltageSource::new(1, 1, 0, Rat::from_int(2));
    let v2 = IVoltageSource::new(2, 2, 1, Rat::from_int(0));
    let r1 = Resistor::new(2, 3, Rat::from_int(1));
    let r2 = Resistor::new(0, 3, Rat::from_int(1));
    let ccvs = CCVoltageSource::new(3, 2, 1, 2, 3, 0, Rat::from_int(1));

    net.add_component(Component::IVoltageSource(v1));
    net.add_component(Component::IVoltageSource(v2));
    net.add_component(Component::Resistor(r1));
    net.add_component(Component::Resistor(r2));
    net.add_component(Component::CCVoltageSource(ccvs));

    net.initialize_dc_mna().unwrap();

    net.solve_dc_mna().unwrap();

    let node_voltages = net.get_node_voltages().expect("voltages should be valid here");
    assert_eq!(node_voltages[1 - 1], Rat::from_int(2));
    assert_eq!(node_voltages[2 - 1], Rat::from_int(2));
    assert_eq!(node_voltages[3 - 1], Rat::from_int(1));
}

#[test]
fn cc_voltage_source_basic_function_ungrounded() {
    let mut net = Netlist::new();

    let v1 = IVoltageSource::new(1, 1, 0, Rat::from_int(2));
    let r1 = Resistor::new(1, 2, Rat::from_int(1));
    let r2 = Resistor::new(0, 2, Rat::from_int(1));
    let vccs = VCCurrentSource::new(2, 0, 4, 3, Rat::from_int(1));
    let r3 = Resistor::new(3, 0, Rat::from_int(1));
    let r4 = Resistor::new(4, 0, Rat::from_int(1));

    net.add_component(Component::IVoltageSource(v1));
    net.add_component(Component::Resistor(r1));
    net.add_component(Component::Resistor(r2));
    net.add_component(Component::Resistor(r3));
    net.add_component(Component::Resistor(r4));
    net.add_component(Component::VCCurrentSource(vccs));

    net.initialize_dc_mna().unwrap();

    net.solve_dc_mna().unwrap();

    let node_voltages = net.get_node_voltages().expect("voltages should be valid here");
    assert_eq!(node_voltages[1 - 1], Rat::from_int(2));
    assert_eq!(node_voltages[2 - 1], Rat::from_int(1));
    assert_eq!(node_voltages[3 - 1], Rat::from_int(1));
    assert_eq!(node_voltages[4 - 1], Rat::from_int(-1));
}

/// The stored sensing-node fields of a current-controlled voltage source
/// produce no stamps and create no nodes: the sensed quantity is the
/// referenced auxiliary branch current alone.
#[test]
fn ccvs_sensing_fields_make_no_nodes() {
    let mut net = Netlist::new();

    let v1 = IVoltageSource::new(1, 1, 0, Rat::from_int(2));
    let r1 = Resistor::new(1, 0, Rat::from_int(1));
    let r2 = Resistor::new(2, 0, Rat::from_int(1));
    // sensing fields name identifiers 7 and 8, which exist nowhere else
    let ccvs = CCVoltageSource::new(2, 1, 7, 8, 2, 0, Rat::from_int(1));

    net.add_component(Component::IVoltageSource(v1));
    net.add_component(Component::Resistor(r1));
    net.add_component(Component::Resistor(r2));
    net.add_component(Component::CCVoltageSource(ccvs));

    assert_eq!(net.num_nodes(), 2);
    net.initialize_dc_mna().unwrap();
    net.solve_dc_mna().unwrap();
    let node_voltages = net.get_node_voltages().expect("voltages should be valid here");
    assert_eq!(node_voltages.len(), 2);
    assert_eq!(node_voltages[0], Rat::from_int(2));
}
