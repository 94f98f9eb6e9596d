//! Construction tests for the element kinds, and exact stamp values.

use dc_mna::components::cc_current_source::CCCurrentSource;
use dc_mna::components::cc_voltage_source::CCVoltageSource;
use dc_mna::components::independent_current_source::ICurrentSource;
use dc_mna::components::independent_voltage_source::IVoltageSource;
use dc_mna::components::junction::Junction;
use dc_mna::components::resistor::Resistor;
use dc_mna::components::vc_current_source::VCCurrentSource;
use dc_mna::components::wire::Wire;
use dc_mna::rational::Rat;

#[test]
fn component_level_test() {
    assert!(true);
}

#[test]
fn resistor_creation() {
    let _ = Resistor::new(0, 1, Rat::from_int(1));
}

#[test]
fn independent_current_source_creation() {
    let _ = ICurrentSource::new(0, 1, Rat::from_int(12));
}

#[test]
fn independent_voltage_source_creation() {
    let _ = IVoltageSource::new(1, 1, 0, Rat::from_int(12));
}

#[test]
fn vc_current_source_creation() {
    let _ = VCCurrentSource::new(0, 1, 0, 1, Rat::from_int(12));
}

#[test]
fn cc_current_source_creation() {
    let _ = CCCurrentSource::new(1, 0, 1, Rat::from_int(12));
}

#[test]
fn cc_voltage_source_creation() {
    let _ = CCVoltageSource::new(0, 1, 0, 1, 0, 1, Rat::from_int(12));
}

#[test]
fn junction_creation() {
    let mut junk = Junction::new();
    junk.add_node(1, true);
    junk.add_node(2, false);
    junk.add_node(3, false);
}

#[test]
fn wire_creation() {
    let _ = Wire::new(1, 2);
}

#[test]
fn resistor_gmat_stamp_values() {
    let r = Resistor::new(1, 2, Rat::from_int(5));
    let stamps = r.get_gmat_stamps();
    assert_eq!(stamps.len(), 4);
    let g = Rat::new(1, 5).unwrap();
    let ng = Rat::new(-1, 5).unwrap();
    assert!(stamps[0].0 == 1 && stamps[0].1 == 1 && stamps[0].2 == g);
    assert!(stamps[1].0 == 2 && stamps[1].1 == 2 && stamps[1].2 == g);
    assert!(stamps[2].0 == 1 && stamps[2].1 == 2 && stamps[2].2 == ng);
    assert!(stamps[3].0 == 2 && stamps[3].1 == 1 && stamps[3].2 == ng);
}

#[test]
fn resistor_gmat_stamps_omit_ground() {
    let r = Resistor::new(1, 0, Rat::from_int(4));
    let stamps = r.get_gmat_stamps();
    assert_eq!(stamps.len(), 1);
    assert!(stamps[0].0 == 1 && stamps[0].1 == 1 && stamps[0].2 == Rat::new(1, 4).unwrap());
}

#[test]
fn voltage_source_incidence_stamps() {
    let vs = IVoltageSource::new(2, 3, 1, Rat::from_int(9));
    let b = vs.get_bmat_stamps();
    assert_eq!(b.len(), 2);
    assert!(b[0].0 == 3 && b[0].1 == 2 && b[0].2 == Rat::from_int(1));
    assert!(b[1].0 == 1 && b[1].1 == 2 && b[1].2 == Rat::from_int(-1));
    let c = vs.get_cmat_stamps();
    assert_eq!(c.len(), 2);
    assert!(c[0].0 == 2 && c[0].1 == 3 && c[0].2 == Rat::from_int(1));
    assert!(c[1].0 == 2 && c[1].1 == 1 && c[1].2 == Rat::from_int(-1));
    let z = vs.get_zmat_stamps();
    assert_eq!(z.len(), 1);
    assert!(z[0].0 == 2 && z[0].1 == 1 && z[0].2 == Rat::from_int(9));
}

#[test]
fn current_source_excitation_stamps() {
    let cs = ICurrentSource::new(1, 2, Rat::from_int(3));
    let z = cs.get_zmat_stamps();
    assert_eq!(z.len(), 2);
    assert!(z[0].0 == 1 && z[0].1 == 1 && z[0].2 == Rat::from_int(-3));
    assert!(z[1].0 == 2 && z[1].1 == 1 && z[1].2 == Rat::from_int(3));
}

#[test]
fn cccs_bmat_stamps_omit_ground() {
    let cccs = CCCurrentSource::new(2, 3, 0, Rat::from_int(2));
    let b = cccs.get_bmat_stamps();
    assert_eq!(b.len(), 1);
    assert!(b[0].0 == 3 && b[0].1 == 2 && b[0].2 == Rat::from_int(2));
}

#[test]
fn ccvs_dmat_stamp_is_gain() {
    let ccvs = CCVoltageSource::new(3, 2, 1, 2, 3, 0, Rat::new(7, 2).unwrap());
    let d = ccvs.get_dmat_stamps();
    assert_eq!(d.len(), 1);
    assert!(d[0].0 == 3 && d[0].1 == 2 && d[0].2 == Rat::new(7, 2).unwrap());
}
