use mantis::model::{Branch, BranchType, Bus, BusType, Generator, Load, Network, SwitchedShunt};
use mantis::text::strip_extras;

fn bus(id: usize, t: BusType) -> Bus {
    Bus::new(id, format!("BUS {}", id), t)
}

fn four_bus_network() -> Network {
    let mut net = Network::new(String::from("case"), 100_000_000_000, 60_000_000_000);
    net.buses.push(bus(1, BusType::Slack));
    net.buses.push(bus(2, BusType::PQ));
    net.buses.push(bus(3, BusType::PV));
    net.buses.push(bus(4, BusType::PQ));
    net
}

#[test]
fn constructors_fill_defaults() {
    let b = Bus::new(7, String::from("SEVEN"), BusType::PV);
    assert_eq!(b.bus_id, 7);
    assert!(b.bus_status);
    assert_eq!(b.voltage, 1_000_000_000);
    assert_eq!(b.v_min_operating, 900_000_000);
    let o = Bus::new(8, String::new(), BusType::OOS);
    assert!(!o.bus_status);
    let br = Branch::new(1, 1, 2, BranchType::Line, 10_000_000, 100_000_000);
    assert_eq!(br.tap_ratio, 1_000_000_000);
    assert!(br.branch_status);
    let g = Generator::new(1, 2, String::from("G1"));
    assert!(g.gen_status);
    assert_eq!(g.v_setpoint, 1_000_000_000);
    let l = Load::new(1, 2, String::from("L1"), 50_000_000_000, 0);
    assert_eq!(l.real_load, 50_000_000_000);
}

#[test]
fn rebuild_bus_map_numbers_non_slack_buses() {
    let mut net = four_bus_network();
    net.rebuild_bus_map();
    // Non-slack buses in insertion order: 2, 3, 4 -> 0, 1, 2.
    assert_eq!(net.bus_map.get(2), Some(0));
    assert_eq!(net.bus_map.get(3), Some(1));
    assert_eq!(net.bus_map.get(4), Some(2));
    assert_eq!(net.bus_map.get(1), None);
    assert_eq!(net.bus_map.len(), 3);
}

#[test]
fn rebuild_bus_map_is_idempotent_after_deletion() {
    let mut net = four_bus_network();
    net.rebuild_bus_map();
    // Delete bus 3 and rebuild: survivors get [0, k) with no gaps.
    net.buses.remove(2);
    net.rebuild_bus_map();
    let first = net.bus_map.pairs.clone();
    assert_eq!(net.bus_map.get(2), Some(0));
    assert_eq!(net.bus_map.get(4), Some(1));
    assert_eq!(net.bus_map.get(3), None);
    assert_eq!(net.bus_map.len(), 2);
    // A second rebuild produces an identical mapping.
    net.rebuild_bus_map();
    assert_eq!(net.bus_map.pairs, first);
}

#[test]
fn well_formedness_checks_ids_and_ranges() {
    let mut net = four_bus_network();
    assert!(net.is_well_formed());
    net.buses.push(bus(2, BusType::PQ));
    assert!(!net.is_well_formed(), "duplicate id must be rejected");
    net.buses.pop();
    net.branches
        .push(Branch::new(1, 1, 9, BranchType::Line, 0, 100_000_000));
    assert!(!net.is_well_formed(), "dangling branch end must be rejected");
    net.branches[0].to_bus = 2;
    assert!(net.is_well_formed());
    // A tiny non-zero reactance is below the representable window.
    net.branches[0].reactance = 10;
    assert!(!net.is_well_formed());
}

#[test]
fn switched_shunt_bank_sums() {
    let sw = SwitchedShunt {
        bus_id: 2,
        modsw: 1,
        status: true,
        v_hi: 1_050_000_000,
        v_lo: 950_000_000,
        remote_bus: 0,
        b_init: 0,
        steps: vec![(2, 50_000_000), (-3, 10_000_000), (4, -2_000_000)],
    };
    // Positive banks: 2 * 0.05 + 4 * (-0.002)
    assert_eq!(sw.b_max(), 2 * 50_000_000 + 4 * -2_000_000);
    // Negative banks: -3 * 0.01
    assert_eq!(sw.b_min(), -30_000_000);
}

#[test]
fn strip_extras_removes_quotes_and_blanks() {
    assert_eq!(strip_extras("  'BUS 1 '  "), "BUS 1");
    assert_eq!(strip_extras("plain"), "plain");
    assert_eq!(strip_extras("''"), "");
    assert_eq!(strip_extras("' '"), "");
    assert_eq!(strip_extras("  "), "");
    assert_eq!(strip_extras(""), "");
    assert_eq!(strip_extras("'a'b'"), "a'b");
    assert_eq!(strip_extras("\t'name'\n"), "name");
}
