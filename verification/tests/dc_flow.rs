use mantis::dc::DcSolution;
use mantis::model::{Branch, BranchType, Bus, BusType, Load, Network};

fn bus(id: usize, t: BusType) -> Bus {
    Bus::new(id, format!("BUS {}", id), t)
}

/// Run the DC approximation: the library builds the reduced system
/// and interprets the solved angles; the sparse LU itself runs here,
/// on the caller's side.
fn dc_approximation(net: &mut Network) -> Option<DcSolution> {
    net.rebuild_bus_map();
    assert!(net.is_well_formed());
    let sys = net.dc_system()?;
    let mut t = rsparse::data::Trpl::<f64>::new();
    t.m = sys.n;
    t.n = sys.n;
    for &(r, c, v) in sys.b_prime.entries.iter() {
        t.append(r, c, v as f64);
    }
    let sprs = t.to_sprs();
    let mut rhs: Vec<f64> = sys.p.iter().map(|&x| x as f64).collect();
    if rsparse::lusol(&sprs, &mut rhs, 0, 1e-6).is_err() {
        return None;
    }
    let theta: Vec<i64> = rhs.iter().map(|&th| (th * 1e9).round() as i64).collect();
    Some(net.dc_solution(&theta))
}

fn angle_of(sol: &DcSolution, bus_id: usize) -> i64 {
    sol.bus_angles
        .iter()
        .find(|&&(id, _)| id == bus_id)
        .map(|&(_, a)| a)
        .expect("bus angle present")
}

fn flow_of(sol: &DcSolution, branch_id: usize) -> Option<i64> {
    sol.branch_flows
        .iter()
        .find(|&&(id, _)| id == branch_id)
        .map(|&(_, f)| f)
}

fn two_bus_network() -> Network {
    let mut net = Network::new(String::from("two bus"), 100_000_000_000, 60_000_000_000);
    net.buses.push(bus(1, BusType::Slack));
    net.buses.push(bus(2, BusType::PQ));
    net.branches
        .push(Branch::new(1, 1, 2, BranchType::Line, 0, 100_000_000));
    net.loads
        .push(Load::new(1, 2, String::from("L2"), 50_000_000_000, 0));
    net
}

#[test]
fn two_bus_dc_case() {
    let mut net = two_bus_network();
    let sol = dc_approximation(&mut net).expect("solvable");
    // Slack angle is exactly zero.
    assert_eq!(angle_of(&sol, 1), 0);
    // theta2 = -0.05 rad = -2.8648 degrees; the branch feeds the
    // load with 50 MW from-to.
    assert_eq!(angle_of(&sol, 2), -2_864_788_975);
    assert_eq!(flow_of(&sol, 1), Some(50_000_000_000));
}

#[test]
fn three_bus_chain_dc_case() {
    let mut net = Network::new(String::from("chain"), 100_000_000_000, 60_000_000_000);
    net.buses.push(bus(1, BusType::Slack));
    net.buses.push(bus(2, BusType::PQ));
    net.buses.push(bus(3, BusType::PQ));
    net.branches
        .push(Branch::new(1, 1, 2, BranchType::Line, 0, 100_000_000));
    net.branches
        .push(Branch::new(2, 2, 3, BranchType::Line, 0, 200_000_000));
    net.loads
        .push(Load::new(1, 2, String::from("L2"), 20_000_000_000, 0));
    net.loads
        .push(Load::new(2, 3, String::from("L3"), 30_000_000_000, 0));
    let sol = dc_approximation(&mut net).expect("solvable");
    // theta2 = -0.05 rad, theta3 = -0.11 rad; the chain carries
    // 50 MW and 30 MW from-to.
    let tol = 1_000;
    assert!((angle_of(&sol, 2) - -2_864_788_975).abs() <= tol);
    assert!((angle_of(&sol, 3) - -6_302_535_746).abs() <= tol);
    assert!((flow_of(&sol, 1).unwrap() - 50_000_000_000).abs() <= tol);
    assert!((flow_of(&sol, 2).unwrap() - 30_000_000_000).abs() <= tol);
}

#[test]
fn dc_flows_balance_injections() {
    // At every non-slack bus the arriving branch flows equal the
    // net scheduled injection.
    let mut net = Network::new(String::from("chain"), 100_000_000_000, 60_000_000_000);
    net.buses.push(bus(1, BusType::Slack));
    net.buses.push(bus(2, BusType::PQ));
    net.buses.push(bus(3, BusType::PQ));
    net.branches
        .push(Branch::new(1, 1, 2, BranchType::Line, 0, 100_000_000));
    net.branches
        .push(Branch::new(2, 2, 3, BranchType::Line, 0, 200_000_000));
    net.loads
        .push(Load::new(1, 2, String::from("L2"), 20_000_000_000, 0));
    net.loads
        .push(Load::new(2, 3, String::from("L3"), 30_000_000_000, 0));
    let sol = dc_approximation(&mut net).expect("solvable");
    for &(bus_id, load_mw) in [(2usize, 20_000_000_000i64), (3, 30_000_000_000)].iter() {
        let mut leaving: i64 = 0;
        for br in net.branches.iter() {
            let f = flow_of(&sol, br.id).unwrap();
            if br.from_bus == bus_id {
                leaving += f;
            }
            if br.to_bus == bus_id {
                leaving -= f;
            }
        }
        // Net injection is -load.
        assert!(
            (leaving - -load_mw).abs() <= 2_000,
            "bus {}: leaving {} vs injection {}",
            bus_id,
            leaving,
            -load_mw
        );
    }
}

#[test]
fn out_of_service_and_zero_reactance_branches_are_skipped() {
    let mut net = two_bus_network();
    // An out-of-service branch and a zero-reactance branch between
    // the same buses change nothing and get no flow record.
    let mut off = Branch::new(2, 1, 2, BranchType::Line, 0, 200_000_000);
    off.branch_status = false;
    net.branches.push(off);
    net.branches
        .push(Branch::new(3, 1, 2, BranchType::Line, 5_000_000, 0));
    let sol = dc_approximation(&mut net).expect("solvable");
    assert_eq!(angle_of(&sol, 2), -2_864_788_975);
    assert_eq!(flow_of(&sol, 2), None);
    assert_eq!(flow_of(&sol, 3), None);
    assert_eq!(sol.branch_flows.len(), 1);
}

#[test]
fn dc_without_non_slack_buses_has_no_system() {
    let mut net = Network::new(String::from("slack only"), 100_000_000_000, 60_000_000_000);
    net.buses.push(bus(1, BusType::Slack));
    net.rebuild_bus_map();
    assert!(net.is_well_formed());
    assert!(net.dc_system().is_none());
}

#[test]
fn bprime_is_symmetric() {
    let mut net = Network::new(String::from("mesh"), 100_000_000_000, 60_000_000_000);
    net.buses.push(bus(1, BusType::Slack));
    net.buses.push(bus(2, BusType::PQ));
    net.buses.push(bus(3, BusType::PQ));
    net.buses.push(bus(4, BusType::PV));
    net.branches
        .push(Branch::new(1, 1, 2, BranchType::Line, 0, 100_000_000));
    net.branches
        .push(Branch::new(2, 2, 3, BranchType::Line, 0, 200_000_000));
    net.branches
        .push(Branch::new(3, 3, 4, BranchType::Line, 0, 250_000_000));
    net.branches
        .push(Branch::new(4, 4, 2, BranchType::Line, 0, 500_000_000));
    net.rebuild_bus_map();
    assert!(net.is_well_formed());
    let sys = net.dc_system().expect("system");
    let n = sys.n;
    let mut dense = vec![0i64; n * n];
    for &(r, c, v) in sys.b_prime.entries.iter() {
        dense[r * n + c] += v;
    }
    for i in 0..n {
        for j in 0..n {
            assert_eq!(dense[i * n + j], dense[j * n + i]);
        }
    }
}

#[test]
fn dc_with_an_isolated_bus_is_singular() {
    // Bus 3 has no branch, so its row of the reduced system is all
    // zero and the LU factorisation fails.
    let mut net = two_bus_network();
    net.buses.push(bus(3, BusType::PQ));
    assert!(dc_approximation(&mut net).is_none());
}

#[test]
fn generation_offsets_load_in_the_injection_vector() {
    let mut net = two_bus_network();
    // 20 MW of in-service generation and 15 MW of out-of-service
    // generation at bus 2: the net injection is 20 - 50 = -30 MW.
    let mut g1 = mantis::model::Generator::new(1, 2, String::from("G1"));
    g1.p_gen = 20_000_000_000;
    let mut g2 = mantis::model::Generator::new(2, 2, String::from("G2"));
    g2.p_gen = 15_000_000_000;
    g2.gen_status = false;
    net.generators.push(g1);
    net.generators.push(g2);
    net.rebuild_bus_map();
    assert!(net.is_well_formed());
    let sys = net.dc_system().expect("system");
    assert_eq!(sys.p, vec![-300_000_000]);
    let sol = dc_approximation(&mut net).expect("solvable");
    assert_eq!(flow_of(&sol, 1), Some(30_000_000_000));
}

#[test]
fn well_formedness_rejects_a_base_outside_the_window() {
    let mut net = two_bus_network();
    net.s_base = 500_000_000;
    assert!(!net.is_well_formed());
    net.s_base = 100_000_000_000;
    assert!(net.is_well_formed());
}
