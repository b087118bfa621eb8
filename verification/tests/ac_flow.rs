use mantis::model::{Branch, BranchType, Bus, BusType, FixedShunt, Load, Network};
use mantis::nr::{
    nr_converged, nr_jacobian, nr_mismatch, nr_power_balance, solve_step, AcSolution, SolveEvent,
    SolveState, TrigTable,
};

fn bus(id: usize, t: BusType) -> Bus {
    Bus::new(id, format!("BUS {}", id), t)
}

fn trig_for(n: usize, delta: &[i64]) -> TrigTable {
    let mut cos_t: Vec<i64> = Vec::with_capacity(n * n);
    let mut sin_t: Vec<i64> = Vec::with_capacity(n * n);
    for i in 0..n {
        for k in 0..n {
            let d = (delta[i] - delta[k]) as f64 / 1e9;
            cos_t.push((d.cos() * 1e9).round() as i64);
            sin_t.push((d.sin() * 1e9).round() as i64);
        }
    }
    TrigTable::new(n, cos_t, sin_t).expect("trig table in range")
}

/// Run the Newton-Raphson iteration: the library validates, builds
/// the problem, assembles mismatch and Jacobian, and applies
/// updates; trigonometry and the dense solve run here, on the
/// caller's side.  Returns the solution, the iterations used, and
/// the final largest mismatch entry magnitude.
fn newton_raphson(net: &Network) -> (AcSolution, usize, i64) {
    assert!(net.is_well_formed());
    let slack_id = match net.nr_validate() {
        Ok(id) => id,
        Err(sol) => return (sol, 0, 0),
    };
    let prob = match net.nr_problem(slack_id) {
        Ok(p) => p,
        Err(_) => {
            return (
                net.nr_failed_solution("Admittance entry outside the representable range."),
                0,
                0,
            )
        }
    };
    let mut st = net.nr_initial_state();
    let mut log: Vec<String> = Vec::new();
    log.push(String::from("Starting Newton-Raphson power flow solution."));
    let mut state = solve_step(SolveState::Initialising, SolveEvent::ValidSlack);
    assert_eq!(state, SolveState::Iterating);
    let nt = prob.n_ns + prob.n_pq;
    for iter in 0..mantis::nr::MAX_ITERS {
        let tr = trig_for(prob.n_bus, &st.delta);
        let mm = nr_mismatch(&prob, &st, &tr);
        let jac = nr_jacobian(&prob, &st, &tr);
        let a = nalgebra::DMatrix::from_fn(nt, nt, |r, c| jac[r * nt + c] as f64);
        let rhs = nalgebra::DVector::from_fn(nt, |r, _| mm[r] as f64);
        let x = match a.try_inverse() {
            Some(inv) => inv * rhs,
            None => {
                state = solve_step(state, SolveEvent::SolveFailed);
                assert_eq!(state, SolveState::SingularJacobian);
                return (
                    net.nr_failed_solution("Jacobian is singular, cannot solve for corrections."),
                    iter,
                    0,
                );
            }
        };
        let xc: Vec<i64> = x.iter().map(|&v| (v * 1e9).round() as i64).collect();
        if xc.iter().any(|&v| v.abs() > mantis::nr::CORR_LIM) {
            state = solve_step(state, SolveEvent::IterationCapExhausted);
            return (net.nr_failed_solution("Correction out of range."), iter, 0);
        }
        let maxc = match net.nr_apply_update(&mut st, &xc) {
            Some(m) => m,
            None => {
                state = solve_step(state, SolveEvent::IterationCapExhausted);
                return (net.nr_failed_solution("State left the voltage window."), iter, 0);
            }
        };
        if nr_converged(maxc) {
            state = solve_step(state, SolveEvent::CorrectionBelowTolerance);
            assert_eq!(state, SolveState::Converged);
            log.push(format!("Newton-Raphson converged in {} iterations.", iter + 1));
            let tr2 = trig_for(prob.n_bus, &st.delta);
            let worst = nr_power_balance(&prob, &st, &tr2);
            return (net.nr_solution(&st, log), iter + 1, worst);
        }
        state = solve_step(state, SolveEvent::IterationContinues);
    }
    state = solve_step(state, SolveEvent::IterationCapExhausted);
    assert_eq!(state, SolveState::Diverged);
    (
        net.nr_failed_solution("Newton-Raphson failed to converge."),
        mantis::nr::MAX_ITERS,
        0,
    )
}

fn two_bus_ac_network() -> Network {
    let mut net = Network::new(String::from("two bus ac"), 100_000_000_000, 60_000_000_000);
    net.buses.push(bus(1, BusType::Slack));
    net.buses.push(bus(2, BusType::PQ));
    net.branches
        .push(Branch::new(1, 1, 2, BranchType::Line, 10_000_000, 100_000_000));
    net.loads.push(Load::new(
        1,
        2,
        String::from("L2"),
        30_000_000_000,
        10_000_000_000,
    ));
    net
}

fn value_of(list: &[(usize, i64)], bus_id: usize) -> i64 {
    list.iter()
        .find(|&&(id, _)| id == bus_id)
        .map(|&(_, v)| v)
        .expect("entry present")
}

#[test]
fn two_bus_newton_raphson_flat_start() {
    let net = two_bus_ac_network();
    let (sol, iters, worst_mismatch) = newton_raphson(&net);
    assert!(
        !sol.bus_voltages.is_empty(),
        "expected convergence, log: {:?}",
        sol.log
    );
    assert!(iters <= 5, "took {} iterations", iters);
    // The fixed point of this case: V2 ~ 0.98639 pu, angle
    // ~ -1.6847 degrees.
    let v2 = value_of(&sol.bus_voltages, 2);
    assert!((v2 - 986_388_000).abs() < 2_000_000, "V2 = {}", v2);
    let a2 = value_of(&sol.bus_angles, 2);
    assert!((a2 - -1_684_700_000).abs() < 10_000_000, "angle2 = {}", a2);
    // Converged power balance: worst mismatch within the tolerance.
    assert!(worst_mismatch <= 1_000, "mismatch {}", worst_mismatch);
}

#[test]
fn slack_bus_reports_flat_voltage_and_zero_angle() {
    let net = two_bus_ac_network();
    let (sol, _, _) = newton_raphson(&net);
    assert_eq!(value_of(&sol.bus_voltages, 1), 1_000_000_000);
    assert_eq!(value_of(&sol.bus_angles, 1), 0);
}

#[test]
fn multiple_slack_buses_are_rejected() {
    let mut net = two_bus_ac_network();
    net.buses.push(bus(3, BusType::Slack));
    let (sol, _, _) = newton_raphson(&net);
    assert!(sol.bus_voltages.is_empty());
    assert!(sol.bus_angles.is_empty());
    assert!(sol.log.iter().any(|l| l.contains("Multiple slack")));
}

#[test]
fn missing_slack_bus_is_rejected() {
    let mut net = two_bus_ac_network();
    net.buses[0].bus_type = BusType::PV;
    let (sol, _, _) = newton_raphson(&net);
    assert!(sol.bus_voltages.is_empty());
    assert!(sol.log.iter().any(|l| l.contains("No slack")));
}

#[test]
fn empty_network_is_rejected() {
    let net = Network::new(String::from("empty"), 100_000_000_000, 60_000_000_000);
    let (sol, _, _) = newton_raphson(&net);
    assert!(sol.bus_voltages.is_empty());
    assert!(sol.log.iter().any(|l| l.contains("No buses")));
}

#[test]
fn ybus_is_symmetric_with_shunts() {
    let mut net = two_bus_ac_network();
    net.branches[0].from_shunt_susceptance = 5_000_000;
    net.branches[0].to_shunt_susceptance = 5_000_000;
    net.branches[0].from_shunt_conductance = 7_000_000;
    net.fixed_shunts.push(FixedShunt {
        bus_id: 2,
        shunt_id: String::from("1"),
        status: true,
        gl: 1_000_000_000,
        bl: 20_000_000_000,
    });
    assert!(net.is_well_formed());
    let y = net.build_ybus().expect("ybus");
    let n = y.n;
    for i in 0..n {
        for k in 0..n {
            assert_eq!(y.g[i * n + k], y.g[k * n + i]);
            assert_eq!(y.b[i * n + k], y.b[k * n + i]);
        }
    }
    // The fixed shunt lands on its bus diagonal — BL / S_base adds
    // 0.2 pu to B[1,1] and GL / S_base adds 0.01 pu to G[1,1] — and
    // the from-end shunt conductance adds 0.007 pu to G[0,0].
    let mut without = two_bus_ac_network();
    without.branches[0].from_shunt_susceptance = 5_000_000;
    without.branches[0].to_shunt_susceptance = 5_000_000;
    let y0 = without.build_ybus().expect("ybus");
    assert_eq!(y.b[1 * n + 1] - y0.b[1 * n + 1], 200_000_000);
    assert_eq!(y.g[1 * n + 1] - y0.g[1 * n + 1], 10_000_000);
    assert_eq!(y.g[0 * n + 0] - y0.g[0 * n + 0], 7_000_000);
}

#[test]
fn trig_table_rejects_out_of_range_values() {
    assert!(TrigTable::new(1, vec![1_000_000_000], vec![0]).is_some());
    assert!(TrigTable::new(1, vec![1_000_000_001], vec![0]).is_none());
    assert!(TrigTable::new(1, vec![0], vec![0, 0]).is_none());
}

#[test]
fn update_walk_applies_interleaved_slots() {
    let net = two_bus_ac_network();
    let mut st = net.nr_initial_state();
    assert_eq!(st.v, vec![1_000_000_000, 1_000_000_000]);
    assert_eq!(st.delta, vec![0, 0]);
    // One non-slack PQ bus: slot 0 is its angle, slot 1 its
    // relative voltage correction.
    let x = vec![3_000_000i64, -1_000_000i64];
    let maxc = net.nr_apply_update(&mut st, &x).expect("in range");
    assert_eq!(maxc, 3_000_000);
    assert_eq!(st.delta, vec![0, 3_000_000]);
    assert_eq!(st.v, vec![1_000_000_000, 999_000_000]);
}

#[test]
fn update_walk_refuses_a_voltage_outside_the_window() {
    let net = two_bus_ac_network();
    let mut st = net.nr_initial_state();
    let v_before = st.v.clone();
    // A -0.9 relative correction drives V2 to 0.1 pu, below the
    // window floor.
    let x = vec![0i64, -900_000_000i64];
    assert!(net.nr_apply_update(&mut st, &x).is_none());
    assert_eq!(st.v, v_before);
}

#[test]
fn solve_state_machine_transitions() {
    assert_eq!(
        solve_step(SolveState::Initialising, SolveEvent::ValidSlack),
        SolveState::Iterating
    );
    assert_eq!(
        solve_step(SolveState::Initialising, SolveEvent::InvalidInput),
        SolveState::InputInvalid
    );
    assert_eq!(
        solve_step(SolveState::Iterating, SolveEvent::IterationContinues),
        SolveState::Iterating
    );
    assert_eq!(
        solve_step(SolveState::Iterating, SolveEvent::CorrectionBelowTolerance),
        SolveState::Converged
    );
    assert_eq!(
        solve_step(SolveState::Iterating, SolveEvent::SolveFailed),
        SolveState::SingularJacobian
    );
    assert_eq!(
        solve_step(SolveState::Iterating, SolveEvent::IterationCapExhausted),
        SolveState::Diverged
    );
    // Failure states are terminal.
    assert_eq!(
        solve_step(SolveState::SingularJacobian, SolveEvent::ValidSlack),
        SolveState::SingularJacobian
    );
    assert_eq!(
        solve_step(SolveState::Diverged, SolveEvent::CorrectionBelowTolerance),
        SolveState::Diverged
    );
    assert_eq!(
        solve_step(SolveState::InputInvalid, SolveEvent::ValidSlack),
        SolveState::InputInvalid
    );
    assert_eq!(
        solve_step(SolveState::Converged, SolveEvent::IterationContinues),
        SolveState::Converged
    );
}

#[test]
fn decoupled_solver_reports_an_empty_solution() {
    let net = two_bus_ac_network();
    let sol = net.decoupled().expect("stub result");
    assert!(sol.bus_voltages.is_empty());
    assert!(sol.bus_angles.is_empty());
    assert!(sol.log.is_empty());
}

#[test]
fn isolated_bus_gives_a_singular_jacobian() {
    let mut net = two_bus_ac_network();
    net.buses.push(bus(3, BusType::PQ));
    let (sol, _, _) = newton_raphson(&net);
    assert!(sol.bus_voltages.is_empty());
    assert!(sol.log.iter().any(|l| l.contains("singular")));
}

#[test]
fn an_unservable_load_does_not_converge() {
    // 10 GW over a 0.1 pu line on a 100 MVA base has no power-flow
    // solution; the iteration must fail rather than report one.
    let mut net = two_bus_ac_network();
    net.loads[0].real_load = 10_000_000_000_000;
    let (sol, _, _) = newton_raphson(&net);
    assert!(sol.bus_voltages.is_empty());
    assert!(sol.bus_angles.is_empty());
}

#[test]
fn pv_bus_keeps_its_voltage_and_balances_power() {
    let mut net = Network::new(String::from("three bus ac"), 100_000_000_000, 60_000_000_000);
    net.buses.push(bus(1, BusType::Slack));
    net.buses.push(bus(2, BusType::PV));
    net.buses.push(bus(3, BusType::PQ));
    // The buses couple mostly through the slack: the off-diagonal
    // angle derivatives of this Jacobian formulation are small, and
    // the iteration settles.
    net.branches
        .push(Branch::new(1, 1, 2, BranchType::Line, 10_000_000, 100_000_000));
    net.branches
        .push(Branch::new(2, 1, 3, BranchType::Line, 10_000_000, 100_000_000));
    net.branches
        .push(Branch::new(3, 2, 3, BranchType::Line, 0, 1_000_000_000));
    // Two in-service machines and one out-of-service machine on the
    // PV bus: scheduled power sums the in-service ones only.
    let mut g1 = mantis::model::Generator::new(1, 2, String::from("G1"));
    g1.p_gen = 6_000_000_000;
    let mut g2 = mantis::model::Generator::new(2, 2, String::from("G2"));
    g2.p_gen = 4_000_000_000;
    let mut g3 = mantis::model::Generator::new(3, 2, String::from("G3"));
    g3.p_gen = 500_000_000_000;
    g3.gen_status = false;
    net.generators.push(g1);
    net.generators.push(g2);
    net.generators.push(g3);
    net.loads.push(Load::new(
        1,
        3,
        String::from("L3"),
        20_000_000_000,
        5_000_000_000,
    ));
    let (sol, iters, worst_mismatch) = newton_raphson(&net);
    assert!(
        !sol.bus_voltages.is_empty(),
        "expected convergence, log: {:?}",
        sol.log
    );
    assert!(iters <= 20, "took {} iterations", iters);
    // The update walk never touches a PV bus's voltage magnitude.
    assert_eq!(value_of(&sol.bus_voltages, 2), 1_000_000_000);
    // Slack stays pinned.
    assert_eq!(value_of(&sol.bus_voltages, 1), 1_000_000_000);
    assert_eq!(value_of(&sol.bus_angles, 1), 0);
    // Scheduled-versus-calculated power balances at convergence.
    assert!(worst_mismatch <= 1_000, "mismatch {}", worst_mismatch);
}
