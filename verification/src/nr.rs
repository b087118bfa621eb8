//! Newton-Raphson AC load flow.
//!
//! The iteration state is the per-bus voltage magnitude and angle;
//! each round compares the calculated injections against the
//! scheduled ones, assembles the block Jacobian, and applies the
//! correction the linear solve produced.  The two steps that need
//! floating point — the evaluation of sine and cosine of the angle
//! differences and the dense linear solve — are the caller's: it
//! hands a `TrigTable` and the solved correction vector back, and
//! everything around them is verified.  The caller's loop is bounded
//! by `MAX_ITERS` and stops when the correction norm falls under
//! `NR_TOLERANCE`.

use vstd::prelude::*;
use vstd::string::StringExecFns;

use crate::dc::{gen_inj, lemma_gen_inj_bound, lemma_load_inj_bound, load_inj};
use crate::fixed::{
    fx_div, fx_mul, fxdiv, iabs, lemma_fx_div_bound, lemma_fx_div_fits, DEG_TO_RAD, UNIT,
};
use crate::index::{
    all_sel, build_index, build_positions, full_map_of, is_nonslack, is_pq, lemma_idx_map_image,
    lemma_sel_all_count, lemma_sel_pairs_distinct, lemma_sel_pos_props, nonslack_sel, ns_total,
    pq_sel, pq_total, sel_pos, BusSel,
};
use crate::model::{
    Bus, BusType, Generator, Load, Network, N_BUS_MAX, N_DEV_MAX, QTY_LIM, SBASE_MIN, V_HI, V_LO,
};
use crate::ybus::{lemma_contains_from_has_id, ybus_b_cell, ybus_g_cell, YBus, YbusError};

verus! {


/// Magnitude cap on a scheduled power entry.
pub const SCHED_LIM: i64 = 2_000_000_000_000_000_000;

/// Scheduled reactive generation arriving at full index `idx`.
pub open spec fn gen_inj_q(gens: Seq<Generator>, m: Map<int, int>, sbase: int, idx: int) -> int
    decreases gens.len(),
{
    if gens.len() == 0 {
        0
    } else {
        let g = gens.last();
        gen_inj_q(gens.drop_last(), m, sbase, idx) + if g.gen_status && m.contains_key(
            g.gen_bus_id as int,
        ) && m[g.gen_bus_id as int] == idx {
            fx_div(g.q_gen as int, sbase)
        } else {
            0
        }
    }
}

/// Reactive load drawn at full index `idx`.
pub open spec fn load_inj_q(loads: Seq<Load>, m: Map<int, int>, sbase: int, idx: int) -> int
    decreases loads.len(),
{
    if loads.len() == 0 {
        0
    } else {
        let l = loads.last();
        load_inj_q(loads.drop_last(), m, sbase, idx) + if m.contains_key(l.bus_id as int)
            && m[l.bus_id as int] == idx {
            fx_div(l.imag_load as int, sbase)
        } else {
            0
        }
    }
}

proof fn lemma_gen_inj_q_bound(gens: Seq<Generator>, m: Map<int, int>, sbase: int, idx: int)
    requires
        SBASE_MIN as int <= sbase,
        forall|k: int| 0 <= k < gens.len() ==> iabs((#[trigger] gens[k]).q_gen as int) <= QTY_LIM as int,
    ensures
        iabs(gen_inj_q(gens, m, sbase, idx)) <= gens.len() * (QTY_LIM as int),
    decreases gens.len(),
{
    if gens.len() > 0 {
        lemma_gen_inj_q_bound(gens.drop_last(), m, sbase, idx);
        lemma_fx_div_bound(gens.last().q_gen as int, sbase, QTY_LIM as int, SBASE_MIN as int);
    }
}

proof fn lemma_load_inj_q_bound(loads: Seq<Load>, m: Map<int, int>, sbase: int, idx: int)
    requires
        SBASE_MIN as int <= sbase,
        forall|k: int|
            0 <= k < loads.len() ==> iabs((#[trigger] loads[k]).imag_load as int) <= QTY_LIM as int,
    ensures
        iabs(load_inj_q(loads, m, sbase, idx)) <= loads.len() * (QTY_LIM as int),
    decreases loads.len(),
{
    if loads.len() > 0 {
        lemma_load_inj_q_bound(loads.drop_last(), m, sbase, idx);
        lemma_fx_div_bound(loads.last().imag_load as int, sbase, QTY_LIM as int, SBASE_MIN as int);
    }
}

/// Net scheduled active power at full index `idx`, in pu counts.
pub open spec fn p_sched_at(net: Network, idx: int) -> int {
    gen_inj(net.generators@, full_map_of(net.buses@), net.s_base as int, idx) - load_inj(
        net.loads@,
        full_map_of(net.buses@),
        net.s_base as int,
        idx,
    )
}

/// Net scheduled reactive power at full index `idx`, in pu counts.
pub open spec fn q_sched_at(net: Network, idx: int) -> int {
    gen_inj_q(net.generators@, full_map_of(net.buses@), net.s_base as int, idx) - load_inj_q(
        net.loads@,
        full_map_of(net.buses@),
        net.s_base as int,
        idx,
    )
}

/// Everything one solve derives from the network before iterating:
/// index tables, scheduled power, and the admittance matrix.
#[derive(Debug, Clone)]
pub struct NrProblem {
    pub slack_bus_id: usize,
    pub n_bus: usize,
    pub n_ns: usize,
    pub n_pq: usize,
    /// Positions of the non-slack buses, in insertion order.
    pub ns_pos: Vec<usize>,
    /// Positions of the PQ buses, in insertion order.
    pub pq_pos: Vec<usize>,
    /// Scheduled active power per bus position.
    pub p_sched: Vec<i64>,
    /// Scheduled reactive power per bus position.
    pub q_sched: Vec<i64>,
    pub ybus: YBus,
}

/// The problem record matches the network it was derived from.
pub open spec fn nr_problem_ok(net: Network, prob: NrProblem) -> bool {
    &&& prob.n_bus == net.buses@.len()
    &&& prob.n_ns as int == ns_total(net.buses@)
    &&& prob.n_pq as int == pq_total(net.buses@)
    &&& prob.ns_pos@.len() == prob.n_ns
    &&& forall|s: int|
        0 <= s < prob.ns_pos@.len() ==> (#[trigger] prob.ns_pos@[s]) as int == sel_pos(
            net.buses@,
            nonslack_sel(),
        )[s]
    &&& prob.pq_pos@.len() == prob.n_pq
    &&& forall|s: int|
        0 <= s < prob.pq_pos@.len() ==> (#[trigger] prob.pq_pos@[s]) as int == sel_pos(
            net.buses@,
            pq_sel(),
        )[s]
    &&& prob.p_sched@.len() == prob.n_bus
    &&& forall|i: int|
        0 <= i < prob.p_sched@.len() ==> (#[trigger] prob.p_sched@[i]) as int == p_sched_at(net, i)
    &&& forall|i: int|
        0 <= i < prob.p_sched@.len() ==> iabs((#[trigger] prob.p_sched@[i]) as int)
            <= SCHED_LIM as int
    &&& prob.q_sched@.len() == prob.n_bus
    &&& forall|i: int|
        0 <= i < prob.q_sched@.len() ==> (#[trigger] prob.q_sched@[i]) as int == q_sched_at(net, i)
    &&& forall|i: int|
        0 <= i < prob.q_sched@.len() ==> iabs((#[trigger] prob.q_sched@[i]) as int)
            <= SCHED_LIM as int
    &&& prob.ybus.wf()
    &&& prob.ybus.n == prob.n_bus
    &&& forall|i: int, k: int|
        0 <= i < prob.n_bus && 0 <= k < prob.n_bus ==> #[trigger] prob.ybus.g_at(i, k)
            == ybus_g_cell(net, i, k)
    &&& forall|i: int, k: int|
        0 <= i < prob.n_bus && 0 <= k < prob.n_bus ==> #[trigger] prob.ybus.b_at(i, k)
            == ybus_b_cell(net, i, k)
}

/// Iteration cap of the Newton-Raphson loop.
pub const MAX_ITERS: usize = 100;

/// Magnitude cap on one correction component the update accepts:
/// 10 pu (or radians).  A larger correction means divergence.
pub const CORR_LIM: i64 = 10_000_000_000;

/// Magnitude cap on an accumulated bus angle: 2000 radians, beyond
/// any converging iteration.
pub const DELTA_LIM: i64 = 2_000_000_000_000;

/// AC solution record: per-bus voltage magnitudes (pu counts) and
/// angles (degree counts) in insertion order, and the diagnostic
/// log.  On failure the value lists are empty.
#[derive(Debug)]
pub struct AcSolution {
    pub bus_voltages: Vec<(usize, i64)>,
    pub bus_angles: Vec<(usize, i64)>,
    pub log: Vec<String>,
}

/// Number of slack buses in the list.
pub open spec fn slack_count(buses: Seq<Bus>) -> int
    decreases buses.len(),
{
    if buses.len() == 0 {
        0
    } else {
        slack_count(buses.drop_last()) + if buses.last().bus_type == BusType::Slack {
            1int
        } else {
            0
        }
    }
}

/// Outcome of the slack-bus scan.
#[derive(Clone, Copy, Debug, PartialEq, Eq, Structural)]
pub enum SlackCheck {
    /// Exactly one slack bus, with this id.
    One(usize),
    /// No slack bus.
    Missing,
    /// More than one slack bus.
    Multiple,
}

/// The Newton-Raphson state machine of one solve call.
#[derive(Clone, Copy, Debug, PartialEq, Eq, Structural)]
pub enum SolveState {
    Initialising,
    Iterating,
    Converged,
    Diverged,
    SingularJacobian,
    InputInvalid,
}

/// What the driver observed since the last transition.
#[derive(Clone, Copy, Debug, PartialEq, Eq, Structural)]
pub enum SolveEvent {
    /// Validation found exactly one slack bus.
    ValidSlack,
    /// Validation failed (no slack, several, or no buses).
    InvalidInput,
    /// The correction norm fell below the tolerance.
    CorrectionBelowTolerance,
    /// The linear solve failed (singular Jacobian).
    SolveFailed,
    /// The iteration cap was reached without convergence.
    IterationCapExhausted,
    /// One more iteration was applied without convergence.
    IterationContinues,
}

/// The transition relation: failures are terminal for the call.
pub open spec fn solve_transition(s: SolveState, ev: SolveEvent) -> SolveState {
    match s {
        SolveState::Initialising => match ev {
            SolveEvent::ValidSlack => SolveState::Iterating,
            SolveEvent::InvalidInput => SolveState::InputInvalid,
            _ => SolveState::Initialising,
        },
        SolveState::Iterating => match ev {
            SolveEvent::CorrectionBelowTolerance => SolveState::Converged,
            SolveEvent::SolveFailed => SolveState::SingularJacobian,
            SolveEvent::IterationCapExhausted => SolveState::Diverged,
            SolveEvent::IterationContinues => SolveState::Iterating,
            _ => SolveState::Iterating,
        },
        _ => s,
    }
}

/// Step the solve state machine.
pub fn solve_step(s: SolveState, ev: SolveEvent) -> (r: SolveState)
    ensures
        r == solve_transition(s, ev),
        (s == SolveState::Converged || s == SolveState::Diverged || s
            == SolveState::SingularJacobian || s == SolveState::InputInvalid) ==> r == s,
{
    match s {
        SolveState::Initialising => match ev {
            SolveEvent::ValidSlack => SolveState::Iterating,
            SolveEvent::InvalidInput => SolveState::InputInvalid,
            _ => SolveState::Initialising,
        },
        SolveState::Iterating => match ev {
            SolveEvent::CorrectionBelowTolerance => SolveState::Converged,
            SolveEvent::SolveFailed => SolveState::SingularJacobian,
            SolveEvent::IterationCapExhausted => SolveState::Diverged,
            SolveEvent::IterationContinues => SolveState::Iterating,
            _ => SolveState::Iterating,
        },
        _ => s,
    }
}

/// Whether a correction norm meets the convergence tolerance.
pub fn nr_converged(max_corr: i64) -> (r: bool)
    ensures
        r == (max_corr < crate::NR_TOLERANCE),
{
    max_corr < crate::NR_TOLERANCE
}

/// Per-iteration voltage state: magnitude (pu counts) and angle
/// (radian counts) per bus position.
#[derive(Debug, Clone)]
pub struct NrState {
    pub v: Vec<i64>,
    pub delta: Vec<i64>,
}

/// The state shape and bounds every iteration preserves: voltages
/// inside the representable window, angles bounded, and the slack
/// bus pinned at V = 1, angle = 0.
pub open spec fn state_ok(buses: Seq<Bus>, st: NrState) -> bool {
    &&& st.v@.len() == buses.len()
    &&& st.delta@.len() == buses.len()
    &&& forall|k: int| 0 <= k < buses.len() ==> V_LO <= (#[trigger] st.v@[k]) <= V_HI
    &&& forall|k: int| 0 <= k < buses.len() ==> iabs((#[trigger] st.delta@[k]) as int) <= DELTA_LIM as int
    &&& forall|k: int|
        0 <= k < buses.len() ==> ((#[trigger] buses[k]).bus_type == BusType::Slack ==> st.v@[k]
            == UNIT && st.delta@[k] == 0)
}

/// Cosine and sine of every angle difference delta_i - delta_k, as
/// pu counts, row-major over bus position pairs.  The caller
/// computes it from the state between iterations; the table is only
/// accepted when every entry lies in [-1, 1].
#[derive(Debug, Clone)]
pub struct TrigTable {
    pub cos_t: Vec<i64>,
    pub sin_t: Vec<i64>,
}

impl TrigTable {
    /// Shape and range for an n-bus system.
    pub open spec fn wf(self, n: int) -> bool {
        &&& self.cos_t@.len() == n * n
        &&& self.sin_t@.len() == n * n
        &&& forall|p: int| 0 <= p < self.cos_t@.len() ==> iabs((#[trigger] self.cos_t@[p]) as int) <= UNIT as int
        &&& forall|p: int| 0 <= p < self.sin_t@.len() ==> iabs((#[trigger] self.sin_t@[p]) as int) <= UNIT as int
    }

    /// Accept a table: `Some` exactly when the shape is n-by-n twice
    /// and every entry's magnitude is at most one pu.
    pub fn new(n: usize, cos_t: Vec<i64>, sin_t: Vec<i64>) -> (r: Option<TrigTable>)
        requires
            n <= N_BUS_MAX,
        ensures
            match r {
                Some(t) => t.wf(n as int) && t.cos_t@ == cos_t@ && t.sin_t@ == sin_t@,
                None => !(TrigTable { cos_t, sin_t }).wf(n as int),
            },
    {
        proof {
            assert(n * n <= 1_000_000) by (nonlinear_arith)
                requires
                    n <= 1000,
            ;
        }
        let size: usize = n * n;
        if cos_t.len() != size || sin_t.len() != size {
            return None;
        }
        let mut p: usize = 0;
        while p < size
            invariant
                p <= size,
                cos_t@.len() == size,
                sin_t@.len() == size,
                forall|q: int| 0 <= q < p ==> iabs((#[trigger] cos_t@[q]) as int) <= UNIT as int,
                forall|q: int| 0 <= q < p ==> iabs((#[trigger] sin_t@[q]) as int) <= UNIT as int,
            decreases size - p,
        {
            let c = cos_t[p];
            let s = sin_t[p];
            if c > UNIT || c < -UNIT || s > UNIT || s < -UNIT {
                return None;
            }
            p = p + 1;
        }
        Some(TrigTable { cos_t, sin_t })
    }
}

impl Network {
    /// Scan for the slack bus: exactly one is required for
    /// Newton-Raphson.
    pub fn find_slack(&self) -> (r: SlackCheck)
        ensures
            match r {
                SlackCheck::One(id) => slack_count(self.buses@) == 1 && exists|k: int|
                    0 <= k < self.buses@.len() && (#[trigger] self.buses@[k]).bus_type
                        == BusType::Slack && self.buses@[k].bus_id == id,
                SlackCheck::Missing => slack_count(self.buses@) == 0,
                SlackCheck::Multiple => slack_count(self.buses@) >= 2,
            },
    {
        let mut found: Option<usize> = None;
        let mut k: usize = 0;
        while k < self.buses.len()
            invariant
                k <= self.buses@.len(),
                match found {
                    Some(id) => slack_count(self.buses@.take(k as int)) == 1 && exists|q: int|
                        0 <= q < k && (#[trigger] self.buses@[q]).bus_type == BusType::Slack
                            && self.buses@[q].bus_id == id,
                    None => slack_count(self.buses@.take(k as int)) == 0,
                },
            decreases self.buses@.len() - k,
        {
            proof {
                assert(self.buses@.take(k as int + 1).drop_last() =~= self.buses@.take(k as int));
                assert(self.buses@.take(k as int + 1).last() == self.buses@[k as int]);
            }
            let is_slack = matches!(self.buses[k].bus_type, BusType::Slack);
            if is_slack {
                match found {
                    Some(_) => {
                        proof {
                            lemma_slack_count_take(self.buses@, k as int + 1);
                        }
                        return SlackCheck::Multiple;
                    },
                    None => {
                        found = Some(self.buses[k].bus_id);
                    },
                }
            }
            k = k + 1;
        }
        proof {
            assert(self.buses@.take(self.buses@.len() as int) =~= self.buses@);
        }
        match found {
            Some(id) => SlackCheck::One(id),
            None => SlackCheck::Missing,
        }
    }

    /// The initial iteration state: the slack bus is pinned at
    /// V = 1 pu, angle 0; every other bus starts from its stored
    /// voltage and its stored angle converted from degrees to
    /// radians.
    pub fn nr_initial_state(&self) -> (st: NrState)
        requires
            self.wf(),
        ensures
            state_ok(self.buses@, st),
            forall|k: int|
                0 <= k < self.buses@.len() ==> (#[trigger] st.v@[k]) as int == (
                if self.buses@[k].bus_type == BusType::Slack {
                    UNIT as int
                } else {
                    self.buses@[k].voltage as int
                }),
            forall|k: int|
                0 <= k < self.buses@.len() ==> (#[trigger] st.delta@[k]) as int == (
                if self.buses@[k].bus_type == BusType::Slack {
                    0
                } else {
                    fx_mul(self.buses@[k].angle as int, DEG_TO_RAD as int)
                }),
    {
        let mut v: Vec<i64> = Vec::new();
        let mut delta: Vec<i64> = Vec::new();
        let mut k: usize = 0;
        while k < self.buses.len()
            invariant
                self.wf(),
                k <= self.buses@.len(),
                v@.len() == k,
                delta@.len() == k,
                forall|q: int|
                    0 <= q < k ==> (#[trigger] v@[q]) as int == (if self.buses@[q].bus_type
                        == BusType::Slack {
                        UNIT as int
                    } else {
                        self.buses@[q].voltage as int
                    }),
                forall|q: int|
                    0 <= q < k ==> (#[trigger] delta@[q]) as int == (if self.buses@[q].bus_type
                        == BusType::Slack {
                        0
                    } else {
                        fx_mul(self.buses@[q].angle as int, DEG_TO_RAD as int)
                    }),
                forall|q: int| 0 <= q < k ==> V_LO <= (#[trigger] v@[q]) <= V_HI,
                forall|q: int|
                    0 <= q < k ==> iabs((#[trigger] delta@[q]) as int) <= DELTA_LIM as int,
            decreases self.buses@.len() - k,
        {
            let bus = &self.buses[k];
            if matches!(bus.bus_type, BusType::Slack) {
                v.push(UNIT);
                delta.push(0);
            } else {
                proof {
                    crate::fixed::lemma_fx_mul_fits(
                        bus.angle as int,
                        DEG_TO_RAD as int,
                        crate::model::ANGLE_DEG_LIM as int,
                        DEG_TO_RAD as int,
                    );
                    crate::fixed::lemma_fx_mul_bound(
                        bus.angle as int,
                        DEG_TO_RAD as int,
                        crate::model::ANGLE_DEG_LIM as int,
                        DEG_TO_RAD as int,
                    );
                }
                v.push(bus.voltage);
                delta.push(crate::fixed::fxmul(bus.angle, DEG_TO_RAD));
            }
            k = k + 1;
        }
        NrState { v, delta }
    }

    /// Fast-decoupled load flow: not provided by this solver; the
    /// call reports an empty solution.
    pub fn decoupled(&self) -> (r: Option<AcSolution>)
        ensures
            match r {
                Some(s) => s.bus_voltages@.len() == 0 && s.bus_angles@.len() == 0 && s.log@.len()
                    == 0,
                None => false,
            },
    {
        Some(AcSolution { bus_voltages: Vec::new(), bus_angles: Vec::new(), log: Vec::new() })
    }

    /// Validate the input for Newton-Raphson: a non-empty bus list
    /// with exactly one slack bus.  On failure the returned solution
    /// is empty and its log explains which precondition failed.
    pub fn nr_validate(&self) -> (r: Result<usize, AcSolution>)
        ensures
            match r {
                Ok(id) => self.buses@.len() > 0 && slack_count(self.buses@) == 1 && exists|k: int|
                    0 <= k < self.buses@.len() && (#[trigger] self.buses@[k]).bus_type
                        == BusType::Slack && self.buses@[k].bus_id == id,
                Err(s) => {
                    &&& (self.buses@.len() == 0 || slack_count(self.buses@) != 1)
                    &&& s.bus_voltages@.len() == 0
                    &&& s.bus_angles@.len() == 0
                    &&& s.log@.len() == 2
                    &&& s.log@[0]@ == "Starting Newton-Raphson power flow solution."@
                    &&& (self.buses@.len() == 0 ==> s.log@[1]@
                        == "No buses found in the network."@)
                    &&& (self.buses@.len() > 0 && slack_count(self.buses@) == 0 ==> s.log@[1]@
                        == "No slack bus found, which is required for Newton-Raphson."@)
                    &&& (slack_count(self.buses@) >= 2 ==> s.log@[1]@
                        == "Multiple slack buses found, which is not allowed for Newton-Raphson."@)
                },
            },
    {
        if self.buses.len() == 0 {
            return Err(self.nr_rejected("No buses found in the network."));
        }
        match self.find_slack() {
            SlackCheck::One(id) => Ok(id),
            SlackCheck::Missing => Err(
                self.nr_rejected("No slack bus found, which is required for Newton-Raphson."),
            ),
            SlackCheck::Multiple => Err(
                self.nr_rejected(
                    "Multiple slack buses found, which is not allowed for Newton-Raphson.",
                ),
            ),
        }
    }

    /// An empty solution whose log opens with the start message and
    /// ends with the rejection cause, as a solve that failed
    /// validation reports it.
    fn nr_rejected(&self, cause: &str) -> (s: AcSolution)
        ensures
            s.bus_voltages@.len() == 0,
            s.bus_angles@.len() == 0,
            s.log@.len() == 2,
            s.log@[0]@ == "Starting Newton-Raphson power flow solution."@,
            s.log@[1]@ == cause@,
    {
        let mut log: Vec<String> = Vec::new();
        log.push(String::from_str("Starting Newton-Raphson power flow solution."));
        log.push(String::from_str(cause));
        AcSolution { bus_voltages: Vec::new(), bus_angles: Vec::new(), log }
    }

    /// An empty solution carrying one diagnostic line.
    pub fn nr_failed_solution(&self, line: &str) -> (s: AcSolution)
        ensures
            s.bus_voltages@.len() == 0,
            s.bus_angles@.len() == 0,
            s.log@.len() == 1,
            s.log@[0]@ == line@,
    {
        let mut log: Vec<String> = Vec::new();
        log.push(String::from_str(line));
        AcSolution { bus_voltages: Vec::new(), bus_angles: Vec::new(), log }
    }
}


impl Network {
    /// Derive the per-solve problem record: index tables, scheduled
    /// power and the admittance matrix.  Fails exactly as the Y-bus
    /// assembly does.
    pub fn nr_problem(&self, slack_bus_id: usize) -> (r: Result<NrProblem, YbusError>)
        requires
            self.wf(),
        ensures
            match r {
                Ok(prob) => nr_problem_ok(*self, prob) && prob.slack_bus_id == slack_bus_id,
                Err(YbusError::SeriesOutOfRange) => exists|k: int|
                    0 <= k < self.branches@.len() && (#[trigger] self.branches@[k]).branch_status
                        && !crate::ybus::branch_series_ok(self.branches@[k]),
                Err(YbusError::EntryOutOfRange) => exists|i: int, k: int|
                    #![trigger ybus_g_cell(*self, i, k)]
                    #![trigger ybus_b_cell(*self, i, k)]
                    0 <= i < self.buses@.len() && 0 <= k < self.buses@.len() && (iabs(
                        ybus_g_cell(*self, i, k),
                    ) > crate::ybus::Y_LIM as int || iabs(ybus_b_cell(*self, i, k))
                        > crate::ybus::Y_LIM as int),
            },
    {
        let ybus = match self.build_ybus() {
            Ok(y) => y,
            Err(e) => {
                return Err(e);
            },
        };
        let ghost m = full_map_of(self.buses@);
        proof {
            lemma_idx_map_image(self.buses@, all_sel());
            lemma_sel_pairs_distinct(self.buses@, all_sel());
            lemma_sel_all_count(self.buses@);
        }
        let full = build_index(&self.buses, BusSel::All);
        let ns_pos = build_positions(&self.buses, BusSel::NonSlack);
        let pq_pos = build_positions(&self.buses, BusSel::Pq);
        let n_bus: usize = self.buses.len();
        let n_ns: usize = ns_pos.len();
        let n_pq: usize = pq_pos.len();
        let mut p_sched: Vec<i64> = Vec::new();
        let mut q_sched: Vec<i64> = Vec::new();
        let mut z: usize = 0;
        while z < n_bus
            invariant
                z <= n_bus,
                p_sched@.len() == z,
                q_sched@.len() == z,
                forall|q: int| 0 <= q < z ==> (#[trigger] p_sched@[q]) == 0i64,
                forall|q: int| 0 <= q < z ==> (#[trigger] q_sched@[q]) == 0i64,
            decreases n_bus - z,
        {
            p_sched.push(0);
            q_sched.push(0);
            z = z + 1;
        }
        let mut k: usize = 0;
        while k < self.generators.len()
            invariant
                self.wf(),
                m == full_map_of(self.buses@),
                full.wf(),
                full@ == m,
                n_bus == self.buses@.len(),
                k <= self.generators@.len(),
                p_sched@.len() == n_bus,
                q_sched@.len() == n_bus,
                forall|i: int|
                    0 <= i < n_bus ==> (#[trigger] p_sched@[i]) as int == gen_inj(
                        self.generators@.take(k as int),
                        m,
                        self.s_base as int,
                        i,
                    ),
                forall|i: int|
                    0 <= i < n_bus ==> (#[trigger] q_sched@[i]) as int == gen_inj_q(
                        self.generators@.take(k as int),
                        m,
                        self.s_base as int,
                        i,
                    ),
                forall|id: int| m.contains_key(id) ==> 0 <= #[trigger] m[id] < n_bus,
            decreases self.generators@.len() - k,
        {
            proof {
                assert(self.generators@.take(k as int + 1).drop_last() =~= self.generators@.take(
                    k as int,
                ));
                assert(self.generators@.take(k as int + 1).last() == self.generators@[k as int]);
                assert forall|i: int| 0 <= i < n_bus implies iabs(#[trigger] p_sched@[i] as int)
                    <= k * (QTY_LIM as int) && iabs(#[trigger] q_sched@[i] as int) <= k * (
                QTY_LIM as int) by {
                    assert(forall|q: int|
                        0 <= q < self.generators@.take(k as int).len() ==> iabs(
                            (#[trigger] self.generators@.take(k as int)[q]).p_gen as int,
                        ) <= QTY_LIM as int && iabs(
                            self.generators@.take(k as int)[q].q_gen as int,
                        ) <= QTY_LIM as int);
                    lemma_gen_inj_bound(
                        self.generators@.take(k as int),
                        m,
                        self.s_base as int,
                        i,
                    );
                    lemma_gen_inj_q_bound(
                        self.generators@.take(k as int),
                        m,
                        self.s_base as int,
                        i,
                    );
                }
            }
            let g = &self.generators[k];
            if g.gen_status {
                let idx = match full.get(g.gen_bus_id) {
                    Some(i) => i,
                    None => {
                        proof {
                            lemma_contains_from_has_id(self.buses@, g.gen_bus_id as int);
                        }
                        return Err(YbusError::EntryOutOfRange);
                    },
                };
                proof {
                    lemma_fx_div_fits(g.p_gen as int, self.s_base as int, QTY_LIM as int, SBASE_MIN as int);
                    lemma_fx_div_fits(g.q_gen as int, self.s_base as int, QTY_LIM as int, SBASE_MIN as int);
                    lemma_fx_div_bound(g.p_gen as int, self.s_base as int, QTY_LIM as int, SBASE_MIN as int);
                    lemma_fx_div_bound(g.q_gen as int, self.s_base as int, QTY_LIM as int, SBASE_MIN as int);
                }
                let tp: i64 = fxdiv(g.p_gen, self.s_base);
                let tq: i64 = fxdiv(g.q_gen, self.s_base);
                let cur_p: i64 = p_sched[idx];
                let cur_q: i64 = q_sched[idx];
                p_sched.set(idx, cur_p + tp);
                q_sched.set(idx, cur_q + tq);
            }
            k = k + 1;
        }
        proof {
            assert(self.generators@.take(self.generators@.len() as int) =~= self.generators@);
        }
        let ghost gen_p = p_sched@;
        let ghost gen_q = q_sched@;
        proof {
            assert forall|i: int| 0 <= i < n_bus implies (#[trigger] gen_p[i]) as int == gen_inj(
                self.generators@,
                m,
                self.s_base as int,
                i,
            ) by {
                assert(p_sched@[i] as int == gen_inj(
                    self.generators@.take(self.generators@.len() as int),
                    m,
                    self.s_base as int,
                    i,
                ));
            }
            assert forall|i: int| 0 <= i < n_bus implies (#[trigger] gen_q[i]) as int == gen_inj_q(
                self.generators@,
                m,
                self.s_base as int,
                i,
            ) by {
                assert(p_sched@[i] as int == gen_inj(
                    self.generators@.take(self.generators@.len() as int),
                    m,
                    self.s_base as int,
                    i,
                ));
                assert(q_sched@[i] as int == gen_inj_q(
                    self.generators@.take(self.generators@.len() as int),
                    m,
                    self.s_base as int,
                    i,
                ));
            }
        }
        let mut k: usize = 0;
        while k < self.loads.len()
            invariant
                self.wf(),
                m == full_map_of(self.buses@),
                full.wf(),
                full@ == m,
                n_bus == self.buses@.len(),
                k <= self.loads@.len(),
                p_sched@.len() == n_bus,
                q_sched@.len() == n_bus,
                forall|i: int|
                    0 <= i < n_bus ==> (#[trigger] p_sched@[i]) as int == gen_p[i] as int
                        - load_inj(self.loads@.take(k as int), m, self.s_base as int, i),
                forall|i: int|
                    0 <= i < n_bus ==> (#[trigger] q_sched@[i]) as int == gen_q[i] as int
                        - load_inj_q(self.loads@.take(k as int), m, self.s_base as int, i),
                forall|i: int|
                    0 <= i < n_bus ==> (#[trigger] gen_p[i]) as int == gen_inj(
                        self.generators@,
                        m,
                        self.s_base as int,
                        i,
                    ),
                forall|i: int|
                    0 <= i < n_bus ==> (#[trigger] gen_q[i]) as int == gen_inj_q(
                        self.generators@,
                        m,
                        self.s_base as int,
                        i,
                    ),
                forall|id: int| m.contains_key(id) ==> 0 <= #[trigger] m[id] < n_bus,
            decreases self.loads@.len() - k,
        {
            proof {
                assert(self.loads@.take(k as int + 1).drop_last() =~= self.loads@.take(k as int));
                assert(self.loads@.take(k as int + 1).last() == self.loads@[k as int]);
                assert forall|i: int| 0 <= i < n_bus implies iabs(#[trigger] p_sched@[i] as int)
                    <= (self.generators@.len() + k) * (QTY_LIM as int) && iabs(
                    #[trigger] q_sched@[i] as int,
                ) <= (self.generators@.len() + k) * (QTY_LIM as int) by {
                    lemma_gen_inj_bound(self.generators@, m, self.s_base as int, i);
                    lemma_gen_inj_q_bound(self.generators@, m, self.s_base as int, i);
                    assert(forall|q: int|
                        0 <= q < self.loads@.take(k as int).len() ==> iabs(
                            (#[trigger] self.loads@.take(k as int)[q]).real_load as int,
                        ) <= QTY_LIM as int && iabs(
                            self.loads@.take(k as int)[q].imag_load as int,
                        ) <= QTY_LIM as int);
                    lemma_load_inj_bound(self.loads@.take(k as int), m, self.s_base as int, i);
                    lemma_load_inj_q_bound(self.loads@.take(k as int), m, self.s_base as int, i);
                    assert(self.loads@.take(k as int).len() == k as int);
                    assert(iabs(gen_p[i] as int) <= self.generators@.len() * (QTY_LIM as int));
                    assert(iabs(gen_q[i] as int) <= self.generators@.len() * (QTY_LIM as int));
                    assert(iabs(load_inj(self.loads@.take(k as int), m, self.s_base as int, i))
                        <= k * (QTY_LIM as int));
                    assert(iabs(load_inj_q(self.loads@.take(k as int), m, self.s_base as int, i))
                        <= k * (QTY_LIM as int));
                    assert((self.generators@.len() + k) * (QTY_LIM as int)
                        == self.generators@.len() * (QTY_LIM as int) + k * (QTY_LIM as int))
                        by (nonlinear_arith);
                }
            }
            let l = &self.loads[k];
            let idx = match full.get(l.bus_id) {
                Some(i) => i,
                None => {
                    proof {
                        lemma_contains_from_has_id(self.buses@, l.bus_id as int);
                    }
                    return Err(YbusError::EntryOutOfRange);
                },
            };
            proof {
                lemma_fx_div_fits(l.real_load as int, self.s_base as int, QTY_LIM as int, SBASE_MIN as int);
                lemma_fx_div_fits(l.imag_load as int, self.s_base as int, QTY_LIM as int, SBASE_MIN as int);
                lemma_fx_div_bound(l.real_load as int, self.s_base as int, QTY_LIM as int, SBASE_MIN as int);
                lemma_fx_div_bound(l.imag_load as int, self.s_base as int, QTY_LIM as int, SBASE_MIN as int);
            }
            let tp: i64 = fxdiv(l.real_load, self.s_base);
            let tq: i64 = fxdiv(l.imag_load, self.s_base);
            let cur_p: i64 = p_sched[idx];
            let cur_q: i64 = q_sched[idx];
            p_sched.set(idx, cur_p - tp);
            q_sched.set(idx, cur_q - tq);
            k = k + 1;
        }
        proof {
            assert(self.loads@.take(self.loads@.len() as int) =~= self.loads@);
        }
        proof {
            lemma_sel_pos_props(self.buses@, nonslack_sel());
            lemma_sel_pos_props(self.buses@, pq_sel());
        }
        let prob = NrProblem {
            slack_bus_id,
            n_bus,
            n_ns,
            n_pq,
            ns_pos,
            pq_pos,
            p_sched,
            q_sched,
            ybus,
        };
        proof {
            assert(prob.n_bus == self.buses@.len());
            assert(prob.n_ns as int == ns_total(self.buses@));
            assert(prob.n_pq as int == pq_total(self.buses@));
            assert(forall|s: int|
                0 <= s < prob.ns_pos@.len() ==> (#[trigger] prob.ns_pos@[s]) as int == sel_pos(
                    self.buses@,
                    nonslack_sel(),
                )[s]);
            assert(forall|s: int|
                0 <= s < prob.pq_pos@.len() ==> (#[trigger] prob.pq_pos@[s]) as int == sel_pos(
                    self.buses@,
                    pq_sel(),
                )[s]);
            assert(forall|i: int|
                0 <= i < prob.p_sched@.len() ==> (#[trigger] prob.p_sched@[i]) as int
                    == p_sched_at(*self, i));
            assert(forall|i: int|
                0 <= i < prob.q_sched@.len() ==> (#[trigger] prob.q_sched@[i]) as int
                    == q_sched_at(*self, i));
            assert forall|i: int| 0 <= i < prob.p_sched@.len() implies iabs(
                (#[trigger] prob.p_sched@[i]) as int,
            ) <= SCHED_LIM as int by {
                assert(prob.p_sched@[i] as int == p_sched_at(*self, i));
                lemma_gen_inj_bound(self.generators@, m, self.s_base as int, i);
                lemma_load_inj_bound(self.loads@, m, self.s_base as int, i);
                assert(self.generators@.len() * (QTY_LIM as int) <= 1_000_000_000_000_000_000)
                    by (nonlinear_arith)
                    requires
                        self.generators@.len() <= N_DEV_MAX as int,
                ;
                assert(self.loads@.len() * (QTY_LIM as int) <= 1_000_000_000_000_000_000)
                    by (nonlinear_arith)
                    requires
                        self.loads@.len() <= N_DEV_MAX as int,
                ;
            }
            assert forall|i: int| 0 <= i < prob.q_sched@.len() implies iabs(
                (#[trigger] prob.q_sched@[i]) as int,
            ) <= SCHED_LIM as int by {
                assert(prob.q_sched@[i] as int == q_sched_at(*self, i));
                lemma_gen_inj_q_bound(self.generators@, m, self.s_base as int, i);
                lemma_load_inj_q_bound(self.loads@, m, self.s_base as int, i);
                assert(self.generators@.len() * (QTY_LIM as int) <= 1_000_000_000_000_000_000)
                    by (nonlinear_arith)
                    requires
                        self.generators@.len() <= N_DEV_MAX as int,
                ;
                assert(self.loads@.len() * (QTY_LIM as int) <= 1_000_000_000_000_000_000)
                    by (nonlinear_arith)
                    requires
                        self.loads@.len() <= N_DEV_MAX as int,
                ;
            }
            assert(prob.ybus.wf());
            assert(prob.ybus.n == prob.n_bus);
            assert(forall|i: int, k: int|
                0 <= i < prob.n_bus && 0 <= k < prob.n_bus ==> #[trigger] prob.ybus.g_at(i, k)
                    == ybus_g_cell(*self, i, k));
            assert(forall|i: int, k: int|
                0 <= i < prob.n_bus && 0 <= k < prob.n_bus ==> #[trigger] prob.ybus.b_at(i, k)
                    == ybus_b_cell(*self, i, k));
        }
        Ok(prob)
    }

}


/// Magnitude cap on one term of a calculated-injection sum.
pub const TERM_LIM: i64 = 800_000_000_000_000;

/// Magnitude cap on a calculated injection.
pub const PCALC_LIM: i64 = 3_200_000_000_000_000_000;

/// Bounds under which the iteration kernels stay exact: a
/// self-consistent problem record, a state of matching shape inside
/// the voltage window, and a trig table of matching shape.
pub open spec fn kernel_ready(prob: NrProblem, st: NrState, tr: TrigTable) -> bool {
    &&& prob.wf()
    &&& st.v@.len() == prob.n_bus
    &&& st.delta@.len() == prob.n_bus
    &&& forall|k: int| 0 <= k < st.v@.len() ==> V_LO <= (#[trigger] st.v@[k]) <= V_HI
    &&& tr.wf(prob.n_bus as int)
}

impl NrProblem {
    /// Internal consistency of the record: shapes, index ranges and
    /// value bounds, everything the iteration kernels rely on.
    pub open spec fn wf(self) -> bool {
        &&& self.n_bus <= N_BUS_MAX
        &&& self.ybus.wf()
        &&& self.ybus.n == self.n_bus
        &&& self.n_ns <= self.n_bus
        &&& self.n_pq <= self.n_bus
        &&& self.ns_pos@.len() == self.n_ns
        &&& self.pq_pos@.len() == self.n_pq
        &&& forall|s: int| 0 <= s < self.ns_pos@.len() ==> (#[trigger] self.ns_pos@[s]) < self.n_bus
        &&& forall|s: int| 0 <= s < self.pq_pos@.len() ==> (#[trigger] self.pq_pos@[s]) < self.n_bus
        &&& self.p_sched@.len() == self.n_bus
        &&& self.q_sched@.len() == self.n_bus
        &&& forall|i: int|
            0 <= i < self.p_sched@.len() ==> iabs((#[trigger] self.p_sched@[i]) as int)
                <= SCHED_LIM as int
        &&& forall|i: int|
            0 <= i < self.q_sched@.len() ==> iabs((#[trigger] self.q_sched@[i]) as int)
                <= SCHED_LIM as int
    }
}

/// One term of the active-power sum at bus i:
/// V_k * (G_ik cos(d_i - d_k) + B_ik sin(d_i - d_k)).
pub open spec fn p_term(prob: NrProblem, st: NrState, tr: TrigTable, i: int, k: int) -> int {
    let n = prob.n_bus as int;
    fx_mul(
        st.v@[k] as int,
        fx_mul(prob.ybus.g_at(i, k), crate::ybus::dense_at(tr.cos_t@, n, i, k)) + fx_mul(
            prob.ybus.b_at(i, k),
            crate::ybus::dense_at(tr.sin_t@, n, i, k),
        ),
    )
}

/// One term of the reactive-power sum at bus i:
/// V_k * (G_ik sin(d_i - d_k) - B_ik cos(d_i - d_k)).
pub open spec fn q_term(prob: NrProblem, st: NrState, tr: TrigTable, i: int, k: int) -> int {
    let n = prob.n_bus as int;
    fx_mul(
        st.v@[k] as int,
        fx_mul(prob.ybus.g_at(i, k), crate::ybus::dense_at(tr.sin_t@, n, i, k)) - fx_mul(
            prob.ybus.b_at(i, k),
            crate::ybus::dense_at(tr.cos_t@, n, i, k),
        ),
    )
}

/// Partial sum of the first k terms at bus i.
pub open spec fn p_sum(prob: NrProblem, st: NrState, tr: TrigTable, i: int, k: int) -> int
    decreases k,
{
    if k <= 0 {
        0
    } else {
        p_sum(prob, st, tr, i, k - 1) + p_term(prob, st, tr, i, k - 1)
    }
}

pub open spec fn q_sum(prob: NrProblem, st: NrState, tr: TrigTable, i: int, k: int) -> int
    decreases k,
{
    if k <= 0 {
        0
    } else {
        q_sum(prob, st, tr, i, k - 1) + q_term(prob, st, tr, i, k - 1)
    }
}

/// Calculated active injection at bus i: V_i times the sum over all
/// buses.
pub open spec fn p_calc_at(prob: NrProblem, st: NrState, tr: TrigTable, i: int) -> int {
    fx_mul(st.v@[i] as int, p_sum(prob, st, tr, i, prob.n_bus as int))
}

/// Calculated reactive injection at bus i.
pub open spec fn q_calc_at(prob: NrProblem, st: NrState, tr: TrigTable, i: int) -> int {
    fx_mul(st.v@[i] as int, q_sum(prob, st, tr, i, prob.n_bus as int))
}

proof fn lemma_term_bound(prob: NrProblem, st: NrState, tr: TrigTable, i: int, k: int)
    requires
        kernel_ready(prob, st, tr),
        0 <= i < prob.n_bus,
        0 <= k < prob.n_bus,
    ensures
        iabs(p_term(prob, st, tr, i, k)) <= TERM_LIM as int,
        iabs(q_term(prob, st, tr, i, k)) <= TERM_LIM as int,
{
    let n = prob.n_bus as int;
    assert(0 <= i * n + k < n * n) by (nonlinear_arith)
        requires
            0 <= i < n,
            0 <= k < n,
    ;
    crate::fixed::lemma_fx_mul_bound(
        prob.ybus.g_at(i, k),
        crate::ybus::dense_at(tr.cos_t@, n, i, k),
        crate::ybus::Y_LIM as int,
        UNIT as int,
    );
    crate::fixed::lemma_fx_mul_bound(
        prob.ybus.b_at(i, k),
        crate::ybus::dense_at(tr.sin_t@, n, i, k),
        crate::ybus::Y_LIM as int,
        UNIT as int,
    );
    crate::fixed::lemma_fx_mul_bound(
        prob.ybus.g_at(i, k),
        crate::ybus::dense_at(tr.sin_t@, n, i, k),
        crate::ybus::Y_LIM as int,
        UNIT as int,
    );
    crate::fixed::lemma_fx_mul_bound(
        prob.ybus.b_at(i, k),
        crate::ybus::dense_at(tr.cos_t@, n, i, k),
        crate::ybus::Y_LIM as int,
        UNIT as int,
    );
    crate::fixed::lemma_fx_mul_bound(
        st.v@[k] as int,
        fx_mul(prob.ybus.g_at(i, k), crate::ybus::dense_at(tr.cos_t@, n, i, k)) + fx_mul(
            prob.ybus.b_at(i, k),
            crate::ybus::dense_at(tr.sin_t@, n, i, k),
        ),
        V_HI as int,
        2 * crate::ybus::Y_LIM as int,
    );
    crate::fixed::lemma_fx_mul_bound(
        st.v@[k] as int,
        fx_mul(prob.ybus.g_at(i, k), crate::ybus::dense_at(tr.sin_t@, n, i, k)) - fx_mul(
            prob.ybus.b_at(i, k),
            crate::ybus::dense_at(tr.cos_t@, n, i, k),
        ),
        V_HI as int,
        2 * crate::ybus::Y_LIM as int,
    );
}

proof fn lemma_sum_bound(prob: NrProblem, st: NrState, tr: TrigTable, i: int, k: int)
    requires
        kernel_ready(prob, st, tr),
        0 <= i < prob.n_bus,
        0 <= k <= prob.n_bus,
    ensures
        iabs(p_sum(prob, st, tr, i, k)) <= k * (TERM_LIM as int),
        iabs(q_sum(prob, st, tr, i, k)) <= k * (TERM_LIM as int),
    decreases k,
{
    if k > 0 {
        lemma_sum_bound(prob, st, tr, i, k - 1);
        lemma_term_bound(prob, st, tr, i, k - 1);
    }
}

proof fn lemma_calc_bound(prob: NrProblem, st: NrState, tr: TrigTable, i: int)
    requires
        kernel_ready(prob, st, tr),
        0 <= i < prob.n_bus,
    ensures
        iabs(p_calc_at(prob, st, tr, i)) <= PCALC_LIM as int,
        iabs(q_calc_at(prob, st, tr, i)) <= PCALC_LIM as int,
{
    lemma_sum_bound(prob, st, tr, i, prob.n_bus as int);
    assert(prob.n_bus as int * (TERM_LIM as int) <= 800_000_000_000_000_000);
    crate::fixed::lemma_fx_mul_bound(
        st.v@[i] as int,
        p_sum(prob, st, tr, i, prob.n_bus as int),
        V_HI as int,
        800_000_000_000_000_000,
    );
    crate::fixed::lemma_fx_mul_bound(
        st.v@[i] as int,
        q_sum(prob, st, tr, i, prob.n_bus as int),
        V_HI as int,
        800_000_000_000_000_000,
    );
}

/// Calculated injections for every bus, from the current state and
/// the caller-supplied trig table.
fn calc_powers(prob: &NrProblem, st: &NrState, tr: &TrigTable) -> (r: (Vec<i64>, Vec<i64>))
    requires
        kernel_ready(*prob, *st, *tr),
    ensures
        r.0@.len() == prob.n_bus,
        r.1@.len() == prob.n_bus,
        forall|i: int|
            0 <= i < prob.n_bus ==> (#[trigger] r.0@[i]) as int == p_calc_at(*prob, *st, *tr, i),
        forall|i: int|
            0 <= i < prob.n_bus ==> (#[trigger] r.1@[i]) as int == q_calc_at(*prob, *st, *tr, i),
{
    let n: usize = prob.n_bus;
    let mut pc: Vec<i64> = Vec::new();
    let mut qc: Vec<i64> = Vec::new();
    let mut i: usize = 0;
    while i < n
        invariant
            kernel_ready(*prob, *st, *tr),
            n == prob.n_bus,
            i <= n,
            pc@.len() == i,
            qc@.len() == i,
            forall|q: int|
                0 <= q < i ==> (#[trigger] pc@[q]) as int == p_calc_at(*prob, *st, *tr, q),
            forall|q: int|
                0 <= q < i ==> (#[trigger] qc@[q]) as int == q_calc_at(*prob, *st, *tr, q),
        decreases n - i,
    {
        let mut ap: i64 = 0;
        let mut aq: i64 = 0;
        let mut k: usize = 0;
        while k < n
            invariant
                kernel_ready(*prob, *st, *tr),
                n == prob.n_bus,
                i < n,
                k <= n,
                ap as int == p_sum(*prob, *st, *tr, i as int, k as int),
                aq as int == q_sum(*prob, *st, *tr, i as int, k as int),
            decreases n - k,
        {
            proof {
                lemma_sum_bound(*prob, *st, *tr, i as int, k as int);
                lemma_term_bound(*prob, *st, *tr, i as int, k as int);
                assert(0 <= (i as int) * (n as int) + (k as int) < (n as int) * (n as int)
                    <= 1_000_000) by (nonlinear_arith)
                    requires
                        0 <= (i as int) < n as int,
                        0 <= (k as int) < n as int,
                        n <= 1000,
                ;
                crate::fixed::lemma_fx_mul_fits(
                    prob.ybus.g_at(i as int, k as int),
                    crate::ybus::dense_at(tr.cos_t@, n as int, i as int, k as int),
                    crate::ybus::Y_LIM as int,
                    UNIT as int,
                );
                crate::fixed::lemma_fx_mul_fits(
                    prob.ybus.b_at(i as int, k as int),
                    crate::ybus::dense_at(tr.sin_t@, n as int, i as int, k as int),
                    crate::ybus::Y_LIM as int,
                    UNIT as int,
                );
                crate::fixed::lemma_fx_mul_fits(
                    prob.ybus.g_at(i as int, k as int),
                    crate::ybus::dense_at(tr.sin_t@, n as int, i as int, k as int),
                    crate::ybus::Y_LIM as int,
                    UNIT as int,
                );
                crate::fixed::lemma_fx_mul_fits(
                    prob.ybus.b_at(i as int, k as int),
                    crate::ybus::dense_at(tr.cos_t@, n as int, i as int, k as int),
                    crate::ybus::Y_LIM as int,
                    UNIT as int,
                );
                crate::fixed::lemma_fx_mul_bound(
                    prob.ybus.g_at(i as int, k as int),
                    crate::ybus::dense_at(tr.cos_t@, n as int, i as int, k as int),
                    crate::ybus::Y_LIM as int,
                    UNIT as int,
                );
                crate::fixed::lemma_fx_mul_bound(
                    prob.ybus.b_at(i as int, k as int),
                    crate::ybus::dense_at(tr.sin_t@, n as int, i as int, k as int),
                    crate::ybus::Y_LIM as int,
                    UNIT as int,
                );
                crate::fixed::lemma_fx_mul_bound(
                    prob.ybus.g_at(i as int, k as int),
                    crate::ybus::dense_at(tr.sin_t@, n as int, i as int, k as int),
                    crate::ybus::Y_LIM as int,
                    UNIT as int,
                );
                crate::fixed::lemma_fx_mul_bound(
                    prob.ybus.b_at(i as int, k as int),
                    crate::ybus::dense_at(tr.cos_t@, n as int, i as int, k as int),
                    crate::ybus::Y_LIM as int,
                    UNIT as int,
                );
                crate::fixed::lemma_fx_mul_fits(
                    st.v@[k as int] as int,
                    fx_mul(
                        prob.ybus.g_at(i as int, k as int),
                        crate::ybus::dense_at(tr.cos_t@, n as int, i as int, k as int),
                    ) + fx_mul(
                        prob.ybus.b_at(i as int, k as int),
                        crate::ybus::dense_at(tr.sin_t@, n as int, i as int, k as int),
                    ),
                    V_HI as int,
                    2 * crate::ybus::Y_LIM as int,
                );
                crate::fixed::lemma_fx_mul_fits(
                    st.v@[k as int] as int,
                    fx_mul(
                        prob.ybus.g_at(i as int, k as int),
                        crate::ybus::dense_at(tr.sin_t@, n as int, i as int, k as int),
                    ) - fx_mul(
                        prob.ybus.b_at(i as int, k as int),
                        crate::ybus::dense_at(tr.cos_t@, n as int, i as int, k as int),
                    ),
                    V_HI as int,
                    2 * crate::ybus::Y_LIM as int,
                );
            }
            let off: usize = i * n + k;
            let g: i64 = prob.ybus.g[off];
            let b: i64 = prob.ybus.b[off];
            let c: i64 = tr.cos_t[off];
            let sn: i64 = tr.sin_t[off];
            let vk: i64 = st.v[k];
            let gc: i64 = crate::fixed::fxmul(g, c);
            let bs: i64 = crate::fixed::fxmul(b, sn);
            let gs: i64 = crate::fixed::fxmul(g, sn);
            let bc: i64 = crate::fixed::fxmul(b, c);
            let tp: i64 = crate::fixed::fxmul(vk, gc + bs);
            let tq: i64 = crate::fixed::fxmul(vk, gs - bc);
            ap = ap + tp;
            aq = aq + tq;
            k = k + 1;
        }
        proof {
            lemma_sum_bound(*prob, *st, *tr, i as int, n as int);
            crate::fixed::lemma_fx_mul_fits(
                st.v@[i as int] as int,
                p_sum(*prob, *st, *tr, i as int, n as int),
                V_HI as int,
                800_000_000_000_000_000,
            );
            crate::fixed::lemma_fx_mul_fits(
                st.v@[i as int] as int,
                q_sum(*prob, *st, *tr, i as int, n as int),
                V_HI as int,
                800_000_000_000_000_000,
            );
        }
        let vi: i64 = st.v[i];
        pc.push(crate::fixed::fxmul(vi, ap));
        qc.push(crate::fixed::fxmul(vi, aq));
        i = i + 1;
    }
    (pc, qc)
}

/// Entry `slot` of the mismatch vector: scheduled minus calculated
/// active power for the non-slack buses in order, then scheduled
/// minus calculated reactive power for the PQ buses.
pub open spec fn mismatch_at(prob: NrProblem, st: NrState, tr: TrigTable, slot: int) -> int {
    if slot < prob.n_ns {
        let pos = prob.ns_pos@[slot] as int;
        prob.p_sched@[pos] - p_calc_at(prob, st, tr, pos)
    } else {
        let pos = prob.pq_pos@[slot - prob.n_ns] as int;
        prob.q_sched@[pos] - q_calc_at(prob, st, tr, pos)
    }
}

/// Build the mismatch vector of length n_ns + n_pq.
pub fn nr_mismatch(prob: &NrProblem, st: &NrState, tr: &TrigTable) -> (mm: Vec<i64>)
    requires
        kernel_ready(*prob, *st, *tr),
    ensures
        mm@.len() == prob.n_ns + prob.n_pq,
        forall|slot: int|
            0 <= slot < mm@.len() ==> (#[trigger] mm@[slot]) as int == mismatch_at(
                *prob,
                *st,
                *tr,
                slot,
            ),
{
    let (pc, qc) = calc_powers(prob, st, tr);
    let mut mm: Vec<i64> = Vec::new();
    let mut s: usize = 0;
    while s < prob.n_ns
        invariant
            kernel_ready(*prob, *st, *tr),
            s <= prob.n_ns,
            pc@.len() == prob.n_bus,
            qc@.len() == prob.n_bus,
            forall|q: int|
                0 <= q < prob.n_bus ==> (#[trigger] pc@[q]) as int == p_calc_at(*prob, *st, *tr, q),
            forall|q: int|
                0 <= q < prob.n_bus ==> (#[trigger] qc@[q]) as int == q_calc_at(*prob, *st, *tr, q),
            mm@.len() == s,
            forall|q: int|
                0 <= q < s ==> (#[trigger] mm@[q]) as int == mismatch_at(*prob, *st, *tr, q),
        decreases prob.n_ns - s,
    {
        let pos: usize = prob.ns_pos[s];
        proof {
            lemma_calc_bound(*prob, *st, *tr, pos as int);
        }
        mm.push(prob.p_sched[pos] - pc[pos]);
        s = s + 1;
    }
    let mut t: usize = 0;
    while t < prob.n_pq
        invariant
            kernel_ready(*prob, *st, *tr),
            t <= prob.n_pq,
            pc@.len() == prob.n_bus,
            qc@.len() == prob.n_bus,
            forall|q: int|
                0 <= q < prob.n_bus ==> (#[trigger] pc@[q]) as int == p_calc_at(*prob, *st, *tr, q),
            forall|q: int|
                0 <= q < prob.n_bus ==> (#[trigger] qc@[q]) as int == q_calc_at(*prob, *st, *tr, q),
            mm@.len() == prob.n_ns + t,
            forall|q: int|
                0 <= q < prob.n_ns + t ==> (#[trigger] mm@[q]) as int == mismatch_at(
                    *prob,
                    *st,
                    *tr,
                    q,
                ),
        decreases prob.n_pq - t,
    {
        let pos: usize = prob.pq_pos[t];
        proof {
            lemma_calc_bound(*prob, *st, *tr, pos as int);
        }
        mm.push(prob.q_sched[pos] - qc[pos]);
        t = t + 1;
    }
    mm
}



/// Largest mismatch magnitude among the first k slots.
pub open spec fn mismatch_max(prob: NrProblem, st: NrState, tr: TrigTable, k: int) -> int
    decreases k,
{
    if k <= 0 {
        0
    } else {
        max2(mismatch_max(prob, st, tr, k - 1), iabs(mismatch_at(prob, st, tr, k - 1)))
    }
}

proof fn lemma_mismatch_bound(prob: NrProblem, st: NrState, tr: TrigTable, slot: int)
    requires
        kernel_ready(prob, st, tr),
        0 <= slot < prob.n_ns + prob.n_pq,
    ensures
        iabs(mismatch_at(prob, st, tr, slot)) <= SCHED_LIM as int + PCALC_LIM as int,
{
    if slot < prob.n_ns {
        lemma_calc_bound(prob, st, tr, prob.ns_pos@[slot] as int);
    } else {
        lemma_calc_bound(prob, st, tr, prob.pq_pos@[slot - prob.n_ns] as int);
    }
}

proof fn lemma_mismatch_max_covers(prob: NrProblem, st: NrState, tr: TrigTable, k: int)
    ensures
        mismatch_max(prob, st, tr, k) >= 0,
        forall|j: int|
            0 <= j < k ==> iabs(#[trigger] mismatch_at(prob, st, tr, j)) <= mismatch_max(
                prob,
                st,
                tr,
                k,
            ),
    decreases k,
{
    if k > 0 {
        lemma_mismatch_max_covers(prob, st, tr, k - 1);
    }
}

/// The power-balance figure of a state: the largest magnitude in
/// its mismatch vector.  At a converged state this is how far the
/// calculated injections sit from the scheduled ones.
pub fn nr_power_balance(prob: &NrProblem, st: &NrState, tr: &TrigTable) -> (r: i64)
    requires
        kernel_ready(*prob, *st, *tr),
    ensures
        r as int == mismatch_max(*prob, *st, *tr, prob.n_ns + prob.n_pq),
        r >= 0,
        forall|slot: int|
            0 <= slot < prob.n_ns + prob.n_pq ==> iabs(
                #[trigger] mismatch_at(*prob, *st, *tr, slot),
            ) <= r as int,
{
    let mm = nr_mismatch(prob, st, tr);
    let nt: usize = prob.n_ns + prob.n_pq;
    let mut worst: i64 = 0;
    let mut slot: usize = 0;
    while slot < nt
        invariant
            kernel_ready(*prob, *st, *tr),
            nt == prob.n_ns + prob.n_pq,
            slot <= nt,
            mm@.len() == nt,
            forall|q: int|
                0 <= q < mm@.len() ==> (#[trigger] mm@[q]) as int == mismatch_at(
                    *prob,
                    *st,
                    *tr,
                    q,
                ),
            worst >= 0,
            worst as int == mismatch_max(*prob, *st, *tr, slot as int),
        decreases nt - slot,
    {
        proof {
            lemma_mismatch_bound(*prob, *st, *tr, slot as int);
        }
        let v: i64 = mm[slot];
        let a: i64 = if v < 0 {
            -v
        } else {
            v
        };
        if a > worst {
            worst = a;
        }
        slot = slot + 1;
    }
    proof {
        lemma_mismatch_max_covers(*prob, *st, *tr, nt as int);
    }
    worst
}

/// The block Jacobian entry at (row, col).  Rows and columns
/// [0, n_ns) belong to the angle equations of the non-slack buses,
/// the rest to the voltage equations of the PQ buses; diagonal
/// blocks follow the polar power-flow partial derivatives, with the
/// voltage derivatives in the V * d/dV form.
pub open spec fn jac_at(prob: NrProblem, st: NrState, tr: TrigTable, row: int, col: int) -> int {
    let n = prob.n_bus as int;
    let nns = prob.n_ns as int;
    if row < nns && col < nns {
        let pi = prob.ns_pos@[row] as int;
        let pk = prob.ns_pos@[col] as int;
        if pi == pk {
            -q_calc_at(prob, st, tr, pi) - fx_mul(
                fx_mul(st.v@[pi] as int, st.v@[pi] as int),
                prob.ybus.b_at(pi, pi),
            )
        } else {
            -fx_mul(
                fx_mul(st.v@[pi] as int, st.v@[pk] as int),
                fx_mul(prob.ybus.g_at(pi, pk), crate::ybus::dense_at(tr.sin_t@, n, pi, pk))
                    - fx_mul(
                    prob.ybus.b_at(pi, pk),
                    crate::ybus::dense_at(tr.cos_t@, n, pi, pk),
                ),
            )
        }
    } else if row < nns {
        let pi = prob.ns_pos@[row] as int;
        let pk = prob.pq_pos@[col - nns] as int;
        if pi == pk {
            fx_div(p_calc_at(prob, st, tr, pi), st.v@[pi] as int) + fx_mul(
                st.v@[pi] as int,
                prob.ybus.g_at(pi, pi),
            )
        } else {
            fx_mul(
                st.v@[pi] as int,
                fx_mul(prob.ybus.g_at(pi, pk), crate::ybus::dense_at(tr.cos_t@, n, pi, pk))
                    + fx_mul(
                    prob.ybus.b_at(pi, pk),
                    crate::ybus::dense_at(tr.sin_t@, n, pi, pk),
                ),
            )
        }
    } else if col < nns {
        let pi = prob.pq_pos@[row - nns] as int;
        let pk = prob.ns_pos@[col] as int;
        if pi == pk {
            p_calc_at(prob, st, tr, pi) - fx_mul(
                fx_mul(st.v@[pi] as int, st.v@[pi] as int),
                prob.ybus.g_at(pi, pi),
            )
        } else {
            fx_mul(
                fx_mul(st.v@[pi] as int, st.v@[pk] as int),
                fx_mul(prob.ybus.g_at(pi, pk), crate::ybus::dense_at(tr.cos_t@, n, pi, pk))
                    + fx_mul(
                    prob.ybus.b_at(pi, pk),
                    crate::ybus::dense_at(tr.sin_t@, n, pi, pk),
                ),
            )
        }
    } else {
        let pi = prob.pq_pos@[row - nns] as int;
        let pk = prob.pq_pos@[col - nns] as int;
        if pi == pk {
            fx_div(q_calc_at(prob, st, tr, pi), st.v@[pi] as int) - fx_mul(
                st.v@[pi] as int,
                prob.ybus.b_at(pi, pi),
            )
        } else {
            fx_mul(
                st.v@[pi] as int,
                fx_mul(prob.ybus.g_at(pi, pk), crate::ybus::dense_at(tr.sin_t@, n, pi, pk))
                    - fx_mul(
                    prob.ybus.b_at(pi, pk),
                    crate::ybus::dense_at(tr.cos_t@, n, pi, pk),
                ),
            )
        }
    }
}

/// One Jacobian entry, from the precomputed injections.
fn jac_entry(
    prob: &NrProblem,
    st: &NrState,
    tr: &TrigTable,
    pc: &Vec<i64>,
    qc: &Vec<i64>,
    row: usize,
    col: usize,
) -> (r: i64)
    requires
        kernel_ready(*prob, *st, *tr),
        pc@.len() == prob.n_bus,
        qc@.len() == prob.n_bus,
        forall|q: int|
            0 <= q < prob.n_bus ==> (#[trigger] pc@[q]) as int == p_calc_at(*prob, *st, *tr, q),
        forall|q: int|
            0 <= q < prob.n_bus ==> (#[trigger] qc@[q]) as int == q_calc_at(*prob, *st, *tr, q),
        row < prob.n_ns + prob.n_pq,
        col < prob.n_ns + prob.n_pq,
    ensures
        r as int == jac_at(*prob, *st, *tr, row as int, col as int),
{
    let n: usize = prob.n_bus;
    let nns: usize = prob.n_ns;
    let pi: usize = if row < nns {
        prob.ns_pos[row]
    } else {
        prob.pq_pos[row - nns]
    };
    let pk: usize = if col < nns {
        prob.ns_pos[col]
    } else {
        prob.pq_pos[col - nns]
    };
    proof {
        lemma_calc_bound(*prob, *st, *tr, pi as int);
        assert(0 <= (pi as int) * (n as int) + (pk as int) < (n as int) * (n as int) <= 1_000_000)
            by (nonlinear_arith)
            requires
                0 <= (pi as int) < n as int,
                0 <= (pk as int) < n as int,
                n <= 1000,
        ;
        assert(0 <= (pi as int) * (n as int) + (pi as int) < (n as int) * (n as int))
            by (nonlinear_arith)
            requires
                0 <= (pi as int) < n as int,
                n <= 1000,
        ;
        crate::fixed::lemma_fx_mul_fits(
            st.v@[pi as int] as int,
            st.v@[pi as int] as int,
            V_HI as int,
            V_HI as int,
        );
        crate::fixed::lemma_fx_mul_bound(
            st.v@[pi as int] as int,
            st.v@[pi as int] as int,
            V_HI as int,
            V_HI as int,
        );
        crate::fixed::lemma_fx_mul_fits(
            st.v@[pi as int] as int,
            st.v@[pk as int] as int,
            V_HI as int,
            V_HI as int,
        );
        crate::fixed::lemma_fx_mul_bound(
            st.v@[pi as int] as int,
            st.v@[pk as int] as int,
            V_HI as int,
            V_HI as int,
        );
    }
    let vi: i64 = st.v[pi];
    let vk: i64 = st.v[pk];
    let off: usize = pi * n + pk;
    let diag: usize = pi * n + pi;
    let g: i64 = prob.ybus.g[off];
    let b: i64 = prob.ybus.b[off];
    let c: i64 = tr.cos_t[off];
    let sn: i64 = tr.sin_t[off];
    proof {
        crate::fixed::lemma_fx_mul_fits(g as int, c as int, crate::ybus::Y_LIM as int, UNIT as int);
        crate::fixed::lemma_fx_mul_fits(b as int, sn as int, crate::ybus::Y_LIM as int, UNIT as int);
        crate::fixed::lemma_fx_mul_fits(g as int, sn as int, crate::ybus::Y_LIM as int, UNIT as int);
        crate::fixed::lemma_fx_mul_fits(b as int, c as int, crate::ybus::Y_LIM as int, UNIT as int);
        crate::fixed::lemma_fx_mul_bound(g as int, c as int, crate::ybus::Y_LIM as int, UNIT as int);
        crate::fixed::lemma_fx_mul_bound(b as int, sn as int, crate::ybus::Y_LIM as int, UNIT as int);
        crate::fixed::lemma_fx_mul_bound(g as int, sn as int, crate::ybus::Y_LIM as int, UNIT as int);
        crate::fixed::lemma_fx_mul_bound(b as int, c as int, crate::ybus::Y_LIM as int, UNIT as int);
    }
    let gc: i64 = crate::fixed::fxmul(g, c);
    let bs: i64 = crate::fixed::fxmul(b, sn);
    let gs: i64 = crate::fixed::fxmul(g, sn);
    let bc: i64 = crate::fixed::fxmul(b, c);
    let vv: i64 = crate::fixed::fxmul(vi, vk);
    proof {
        crate::fixed::lemma_fx_mul_fits(
            vv as int,
            (gs - bc) as int,
            16_000_000_000,
            2 * crate::ybus::Y_LIM as int,
        );
        crate::fixed::lemma_fx_mul_fits(
            vv as int,
            (gc + bs) as int,
            16_000_000_000,
            2 * crate::ybus::Y_LIM as int,
        );
        crate::fixed::lemma_fx_mul_bound(
            vv as int,
            (gs - bc) as int,
            16_000_000_000,
            2 * crate::ybus::Y_LIM as int,
        );
        crate::fixed::lemma_fx_mul_bound(
            vv as int,
            (gc + bs) as int,
            16_000_000_000,
            2 * crate::ybus::Y_LIM as int,
        );
        crate::fixed::lemma_fx_mul_fits(
            st.v@[pi as int] as int,
            (gc + bs) as int,
            V_HI as int,
            2 * crate::ybus::Y_LIM as int,
        );
        crate::fixed::lemma_fx_mul_fits(
            st.v@[pi as int] as int,
            (gs - bc) as int,
            V_HI as int,
            2 * crate::ybus::Y_LIM as int,
        );
    }
    if row < nns && col < nns {
        if pi == pk {
            let gd: i64 = prob.ybus.b[diag];
            proof {
                crate::fixed::lemma_fx_mul_fits(
                    vv as int,
                    gd as int,
                    16_000_000_000,
                    crate::ybus::Y_LIM as int,
                );
                crate::fixed::lemma_fx_mul_bound(
                    vv as int,
                    gd as int,
                    16_000_000_000,
                    crate::ybus::Y_LIM as int,
                );
            }
            -qc[pi] - crate::fixed::fxmul(vv, gd)
        } else {
            -crate::fixed::fxmul(vv, gs - bc)
        }
    } else if row < nns {
        if pi == pk {
            let gd: i64 = prob.ybus.g[diag];
            proof {
                crate::fixed::lemma_fx_div_fits(
                    pc@[pi as int] as int,
                    st.v@[pi as int] as int,
                    PCALC_LIM as int,
                    V_LO as int,
                );
                crate::fixed::lemma_fx_div_bound(
                    pc@[pi as int] as int,
                    st.v@[pi as int] as int,
                    PCALC_LIM as int,
                    V_LO as int,
                );
                crate::fixed::lemma_fx_mul_fits(
                    st.v@[pi as int] as int,
                    gd as int,
                    V_HI as int,
                    crate::ybus::Y_LIM as int,
                );
                crate::fixed::lemma_fx_mul_bound(
                    st.v@[pi as int] as int,
                    gd as int,
                    V_HI as int,
                    crate::ybus::Y_LIM as int,
                );
            }
            crate::fixed::fxdiv(pc[pi], vi) + crate::fixed::fxmul(vi, gd)
        } else {
            crate::fixed::fxmul(vi, gc + bs)
        }
    } else if col < nns {
        if pi == pk {
            let gd: i64 = prob.ybus.g[diag];
            proof {
                crate::fixed::lemma_fx_mul_fits(
                    vv as int,
                    gd as int,
                    16_000_000_000,
                    crate::ybus::Y_LIM as int,
                );
                crate::fixed::lemma_fx_mul_bound(
                    vv as int,
                    gd as int,
                    16_000_000_000,
                    crate::ybus::Y_LIM as int,
                );
            }
            pc[pi] - crate::fixed::fxmul(vv, gd)
        } else {
            crate::fixed::fxmul(vv, gc + bs)
        }
    } else {
        if pi == pk {
            let gd: i64 = prob.ybus.b[diag];
            proof {
                crate::fixed::lemma_fx_div_fits(
                    qc@[pi as int] as int,
                    st.v@[pi as int] as int,
                    PCALC_LIM as int,
                    V_LO as int,
                );
                crate::fixed::lemma_fx_div_bound(
                    qc@[pi as int] as int,
                    st.v@[pi as int] as int,
                    PCALC_LIM as int,
                    V_LO as int,
                );
                crate::fixed::lemma_fx_mul_fits(
                    st.v@[pi as int] as int,
                    gd as int,
                    V_HI as int,
                    crate::ybus::Y_LIM as int,
                );
                crate::fixed::lemma_fx_mul_bound(
                    st.v@[pi as int] as int,
                    gd as int,
                    V_HI as int,
                    crate::ybus::Y_LIM as int,
                );
            }
            crate::fixed::fxdiv(qc[pi], vi) - crate::fixed::fxmul(vi, gd)
        } else {
            crate::fixed::fxmul(vi, gs - bc)
        }
    }
}

/// Build the dense Jacobian, row-major, (n_ns + n_pq) square.
pub fn nr_jacobian(prob: &NrProblem, st: &NrState, tr: &TrigTable) -> (jac: Vec<i64>)
    requires
        kernel_ready(*prob, *st, *tr),
    ensures
        jac@.len() == (prob.n_ns + prob.n_pq) * (prob.n_ns + prob.n_pq),
        forall|row: int, col: int|
            0 <= row < prob.n_ns + prob.n_pq && 0 <= col < prob.n_ns + prob.n_pq
                ==> #[trigger] crate::ybus::dense_at(
                jac@,
                prob.n_ns + prob.n_pq,
                row,
                col,
            ) == jac_at(*prob, *st, *tr, row, col),
{
    let (pc, qc) = calc_powers(prob, st, tr);
    let nt: usize = prob.n_ns + prob.n_pq;
    proof {
        assert((nt as int) * (nt as int) <= 4_000_000) by (nonlinear_arith)
            requires
                nt <= 2000,
        ;
    }
    let mut jac: Vec<i64> = Vec::new();
    let mut row: usize = 0;
    while row < nt
        invariant
            kernel_ready(*prob, *st, *tr),
            nt == prob.n_ns + prob.n_pq,
            nt <= 2000,
            row <= nt,
            pc@.len() == prob.n_bus,
            qc@.len() == prob.n_bus,
            forall|q: int|
                0 <= q < prob.n_bus ==> (#[trigger] pc@[q]) as int == p_calc_at(*prob, *st, *tr, q),
            forall|q: int|
                0 <= q < prob.n_bus ==> (#[trigger] qc@[q]) as int == q_calc_at(*prob, *st, *tr, q),
            jac@.len() == row * nt,
            forall|r0: int, c0: int|
                0 <= r0 < row && 0 <= c0 < nt ==> #[trigger] crate::ybus::dense_at(
                    jac@,
                    nt as int,
                    r0,
                    c0,
                ) == jac_at(*prob, *st, *tr, r0, c0),
        decreases nt - row,
    {
        let mut col: usize = 0;
        while col < nt
            invariant
                kernel_ready(*prob, *st, *tr),
                nt == prob.n_ns + prob.n_pq,
                nt <= 2000,
                row < nt,
                col <= nt,
                pc@.len() == prob.n_bus,
                qc@.len() == prob.n_bus,
                forall|q: int|
                    0 <= q < prob.n_bus ==> (#[trigger] pc@[q]) as int == p_calc_at(
                        *prob,
                        *st,
                        *tr,
                        q,
                    ),
                forall|q: int|
                    0 <= q < prob.n_bus ==> (#[trigger] qc@[q]) as int == q_calc_at(
                        *prob,
                        *st,
                        *tr,
                        q,
                    ),
                jac@.len() == row * nt + col,
                forall|r0: int, c0: int|
                    0 <= r0 < row && 0 <= c0 < nt ==> #[trigger] crate::ybus::dense_at(
                        jac@,
                        nt as int,
                        r0,
                        c0,
                    ) == jac_at(*prob, *st, *tr, r0, c0),
                forall|c0: int|
                    0 <= c0 < col ==> #[trigger] crate::ybus::dense_at(
                        jac@,
                        nt as int,
                        row as int,
                        c0,
                    ) == jac_at(*prob, *st, *tr, row as int, c0),
            decreases nt - col,
        {
            proof {
                assert(0 <= (row as int) * (nt as int) + (col as int) < (nt as int) * (nt as int)
                    <= 4_000_000) by (nonlinear_arith)
                    requires
                        0 <= (row as int) < nt as int,
                        0 <= (col as int) < nt as int,
                        nt <= 2000,
                ;
            }
            let ghost before = jac@;
            let e: i64 = jac_entry(prob, st, tr, &pc, &qc, row, col);
            jac.push(e);
            proof {
                assert forall|r0: int, c0: int|
                    0 <= r0 <= row && 0 <= c0 < nt && (r0 < row || c0 <= col)
                        implies #[trigger] crate::ybus::dense_at(jac@, nt as int, r0, c0) == jac_at(
                    *prob,
                    *st,
                    *tr,
                    r0,
                    c0,
                ) by {
                    assert(0 <= r0 * (nt as int) + c0 < (nt as int) * (nt as int))
                        by (nonlinear_arith)
                        requires
                            0 <= r0 < nt as int,
                            0 <= c0 < nt as int,
                            nt <= 2000,
                    ;
                    if r0 * (nt as int) + c0 == (row as int) * (nt as int) + (col as int) {
                        crate::ybus::lemma_rowmajor_inj(r0, c0, row as int, col as int, nt as int);
                    } else {
                        assert(r0 * (nt as int) + c0 < (row as int) * (nt as int) + (col as int))
                            by (nonlinear_arith)
                            requires
                                0 <= r0 <= row as int,
                                0 <= c0 < nt as int,
                                r0 < row as int || c0 <= col as int,
                                r0 * (nt as int) + c0 != (row as int) * (nt as int) + (
                                col as int),
                                0 <= col as int,
                        ;
                        assert(crate::ybus::dense_at(jac@, nt as int, r0, c0) == crate::ybus::dense_at(
                            before,
                            nt as int,
                            r0,
                            c0,
                        ));
                    }
                }
            }
            col = col + 1;
        }
        proof {
            assert((row as int + 1) * (nt as int) == (row as int) * (nt as int) + (nt as int))
                by (nonlinear_arith);
        }
        row = row + 1;
    }
    proof {
        assert((nt as int) * (nt as int) == jac@.len());
    }
    jac
}


/// How many correction slots a bus consumes in the update walk: one
/// for the angle of each non-slack bus, one more for the voltage of
/// a PQ bus.
pub open spec fn slots_of(b: Bus) -> int {
    if b.bus_type == BusType::Slack {
        0
    } else if b.bus_type == BusType::PQ {
        2
    } else {
        1
    }
}

/// Correction slots consumed by the whole bus list.
pub open spec fn slot_total(buses: Seq<Bus>) -> int
    decreases buses.len(),
{
    if buses.len() == 0 {
        0
    } else {
        slot_total(buses.drop_last()) + slots_of(buses.last())
    }
}

/// First correction slot of bus k.
pub open spec fn slot_base(buses: Seq<Bus>, k: int) -> int {
    slot_total(buses.take(k))
}

/// The walk consumes one slot per non-slack bus plus one per PQ bus.
pub proof fn lemma_slot_total(buses: Seq<Bus>)
    ensures
        slot_total(buses) == ns_total(buses) + pq_total(buses),
        slot_total(buses) >= 0,
    decreases buses.len(),
{
    if buses.len() > 0 {
        lemma_slot_total(buses.drop_last());
    }
}

proof fn lemma_slot_step(buses: Seq<Bus>, k: int)
    requires
        0 <= k < buses.len(),
    ensures
        slot_base(buses, k + 1) == slot_base(buses, k) + slots_of(buses[k]),
        0 <= slot_base(buses, k),
        slot_base(buses, k + 1) <= slot_total(buses),
{
    assert(buses.take(k + 1).drop_last() =~= buses.take(k));
    assert(buses.take(k + 1).last() == buses[k]);
    lemma_slot_take_le(buses, k + 1);
    lemma_slot_take_le(buses, k);
}

proof fn lemma_slot_take_le(buses: Seq<Bus>, k: int)
    requires
        0 <= k <= buses.len(),
    ensures
        0 <= slot_total(buses.take(k)) <= slot_total(buses),
    decreases buses.len(),
{
    if k == buses.len() {
        assert(buses.take(k) =~= buses);
        lemma_slot_total(buses);
    } else if buses.len() > 0 {
        lemma_slot_take_le(buses.drop_last(), k);
        assert(buses.drop_last().take(k) =~= buses.take(k));
    }
}

/// Largest magnitude among the first k correction components.
pub open spec fn max_abs(x: Seq<i64>, k: int) -> int
    decreases k,
{
    if k <= 0 {
        0
    } else {
        let m = max_abs(x, k - 1);
        if iabs(x[k - 1] as int) > m {
            iabs(x[k - 1] as int)
        } else {
            m
        }
    }
}

/// The angle a bus holds after the update walk.
pub open spec fn upd_delta(buses: Seq<Bus>, st: NrState, x: Seq<i64>, k: int) -> int {
    if is_nonslack(buses[k]) {
        st.delta@[k] as int + x[slot_base(buses, k)] as int
    } else {
        st.delta@[k] as int
    }
}

/// The voltage a bus holds after the update walk: PQ buses are
/// scaled by (1 + relative correction).
pub open spec fn upd_v(buses: Seq<Bus>, st: NrState, x: Seq<i64>, k: int) -> int {
    if is_pq(buses[k]) {
        fx_mul(st.v@[k] as int, UNIT as int + x[slot_base(buses, k) + 1] as int)
    } else {
        st.v@[k] as int
    }
}

/// Whether every updated value stays inside the representable
/// windows.
pub open spec fn update_in_range(buses: Seq<Bus>, st: NrState, x: Seq<i64>) -> bool {
    forall|k: int|
        #![trigger upd_delta(buses, st, x, k)]
        #![trigger upd_v(buses, st, x, k)]
        0 <= k < buses.len() ==> (iabs(upd_delta(buses, st, x, k)) <= DELTA_LIM as int
            && V_LO as int <= upd_v(buses, st, x, k) <= V_HI as int)
}


/// Update one PQ bus from its two corrections: the angle step and
/// the relative-voltage step.  `None` when a result leaves its
/// window; otherwise the new angle, the new voltage, and the
/// running correction maximum folded over both steps.
fn update_pq(delta: i64, v: i64, dx: i64, vx: i64, maxc: i64) -> (r: Option<(i64, i64, i64)>)
    requires
        iabs(delta as int) <= DELTA_LIM as int,
        V_LO <= v <= V_HI,
        iabs(dx as int) <= CORR_LIM as int,
        iabs(vx as int) <= CORR_LIM as int,
        0 <= maxc,
    ensures
        match r {
            Some(out) => {
                &&& out.0 as int == delta as int + dx as int
                &&& iabs(out.0 as int) <= DELTA_LIM as int
                &&& out.1 as int == fx_mul(v as int, UNIT as int + vx as int)
                &&& V_LO <= out.1 <= V_HI
                &&& out.2 as int == max2(max2(maxc as int, iabs(dx as int)), iabs(vx as int))
                &&& out.2 >= 0
            },
            None => iabs(delta as int + dx as int) > DELTA_LIM as int || !(V_LO as int <= fx_mul(
                v as int,
                UNIT as int + vx as int,
            ) <= V_HI as int),
        },
{
    let newd: i64 = delta + dx;
    if newd > DELTA_LIM || newd < -DELTA_LIM {
        return None;
    }
    proof {
        crate::fixed::lemma_fx_mul_fits(
            v as int,
            UNIT as int + vx as int,
            V_HI as int,
            UNIT as int + CORR_LIM as int,
        );
    }
    let newv: i64 = crate::fixed::fxmul(v, UNIT + vx);
    if newv < V_LO || newv > V_HI {
        return None;
    }
    let adx: i64 = if dx < 0 {
        -dx
    } else {
        dx
    };
    let avx: i64 = if vx < 0 {
        -vx
    } else {
        vx
    };
    let m1: i64 = if adx > maxc {
        adx
    } else {
        maxc
    };
    let m2: i64 = if avx > m1 {
        avx
    } else {
        m1
    };
    Some((newd, newv, m2))
}

/// Update one non-slack, non-PQ bus from its single angle step.
fn update_angle(delta: i64, dx: i64, maxc: i64) -> (r: Option<(i64, i64)>)
    requires
        iabs(delta as int) <= DELTA_LIM as int,
        iabs(dx as int) <= CORR_LIM as int,
        0 <= maxc,
    ensures
        match r {
            Some(out) => {
                &&& out.0 as int == delta as int + dx as int
                &&& iabs(out.0 as int) <= DELTA_LIM as int
                &&& out.1 as int == max2(maxc as int, iabs(dx as int))
                &&& out.1 >= 0
            },
            None => iabs(delta as int + dx as int) > DELTA_LIM as int,
        },
{
    let newd: i64 = delta + dx;
    if newd > DELTA_LIM || newd < -DELTA_LIM {
        return None;
    }
    let adx: i64 = if dx < 0 {
        -dx
    } else {
        dx
    };
    let m1: i64 = if adx > maxc {
        adx
    } else {
        maxc
    };
    Some((newd, m1))
}

/// The larger of two integers.
pub open spec fn max2(a: int, b: int) -> int {
    if a >= b {
        a
    } else {
        b
    }
}

impl Network {
    /// Apply a correction vector, walking the buses in insertion
    /// order: each non-slack bus consumes an angle slot, each PQ bus
    /// a voltage slot right after it.  Returns the largest
    /// correction magnitude, or `None` — leaving the state untouched
    /// — exactly when an updated value would leave its window.
    #[verifier::rlimit(100)]
    #[verifier::spinoff_prover]
    pub fn nr_apply_update(&self, st: &mut NrState, x: &Vec<i64>) -> (r: Option<i64>)
        requires
            self.wf(),
            state_ok(self.buses@, *old(st)),
            x@.len() == ns_total(self.buses@) + pq_total(self.buses@),
            forall|q: int| 0 <= q < x@.len() ==> iabs((#[trigger] x@[q]) as int) <= CORR_LIM as int,
        ensures
            match r {
                Some(maxc) => {
                    &&& update_in_range(self.buses@, *old(st), x@)
                    &&& state_ok(self.buses@, *final(st))
                    &&& final(st).v@.len() == self.buses@.len()
                    &&& final(st).delta@.len() == self.buses@.len()
                    &&& forall|k: int|
                        0 <= k < self.buses@.len() ==> (#[trigger] final(st).delta@[k]) as int
                            == upd_delta(self.buses@, *old(st), x@, k)
                    &&& forall|k: int|
                        0 <= k < self.buses@.len() ==> (#[trigger] final(st).v@[k]) as int == upd_v(
                            self.buses@,
                            *old(st),
                            x@,
                            k,
                        )
                    &&& maxc as int == max_abs(x@, x@.len() as int)
                },
                None => *final(st) == *old(st) && !update_in_range(self.buses@, *old(st), x@),
            },
    {
        let n: usize = self.buses.len();
        let xl: usize = x.len();
        proof {
            lemma_slot_total(self.buses@);
            assert(self.buses@.take(0) =~= Seq::<Bus>::empty());
        }
        let mut nd: Vec<i64> = Vec::new();
        let mut nv: Vec<i64> = Vec::new();
        let mut c: usize = 0;
        let mut maxc: i64 = 0;
        let mut k: usize = 0;
        while k < n
            invariant
                state_ok(self.buses@, *st),
                *st == *old(st),
                n == self.buses@.len(),
                xl == x@.len(),
                x@.len() == slot_total(self.buses@),
                forall|q: int|
                    0 <= q < x@.len() ==> iabs((#[trigger] x@[q]) as int) <= CORR_LIM as int,
                k <= n,
                c as int == slot_base(self.buses@, k as int),
                nd@.len() == k,
                nv@.len() == k,
                forall|q: int|
                    0 <= q < k ==> (#[trigger] nd@[q]) as int == upd_delta(
                        self.buses@,
                        *old(st),
                        x@,
                        q,
                    ),
                forall|q: int|
                    0 <= q < k ==> (#[trigger] nv@[q]) as int == upd_v(
                        self.buses@,
                        *old(st),
                        x@,
                        q,
                    ),
                forall|q: int|
                    0 <= q < k ==> iabs((#[trigger] nd@[q]) as int) <= DELTA_LIM as int,
                forall|q: int| 0 <= q < k ==> V_LO <= (#[trigger] nv@[q]) <= V_HI,
                0 <= maxc,
                maxc as int == max_abs(x@, c as int),
            decreases n - k,
        {
            proof {
                lemma_slot_step(self.buses@, k as int);
            }
            let bus = &self.buses[k];
            if matches!(bus.bus_type, BusType::Slack) {
                nd.push(st.delta[k]);
                nv.push(st.v[k]);
            } else if matches!(bus.bus_type, BusType::PQ) {
                match update_pq(st.delta[k], st.v[k], x[c], x[c + 1], maxc) {
                    Some((newd, newv, m2)) => {
                        proof {
                            assert(max_abs(x@, c as int + 1) == max2(
                                max_abs(x@, c as int),
                                iabs(x@[c as int] as int),
                            ));
                            assert(max_abs(x@, c as int + 2) == max2(
                                max_abs(x@, c as int + 1),
                                iabs(x@[c as int + 1] as int),
                            ));
                        }
                        nd.push(newd);
                        nv.push(newv);
                        maxc = m2;
                        c = c + 2;
                    },
                    None => {
                        proof {
                            assert(!update_in_range(self.buses@, *old(st), x@)) by {
                                assert(upd_delta(self.buses@, *old(st), x@, k as int)
                                    == st.delta@[k as int] as int + x@[c as int] as int);
                                assert(upd_v(self.buses@, *old(st), x@, k as int) == fx_mul(
                                    st.v@[k as int] as int,
                                    UNIT as int + x@[c as int + 1] as int,
                                ));
                            }
                        }
                        return None;
                    },
                }
            } else {
                match update_angle(st.delta[k], x[c], maxc) {
                    Some((newd, m2)) => {
                        proof {
                            assert(max_abs(x@, c as int + 1) == max2(
                                max_abs(x@, c as int),
                                iabs(x@[c as int] as int),
                            ));
                        }
                        nd.push(newd);
                        nv.push(st.v[k]);
                        maxc = m2;
                        c = c + 1;
                    },
                    None => {
                        proof {
                            assert(!update_in_range(self.buses@, *old(st), x@)) by {
                                assert(upd_delta(self.buses@, *old(st), x@, k as int)
                                    == st.delta@[k as int] as int + x@[c as int] as int);
                            }
                        }
                        return None;
                    },
                }
            }
            k = k + 1;
        }
        proof {
            assert(self.buses@.take(n as int) =~= self.buses@);
            assert(c as int == slot_total(self.buses@));
            assert forall|k0: int| 0 <= k0 < self.buses@.len() implies (iabs(
                #[trigger] upd_delta(self.buses@, *old(st), x@, k0),
            ) <= DELTA_LIM as int && V_LO as int <= #[trigger] upd_v(self.buses@, *old(st), x@, k0)
                <= V_HI as int) by {
                assert(nd@[k0] as int == upd_delta(self.buses@, *old(st), x@, k0));
                assert(nv@[k0] as int == upd_v(self.buses@, *old(st), x@, k0));
            }
        }
        st.delta = nd;
        st.v = nv;
        proof {
            assert forall|k0: int| 0 <= k0 < self.buses@.len() implies (
            #[trigger] st.delta@[k0]) as int == upd_delta(self.buses@, *old(st), x@, k0) && (
            #[trigger] st.v@[k0]) as int == upd_v(self.buses@, *old(st), x@, k0) by {
                assert(st.delta@[k0] == nd@[k0]);
                assert(st.v@[k0] == nv@[k0]);
            }
            assert(state_ok(self.buses@, *st)) by {
                assert forall|k0: int|
                    0 <= k0 < self.buses@.len() && (#[trigger] self.buses@[k0]).bus_type
                        == BusType::Slack implies st.v@[k0] == UNIT && st.delta@[k0] == 0 by {
                    assert(st.delta@[k0] as int == upd_delta(self.buses@, *old(st), x@, k0));
                    assert(st.v@[k0] as int == upd_v(self.buses@, *old(st), x@, k0));
                    assert(!is_nonslack(self.buses@[k0]));
                    assert(!is_pq(self.buses@[k0]));
                }
            }
            assert(maxc as int == max_abs(x@, x@.len() as int));
        }
        Some(maxc)
    }

    /// Assemble the solution record from a converged state: per-bus
    /// voltage magnitudes and angles in degrees.  The slack bus
    /// reports V = 1 pu and an angle of exactly zero.
    pub fn nr_solution(&self, st: &NrState, log: Vec<String>) -> (s: AcSolution)
        requires
            self.wf(),
            state_ok(self.buses@, *st),
        ensures
            s.bus_voltages@.len() == self.buses@.len(),
            s.bus_angles@.len() == self.buses@.len(),
            forall|k: int|
                0 <= k < self.buses@.len() ==> (#[trigger] s.bus_voltages@[k]).0
                    == self.buses@[k].bus_id && s.bus_voltages@[k].1 == st.v@[k],
            forall|k: int|
                0 <= k < self.buses@.len() ==> (#[trigger] s.bus_angles@[k]).0
                    == self.buses@[k].bus_id && s.bus_angles@[k].1 as int == fx_mul(
                    st.delta@[k] as int,
                    crate::fixed::RAD_TO_DEG as int,
                ),
            forall|k: int|
                0 <= k < self.buses@.len() && (#[trigger] self.buses@[k]).bus_type
                    == BusType::Slack ==> s.bus_voltages@[k].1 == UNIT && s.bus_angles@[k].1 == 0,
            s.log@ == log@,
    {
        let mut bus_voltages: Vec<(usize, i64)> = Vec::new();
        let mut bus_angles: Vec<(usize, i64)> = Vec::new();
        let mut k: usize = 0;
        while k < self.buses.len()
            invariant
                self.wf(),
                state_ok(self.buses@, *st),
                k <= self.buses@.len(),
                bus_voltages@.len() == k,
                bus_angles@.len() == k,
                forall|q: int|
                    0 <= q < k ==> (#[trigger] bus_voltages@[q]).0 == self.buses@[q].bus_id
                        && bus_voltages@[q].1 == st.v@[q],
                forall|q: int|
                    0 <= q < k ==> (#[trigger] bus_angles@[q]).0 == self.buses@[q].bus_id
                        && bus_angles@[q].1 as int == fx_mul(
                        st.delta@[q] as int,
                        crate::fixed::RAD_TO_DEG as int,
                    ),
            decreases self.buses@.len() - k,
        {
            let bus = &self.buses[k];
            proof {
                crate::fixed::lemma_fx_mul_fits(
                    st.delta@[k as int] as int,
                    crate::fixed::RAD_TO_DEG as int,
                    DELTA_LIM as int,
                    crate::fixed::RAD_TO_DEG as int,
                );
            }
            let deg: i64 = crate::fixed::fxmul(st.delta[k], crate::fixed::RAD_TO_DEG);
            bus_voltages.push((bus.bus_id, st.v[k]));
            bus_angles.push((bus.bus_id, deg));
            k = k + 1;
        }
        proof {
            assert forall|k0: int|
                0 <= k0 < self.buses@.len() && (#[trigger] self.buses@[k0]).bus_type
                    == BusType::Slack implies bus_voltages@[k0].1 == UNIT && bus_angles@[k0].1
                == 0 by {
                assert(st.delta@[k0] == 0i64);
                assert(0 * (crate::fixed::RAD_TO_DEG as int) == 0);
                assert(fx_mul(0, crate::fixed::RAD_TO_DEG as int) == 0);
            }
        }
        AcSolution { bus_voltages, bus_angles, log }
    }
}

proof fn lemma_slack_count_take(buses: Seq<Bus>, e: int)
    requires
        0 <= e <= buses.len(),
    ensures
        slack_count(buses.take(e)) <= slack_count(buses),
        slack_count(buses) >= 0,
    decreases buses.len(),
{
    if e == buses.len() {
        assert(buses.take(e) =~= buses);
        lemma_slack_nonneg(buses);
    } else if buses.len() > 0 {
        lemma_slack_count_take(buses.drop_last(), e);
        assert(buses.drop_last().take(e) =~= buses.take(e));
        lemma_slack_nonneg(buses);
    }
}

proof fn lemma_slack_nonneg(buses: Seq<Bus>)
    ensures
        slack_count(buses) >= 0,
    decreases buses.len(),
{
    if buses.len() > 0 {
        lemma_slack_nonneg(buses.drop_last());
    }
}

} // verus!
