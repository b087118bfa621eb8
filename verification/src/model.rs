//! Network data model: buses, branches, generators, loads, shunts,
//! areas and zones, and the `Network` container with its
//! well-formedness invariant.
//!
//! All electrical quantities are `i64` counts of nano per-unit (see
//! `fixed`); megawatt and megavar fields are counts of nano megawatt
//! on the same scale.  Angles on a `Bus` are stored in degrees, as
//! they are reported; solvers convert to radians internally.

use vstd::prelude::*;

use crate::fixed::{iabs, UNIT};
use crate::index::IndexTable;

verus! {

/// Most buses a well-formed network may hold.
pub const N_BUS_MAX: usize = 1_000;

/// Most entries each device list (branches, loads, generators,
/// shunts) of a well-formed network may hold.
pub const N_DEV_MAX: usize = 10_000;

/// Magnitude cap on device quantities (powers, loads, shunt
/// admittances): 1e5 pu in counts.
pub const QTY_LIM: i64 = 100_000_000_000_000;

/// Magnitude cap on branch resistance and reactance: 1e4 pu.
pub const IMP_LIM: i64 = 10_000_000_000_000;

/// Smallest non-zero branch reactance magnitude: 1e-4 pu.
pub const X_EPS: i64 = 100_000;

/// Voltage magnitude window for stored bus voltages: 0.5 pu.
pub const V_LO: i64 = 500_000_000;

/// Voltage magnitude window for stored bus voltages: 4.0 pu.
pub const V_HI: i64 = 4_000_000_000;

/// Magnitude cap on a stored bus angle, in degrees: 360 degrees.
pub const ANGLE_DEG_LIM: i64 = 360_000_000_000;

/// System base bounds: at least 1 MVA, at most 1000 MVA.
pub const SBASE_MIN: i64 = 1_000_000_000;

/// System base bounds: at least 1 MVA, at most 1000 MVA.
pub const SBASE_MAX: i64 = 1_000_000_000_000;

#[derive(Clone, Copy, Debug, PartialEq, Eq, Structural)]
pub enum BusType {
    /// Slack, swing, reference bus.
    Slack,
    /// Load bus.
    PQ,
    /// Generator bus.
    PV,
    /// Out of service.
    OOS,
}

#[derive(Clone, Copy, Debug, PartialEq, Eq, Structural)]
pub enum BranchType {
    Line,
    TwoWinding,
}

#[derive(Debug, Clone)]
pub struct Bus {
    // Identifiers
    pub bus_id: usize,
    pub bus_name: String,
    pub bus_type: BusType,
    pub nom_voltage: i64,
    pub bus_status: bool,
    // Voltage (magnitude in pu counts, angle in degree counts)
    pub voltage: i64,
    pub angle: i64,
    // Shunts
    pub real_shunt: i64,
    pub imag_shunt: i64,
    // Limits
    pub v_min_operating: i64,
    pub v_min_contingency: i64,
    pub v_max_operating: i64,
    pub v_max_contingency: i64,
}

impl Bus {
    pub fn new(bus_id: usize, bus_name: String, bus_type: BusType) -> (b: Bus)
        ensures
            b.bus_id == bus_id,
            b.bus_name == bus_name,
            b.bus_type == bus_type,
            b.bus_status == (bus_type != BusType::OOS),
            b.nom_voltage == 0,
            b.voltage == UNIT,
            b.angle == 0,
            b.real_shunt == 0,
            b.imag_shunt == 0,
            b.v_min_operating == 900_000_000i64,
            b.v_min_contingency == 950_000_000i64,
            b.v_max_operating == 1_050_000_000i64,
            b.v_max_contingency == 1_100_000_000i64,
    {
        Bus {
            bus_id,
            bus_name,
            bus_status: bus_type != BusType::OOS,
            bus_type,
            nom_voltage: 0,
            voltage: UNIT,
            angle: 0,
            real_shunt: 0,
            imag_shunt: 0,
            v_min_operating: 900_000_000,
            v_min_contingency: 950_000_000,
            v_max_operating: 1_050_000_000,
            v_max_contingency: 1_100_000_000,
        }
    }
}

#[derive(Debug, Clone)]
pub struct Load {
    pub load_id: usize,
    pub bus_id: usize,
    pub load_name: String,
    pub real_load: i64,
    pub imag_load: i64,
}

impl Load {
    pub fn new(load_id: usize, bus_id: usize, load_name: String, real_load: i64, imag_load: i64) -> (l: Load)
        ensures
            l.load_id == load_id,
            l.bus_id == bus_id,
            l.load_name == load_name,
            l.real_load == real_load,
            l.imag_load == imag_load,
    {
        Load { load_id, bus_id, load_name, real_load, imag_load }
    }
}

#[derive(Debug, Clone)]
pub struct Branch {
    // Identifiers
    pub branch_type: BranchType,
    pub id: usize,
    pub from_bus: usize,
    pub to_bus: usize,
    pub branch_name: String,
    pub branch_status: bool,
    // Impedance data
    pub resistance: i64,
    pub reactance: i64,
    pub from_shunt_conductance: i64,
    pub from_shunt_susceptance: i64,
    pub to_shunt_conductance: i64,
    pub to_shunt_susceptance: i64,
    // Transformer data
    pub tap_ratio: i64,
    pub phase_shift: i64,
    // Limits
    pub operating_limit: i64,
    pub contingency_limit: i64,
}

impl Branch {
    pub fn new(
        id: usize,
        from_bus: usize,
        to_bus: usize,
        branch_type: BranchType,
        resistance: i64,
        reactance: i64,
    ) -> (b: Branch)
        ensures
            b.id == id,
            b.from_bus == from_bus,
            b.to_bus == to_bus,
            b.branch_type == branch_type,
            b.branch_name@ == Seq::<char>::empty(),
            b.branch_status == true,
            b.resistance == resistance,
            b.reactance == reactance,
            b.from_shunt_conductance == 0,
            b.from_shunt_susceptance == 0,
            b.to_shunt_conductance == 0,
            b.to_shunt_susceptance == 0,
            b.tap_ratio == UNIT,
            b.phase_shift == 0,
            b.operating_limit == 0,
            b.contingency_limit == 0,
    {
        Branch {
            id,
            from_bus,
            to_bus,
            branch_type,
            branch_name: String::new(),
            branch_status: true,
            resistance,
            reactance,
            from_shunt_conductance: 0,
            from_shunt_susceptance: 0,
            to_shunt_conductance: 0,
            to_shunt_susceptance: 0,
            tap_ratio: UNIT,
            phase_shift: 0,
            operating_limit: 0,
            contingency_limit: 0,
        }
    }
}

#[derive(Debug, Clone)]
pub struct Generator {
    // Identifiers
    pub gen_id: usize,
    pub gen_bus_id: usize,
    pub gen_name: String,
    pub gen_status: bool,
    // Setpoints
    pub p_gen: i64,
    pub q_gen: i64,
    pub v_setpoint: i64,
    // Limits
    pub p_min: i64,
    pub p_max: i64,
    pub q_min: i64,
    pub q_max: i64,
}

impl Generator {
    pub fn new(gen_id: usize, gen_bus_id: usize, gen_name: String) -> (g: Generator)
        ensures
            g.gen_id == gen_id,
            g.gen_bus_id == gen_bus_id,
            g.gen_name == gen_name,
            g.gen_status == true,
            g.p_gen == 0,
            g.q_gen == 0,
            g.v_setpoint == UNIT,
            g.p_min == 0,
            g.p_max == 0,
            g.q_min == 0,
            g.q_max == 0,
    {
        Generator {
            gen_id,
            gen_bus_id,
            gen_name,
            gen_status: true,
            p_gen: 0,
            q_gen: 0,
            v_setpoint: UNIT,
            p_min: 0,
            p_max: 0,
            q_min: 0,
            q_max: 0,
        }
    }
}

/// Fixed shunt at a bus.  `gl` and `bl` are nano megawatt and nano
/// megavar counts at 1.0 pu voltage on the system MVA base.
#[derive(Debug, Clone)]
pub struct FixedShunt {
    pub bus_id: usize,
    pub shunt_id: String,
    pub status: bool,
    /// Active component at 1.0 pu voltage.
    pub gl: i64,
    /// Reactive component at 1.0 pu voltage (positive = capacitive).
    pub bl: i64,
}

/// Switched shunt (capacitor/reactor bank) at a bus.
/// `steps` holds (count, susceptance-per-step) pairs per bank block.
#[derive(Debug, Clone)]
pub struct SwitchedShunt {
    pub bus_id: usize,
    /// 0 = fixed, 1 = discrete, 2 = continuous.
    pub modsw: u8,
    pub status: bool,
    /// Upper voltage limit (pu counts).
    pub v_hi: i64,
    /// Lower voltage limit (pu counts).
    pub v_lo: i64,
    /// 0 = local control.
    pub remote_bus: usize,
    /// Initial susceptance (pu counts on the system base).
    pub b_init: i64,
    /// (count, susceptance-per-step) bank blocks, at most 8.
    pub steps: Vec<(i32, i64)>,
}

/// Aggregate bank susceptance over the step blocks whose step count
/// has the selected sign: the capacitive banks when `pos`, the
/// inductive ones otherwise.
pub open spec fn banks_sum(steps: Seq<(i32, i64)>, pos: bool) -> int
    decreases steps.len(),
{
    if steps.len() == 0 {
        0
    } else {
        let t = steps.last();
        let term: int = if pos && t.0 > 0 {
            t.0 * t.1
        } else if !pos && t.0 < 0 {
            t.0 * t.1
        } else {
            0
        };
        banks_sum(steps.drop_last(), pos) + term
    }
}

/// Step blocks small enough for exact 64-bit bank sums.
pub open spec fn switched_shunt_wf(s: SwitchedShunt) -> bool {
    &&& s.steps@.len() <= 8
    &&& forall|k: int|
        0 <= k < s.steps@.len() ==> iabs(#[trigger] s.steps@[k].0 as int) <= 1000 && iabs(
            s.steps@[k].1 as int,
        ) <= QTY_LIM as int
}

proof fn lemma_banks_sum_bound(steps: Seq<(i32, i64)>, pos: bool)
    requires
        forall|k: int|
            0 <= k < steps.len() ==> iabs(#[trigger] steps[k].0 as int) <= 1000 && iabs(
                steps[k].1 as int,
            ) <= QTY_LIM as int,
    ensures
        iabs(banks_sum(steps, pos)) <= steps.len() * 1000 * (QTY_LIM as int),
    decreases steps.len(),
{
    if steps.len() > 0 {
        lemma_banks_sum_bound(steps.drop_last(), pos);
        let t = steps.last();
        assert(iabs(t.0 as int * t.1 as int) <= 1000 * (QTY_LIM as int)) by (nonlinear_arith)
            requires
                iabs(t.0 as int) <= 1000,
                iabs(t.1 as int) <= QTY_LIM as int,
        ;
    }
}

impl SwitchedShunt {
    fn banks_total(&self, pos: bool) -> (r: i64)
        requires
            switched_shunt_wf(*self),
        ensures
            r as int == banks_sum(self.steps@, pos),
    {
        let mut acc: i64 = 0;
        let mut i: usize = 0;
        while i < self.steps.len()
            invariant
                switched_shunt_wf(*self),
                i <= self.steps@.len(),
                acc as int == banks_sum(self.steps@.take(i as int), pos),
            decreases self.steps@.len() - i,
        {
            proof {
                assert(self.steps@.take(i as int + 1).drop_last() =~= self.steps@.take(i as int));
                assert(forall|k: int|
                    0 <= k < self.steps@.take(i as int).len() ==> iabs(
                        #[trigger] self.steps@.take(i as int)[k].0 as int,
                    ) <= 1000 && iabs(self.steps@.take(i as int)[k].1 as int) <= QTY_LIM as int);
                lemma_banks_sum_bound(self.steps@.take(i as int), pos);
                assert(iabs(self.steps@[i as int].0 as int * self.steps@[i as int].1 as int) <= 1000
                    * (QTY_LIM as int)) by (nonlinear_arith)
                    requires
                        iabs(self.steps@[i as int].0 as int) <= 1000,
                        iabs(self.steps@[i as int].1 as int) <= QTY_LIM as int,
                ;
            }
            let (n, b) = self.steps[i];
            if pos && n > 0 {
                acc = acc + (n as i64) * b;
            } else if !pos && n < 0 {
                acc = acc + (n as i64) * b;
            }
            i = i + 1;
        }
        proof {
            assert(self.steps@.take(self.steps@.len() as int) =~= self.steps@);
        }
        acc
    }

    /// Total maximum susceptance available (most capacitive banks
    /// fully in).
    pub fn b_max(&self) -> (r: i64)
        requires
            switched_shunt_wf(*self),
        ensures
            r as int == banks_sum(self.steps@, true),
    {
        self.banks_total(true)
    }

    /// Total minimum susceptance available (most inductive banks
    /// fully in).
    pub fn b_min(&self) -> (r: i64)
        requires
            switched_shunt_wf(*self),
        ensures
            r as int == banks_sum(self.steps@, false),
    {
        self.banks_total(false)
    }
}

/// Power system area with interchange scheduling data.
#[derive(Debug, Clone)]
pub struct Area {
    pub area_id: usize,
    /// Area slack bus (0 = use system slack).
    pub slack_bus: usize,
    /// Desired net export, nano megawatt counts.
    pub p_desired: i64,
    /// Interchange tolerance, nano megawatt counts.
    pub p_tolerance: i64,
    pub area_name: String,
}

/// Electrical zone (grouping of buses for zonal analysis).
#[derive(Debug, Clone)]
pub struct Zone {
    pub zone_id: usize,
    pub zone_name: String,
}

#[derive(Debug, Clone)]
pub struct Network {
    pub case_name: String,
    pub s_base: i64,
    pub frequency: i64,
    pub buses: Vec<Bus>,
    pub branches: Vec<Branch>,
    pub loads: Vec<Load>,
    pub generators: Vec<Generator>,
    pub fixed_shunts: Vec<FixedShunt>,
    pub switched_shunts: Vec<SwitchedShunt>,
    pub areas: Vec<Area>,
    pub zones: Vec<Zone>,
    /// bus_id -> matrix index (slack excluded); rebuild after any bus
    /// change.
    pub bus_map: IndexTable,
}

/// No two buses share an id.
pub open spec fn distinct_ids(buses: Seq<Bus>) -> bool {
    forall|i: int, j: int|
        0 <= i < j < buses.len() ==> (#[trigger] buses[i].bus_id) != (#[trigger] buses[j].bus_id)
}

/// Some bus carries this id.
pub open spec fn has_id(buses: Seq<Bus>, id: int) -> bool {
    exists|k: int| 0 <= k < buses.len() && (#[trigger] buses[k].bus_id) as int == id
}

impl Network {
    /// New, empty case.
    pub fn new(case_name: String, s_base: i64, frequency: i64) -> (n: Network)
        ensures
            n.case_name == case_name,
            n.s_base == s_base,
            n.frequency == frequency,
            n.buses@ =~= Seq::<Bus>::empty(),
            n.branches@ =~= Seq::<Branch>::empty(),
            n.loads@ =~= Seq::<Load>::empty(),
            n.generators@ =~= Seq::<Generator>::empty(),
            n.fixed_shunts@ =~= Seq::<FixedShunt>::empty(),
            n.switched_shunts@ =~= Seq::<SwitchedShunt>::empty(),
            n.areas@ =~= Seq::<Area>::empty(),
            n.zones@ =~= Seq::<Zone>::empty(),
            n.bus_map@ =~= Map::<int, int>::empty(),
    {
        Network {
            case_name,
            s_base,
            frequency,
            buses: Vec::new(),
            branches: Vec::new(),
            loads: Vec::new(),
            generators: Vec::new(),
            fixed_shunts: Vec::new(),
            switched_shunts: Vec::new(),
            areas: Vec::new(),
            zones: Vec::new(),
            bus_map: IndexTable::new(),
        }
    }

    /// Bounds under which every arithmetic step of the solvers stays
    /// exact in 64 bits, and the referential invariants the solvers
    /// assume: unique positive bus ids, and every device attached to
    /// an existing bus.
    pub open spec fn wf(self) -> bool {
        &&& self.buses@.len() <= N_BUS_MAX as int
        &&& self.branches@.len() <= N_DEV_MAX as int
        &&& self.loads@.len() <= N_DEV_MAX as int
        &&& self.generators@.len() <= N_DEV_MAX as int
        &&& self.fixed_shunts@.len() <= N_DEV_MAX as int
        &&& self.switched_shunts@.len() <= N_DEV_MAX as int
        &&& SBASE_MIN <= self.s_base <= SBASE_MAX
        &&& distinct_ids(self.buses@)
        &&& forall|i: int|
            0 <= i < self.buses@.len() ==> {
                let b = #[trigger] self.buses@[i];
                &&& b.bus_id >= 1
                &&& V_LO <= b.voltage <= V_HI
                &&& iabs(b.angle as int) <= ANGLE_DEG_LIM as int
                &&& iabs(b.real_shunt as int) <= QTY_LIM as int
                &&& iabs(b.imag_shunt as int) <= QTY_LIM as int
            }
        &&& forall|i: int|
            0 <= i < self.branches@.len() ==> {
                let br = #[trigger] self.branches@[i];
                &&& iabs(br.resistance as int) <= IMP_LIM as int
                &&& iabs(br.reactance as int) <= IMP_LIM as int
                &&& (br.reactance == 0 || iabs(br.reactance as int) >= X_EPS as int)
                &&& iabs(br.from_shunt_conductance as int) <= QTY_LIM as int
                &&& iabs(br.from_shunt_susceptance as int) <= QTY_LIM as int
                &&& iabs(br.to_shunt_conductance as int) <= QTY_LIM as int
                &&& iabs(br.to_shunt_susceptance as int) <= QTY_LIM as int
                &&& has_id(self.buses@, br.from_bus as int)
                &&& has_id(self.buses@, br.to_bus as int)
            }
        &&& forall|i: int|
            0 <= i < self.loads@.len() ==> {
                let l = #[trigger] self.loads@[i];
                &&& iabs(l.real_load as int) <= QTY_LIM as int
                &&& iabs(l.imag_load as int) <= QTY_LIM as int
                &&& has_id(self.buses@, l.bus_id as int)
            }
        &&& forall|i: int|
            0 <= i < self.generators@.len() ==> {
                let g = #[trigger] self.generators@[i];
                &&& iabs(g.p_gen as int) <= QTY_LIM as int
                &&& iabs(g.q_gen as int) <= QTY_LIM as int
                &&& has_id(self.buses@, g.gen_bus_id as int)
            }
        &&& forall|i: int|
            0 <= i < self.fixed_shunts@.len() ==> {
                let s = #[trigger] self.fixed_shunts@[i];
                &&& iabs(s.gl as int) <= QTY_LIM as int
                &&& iabs(s.bl as int) <= QTY_LIM as int
                &&& has_id(self.buses@, s.bus_id as int)
            }
        &&& forall|i: int|
            0 <= i < self.switched_shunts@.len() ==> switched_shunt_wf(
                #[trigger] self.switched_shunts@[i],
            )
    }


    /// Check well-formedness at run time, so that an unverified
    /// caller can establish `wf` before asking for a solve.
    pub fn is_well_formed(&self) -> (r: bool)
        ensures
            r == self.wf(),
    {
        if self.buses.len() > N_BUS_MAX || self.branches.len() > N_DEV_MAX || self.loads.len()
            > N_DEV_MAX || self.generators.len() > N_DEV_MAX || self.fixed_shunts.len() > N_DEV_MAX
            || self.switched_shunts.len() > N_DEV_MAX {
            return false;
        }
        if self.s_base < SBASE_MIN || self.s_base > SBASE_MAX {
            return false;
        }
        let mut i: usize = 0;
        while i < self.buses.len()
            invariant
                i <= self.buses@.len(),
                forall|a: int, b: int|
                    0 <= a < b < self.buses@.len() && a < i ==> (#[trigger] self.buses@[a].bus_id)
                        != (#[trigger] self.buses@[b].bus_id),
                forall|a: int|
                    0 <= a < i ==> {
                        let bs = #[trigger] self.buses@[a];
                        &&& bs.bus_id >= 1
                        &&& V_LO <= bs.voltage <= V_HI
                        &&& iabs(bs.angle as int) <= ANGLE_DEG_LIM as int
                        &&& iabs(bs.real_shunt as int) <= QTY_LIM as int
                        &&& iabs(bs.imag_shunt as int) <= QTY_LIM as int
                    },
            decreases self.buses@.len() - i,
        {
            let bus = &self.buses[i];
            if bus.bus_id < 1 || bus.voltage < V_LO || bus.voltage > V_HI || bus.angle
                > ANGLE_DEG_LIM || bus.angle < -ANGLE_DEG_LIM || bus.real_shunt > QTY_LIM
                || bus.real_shunt < -QTY_LIM || bus.imag_shunt > QTY_LIM || bus.imag_shunt
                < -QTY_LIM {
                return false;
            }
            let mut j: usize = i + 1;
            while j < self.buses.len()
                invariant
                    i < j <= self.buses@.len(),
                    i < self.buses@.len(),
                    forall|b: int|
                        i < b < j ==> (#[trigger] self.buses@[b].bus_id)
                            != self.buses@[i as int].bus_id,
                decreases self.buses@.len() - j,
            {
                if self.buses[j].bus_id == self.buses[i].bus_id {
                    return false;
                }
                j = j + 1;
            }
            i = i + 1;
        }
        let mut i: usize = 0;
        while i < self.branches.len()
            invariant
                i <= self.branches@.len(),
                forall|a: int|
                    0 <= a < i ==> {
                        let br = #[trigger] self.branches@[a];
                        &&& iabs(br.resistance as int) <= IMP_LIM as int
                        &&& iabs(br.reactance as int) <= IMP_LIM as int
                        &&& (br.reactance == 0 || iabs(br.reactance as int) >= X_EPS as int)
                        &&& iabs(br.from_shunt_conductance as int) <= QTY_LIM as int
                        &&& iabs(br.from_shunt_susceptance as int) <= QTY_LIM as int
                        &&& iabs(br.to_shunt_conductance as int) <= QTY_LIM as int
                        &&& iabs(br.to_shunt_susceptance as int) <= QTY_LIM as int
                        &&& has_id(self.buses@, br.from_bus as int)
                        &&& has_id(self.buses@, br.to_bus as int)
                    },
            decreases self.branches@.len() - i,
        {
            let br = &self.branches[i];
            if br.resistance > IMP_LIM || br.resistance < -IMP_LIM || br.reactance > IMP_LIM
                || br.reactance < -IMP_LIM {
                return false;
            }
            if !(br.reactance == 0 || br.reactance >= X_EPS || br.reactance <= -X_EPS) {
                return false;
            }
            if br.from_shunt_conductance > QTY_LIM || br.from_shunt_conductance < -QTY_LIM
                || br.from_shunt_susceptance > QTY_LIM || br.from_shunt_susceptance < -QTY_LIM
                || br.to_shunt_conductance > QTY_LIM || br.to_shunt_conductance < -QTY_LIM
                || br.to_shunt_susceptance > QTY_LIM || br.to_shunt_susceptance < -QTY_LIM {
                return false;
            }
            if !self.has_bus(br.from_bus) || !self.has_bus(br.to_bus) {
                return false;
            }
            i = i + 1;
        }
        let mut i: usize = 0;
        while i < self.loads.len()
            invariant
                i <= self.loads@.len(),
                forall|a: int|
                    0 <= a < i ==> {
                        let l = #[trigger] self.loads@[a];
                        &&& iabs(l.real_load as int) <= QTY_LIM as int
                        &&& iabs(l.imag_load as int) <= QTY_LIM as int
                        &&& has_id(self.buses@, l.bus_id as int)
                    },
            decreases self.loads@.len() - i,
        {
            let l = &self.loads[i];
            if l.real_load > QTY_LIM || l.real_load < -QTY_LIM || l.imag_load > QTY_LIM
                || l.imag_load < -QTY_LIM || !self.has_bus(l.bus_id) {
                return false;
            }
            i = i + 1;
        }
        let mut i: usize = 0;
        while i < self.generators.len()
            invariant
                i <= self.generators@.len(),
                forall|a: int|
                    0 <= a < i ==> {
                        let g = #[trigger] self.generators@[a];
                        &&& iabs(g.p_gen as int) <= QTY_LIM as int
                        &&& iabs(g.q_gen as int) <= QTY_LIM as int
                        &&& has_id(self.buses@, g.gen_bus_id as int)
                    },
            decreases self.generators@.len() - i,
        {
            let g = &self.generators[i];
            if g.p_gen > QTY_LIM || g.p_gen < -QTY_LIM || g.q_gen > QTY_LIM || g.q_gen < -QTY_LIM
                || !self.has_bus(g.gen_bus_id) {
                return false;
            }
            i = i + 1;
        }
        let mut i: usize = 0;
        while i < self.fixed_shunts.len()
            invariant
                i <= self.fixed_shunts@.len(),
                forall|a: int|
                    0 <= a < i ==> {
                        let sh = #[trigger] self.fixed_shunts@[a];
                        &&& iabs(sh.gl as int) <= QTY_LIM as int
                        &&& iabs(sh.bl as int) <= QTY_LIM as int
                        &&& has_id(self.buses@, sh.bus_id as int)
                    },
            decreases self.fixed_shunts@.len() - i,
        {
            let sh = &self.fixed_shunts[i];
            if sh.gl > QTY_LIM || sh.gl < -QTY_LIM || sh.bl > QTY_LIM || sh.bl < -QTY_LIM
                || !self.has_bus(sh.bus_id) {
                return false;
            }
            i = i + 1;
        }
        let mut i: usize = 0;
        while i < self.switched_shunts.len()
            invariant
                i <= self.switched_shunts@.len(),
                forall|a: int|
                    0 <= a < i ==> switched_shunt_wf(#[trigger] self.switched_shunts@[a]),
            decreases self.switched_shunts@.len() - i,
        {
            let sw = &self.switched_shunts[i];
            if sw.steps.len() > 8 {
                return false;
            }
            let mut t: usize = 0;
            while t < sw.steps.len()
                invariant
                    t <= sw.steps@.len(),
                    sw == self.switched_shunts@[i as int],
                    i < self.switched_shunts@.len(),
                    forall|q: int|
                        0 <= q < t ==> iabs(#[trigger] sw.steps@[q].0 as int) <= 1000 && iabs(
                            sw.steps@[q].1 as int,
                        ) <= QTY_LIM as int,
                decreases sw.steps@.len() - t,
            {
                let (cnt, bval) = sw.steps[t];
                if cnt > 1000 || cnt < -1000 || bval > QTY_LIM || bval < -QTY_LIM {
                    return false;
                }
                t = t + 1;
            }
            i = i + 1;
        }
        true
    }

    /// Whether a bus with this id exists.
    pub fn has_bus(&self, id: usize) -> (r: bool)
        ensures
            r == has_id(self.buses@, id as int),
    {
        let mut k: usize = 0;
        while k < self.buses.len()
            invariant
                k <= self.buses@.len(),
                forall|j: int| 0 <= j < k ==> (#[trigger] self.buses@[j].bus_id) != id,
            decreases self.buses@.len() - k,
        {
            if self.buses[k].bus_id == id {
                return true;
            }
            k = k + 1;
        }
        false
    }
}

} // verus!
