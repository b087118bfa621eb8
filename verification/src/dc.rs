//! DC load-flow approximation.
//!
//! The DC approximation neglects line resistance and voltage
//! magnitudes: a branch of reactance X carries susceptance 1/X,
//! which lands on the diagonal of the reduced system B' over the
//! non-slack buses and negated on the off-diagonals; the injection
//! vector holds scheduled active power in pu, and solving
//! B' * theta = P gives the bus angles, from which branch flows
//! follow.  The linear solve itself is the caller's: `dc_system`
//! hands out B' and P, and `dc_solution` turns a solved angle
//! vector back into per-bus angles (degrees) and per-branch flows
//! (megawatt counts).

use vstd::prelude::*;
use vstd::pervasive::VecAdditionalExecFns;

use crate::fixed::{
    fx_div, fx_mul, fxdiv, fxmul, iabs, lemma_fx_div_bound, lemma_fx_div_fits, lemma_fx_mul_fits,
    RAD_TO_DEG, UNIT,
};
use crate::index::{
    bus_map_of, is_nonslack, lemma_idx_map_absent, lemma_idx_map_at, lemma_idx_map_image,
    lemma_sel_pairs_distinct, nonslack_sel, ns_total, sel_pairs,
};
use crate::model::{Branch, Generator, Load, Network, QTY_LIM, SBASE_MIN, X_EPS};
use crate::triplet::{abs_cell_sum, distinct_cells, Triplet};

verus! {

/// Magnitude cap on a single branch susceptance 1/X: follows from
/// the reactance floor X_EPS (1e18 / X_EPS).
pub const DC_B_LIM: i64 = 10_000_000_000_000;

/// Magnitude cap a solved angle must respect, in radian counts
/// (100 rad — far beyond any meaningful solution).
pub const THETA_LIM: i64 = 100_000_000_000;

/// DC solution record: per-bus angles in degree counts (slack buses
/// at zero) and per-branch megawatt flows, both in insertion order.
#[derive(Debug, Clone)]
pub struct DcSolution {
    pub bus_angles: Vec<(usize, i64)>,
    pub branch_flows: Vec<(usize, i64)>,
}

/// The linear system the caller must solve: B' * theta = p, with n
/// the number of non-slack buses.
#[derive(Debug, Clone)]
pub struct DcSystem {
    pub n: usize,
    pub b_prime: Triplet,
    pub p: Vec<i64>,
}

/// Whether a branch enters the DC system: in service with non-zero
/// reactance.
pub open spec fn dc_eligible(br: Branch) -> bool {
    br.branch_status && br.reactance != 0
}

/// The susceptance a branch contributes: 1/X.
pub open spec fn dc_susceptance(br: Branch) -> int
    recommends
        br.reactance != 0,
{
    fx_div(UNIT as int, br.reactance as int)
}

/// One branch's contribution to B'[i, j].  Both ends non-slack: the
/// susceptance lands on both diagonal cells and its negation on both
/// off-diagonal cells.  One end slack: only the non-slack diagonal
/// cell; the slack angle is implicitly zero.
pub open spec fn bprime_contrib(br: Branch, m: Map<int, int>, i: int, j: int) -> int {
    if !dc_eligible(br) {
        0
    } else {
        let b = dc_susceptance(br);
        let hf = m.contains_key(br.from_bus as int);
        let ht = m.contains_key(br.to_bus as int);
        let fi = m[br.from_bus as int];
        let ti = m[br.to_bus as int];
        if hf && ht {
            (if i == fi && j == fi {
                b
            } else {
                0
            }) + (if i == ti && j == ti {
                b
            } else {
                0
            }) + (if i == fi && j == ti {
                -b
            } else {
                0
            }) + (if i == ti && j == fi {
                -b
            } else {
                0
            })
        } else if hf {
            if i == fi && j == fi {
                b
            } else {
                0
            }
        } else if ht {
            if i == ti && j == ti {
                b
            } else {
                0
            }
        } else {
            0
        }
    }
}

/// B'[i, j] over a branch list.
pub open spec fn bprime_cell(branches: Seq<Branch>, m: Map<int, int>, i: int, j: int) -> int
    decreases branches.len(),
{
    if branches.len() == 0 {
        0
    } else {
        bprime_cell(branches.drop_last(), m, i, j) + bprime_contrib(branches.last(), m, i, j)
    }
}

/// Law: B' is symmetric.
pub proof fn lemma_bprime_symmetric(branches: Seq<Branch>, m: Map<int, int>, i: int, j: int)
    ensures
        bprime_cell(branches, m, i, j) == bprime_cell(branches, m, j, i),
    decreases branches.len(),
{
    if branches.len() > 0 {
        lemma_bprime_symmetric(branches.drop_last(), m, i, j);
    }
}

/// Law: a branch that is out of service or has zero reactance
/// contributes nothing to B'.
pub proof fn lemma_bprime_skips(branches: Seq<Branch>, br: Branch, m: Map<int, int>, i: int, j: int)
    requires
        !dc_eligible(br),
    ensures
        bprime_cell(branches.push(br), m, i, j) == bprime_cell(branches, m, i, j),
{
    assert(branches.push(br).drop_last() =~= branches);
    assert(branches.push(br).last() == br);
}

/// Scheduled generation arriving at reduced index `idx`: each
/// in-service generator at a mapped bus adds p_gen / s_base.
pub open spec fn gen_inj(gens: Seq<Generator>, m: Map<int, int>, sbase: int, idx: int) -> int
    decreases gens.len(),
{
    if gens.len() == 0 {
        0
    } else {
        let g = gens.last();
        gen_inj(gens.drop_last(), m, sbase, idx) + if g.gen_status && m.contains_key(
            g.gen_bus_id as int,
        ) && m[g.gen_bus_id as int] == idx {
            fx_div(g.p_gen as int, sbase)
        } else {
            0
        }
    }
}

/// Load drawn at reduced index `idx`: each load at a mapped bus
/// contributes real_load / s_base.
pub open spec fn load_inj(loads: Seq<Load>, m: Map<int, int>, sbase: int, idx: int) -> int
    decreases loads.len(),
{
    if loads.len() == 0 {
        0
    } else {
        let l = loads.last();
        load_inj(loads.drop_last(), m, sbase, idx) + if m.contains_key(l.bus_id as int)
            && m[l.bus_id as int] == idx {
            fx_div(l.real_load as int, sbase)
        } else {
            0
        }
    }
}

/// Net scheduled injection at reduced index `idx`, in pu counts.
pub open spec fn dc_injection(net: Network, idx: int) -> int {
    gen_inj(net.generators@, bus_map_of(net.buses@), net.s_base as int, idx) - load_inj(
        net.loads@,
        bus_map_of(net.buses@),
        net.s_base as int,
        idx,
    )
}

/// The flow a branch carries: (theta_from - theta_to) / X * s_base,
/// slack angles taken as zero.
pub open spec fn flow_value(br: Branch, m: Map<int, int>, theta: Seq<i64>, sbase: int) -> int
    recommends
        br.reactance != 0,
{
    let ti = if m.contains_key(br.from_bus as int) {
        theta[m[br.from_bus as int]] as int
    } else {
        0
    };
    let tj = if m.contains_key(br.to_bus as int) {
        theta[m[br.to_bus as int]] as int
    } else {
        0
    };
    fx_mul(fx_div(ti - tj, br.reactance as int), sbase)
}

/// Per-branch flow records, in insertion order; only eligible
/// branches appear.
pub open spec fn flows_of(branches: Seq<Branch>, m: Map<int, int>, theta: Seq<i64>, sbase: int) -> Seq<
    (usize, i64),
>
    decreases branches.len(),
{
    if branches.len() == 0 {
        Seq::empty()
    } else {
        let r = flows_of(branches.drop_last(), m, theta, sbase);
        if dc_eligible(branches.last()) {
            r.push((branches.last().id, flow_value(branches.last(), m, theta, sbase) as i64))
        } else {
            r
        }
    }
}

/// Law: a branch that is out of service or has zero reactance gets
/// no flow record.
pub proof fn lemma_flows_skip(
    branches: Seq<Branch>,
    br: Branch,
    m: Map<int, int>,
    theta: Seq<i64>,
    sbase: int,
)
    requires
        !dc_eligible(br),
    ensures
        flows_of(branches.push(br), m, theta, sbase) == flows_of(branches, m, theta, sbase),
{
    assert(branches.push(br).drop_last() =~= branches);
    assert(branches.push(br).last() == br);
}

pub proof fn lemma_gen_inj_bound(gens: Seq<Generator>, m: Map<int, int>, sbase: int, idx: int)
    requires
        SBASE_MIN as int <= sbase,
        forall|k: int| 0 <= k < gens.len() ==> iabs((#[trigger] gens[k]).p_gen as int) <= QTY_LIM as int,
    ensures
        iabs(gen_inj(gens, m, sbase, idx)) <= gens.len() * (QTY_LIM as int),
    decreases gens.len(),
{
    if gens.len() > 0 {
        lemma_gen_inj_bound(gens.drop_last(), m, sbase, idx);
        lemma_fx_div_bound(gens.last().p_gen as int, sbase, QTY_LIM as int, SBASE_MIN as int);
    }
}

pub proof fn lemma_load_inj_bound(loads: Seq<Load>, m: Map<int, int>, sbase: int, idx: int)
    requires
        SBASE_MIN as int <= sbase,
        forall|k: int|
            0 <= k < loads.len() ==> iabs((#[trigger] loads[k]).real_load as int) <= QTY_LIM as int,
    ensures
        iabs(load_inj(loads, m, sbase, idx)) <= loads.len() * (QTY_LIM as int),
    decreases loads.len(),
{
    if loads.len() > 0 {
        lemma_load_inj_bound(loads.drop_last(), m, sbase, idx);
        lemma_fx_div_bound(loads.last().real_load as int, sbase, QTY_LIM as int, SBASE_MIN as int);
    }
}

impl Network {
    /// The solvers read `bus_map` as the non-slack index table: it
    /// must have been rebuilt since the last bus change, and the
    /// network must be well-formed.
    pub open spec fn dc_ready(self) -> bool {
        &&& self.wf()
        &&& self.bus_map.pairs@ == sel_pairs(self.buses@, nonslack_sel())
    }

    /// Build the reduced susceptance matrix B' as triplets, one
    /// contribution per branch end pair, duplicates left in place.
    pub fn dc_bprime(&self) -> (t: Triplet)
        requires
            self.dc_ready(),
        ensures
            t.wf(),
            t.m as int == ns_total(self.buses@),
            t.n as int == ns_total(self.buses@),
            forall|i: int, j: int|
                t.cell(i, j) == bprime_cell(
                    self.branches@,
                    bus_map_of(self.buses@),
                    i,
                    j,
                ),
            forall|i: int, j: int| abs_cell_sum(t.entries@, i, j) <= i64::MAX as int,
    {
        let ghost m = bus_map_of(self.buses@);
        proof {
            lemma_idx_map_image(self.buses@, nonslack_sel());
            lemma_sel_pairs_distinct(self.buses@, nonslack_sel());
        }
        let n: usize = self.bus_map.len();
        let mut t = Triplet::new(n, n);
        let mut k: usize = 0;
        while k < self.branches.len()
            invariant
                self.dc_ready(),
                self.bus_map.wf(),
                m == bus_map_of(self.buses@),
                n as int == ns_total(self.buses@),
                k <= self.branches@.len(),
                t.wf(),
                t.m == n,
                t.n == n,
                t.entries@.len() <= 4 * k,
                forall|i: int, j: int|
                    t.cell(i, j) == bprime_cell(self.branches@.take(k as int), m, i, j),
                forall|i: int, j: int|
                    abs_cell_sum(t.entries@, i, j) <= 4 * k * (DC_B_LIM as int),
                forall|id: int|
                    m.contains_key(id) ==> 0 <= #[trigger] m[id] < ns_total(self.buses@),
            decreases self.branches@.len() - k,
        {
            proof {
                assert(self.branches@.take(k as int + 1).drop_last() =~= self.branches@.take(
                    k as int,
                ));
                assert(self.branches@.take(k as int + 1).last() == self.branches@[k as int]);
            }
            let br = &self.branches[k];
            if br.branch_status && br.reactance != 0 {
                proof {
                    lemma_fx_div_fits(
                        UNIT as int,
                        br.reactance as int,
                        UNIT as int,
                        1,
                    );
                    lemma_fx_div_bound(
                        UNIT as int,
                        br.reactance as int,
                        UNIT as int,
                        X_EPS as int,
                    );
                }
                let b: i64 = fxdiv(UNIT, br.reactance);
                let fi = self.bus_map.get(br.from_bus);
                let ti = self.bus_map.get(br.to_bus);
                match (fi, ti) {
                    (Some(i), Some(j)) => {
                        t.append(i, i, b);
                        t.append(j, j, b);
                        t.append(i, j, -b);
                        t.append(j, i, -b);
                    },
                    (Some(i), None) => {
                        t.append(i, i, b);
                    },
                    (None, Some(j)) => {
                        t.append(j, j, b);
                    },
                    (None, None) => {},
                }
            }
            k = k + 1;
        }
        proof {
            assert(self.branches@.take(self.branches@.len() as int) =~= self.branches@);
        }
        t
    }

    /// Build the injection vector P over the non-slack indices:
    /// in-service generation adds p_gen / s_base, load draws
    /// real_load / s_base.
    pub fn dc_injections(&self) -> (p: Vec<i64>)
        requires
            self.dc_ready(),
        ensures
            p@.len() == ns_total(self.buses@),
            forall|idx: int| 0 <= idx < p@.len() ==> (#[trigger] p@[idx]) as int == dc_injection(*self, idx),
    {
        let ghost m = bus_map_of(self.buses@);
        proof {
            lemma_idx_map_image(self.buses@, nonslack_sel());
            lemma_sel_pairs_distinct(self.buses@, nonslack_sel());
        }
        let n: usize = self.bus_map.len();
        let mut p: Vec<i64> = Vec::new();
        let mut z: usize = 0;
        while z < n
            invariant
                z <= n,
                p@.len() == z,
                forall|idx: int| 0 <= idx < z ==> (#[trigger] p@[idx]) == 0i64,
            decreases n - z,
        {
            p.push(0);
            z = z + 1;
        }
        let mut k: usize = 0;
        while k < self.generators.len()
            invariant
                self.dc_ready(),
                self.bus_map.wf(),
                m == bus_map_of(self.buses@),
                n as int == ns_total(self.buses@),
                k <= self.generators@.len(),
                p@.len() == n,
                forall|idx: int|
                    0 <= idx < n ==> (#[trigger] p@[idx]) as int == gen_inj(
                        self.generators@.take(k as int),
                        m,
                        self.s_base as int,
                        idx,
                    ),
                forall|id: int|
                    m.contains_key(id) ==> 0 <= #[trigger] m[id] < ns_total(self.buses@),
            decreases self.generators@.len() - k,
        {
            proof {
                assert(self.generators@.take(k as int + 1).drop_last() =~= self.generators@.take(
                    k as int,
                ));
                assert(self.generators@.take(k as int + 1).last() == self.generators@[k as int]);
                assert(forall|idx: int|
                    0 <= idx < n ==> iabs(#[trigger] p@[idx] as int) <= k * (QTY_LIM as int)) by {
                    assert forall|idx: int| 0 <= idx < n implies iabs(#[trigger] p@[idx] as int)
                        <= k * (QTY_LIM as int) by {
                        assert(forall|q: int|
                            0 <= q < self.generators@.take(k as int).len() ==> iabs(
                                (#[trigger] self.generators@.take(k as int)[q]).p_gen as int,
                            ) <= QTY_LIM as int);
                        lemma_gen_inj_bound(
                            self.generators@.take(k as int),
                            m,
                            self.s_base as int,
                            idx,
                        );
                    }
                }
            }
            let g = &self.generators[k];
            if g.gen_status {
                match self.bus_map.get(g.gen_bus_id) {
                    Some(idx) => {
                        proof {
                            lemma_fx_div_fits(
                                g.p_gen as int,
                                self.s_base as int,
                                QTY_LIM as int,
                                SBASE_MIN as int,
                            );
                            lemma_fx_div_bound(
                                g.p_gen as int,
                                self.s_base as int,
                                QTY_LIM as int,
                                SBASE_MIN as int,
                            );
                        }
                        let term: i64 = fxdiv(g.p_gen, self.s_base);
                        let cur: i64 = p[idx];
                        p.set(idx, cur + term);
                    },
                    None => {},
                }
            }
            k = k + 1;
        }
        proof {
            assert(self.generators@.take(self.generators@.len() as int) =~= self.generators@);
        }
        let ghost gen_done = p@;
        let mut k: usize = 0;
        while k < self.loads.len()
            invariant
                self.dc_ready(),
                self.bus_map.wf(),
                m == bus_map_of(self.buses@),
                n as int == ns_total(self.buses@),
                k <= self.loads@.len(),
                p@.len() == n,
                forall|idx: int|
                    0 <= idx < n ==> (#[trigger] p@[idx]) as int == gen_done[idx] as int - load_inj(
                        self.loads@.take(k as int),
                        m,
                        self.s_base as int,
                        idx,
                    ),
                forall|idx: int|
                    0 <= idx < n ==> (#[trigger] gen_done[idx]) as int == gen_inj(
                        self.generators@,
                        m,
                        self.s_base as int,
                        idx,
                    ),
                forall|id: int|
                    m.contains_key(id) ==> 0 <= #[trigger] m[id] < ns_total(self.buses@),
            decreases self.loads@.len() - k,
        {
            proof {
                assert(self.loads@.take(k as int + 1).drop_last() =~= self.loads@.take(k as int));
                assert(self.loads@.take(k as int + 1).last() == self.loads@[k as int]);
                assert forall|idx: int| 0 <= idx < n implies iabs(#[trigger] p@[idx] as int)
                    <= (self.generators@.len() + k) * (QTY_LIM as int) by {
                    lemma_gen_inj_bound(self.generators@, m, self.s_base as int, idx);
                    assert(forall|q: int|
                        0 <= q < self.loads@.take(k as int).len() ==> iabs(
                            (#[trigger] self.loads@.take(k as int)[q]).real_load as int,
                        ) <= QTY_LIM as int);
                    lemma_load_inj_bound(self.loads@.take(k as int), m, self.s_base as int, idx);
                }
            }
            let l = &self.loads[k];
            match self.bus_map.get(l.bus_id) {
                Some(idx) => {
                    proof {
                        lemma_fx_div_fits(
                            l.real_load as int,
                            self.s_base as int,
                            QTY_LIM as int,
                            SBASE_MIN as int,
                        );
                        lemma_fx_div_bound(
                            l.real_load as int,
                            self.s_base as int,
                            QTY_LIM as int,
                            SBASE_MIN as int,
                        );
                    }
                    let term: i64 = fxdiv(l.real_load, self.s_base);
                    let cur: i64 = p[idx];
                    p.set(idx, cur - term);
                },
                None => {},
            }
            k = k + 1;
        }
        proof {
            assert(self.loads@.take(self.loads@.len() as int) =~= self.loads@);
        }
        p
    }

    /// Assemble the DC linear system: the compacted B' and the
    /// injection vector.  Returns `None` exactly when there is no
    /// non-slack bus.
    pub fn dc_system(&self) -> (r: Option<DcSystem>)
        requires
            self.dc_ready(),
        ensures
            match r {
                None => ns_total(self.buses@) == 0,
                Some(sys) => {
                    &&& ns_total(self.buses@) > 0
                    &&& sys.n as int == ns_total(self.buses@)
                    &&& sys.b_prime.wf()
                    &&& sys.b_prime.m == sys.n
                    &&& sys.b_prime.n == sys.n
                    &&& distinct_cells(sys.b_prime.entries@)
                    &&& forall|i: int, j: int|
                        sys.b_prime.cell(i, j) == bprime_cell(
                            self.branches@,
                            bus_map_of(self.buses@),
                            i,
                            j,
                        )
                    &&& sys.p@.len() == ns_total(self.buses@)
                    &&& forall|idx: int|
                        0 <= idx < sys.p@.len() ==> (#[trigger] sys.p@[idx]) as int
                            == dc_injection(*self, idx)
                },
            },
    {
        let n: usize = self.bus_map.len();
        if n == 0 {
            return None;
        }
        let mut b_prime = self.dc_bprime();
        let ok = b_prime.sum_dupl();
        proof {
            assert(ok);
        }
        let p = self.dc_injections();
        Some(DcSystem { n, b_prime, p })
    }

    /// Turn a solved angle vector into the solution record: per-bus
    /// angles in degree counts — slack buses exactly zero — and
    /// per-branch megawatt flows.
    pub fn dc_solution(&self, theta: &Vec<i64>) -> (s: DcSolution)
        requires
            self.dc_ready(),
            theta@.len() == ns_total(self.buses@),
            forall|k: int| 0 <= k < theta@.len() ==> iabs((#[trigger] theta@[k]) as int) <= THETA_LIM as int,
        ensures
            s.bus_angles@.len() == self.buses@.len(),
            forall|k: int|
                0 <= k < self.buses@.len() ==> (#[trigger] s.bus_angles@[k]).0 == self.buses@[k].bus_id,
            forall|k: int|
                0 <= k < self.buses@.len() ==> (#[trigger] s.bus_angles@[k]).1 as int == (
                if is_nonslack(self.buses@[k]) {
                    fx_mul(
                        theta@[bus_map_of(self.buses@)[self.buses@[k].bus_id as int]] as int,
                        RAD_TO_DEG as int,
                    )
                } else {
                    0
                }),
            s.branch_flows@ == flows_of(
                self.branches@,
                bus_map_of(self.buses@),
                theta@,
                self.s_base as int,
            ),
    {
        let ghost m = bus_map_of(self.buses@);
        proof {
            lemma_idx_map_image(self.buses@, nonslack_sel());
            lemma_sel_pairs_distinct(self.buses@, nonslack_sel());
        }
        let mut bus_angles: Vec<(usize, i64)> = Vec::new();
        let mut k: usize = 0;
        while k < self.buses.len()
            invariant
                self.dc_ready(),
                self.bus_map.wf(),
                m == bus_map_of(self.buses@),
                theta@.len() == ns_total(self.buses@),
                forall|q: int|
                    0 <= q < theta@.len() ==> iabs((#[trigger] theta@[q]) as int) <= THETA_LIM as int,
                k <= self.buses@.len(),
                bus_angles@.len() == k,
                forall|q: int|
                    0 <= q < k ==> (#[trigger] bus_angles@[q]).0 == self.buses@[q].bus_id,
                forall|q: int|
                    0 <= q < k ==> (#[trigger] bus_angles@[q]).1 as int == (if is_nonslack(
                        self.buses@[q],
                    ) {
                        fx_mul(theta@[m[self.buses@[q].bus_id as int]] as int, RAD_TO_DEG as int)
                    } else {
                        0
                    }),
                forall|id: int|
                    m.contains_key(id) ==> 0 <= #[trigger] m[id] < ns_total(self.buses@),
            decreases self.buses@.len() - k,
        {
            let bus = &self.buses[k];
            proof {
                if is_nonslack(self.buses@[k as int]) {
                    lemma_idx_map_at(self.buses@, nonslack_sel(), k as int);
                } else {
                    lemma_idx_map_absent(self.buses@, nonslack_sel(), k as int);
                }
            }
            match self.bus_map.get(bus.bus_id) {
                Some(idx) => {
                    proof {
                        lemma_fx_mul_fits(
                            theta@[idx as int] as int,
                            RAD_TO_DEG as int,
                            THETA_LIM as int,
                            RAD_TO_DEG as int,
                        );
                    }
                    let deg: i64 = fxmul(theta[idx], RAD_TO_DEG);
                    bus_angles.push((bus.bus_id, deg));
                },
                None => {
                    bus_angles.push((bus.bus_id, 0));
                },
            }
            k = k + 1;
        }
        let mut branch_flows: Vec<(usize, i64)> = Vec::new();
        let mut k: usize = 0;
        while k < self.branches.len()
            invariant
                self.dc_ready(),
                self.bus_map.wf(),
                m == bus_map_of(self.buses@),
                theta@.len() == ns_total(self.buses@),
                forall|q: int|
                    0 <= q < theta@.len() ==> iabs((#[trigger] theta@[q]) as int) <= THETA_LIM as int,
                k <= self.branches@.len(),
                branch_flows@ == flows_of(
                    self.branches@.take(k as int),
                    m,
                    theta@,
                    self.s_base as int,
                ),
                forall|id: int|
                    m.contains_key(id) ==> 0 <= #[trigger] m[id] < ns_total(self.buses@),
            decreases self.branches@.len() - k,
        {
            proof {
                assert(self.branches@.take(k as int + 1).drop_last() =~= self.branches@.take(
                    k as int,
                ));
                assert(self.branches@.take(k as int + 1).last() == self.branches@[k as int]);
            }
            let br = &self.branches[k];
            if br.branch_status && br.reactance != 0 {
                let ti: i64 = match self.bus_map.get(br.from_bus) {
                    Some(idx) => theta[idx],
                    None => 0,
                };
                let tj: i64 = match self.bus_map.get(br.to_bus) {
                    Some(idx) => theta[idx],
                    None => 0,
                };
                proof {
                    lemma_fx_div_fits(
                        ti as int - tj as int,
                        br.reactance as int,
                        2 * THETA_LIM as int,
                        X_EPS as int,
                    );
                    lemma_fx_div_bound(
                        ti as int - tj as int,
                        br.reactance as int,
                        2 * THETA_LIM as int,
                        X_EPS as int,
                    );
                    lemma_fx_mul_fits(
                        fx_div(ti as int - tj as int, br.reactance as int),
                        self.s_base as int,
                        2 * (THETA_LIM as int) * (UNIT as int) / (X_EPS as int),
                        crate::model::SBASE_MAX as int,
                    );
                }
                let q: i64 = fxdiv(ti - tj, br.reactance);
                let flow: i64 = fxmul(q, self.s_base);
                branch_flows.push((br.id, flow));
            }
            k = k + 1;
        }
        proof {
            assert(self.branches@.take(self.branches@.len() as int) =~= self.branches@);
        }
        DcSolution { bus_angles, branch_flows }
    }
}

} // verus!
