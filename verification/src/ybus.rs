//! Complex nodal admittance matrix Y = G + jB.
//!
//! Every in-service branch contributes its series admittance
//! 1/(R + jX) to both diagonal cells and its negation to both
//! off-diagonal cells; the branch-end shunt conductances and
//! susceptances (the latter carry the pi-model half-line charging)
//! land on the diagonals, and every in-service fixed shunt adds
//! (GL + jBL)/S_base to its bus's diagonal.  The matrix covers every bus, slack included, indexed
//! by position in the bus list.

use vstd::prelude::*;
use vstd::pervasive::VecAdditionalExecFns;

use crate::fixed::{
    fx_div, fx_mul, fxdiv, fxdiv_check, iabs, lemma_fx_div_bound, lemma_fx_div_fits,
    lemma_fx_mul_bound, lemma_fx_mul_fits, lemma_fx_square_nonneg,
};
use crate::index::{all_sel, build_index, full_map_of, lemma_idx_map_image};
use crate::model::{
    Branch, Bus, FixedShunt, Network, IMP_LIM, N_BUS_MAX, N_DEV_MAX, QTY_LIM, SBASE_MIN,
};
use crate::triplet::{
    abs_cell_sum, cell_sum, distinct_cells, lemma_cell_distinct, lemma_cell_zero_when_absent,
    Triplet,
};

verus! {

/// Magnitude cap on one branch's series conductance or susceptance.
pub const YC_LIM: i64 = 50_000_000_000_000;

/// Magnitude cap on an assembled Y-bus entry: 1e5 pu.
pub const Y_LIM: i64 = 100_000_000_000_000;

/// |z|^2 = R^2 + X^2 in pu counts (zero when the branch has no
/// meaningful impedance at this resolution).
pub open spec fn series_norm(br: Branch) -> int {
    fx_mul(br.resistance as int, br.resistance as int) + fx_mul(
        br.reactance as int,
        br.reactance as int,
    )
}

/// Series conductance: R / |z|^2, zero for a zero-impedance branch.
pub open spec fn series_g(br: Branch) -> int {
    if series_norm(br) == 0 {
        0
    } else {
        fx_div(br.resistance as int, series_norm(br))
    }
}

/// Series susceptance: -X / |z|^2, zero for a zero-impedance branch.
pub open spec fn series_b(br: Branch) -> int {
    if series_norm(br) == 0 {
        0
    } else {
        fx_div(-br.reactance as int, series_norm(br))
    }
}

/// Whether a branch's series admittance fits the per-contribution
/// cap; networks inside the model's impedance window satisfy it.
pub open spec fn branch_series_ok(br: Branch) -> bool {
    iabs(series_g(br)) <= YC_LIM as int && iabs(series_b(br)) <= YC_LIM as int
}

/// One branch's contribution to G[i, j]: the series conductance
/// like the susceptance, plus the end shunt conductances on the
/// diagonals.
pub open spec fn ycontrib_g(br: Branch, m: Map<int, int>, i: int, j: int) -> int {
    if !br.branch_status || !(m.contains_key(br.from_bus as int) && m.contains_key(
        br.to_bus as int,
    )) {
        0
    } else {
        let g = series_g(br);
        let fi = m[br.from_bus as int];
        let ti = m[br.to_bus as int];
        (if i == fi && j == fi {
            g + br.from_shunt_conductance as int
        } else {
            0
        }) + (if i == ti && j == ti {
            g + br.to_shunt_conductance as int
        } else {
            0
        }) + (if i == fi && j == ti {
            -g
        } else {
            0
        }) + (if i == ti && j == fi {
            -g
        } else {
            0
        })
    }
}

/// One branch's contribution to B[i, j]: the series susceptance like
/// the conductance, plus the end shunt susceptances on the
/// diagonals.
pub open spec fn ycontrib_b(br: Branch, m: Map<int, int>, i: int, j: int) -> int {
    if !br.branch_status || !(m.contains_key(br.from_bus as int) && m.contains_key(
        br.to_bus as int,
    )) {
        0
    } else {
        let b = series_b(br);
        let fi = m[br.from_bus as int];
        let ti = m[br.to_bus as int];
        (if i == fi && j == fi {
            b + br.from_shunt_susceptance as int
        } else {
            0
        }) + (if i == ti && j == ti {
            b + br.to_shunt_susceptance as int
        } else {
            0
        }) + (if i == fi && j == ti {
            -b
        } else {
            0
        }) + (if i == ti && j == fi {
            -b
        } else {
            0
        })
    }
}

/// G[i, j] over the branch list.
pub open spec fn ycell_g(branches: Seq<Branch>, m: Map<int, int>, i: int, j: int) -> int
    decreases branches.len(),
{
    if branches.len() == 0 {
        0
    } else {
        ycell_g(branches.drop_last(), m, i, j) + ycontrib_g(branches.last(), m, i, j)
    }
}

/// B[i, j] over the branch list.
pub open spec fn ycell_b(branches: Seq<Branch>, m: Map<int, int>, i: int, j: int) -> int
    decreases branches.len(),
{
    if branches.len() == 0 {
        0
    } else {
        ycell_b(branches.drop_last(), m, i, j) + ycontrib_b(branches.last(), m, i, j)
    }
}

/// Fixed-shunt contribution to G[i, j]: (GL / S_base) on the bus
/// diagonal of each in-service shunt.
pub open spec fn shunt_g(shunts: Seq<FixedShunt>, m: Map<int, int>, sbase: int, i: int, j: int) -> int
    decreases shunts.len(),
{
    if shunts.len() == 0 {
        0
    } else {
        let s = shunts.last();
        shunt_g(shunts.drop_last(), m, sbase, i, j) + if s.status && m.contains_key(
            s.bus_id as int,
        ) && i == m[s.bus_id as int] && j == m[s.bus_id as int] {
            fx_div(s.gl as int, sbase)
        } else {
            0
        }
    }
}

/// Fixed-shunt contribution to B[i, j]: (BL / S_base) on the bus
/// diagonal of each in-service shunt.
pub open spec fn shunt_b(shunts: Seq<FixedShunt>, m: Map<int, int>, sbase: int, i: int, j: int) -> int
    decreases shunts.len(),
{
    if shunts.len() == 0 {
        0
    } else {
        let s = shunts.last();
        shunt_b(shunts.drop_last(), m, sbase, i, j) + if s.status && m.contains_key(
            s.bus_id as int,
        ) && i == m[s.bus_id as int] && j == m[s.bus_id as int] {
            fx_div(s.bl as int, sbase)
        } else {
            0
        }
    }
}

/// The full Y-bus real part at (i, j).
pub open spec fn ybus_g_cell(net: Network, i: int, j: int) -> int {
    ycell_g(net.branches@, full_map_of(net.buses@), i, j) + shunt_g(
        net.fixed_shunts@,
        full_map_of(net.buses@),
        net.s_base as int,
        i,
        j,
    )
}

/// The full Y-bus imaginary part at (i, j).
pub open spec fn ybus_b_cell(net: Network, i: int, j: int) -> int {
    ycell_b(net.branches@, full_map_of(net.buses@), i, j) + shunt_b(
        net.fixed_shunts@,
        full_map_of(net.buses@),
        net.s_base as int,
        i,
        j,
    )
}

/// Law: the admittance matrix is symmetric (no phase shifters are
/// applied in this assembly).
pub proof fn lemma_ybus_symmetric(net: Network, i: int, j: int)
    ensures
        ybus_g_cell(net, i, j) == ybus_g_cell(net, j, i),
        ybus_b_cell(net, i, j) == ybus_b_cell(net, j, i),
{
    lemma_ycell_symmetric(net.branches@, full_map_of(net.buses@), i, j);
    lemma_shunt_symmetric(net.fixed_shunts@, full_map_of(net.buses@), net.s_base as int, i, j);
}

proof fn lemma_ycell_symmetric(branches: Seq<Branch>, m: Map<int, int>, i: int, j: int)
    ensures
        ycell_g(branches, m, i, j) == ycell_g(branches, m, j, i),
        ycell_b(branches, m, i, j) == ycell_b(branches, m, j, i),
    decreases branches.len(),
{
    if branches.len() > 0 {
        lemma_ycell_symmetric(branches.drop_last(), m, i, j);
    }
}

proof fn lemma_shunt_symmetric(
    shunts: Seq<FixedShunt>,
    m: Map<int, int>,
    sbase: int,
    i: int,
    j: int,
)
    ensures
        shunt_g(shunts, m, sbase, i, j) == shunt_g(shunts, m, sbase, j, i),
        shunt_b(shunts, m, sbase, i, j) == shunt_b(shunts, m, sbase, j, i),
    decreases shunts.len(),
{
    if shunts.len() > 0 {
        lemma_shunt_symmetric(shunts.drop_last(), m, sbase, i, j);
    }
}

/// Dense complex admittance matrix, row-major over bus positions.
#[derive(Debug, Clone)]
pub struct YBus {
    pub n: usize,
    /// Real parts, n * n entries.
    pub g: Vec<i64>,
    /// Imaginary parts, n * n entries.
    pub b: Vec<i64>,
}

/// Entry (i, k) of an n-column row-major dense matrix.
pub open spec fn dense_at(d: Seq<i64>, n: int, i: int, k: int) -> int {
    d[i * n + k] as int
}

impl YBus {
    /// Shape and the entry cap the iteration arithmetic relies on.
    pub open spec fn wf(self) -> bool {
        &&& self.n <= N_BUS_MAX
        &&& self.g@.len() == self.n * self.n
        &&& self.b@.len() == self.n * self.n
        &&& forall|p: int| 0 <= p < self.g@.len() ==> iabs((#[trigger] self.g@[p]) as int) <= Y_LIM as int
        &&& forall|p: int| 0 <= p < self.b@.len() ==> iabs((#[trigger] self.b@[p]) as int) <= Y_LIM as int
    }

    /// Real part at (i, k).
    pub open spec fn g_at(self, i: int, k: int) -> int {
        dense_at(self.g@, self.n as int, i, k)
    }

    /// Imaginary part at (i, k).
    pub open spec fn b_at(self, i: int, k: int) -> int {
        dense_at(self.b@, self.n as int, i, k)
    }
}

/// Why a Y-bus could not be assembled at this fixed-point
/// resolution.
#[derive(Clone, Copy, Debug, PartialEq, Eq, Structural)]
pub enum YbusError {
    /// Some branch's series admittance magnitude is beyond the
    /// per-contribution cap.
    SeriesOutOfRange,
    /// Some assembled entry magnitude is beyond the entry cap.
    EntryOutOfRange,
}

/// Positions inside an m-by-n matrix map injectively to row-major
/// offsets.
pub proof fn lemma_rowmajor_inj(i: int, k: int, r: int, c: int, n: int)
    requires
        0 <= i,
        0 <= k < n,
        0 <= r,
        0 <= c < n,
        i * n + k == r * n + c,
    ensures
        i == r && k == c,
{
    assert(i == r && k == c) by (nonlinear_arith)
        requires
            0 <= i,
            0 <= k < n,
            0 <= r,
            0 <= c < n,
            i * n + k == r * n + c,
    ;
}

/// Spread a compacted triplet list into a dense row-major vector,
/// refusing any entry whose magnitude exceeds `lim`.
fn to_dense(t: &Triplet, lim: i64) -> (r: Option<Vec<i64>>)
    requires
        t.wf(),
        distinct_cells(t.entries@),
        t.m <= N_BUS_MAX,
        t.n <= N_BUS_MAX,
        0 <= lim,
    ensures
        match r {
            Some(d) => {
                &&& d@.len() == t.m * t.n
                &&& forall|i: int, k: int|
                    0 <= i < t.m && 0 <= k < t.n ==> #[trigger] dense_at(d@, t.n as int, i, k)
                        == t.cell(i, k)
                &&& forall|p: int| 0 <= p < d@.len() ==> iabs((#[trigger] d@[p]) as int) <= lim as int
            },
            None => exists|i: int, k: int|
                0 <= i < t.m && 0 <= k < t.n && iabs(#[trigger] t.cell(i, k)) > lim as int,
        },
{
    proof {
        assert(t.m * t.n <= 1_000_000) by (nonlinear_arith)
            requires
                t.m <= 1000,
                t.n <= 1000,
        ;
    }
    let size: usize = t.m * t.n;
    let mut d: Vec<i64> = Vec::new();
    let mut z: usize = 0;
    while z < size
        invariant
            z <= size,
            d@.len() == z,
            forall|p: int| 0 <= p < z ==> (#[trigger] d@[p]) == 0i64,
        decreases size - z,
    {
        d.push(0);
        z = z + 1;
    }
    proof {
        assert forall|i: int, k: int| 0 <= i < t.m && 0 <= k < t.n implies #[trigger] dense_at(
            d@,
            t.n as int,
            i,
            k,
        ) == cell_sum(t.entries@.take(0), i, k) by {
            assert(0 <= i * (t.n as int) + k < t.m * t.n) by (nonlinear_arith)
                requires
                    0 <= i < t.m,
                    0 <= k < t.n,
            ;
            assert(t.entries@.take(0) =~= Seq::<(usize, usize, i64)>::empty());
        }
    }
    let mut e: usize = 0;
    while e < t.entries.len()
        invariant
            t.wf(),
            distinct_cells(t.entries@),
            t.m <= N_BUS_MAX,
            t.n <= N_BUS_MAX,
            0 <= lim,
            e <= t.entries@.len(),
            d@.len() == t.m * t.n,
            forall|i: int, k: int|
                0 <= i < t.m && 0 <= k < t.n ==> #[trigger] dense_at(d@, t.n as int, i, k)
                    == cell_sum(t.entries@.take(e as int), i, k),
            forall|p: int|
                0 <= p < d@.len() ==> iabs((#[trigger] d@[p]) as int) <= lim as int,
        decreases t.entries@.len() - e,
    {
        proof {
            crate::triplet::lemma_cell_push(t.entries@.take(e as int), t.entries@[e as int]);
            assert(t.entries@.take(e as int + 1) =~= t.entries@.take(e as int).push(
                t.entries@[e as int],
            ));
        }
        let (row, col, v) = t.entries[e];
        if v > lim || v < -lim {
            proof {
                lemma_cell_distinct(t.entries@, e as int);
                assert(0 <= (row as int) < t.m && 0 <= (col as int) < t.n);
                assert(iabs(t.cell(row as int, col as int)) > lim as int);
            }
            return None;
        }
        proof {
            assert(0 <= (row as int) * (t.n as int) + (col as int) < t.m * t.n <= 1_000_000)
                by (nonlinear_arith)
                requires
                    0 <= (row as int) < t.m,
                    0 <= (col as int) < t.n,
                    t.m <= 1000,
                    t.n <= 1000,
            ;
        }
        let pos: usize = row * t.n + col;
        proof {
            // The slot still holds the prefix sum for this cell,
            // which is zero: no earlier entry names this cell.
            assert(forall|q: int|
                0 <= q < t.entries@.take(e as int).len() ==> !((#[trigger] t.entries@.take(
                    e as int,
                )[q]).0 as int == row as int && t.entries@.take(e as int)[q].1 as int
                    == col as int));
            lemma_cell_zero_when_absent(t.entries@.take(e as int), row as int, col as int);
        }
        let ghost before = d@;
        d.set(pos, v);
        proof {
            assert forall|i: int, k: int| 0 <= i < t.m && 0 <= k < t.n implies #[trigger] dense_at(
                d@,
                t.n as int,
                i,
                k,
            ) == cell_sum(t.entries@.take(e as int + 1), i, k) by {
                assert(0 <= i * (t.n as int) + k < t.m * t.n) by (nonlinear_arith)
                    requires
                        0 <= i < t.m,
                        0 <= k < t.n,
                ;
                if i * (t.n as int) + k == pos as int {
                    lemma_rowmajor_inj(i, k, row as int, col as int, t.n as int);
                    assert(d@[i * (t.n as int) + k] == v);
                } else {
                    assert(d@[i * (t.n as int) + k] == before[i * (t.n as int) + k]);
                    assert(dense_at(before, t.n as int, i, k) == cell_sum(
                        t.entries@.take(e as int),
                        i,
                        k,
                    ));
                }
            }
        }
        e = e + 1;
    }
    proof {
        assert(t.entries@.take(t.entries@.len() as int) =~= t.entries@);
    }
    Some(d)
}

/// An id some bus carries is in the full index map.
pub proof fn lemma_contains_from_has_id(buses: Seq<Bus>, id: int)
    requires
        buses.len() <= usize::MAX,
        crate::model::distinct_ids(buses),
        crate::model::has_id(buses, id),
    ensures
        full_map_of(buses).contains_key(id),
{
    let k = choose|k: int| 0 <= k < buses.len() && (#[trigger] buses[k].bus_id) as int == id;
    crate::index::lemma_idx_map_at(buses, all_sel(), k);
}

/// Series admittance of one branch: (R - jX) / (R^2 + X^2), zero
/// for a branch with no impedance at this resolution.  `None` when a
/// part falls outside the per-contribution cap.
fn series_admittance(br: &Branch) -> (r: Option<(i64, i64)>)
    requires
        iabs(br.resistance as int) <= IMP_LIM as int,
        iabs(br.reactance as int) <= IMP_LIM as int,
    ensures
        match r {
            Some(pair) => pair.0 as int == series_g(*br) && pair.1 as int == series_b(*br)
                && branch_series_ok(*br),
            None => !branch_series_ok(*br),
        },
{
    proof {
        lemma_fx_mul_fits(br.resistance as int, br.resistance as int, IMP_LIM as int, IMP_LIM as int);
        lemma_fx_mul_fits(br.reactance as int, br.reactance as int, IMP_LIM as int, IMP_LIM as int);
        lemma_fx_mul_bound(br.resistance as int, br.resistance as int, IMP_LIM as int, IMP_LIM as int);
        lemma_fx_mul_bound(br.reactance as int, br.reactance as int, IMP_LIM as int, IMP_LIM as int);
        lemma_fx_square_nonneg(br.resistance as int);
        lemma_fx_square_nonneg(br.reactance as int);
    }
    let rr: i64 = crate::fixed::fxmul(br.resistance, br.resistance);
    let xx: i64 = crate::fixed::fxmul(br.reactance, br.reactance);
    let norm: i64 = rr + xx;
    if norm == 0 {
        return Some((0, 0));
    }
    let gv: i64 = match fxdiv_check(br.resistance, norm, YC_LIM) {
        Some(g0) => g0,
        None => {
            return None;
        },
    };
    let bv: i64 = match fxdiv_check(-br.reactance, norm, YC_LIM) {
        Some(b0) => b0,
        None => {
            return None;
        },
    };
    Some((gv, bv))
}

impl Network {
    /// Assemble the dense Y-bus over every bus.  Fails only when a
    /// contribution or an assembled entry falls outside the
    /// fixed-point caps.
    pub fn build_ybus(&self) -> (r: Result<YBus, YbusError>)
        requires
            self.wf(),
        ensures
            match r {
                Ok(y) => {
                    &&& y.wf()
                    &&& y.n == self.buses@.len()
                    &&& forall|i: int, k: int|
                        0 <= i < y.n && 0 <= k < y.n ==> #[trigger] y.g_at(i, k) == ybus_g_cell(
                            *self,
                            i,
                            k,
                        )
                    &&& forall|i: int, k: int|
                        0 <= i < y.n && 0 <= k < y.n ==> #[trigger] y.b_at(i, k) == ybus_b_cell(
                            *self,
                            i,
                            k,
                        )
                },
                Err(YbusError::SeriesOutOfRange) => exists|k: int|
                    0 <= k < self.branches@.len() && (#[trigger] self.branches@[k]).branch_status
                        && !branch_series_ok(self.branches@[k]),
                Err(YbusError::EntryOutOfRange) => exists|i: int, k: int|
                    #![trigger ybus_g_cell(*self, i, k)]
                    #![trigger ybus_b_cell(*self, i, k)]
                    0 <= i < self.buses@.len() && 0 <= k < self.buses@.len() && (iabs(
                        ybus_g_cell(*self, i, k),
                    ) > Y_LIM as int || iabs(ybus_b_cell(*self, i, k)) > Y_LIM as int),
            },
    {
        let ghost m = full_map_of(self.buses@);
        let full = build_index(&self.buses, crate::index::BusSel::All);
        proof {
            lemma_idx_map_image(self.buses@, all_sel());
            crate::index::lemma_sel_pairs_distinct(self.buses@, all_sel());
            crate::index::lemma_sel_all_count(self.buses@);
        }
        let n: usize = self.buses.len();
        let mut gt = Triplet::new(n, n);
        let mut bt = Triplet::new(n, n);
        let mut k: usize = 0;
        while k < self.branches.len()
            invariant
                self.wf(),
                m == full_map_of(self.buses@),
                full.wf(),
                full@ == m,
                n == self.buses@.len(),
                k <= self.branches@.len(),
                gt.wf(),
                bt.wf(),
                gt.m == n,
                gt.n == n,
                bt.m == n,
                bt.n == n,
                gt.entries@.len() <= 4 * k,
                bt.entries@.len() <= 4 * k,
                forall|i: int, j: int|
                    gt.cell(i, j) == ycell_g(self.branches@.take(k as int), m, i, j),
                forall|i: int, j: int|
                    bt.cell(i, j) == ycell_b(self.branches@.take(k as int), m, i, j),
                forall|i: int, j: int|
                    abs_cell_sum(gt.entries@, i, j) <= 4 * k * ((YC_LIM + QTY_LIM) as int),
                forall|i: int, j: int|
                    abs_cell_sum(bt.entries@, i, j) <= 4 * k * ((YC_LIM + QTY_LIM) as int),
                forall|id: int| m.contains_key(id) ==> 0 <= #[trigger] m[id] < n,
            decreases self.branches@.len() - k,
        {
            proof {
                assert(self.branches@.take(k as int + 1).drop_last() =~= self.branches@.take(
                    k as int,
                ));
                assert(self.branches@.take(k as int + 1).last() == self.branches@[k as int]);
            }
            let br = &self.branches[k];
            if br.branch_status {
                let (gv, bv) = match series_admittance(br) {
                    Some(pair) => pair,
                    None => {
                        return Err(YbusError::SeriesOutOfRange);
                    },
                };
                let fi = match full.get(br.from_bus) {
                    Some(i) => i,
                    None => {
                        proof {
                            lemma_contains_from_has_id(self.buses@, br.from_bus as int);
                        }
                        return Err(YbusError::SeriesOutOfRange);
                    },
                };
                let ti = match full.get(br.to_bus) {
                    Some(i) => i,
                    None => {
                        proof {
                            lemma_contains_from_has_id(self.buses@, br.to_bus as int);
                        }
                        return Err(YbusError::SeriesOutOfRange);
                    },
                };
                let gf: i64 = gv + br.from_shunt_conductance;
                let gtv: i64 = gv + br.to_shunt_conductance;
                gt.append(fi, fi, gf);
                gt.append(ti, ti, gtv);
                gt.append(fi, ti, -gv);
                gt.append(ti, fi, -gv);
                let bf: i64 = bv + br.from_shunt_susceptance;
                let btv: i64 = bv + br.to_shunt_susceptance;
                bt.append(fi, fi, bf);
                bt.append(ti, ti, btv);
                bt.append(fi, ti, -bv);
                bt.append(ti, fi, -bv);
            }
            k = k + 1;
        }
        proof {
            assert(self.branches@.take(self.branches@.len() as int) =~= self.branches@);
        }
        let ghost branches_done_g = gt.entries@;
        let ghost branches_done_b = bt.entries@;
        let mut k: usize = 0;
        while k < self.fixed_shunts.len()
            invariant
                self.wf(),
                m == full_map_of(self.buses@),
                full.wf(),
                full@ == m,
                n == self.buses@.len(),
                k <= self.fixed_shunts@.len(),
                gt.wf(),
                bt.wf(),
                gt.m == n,
                gt.n == n,
                bt.m == n,
                bt.n == n,
                forall|i: int, j: int|
                    gt.cell(i, j) == ycell_g(self.branches@, m, i, j) + shunt_g(
                        self.fixed_shunts@.take(k as int),
                        m,
                        self.s_base as int,
                        i,
                        j,
                    ),
                forall|i: int, j: int|
                    bt.cell(i, j) == ycell_b(self.branches@, m, i, j) + shunt_b(
                        self.fixed_shunts@.take(k as int),
                        m,
                        self.s_base as int,
                        i,
                        j,
                    ),
                forall|i: int, j: int|
                    abs_cell_sum(gt.entries@, i, j) <= (4 * self.branches@.len() + k) * ((YC_LIM
                        + QTY_LIM) as int),
                forall|i: int, j: int|
                    abs_cell_sum(bt.entries@, i, j) <= (4 * self.branches@.len() + k) * ((YC_LIM
                        + QTY_LIM) as int),
                forall|id: int| m.contains_key(id) ==> 0 <= #[trigger] m[id] < n,
            decreases self.fixed_shunts@.len() - k,
        {
            proof {
                assert(self.fixed_shunts@.take(k as int + 1).drop_last() =~= self.fixed_shunts@.take(
                    k as int,
                ));
                assert(self.fixed_shunts@.take(k as int + 1).last()
                    == self.fixed_shunts@[k as int]);
            }
            let sh = &self.fixed_shunts[k];
            if sh.status {
                proof {
                    lemma_fx_div_fits(sh.gl as int, self.s_base as int, QTY_LIM as int, SBASE_MIN as int);
                    lemma_fx_div_fits(sh.bl as int, self.s_base as int, QTY_LIM as int, SBASE_MIN as int);
                    lemma_fx_div_bound(sh.gl as int, self.s_base as int, QTY_LIM as int, SBASE_MIN as int);
                    lemma_fx_div_bound(sh.bl as int, self.s_base as int, QTY_LIM as int, SBASE_MIN as int);
                }
                let gsh: i64 = fxdiv(sh.gl, self.s_base);
                let bsh: i64 = fxdiv(sh.bl, self.s_base);
                let bi = match full.get(sh.bus_id) {
                    Some(i) => i,
                    None => {
                        proof {
                            lemma_contains_from_has_id(self.buses@, sh.bus_id as int);
                        }
                        return Err(YbusError::EntryOutOfRange);
                    },
                };
                gt.append(bi, bi, gsh);
                bt.append(bi, bi, bsh);
            }
            k = k + 1;
        }
        proof {
            assert(self.fixed_shunts@.take(self.fixed_shunts@.len() as int)
                =~= self.fixed_shunts@);
        }
        proof {
            assert forall|i: int, j: int|
                abs_cell_sum(gt.entries@, i, j) <= i64::MAX as int by {
                assert((4 * self.branches@.len() + self.fixed_shunts@.len()) * ((YC_LIM
                    + QTY_LIM) as int) <= i64::MAX as int) by (nonlinear_arith)
                    requires
                        self.branches@.len() <= N_DEV_MAX as int,
                        self.fixed_shunts@.len() <= N_DEV_MAX as int,
                ;
            }
            assert forall|i: int, j: int|
                abs_cell_sum(bt.entries@, i, j) <= i64::MAX as int by {
                assert((4 * self.branches@.len() + self.fixed_shunts@.len()) * ((YC_LIM
                    + QTY_LIM) as int) <= i64::MAX as int) by (nonlinear_arith)
                    requires
                        self.branches@.len() <= N_DEV_MAX as int,
                        self.fixed_shunts@.len() <= N_DEV_MAX as int,
                ;
            }
        }
        let okg = gt.sum_dupl();
        proof {
            assert(okg);
        }
        let okb = bt.sum_dupl();
        proof {
            assert(okb);
        }
        let dg = match to_dense(&gt, Y_LIM) {
            Some(d) => d,
            None => {
                proof {
                    let (i, k) = choose|i: int, k: int|
                        0 <= i < gt.m && 0 <= k < gt.n && iabs(#[trigger] gt.cell(i, k))
                            > Y_LIM as int;
                    assert(iabs(ybus_g_cell(*self, i, k)) > Y_LIM as int);
                }
                return Err(YbusError::EntryOutOfRange);
            },
        };
        let db = match to_dense(&bt, Y_LIM) {
            Some(d) => d,
            None => {
                proof {
                    let (i, k) = choose|i: int, k: int|
                        0 <= i < bt.m && 0 <= k < bt.n && iabs(#[trigger] bt.cell(i, k))
                            > Y_LIM as int;
                    assert(iabs(ybus_b_cell(*self, i, k)) > Y_LIM as int);
                }
                return Err(YbusError::EntryOutOfRange);
            },
        };
        Ok(YBus { n, g: dg, b: db })
    }
}

} // verus!
