//! Sparse triplet builder.
//!
//! Matrix contributions arrive as (row, column, value) entries in
//! arbitrary order, duplicates permitted; `sum_dupl` collapses
//! duplicate positions by addition.  The model of a triplet list is
//! the total function `cell_sum`: what each matrix position holds
//! once every entry is added in.

use vstd::prelude::*;
use vstd::pervasive::VecAdditionalExecFns;

use crate::fixed::iabs;

verus! {

/// Sum of the values all entries contribute to position (i, j).
pub open spec fn cell_sum(s: Seq<(usize, usize, i64)>, i: int, j: int) -> int
    decreases s.len(),
{
    if s.len() == 0 {
        0
    } else {
        cell_sum(s.drop_last(), i, j) + if s.last().0 as int == i && s.last().1 as int == j {
            s.last().2 as int
        } else {
            0
        }
    }
}

/// Sum of the value magnitudes the entries contribute to (i, j);
/// when it fits in an `i64`, so does every partial sum.
pub open spec fn abs_cell_sum(s: Seq<(usize, usize, i64)>, i: int, j: int) -> int
    decreases s.len(),
{
    if s.len() == 0 {
        0
    } else {
        abs_cell_sum(s.drop_last(), i, j) + if s.last().0 as int == i && s.last().1 as int == j {
            iabs(s.last().2 as int)
        } else {
            0
        }
    }
}

/// No two entries share a position.
pub open spec fn distinct_cells(s: Seq<(usize, usize, i64)>) -> bool {
    forall|p: int, q: int|
        0 <= p < q < s.len() ==> !((#[trigger] s[p]).0 == (#[trigger] s[q]).0 && s[p].1 == s[q].1)
}

pub proof fn lemma_cell_push(s: Seq<(usize, usize, i64)>, x: (usize, usize, i64))
    ensures
        forall|i: int, j: int|
            cell_sum(s.push(x), i, j) == cell_sum(s, i, j) + if x.0 as int == i && x.1 as int == j {
                x.2 as int
            } else {
                0
            },
        forall|i: int, j: int|
            abs_cell_sum(s.push(x), i, j) == abs_cell_sum(s, i, j) + if x.0 as int == i
                && x.1 as int == j {
                iabs(x.2 as int)
            } else {
                0
            },
{
    assert(s.push(x).drop_last() =~= s);
    assert(s.push(x).last() == x);
}

proof fn lemma_cell_le_abs(s: Seq<(usize, usize, i64)>, i: int, j: int)
    ensures
        0 <= abs_cell_sum(s, i, j),
        iabs(cell_sum(s, i, j)) <= abs_cell_sum(s, i, j),
    decreases s.len(),
{
    if s.len() > 0 {
        lemma_cell_le_abs(s.drop_last(), i, j);
    }
}

proof fn lemma_abs_cell_take(s: Seq<(usize, usize, i64)>, e: int, i: int, j: int)
    requires
        0 <= e <= s.len(),
    ensures
        abs_cell_sum(s.take(e), i, j) <= abs_cell_sum(s, i, j),
    decreases s.len(),
{
    if e == s.len() {
        assert(s.take(e) =~= s);
    } else if s.len() > 0 {
        lemma_abs_cell_take(s.drop_last(), e, i, j);
        assert(s.drop_last().take(e) =~= s.take(e));
        lemma_cell_le_abs(s, i, j);
    }
}

/// In a duplicate-free list, the entry at a position is that
/// position's whole sum.
pub proof fn lemma_cell_distinct(s: Seq<(usize, usize, i64)>, p: int)
    requires
        distinct_cells(s),
        0 <= p < s.len(),
    ensures
        cell_sum(s, s[p].0 as int, s[p].1 as int) == s[p].2 as int,
    decreases s.len(),
{
    if p == s.len() - 1 {
        lemma_cell_zero_when_absent(s.drop_last(), s[p].0 as int, s[p].1 as int);
    } else {
        assert(distinct_cells(s.drop_last()));
        assert(s.drop_last()[p] == s[p]);
        lemma_cell_distinct(s.drop_last(), p);
        assert(!(s[p].0 == s.last().0 && s[p].1 == s.last().1));
    }
}

/// A position no entry names sums to zero.
pub proof fn lemma_cell_zero_when_absent(s: Seq<(usize, usize, i64)>, i: int, j: int)
    requires
        forall|q: int| 0 <= q < s.len() ==> !((#[trigger] s[q]).0 as int == i && s[q].1 as int == j),
    ensures
        cell_sum(s, i, j) == 0,
    decreases s.len(),
{
    if s.len() > 0 {
        assert(!(s[s.len() - 1].0 as int == i && s[s.len() - 1].1 as int == j));
        lemma_cell_zero_when_absent(s.drop_last(), i, j);
    }
}

/// A triplet list with its matrix dimensions.
#[derive(Debug, Clone)]
pub struct Triplet {
    /// Row count.
    pub m: usize,
    /// Column count.
    pub n: usize,
    /// (row, column, value) contributions, in arrival order.
    pub entries: Vec<(usize, usize, i64)>,
}

impl Triplet {
    /// Every entry lies inside the matrix.
    pub open spec fn wf(self) -> bool {
        forall|k: int|
            0 <= k < self.entries@.len() ==> (#[trigger] self.entries@[k]).0 < self.m
                && self.entries@[k].1 < self.n
    }

    /// What position (i, j) holds.
    pub open spec fn cell(self, i: int, j: int) -> int {
        cell_sum(self.entries@, i, j)
    }

    /// An empty m-by-n triplet list.
    pub fn new(m: usize, n: usize) -> (t: Triplet)
        ensures
            t.wf(),
            t.m == m,
            t.n == n,
            t.entries@ =~= Seq::<(usize, usize, i64)>::empty(),
    {
        Triplet { m, n, entries: Vec::new() }
    }

    /// Append one contribution; duplicates allowed.
    pub fn append(&mut self, row: usize, col: usize, value: i64)
        requires
            old(self).wf(),
            row < old(self).m,
            col < old(self).n,
        ensures
            final(self).wf(),
            final(self).m == old(self).m,
            final(self).n == old(self).n,
            final(self).entries@ == old(self).entries@.push((row, col, value)),
            forall|i: int, j: int|
                final(self).cell(i, j) == old(self).cell(i, j) + if row as int == i && col as int
                    == j {
                    value as int
                } else {
                    0
                },
            forall|i: int, j: int|
                abs_cell_sum(final(self).entries@, i, j) == abs_cell_sum(old(self).entries@, i, j)
                    + if row as int == i && col as int == j {
                    iabs(value as int)
                } else {
                    0
                },
    {
        proof {
            lemma_cell_push(self.entries@, (row, col, value));
        }
        self.entries.push((row, col, value));
    }

    /// Collapse duplicate positions by addition.  Returns false — and
    /// leaves the list unchanged — only when some position's
    /// magnitude sum exceeds the 64-bit range; a list whose magnitude
    /// sums all fit is always compacted.
    pub fn sum_dupl(&mut self) -> (ok: bool)
        requires
            old(self).wf(),
        ensures
            final(self).m == old(self).m,
            final(self).n == old(self).n,
            ok ==> final(self).wf() && distinct_cells(final(self).entries@),
            ok ==> final(self).entries@.len() <= old(self).entries@.len(),
            ok ==> (forall|i: int, j: int| final(self).cell(i, j) == old(self).cell(i, j)),
            !ok ==> *final(self) == *old(self),
            (forall|i: int, j: int|
                abs_cell_sum(old(self).entries@, i, j) <= i64::MAX as int) ==> ok,
    {
        let ghost full = self.entries@;
        let mut out: Vec<(usize, usize, i64)> = Vec::new();
        let mut e: usize = 0;
        while e < self.entries.len()
            invariant
                self == old(self),
                self.wf(),
                e <= self.entries@.len(),
                full == self.entries@,
                distinct_cells(out@),
                forall|k: int|
                    0 <= k < out@.len() ==> (#[trigger] out@[k]).0 < self.m && out@[k].1 < self.n,
                out@.len() <= e,
                forall|i: int, j: int|
                    cell_sum(out@, i, j) == cell_sum(full.take(e as int), i, j),
            decreases self.entries@.len() - e,
        {
            proof {
                lemma_cell_push(full.take(e as int), full[e as int]);
                assert(full.take(e as int + 1).drop_last() =~= full.take(e as int));
                assert(full.take(e as int + 1) =~= full.take(e as int).push(full[e as int]));
            }
            let (r, c, v) = self.entries[e];
            match find_pos(&out, r, c) {
                Some(p) => {
                    proof {
                        lemma_cell_distinct(out@, p as int);
                    }
                    let prior: i64 = out[p].2;
                    let wide: i128 = prior as i128 + v as i128;
                    if wide > i64::MAX as i128 || wide < i64::MIN as i128 {
                        proof {
                            lemma_cell_le_abs(full.take(e as int + 1), r as int, c as int);
                            lemma_abs_cell_take(full, e as int + 1, r as int, c as int);
                        }
                        return false;
                    }
                    let ghost before = out@;
                    out.set(p, (r, c, wide as i64));
                    proof {
                        assert forall|i: int, j: int|
                            cell_sum(out@, i, j) == cell_sum(full.take(e as int + 1), i, j) by {
                            lemma_cell_update(before, p as int, (r, c, wide as i64), i, j);
                        }
                    }
                },
                None => {
                    proof {
                        lemma_cell_push(out@, (r, c, v));
                    }
                    out.push((r, c, v));
                },
            }
            e = e + 1;
        }
        proof {
            assert(full.take(full.len() as int) =~= full);
        }
        self.entries = out;
        true
    }
}

/// Index of an entry at position (r, c), if any.
fn find_pos(out: &Vec<(usize, usize, i64)>, r: usize, c: usize) -> (h: Option<usize>)
    ensures
        match h {
            Some(p) => p < out@.len() && out@[p as int].0 == r && out@[p as int].1 == c,
            None => forall|q: int|
                0 <= q < out@.len() ==> !((#[trigger] out@[q]).0 == r && out@[q].1 == c),
        },
{
    let mut p: usize = 0;
    while p < out.len()
        invariant
            p <= out@.len(),
            forall|q: int| 0 <= q < p ==> !((#[trigger] out@[q]).0 == r && out@[q].1 == c),
        decreases out@.len() - p,
    {
        if out[p].0 == r && out[p].1 == c {
            return Some(p);
        }
        p = p + 1;
    }
    None
}

/// Replacing the entry at `p` by one at the same position changes
/// each cell by the value difference at that position.
proof fn lemma_cell_update(s: Seq<(usize, usize, i64)>, p: int, x: (usize, usize, i64), i: int, j: int)
    requires
        0 <= p < s.len(),
        s[p].0 == x.0,
        s[p].1 == x.1,
    ensures
        cell_sum(s.update(p, x), i, j) == cell_sum(s, i, j) + if x.0 as int == i && x.1 as int
            == j {
            x.2 - s[p].2
        } else {
            0
        },
    decreases s.len(),
{
    if p == s.len() - 1 {
        assert(s.update(p, x).drop_last() =~= s.drop_last());
        assert(s.update(p, x).last() == x);
    } else {
        assert(s.update(p, x).drop_last() =~= s.drop_last().update(p, x));
        assert(s.update(p, x).last() == s.last());
        assert(s.drop_last()[p] == s[p]);
        lemma_cell_update(s.drop_last(), p, x, i, j);
    }
}

} // verus!
