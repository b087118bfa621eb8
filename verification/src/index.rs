//! Bus-to-matrix index tables.
//!
//! A solve derives its matrix indices from the bus list: the DC
//! solver numbers the non-slack buses, the Newton-Raphson solver
//! numbers every bus and, separately, the non-slack and the PQ
//! buses.  All four tables are built the same way — walk the buses
//! in insertion order and hand the next index to each bus the
//! selection accepts — so one builder covers them.

use vstd::prelude::*;

use crate::model::{Bus, BusType, Network};

verus! {

/// The mapping an association list denotes: later entries win.
pub open spec fn assoc_map(s: Seq<(usize, usize)>) -> Map<int, int>
    decreases s.len(),
{
    if s.len() == 0 {
        Map::empty()
    } else {
        assoc_map(s.drop_last()).insert(s.last().0 as int, s.last().1 as int)
    }
}

/// No two entries share a key.
pub open spec fn distinct_keys(s: Seq<(usize, usize)>) -> bool {
    forall|i: int, j: int| 0 <= i < j < s.len() ==> (#[trigger] s[i]).0 != (#[trigger] s[j]).0
}

/// A key-to-index table, kept in insertion order.
#[derive(Debug, Clone)]
pub struct IndexTable {
    pub pairs: Vec<(usize, usize)>,
}

impl View for IndexTable {
    type V = Map<int, int>;

    open spec fn view(&self) -> Map<int, int> {
        assoc_map(self.pairs@)
    }
}

proof fn lemma_assoc_key_from_pair(s: Seq<(usize, usize)>, key: int)
    requires
        assoc_map(s).contains_key(key),
    ensures
        exists|j: int| 0 <= j < s.len() && (#[trigger] s[j]).0 as int == key,
    decreases s.len(),
{
    if s.len() > 0 {
        if s.last().0 as int == key {
            assert(0 <= s.len() - 1 < s.len() && s[s.len() - 1].0 as int == key);
        } else {
            lemma_assoc_key_from_pair(s.drop_last(), key);
            let j = choose|j: int|
                0 <= j < s.drop_last().len() && (#[trigger] s.drop_last()[j]).0 as int == key;
            assert(0 <= j < s.len() && s[j].0 as int == key);
        }
    }
}

proof fn lemma_assoc_push(s: Seq<(usize, usize)>, x: (usize, usize))
    ensures
        assoc_map(s.push(x)) == assoc_map(s).insert(x.0 as int, x.1 as int),
{
    assert(s.push(x).drop_last() =~= s);
    assert(s.push(x).last() == x);
}

proof fn lemma_assoc_at(s: Seq<(usize, usize)>, j: int)
    requires
        distinct_keys(s),
        0 <= j < s.len(),
    ensures
        assoc_map(s).contains_key(s[j].0 as int),
        assoc_map(s)[s[j].0 as int] == s[j].1 as int,
    decreases s.len(),
{
    if j == s.len() - 1 {
    } else {
        lemma_assoc_at(s.drop_last(), j);
        assert(s.drop_last()[j] == s[j]);
        assert(s[j].0 != s.last().0);
    }
}

impl IndexTable {
    /// The table holds no key twice, so `get` agrees with the map.
    pub open spec fn wf(self) -> bool {
        distinct_keys(self.pairs@)
    }

    pub fn new() -> (t: IndexTable)
        ensures
            t@ =~= Map::<int, int>::empty(),
            t.wf(),
            t.pairs@.len() == 0,
    {
        IndexTable { pairs: Vec::new() }
    }

    pub fn len(&self) -> (n: usize)
        ensures
            n == self.pairs@.len(),
    {
        self.pairs.len()
    }

    /// Look a key up.
    pub fn get(&self, key: usize) -> (r: Option<usize>)
        requires
            self.wf(),
        ensures
            match r {
                Some(v) => self@.contains_key(key as int) && self@[key as int] == v as int,
                None => !self@.contains_key(key as int),
            },
    {
        let mut k: usize = 0;
        while k < self.pairs.len()
            invariant
                self.wf(),
                k <= self.pairs@.len(),
                forall|j: int| 0 <= j < k ==> (#[trigger] self.pairs@[j]).0 != key,
            decreases self.pairs@.len() - k,
        {
            if self.pairs[k].0 == key {
                proof {
                    lemma_assoc_at(self.pairs@, k as int);
                }
                return Some(self.pairs[k].1);
            }
            k = k + 1;
        }
        proof {
            if self@.contains_key(key as int) {
                lemma_assoc_key_from_pair(self.pairs@, key as int);
            }
        }
        None
    }
}

/// Accepts the buses that enter the reduced (slack-excluded) system.
pub open spec fn is_nonslack(b: Bus) -> bool {
    b.bus_type != BusType::Slack
}

/// Accepts the load buses.
pub open spec fn is_pq(b: Bus) -> bool {
    b.bus_type == BusType::PQ
}

/// The index pairs a selection assigns: each accepted bus is paired
/// with the count of previously accepted buses.
pub open spec fn sel_pairs(buses: Seq<Bus>, f: spec_fn(Bus) -> bool) -> Seq<(usize, usize)>
    decreases buses.len(),
{
    if buses.len() == 0 {
        Seq::empty()
    } else {
        let p = sel_pairs(buses.drop_last(), f);
        if f(buses.last()) {
            p.push((buses.last().bus_id, p.len() as usize))
        } else {
            p
        }
    }
}

/// How many buses the selection accepts.
pub open spec fn sel_count(buses: Seq<Bus>, f: spec_fn(Bus) -> bool) -> int {
    sel_pairs(buses, f).len() as int
}

/// The bus-id-to-index map a selection induces.
pub open spec fn idx_map(buses: Seq<Bus>, f: spec_fn(Bus) -> bool) -> Map<int, int> {
    assoc_map(sel_pairs(buses, f))
}

/// The canonical selections.
pub open spec fn nonslack_sel() -> spec_fn(Bus) -> bool {
    |b: Bus| is_nonslack(b)
}

pub open spec fn all_sel() -> spec_fn(Bus) -> bool {
    |b: Bus| true
}

pub open spec fn pq_sel() -> spec_fn(Bus) -> bool {
    |b: Bus| is_pq(b)
}

/// bus_id -> non-slack matrix index, in insertion order.
pub open spec fn bus_map_of(buses: Seq<Bus>) -> Map<int, int> {
    idx_map(buses, nonslack_sel())
}

/// Number of non-slack buses.
pub open spec fn ns_total(buses: Seq<Bus>) -> int {
    sel_count(buses, nonslack_sel())
}

/// bus_id -> full matrix index (every bus, slack included).
pub open spec fn full_map_of(buses: Seq<Bus>) -> Map<int, int> {
    idx_map(buses, all_sel())
}

/// Number of PQ buses.
pub open spec fn pq_total(buses: Seq<Bus>) -> int {
    sel_count(buses, pq_sel())
}

/// The n-th pair carries index n.
proof fn lemma_sel_pairs_shape(buses: Seq<Bus>, f: spec_fn(Bus) -> bool)
    requires
        buses.len() <= usize::MAX,
    ensures
        sel_count(buses, f) <= buses.len(),
        forall|j: int|
            0 <= j < sel_count(buses, f) ==> (#[trigger] sel_pairs(buses, f)[j]).1 as int == j,
    decreases buses.len(),
{
    if buses.len() > 0 {
        lemma_sel_pairs_shape(buses.drop_last(), f);
    }
}

/// The j-th pair's key is the id of an accepted bus.
pub open spec fn pair_key_ok(buses: Seq<Bus>, f: spec_fn(Bus) -> bool, j: int) -> bool {
    exists|k: int|
        0 <= k < buses.len() && f(#[trigger] buses[k]) && buses[k].bus_id == sel_pairs(
            buses,
            f,
        )[j].0
}

/// Every pair's key is the id of an accepted bus.
proof fn lemma_sel_pairs_keys(buses: Seq<Bus>, f: spec_fn(Bus) -> bool)
    ensures
        forall|j: int| 0 <= j < sel_count(buses, f) ==> #[trigger] pair_key_ok(buses, f, j),
    decreases buses.len(),
{
    if buses.len() > 0 {
        lemma_sel_pairs_keys(buses.drop_last(), f);
        let p = sel_pairs(buses.drop_last(), f);
        assert forall|j: int| 0 <= j < sel_count(buses, f) implies #[trigger] pair_key_ok(
            buses,
            f,
            j,
        ) by {
            if f(buses.last()) {
                assert(sel_pairs(buses, f) == p.push((buses.last().bus_id, p.len() as usize)));
                if j < p.len() {
                    assert(sel_pairs(buses, f)[j] == p[j]);
                    assert(pair_key_ok(buses.drop_last(), f, j));
                    let k = choose|k: int|
                        0 <= k < buses.drop_last().len() && f(#[trigger] buses.drop_last()[k])
                            && buses.drop_last()[k].bus_id == p[j].0;
                    assert(buses.drop_last()[k] == buses[k]);
                    assert(0 <= k < buses.len() && f(buses[k]) && buses[k].bus_id == sel_pairs(
                        buses,
                        f,
                    )[j].0);
                    assert(pair_key_ok(buses, f, j));
                } else {
                    assert(j == p.len());
                    assert(sel_pairs(buses, f)[j] == (buses.last().bus_id, p.len() as usize));
                    let k = buses.len() - 1;
                    assert(0 <= k < buses.len() && f(buses[k]) && buses[k].bus_id == sel_pairs(
                        buses,
                        f,
                    )[j].0);
                    assert(pair_key_ok(buses, f, j));
                }
            } else {
                assert(sel_pairs(buses, f) == p);
                assert(pair_key_ok(buses.drop_last(), f, j));
                let k = choose|k: int|
                    0 <= k < buses.drop_last().len() && f(#[trigger] buses.drop_last()[k])
                        && buses.drop_last()[k].bus_id == p[j].0;
                assert(buses.drop_last()[k] == buses[k]);
                assert(0 <= k < buses.len() && f(buses[k]) && buses[k].bus_id == sel_pairs(
                    buses,
                    f,
                )[j].0);
                assert(pair_key_ok(buses, f, j));
            }
        }
    }
}

/// Distinct bus ids give distinct table keys.
pub proof fn lemma_sel_pairs_distinct(buses: Seq<Bus>, f: spec_fn(Bus) -> bool)
    requires
        crate::model::distinct_ids(buses),
    ensures
        distinct_keys(sel_pairs(buses, f)),
    decreases buses.len(),
{
    if buses.len() > 0 {
        assert(crate::model::distinct_ids(buses.drop_last())) by {
            assert(forall|i: int, j: int|
                0 <= i < j < buses.drop_last().len() ==> (#[trigger] buses.drop_last()[i]).bus_id
                    != (#[trigger] buses.drop_last()[j]).bus_id);
        }
        lemma_sel_pairs_distinct(buses.drop_last(), f);
        lemma_sel_pairs_keys(buses.drop_last(), f);
        let p = sel_pairs(buses.drop_last(), f);
        if f(buses.last()) {
            assert forall|j: int| 0 <= j < p.len() implies (#[trigger] p[j]).0
                != buses.last().bus_id by {
                assert(pair_key_ok(buses.drop_last(), f, j));
                let k = choose|k: int|
                    0 <= k < buses.drop_last().len() && f(#[trigger] buses.drop_last()[k])
                        && buses.drop_last()[k].bus_id == p[j].0;
                assert(buses[k].bus_id != buses[buses.len() - 1].bus_id);
            }
            assert(forall|i: int, j: int|
                0 <= i < j < sel_pairs(buses, f).len() ==> (#[trigger] sel_pairs(buses, f)[i]).0
                    != (#[trigger] sel_pairs(buses, f)[j]).0);
        }
    }
}

/// Where an accepted bus lands: at the count of accepted buses
/// before it.
pub proof fn lemma_idx_map_at(buses: Seq<Bus>, f: spec_fn(Bus) -> bool, k: int)
    requires
        buses.len() <= usize::MAX,
        crate::model::distinct_ids(buses),
        0 <= k < buses.len(),
        f(buses[k]),
    ensures
        idx_map(buses, f).contains_key(buses[k].bus_id as int),
        idx_map(buses, f)[buses[k].bus_id as int] == sel_count(buses.take(k), f),
        sel_count(buses.take(k), f) < sel_count(buses, f),
    decreases buses.len(),
{
    lemma_sel_pairs_distinct(buses, f);
    lemma_sel_pairs_shape(buses, f);
    lemma_sel_pairs_shape(buses.drop_last(), f);
    let p = sel_pairs(buses.drop_last(), f);
    if f(buses.last()) {
        assert(sel_pairs(buses, f) == p.push((buses.last().bus_id, p.len() as usize)));
        lemma_assoc_push(p, (buses.last().bus_id, p.len() as usize));
    }
    if k == buses.len() - 1 {
        assert(buses.take(k) =~= buses.drop_last());
        lemma_assoc_at(sel_pairs(buses, f), p.len() as int);
        assert(sel_pairs(buses, f)[p.len() as int] == (buses.last().bus_id, p.len() as usize));
    } else {
        assert(crate::model::distinct_ids(buses.drop_last())) by {
            assert(forall|i: int, j: int|
                0 <= i < j < buses.drop_last().len() ==> (#[trigger] buses.drop_last()[i]).bus_id
                    != (#[trigger] buses.drop_last()[j]).bus_id);
        }
        assert(buses.drop_last()[k] == buses[k]);
        lemma_idx_map_at(buses.drop_last(), f, k);
        assert(buses.drop_last().take(k) =~= buses.take(k));
        if f(buses.last()) {
            assert(buses.last().bus_id != buses[k].bus_id);
        }
    }
}

/// A key in the map comes from an accepted bus.
pub proof fn lemma_idx_map_key(buses: Seq<Bus>, f: spec_fn(Bus) -> bool, id: int)
    requires
        idx_map(buses, f).contains_key(id),
    ensures
        exists|k: int|
            0 <= k < buses.len() && f(#[trigger] buses[k]) && buses[k].bus_id as int == id,
{
    lemma_assoc_key_from_pair(sel_pairs(buses, f), id);
    lemma_sel_pairs_keys(buses, f);
    let j = choose|j: int|
        0 <= j < sel_pairs(buses, f).len() && (#[trigger] sel_pairs(buses, f)[j]).0 as int == id;
    assert(pair_key_ok(buses, f, j));
    let k = choose|k: int|
        0 <= k < buses.len() && f(#[trigger] buses[k]) && buses[k].bus_id == sel_pairs(
            buses,
            f,
        )[j].0;
    assert(0 <= k < buses.len() && f(buses[k]) && buses[k].bus_id as int == id);
}

/// A bus the selection rejects is not in the map.
pub proof fn lemma_idx_map_absent(buses: Seq<Bus>, f: spec_fn(Bus) -> bool, k: int)
    requires
        crate::model::distinct_ids(buses),
        0 <= k < buses.len(),
        !f(buses[k]),
    ensures
        !idx_map(buses, f).contains_key(buses[k].bus_id as int),
{
    if idx_map(buses, f).contains_key(buses[k].bus_id as int) {
        lemma_idx_map_key(buses, f, buses[k].bus_id as int);
        let k2 = choose|k2: int|
            0 <= k2 < buses.len() && f(#[trigger] buses[k2]) && buses[k2].bus_id as int
                == buses[k].bus_id as int;
        assert(k2 != k);
    }
}

/// Every map value lies below the accepted count, and distinct keys
/// get distinct values.
pub proof fn lemma_idx_map_image(buses: Seq<Bus>, f: spec_fn(Bus) -> bool)
    requires
        buses.len() <= usize::MAX,
        crate::model::distinct_ids(buses),
    ensures
        forall|id: int|
            idx_map(buses, f).contains_key(id) ==> 0 <= #[trigger] idx_map(buses, f)[id]
                < sel_count(buses, f),
        forall|v: int|
            0 <= v < sel_count(buses, f) ==> idx_map(buses, f).contains_key(
                (#[trigger] sel_pairs(buses, f)[v]).0 as int,
            ) && idx_map(buses, f)[sel_pairs(buses, f)[v].0 as int] == v,
        forall|id1: int, id2: int|
            idx_map(buses, f).contains_key(id1) && idx_map(buses, f).contains_key(id2) && id1
                != id2 ==> #[trigger] idx_map(buses, f)[id1] != #[trigger] idx_map(buses, f)[id2],
{
    lemma_sel_pairs_distinct(buses, f);
    lemma_sel_pairs_shape(buses, f);
    let s = sel_pairs(buses, f);
    assert forall|id: int| idx_map(buses, f).contains_key(id) implies 0 <= #[trigger] idx_map(
        buses,
        f,
    )[id] < sel_count(buses, f) by {
        lemma_assoc_key_from_pair(s, id);
        let j = choose|j: int| 0 <= j < s.len() && (#[trigger] s[j]).0 as int == id;
        lemma_assoc_at(s, j);
    }
    assert forall|v: int| 0 <= v < sel_count(buses, f) implies idx_map(buses, f).contains_key(
        (#[trigger] sel_pairs(buses, f)[v]).0 as int,
    ) && idx_map(buses, f)[sel_pairs(buses, f)[v].0 as int] == v by {
        lemma_assoc_at(s, v);
    }
    assert forall|id1: int, id2: int|
        idx_map(buses, f).contains_key(id1) && idx_map(buses, f).contains_key(id2) && id1
            != id2 implies #[trigger] idx_map(buses, f)[id1] != #[trigger] idx_map(
        buses,
        f,
    )[id2] by {
        lemma_assoc_key_from_pair(s, id1);
        lemma_assoc_key_from_pair(s, id2);
        let j1 = choose|j: int| 0 <= j < s.len() && (#[trigger] s[j]).0 as int == id1;
        let j2 = choose|j: int| 0 <= j < s.len() && (#[trigger] s[j]).0 as int == id2;
        lemma_assoc_at(s, j1);
        lemma_assoc_at(s, j2);
    }
}

/// Law: the non-slack index map of a well-formed bus list is a
/// bijection onto [0, non-slack count): no gaps, no collisions.
/// Rebuilding it is idempotent, since it is a pure function of the
/// bus list.
pub proof fn lemma_bus_map_image(buses: Seq<Bus>)
    requires
        buses.len() <= usize::MAX,
        crate::model::distinct_ids(buses),
    ensures
        forall|id: int|
            bus_map_of(buses).contains_key(id) ==> 0 <= #[trigger] bus_map_of(buses)[id]
                < ns_total(buses),
        forall|v: int|
            0 <= v < ns_total(buses) ==> bus_map_of(buses).contains_key(
                (#[trigger] sel_pairs(buses, nonslack_sel())[v]).0 as int,
            ) && bus_map_of(buses)[sel_pairs(buses, nonslack_sel())[v].0 as int] == v,
        forall|id1: int, id2: int|
            bus_map_of(buses).contains_key(id1) && bus_map_of(buses).contains_key(id2) && id1
                != id2 ==> #[trigger] bus_map_of(buses)[id1] != #[trigger] bus_map_of(
                buses,
            )[id2],
{
    lemma_idx_map_image(buses, nonslack_sel());
}

pub proof fn lemma_sel_all_count(buses: Seq<Bus>)
    ensures
        sel_count(buses, all_sel()) == buses.len(),
    decreases buses.len(),
{
    if buses.len() > 0 {
        lemma_sel_all_count(buses.drop_last());
    }
}


/// The positions (indices into the bus list) of the selected buses,
/// in insertion order.
pub open spec fn sel_pos(buses: Seq<Bus>, f: spec_fn(Bus) -> bool) -> Seq<int>
    decreases buses.len(),
{
    if buses.len() == 0 {
        Seq::empty()
    } else {
        let p = sel_pos(buses.drop_last(), f);
        if f(buses.last()) {
            p.push(buses.len() - 1)
        } else {
            p
        }
    }
}

/// Shape of the position list: one entry per accepted bus, each a
/// valid index of an accepted bus.
pub proof fn lemma_sel_pos_props(buses: Seq<Bus>, f: spec_fn(Bus) -> bool)
    ensures
        sel_pos(buses, f).len() == sel_count(buses, f),
        forall|s: int|
            0 <= s < sel_pos(buses, f).len() ==> 0 <= #[trigger] sel_pos(buses, f)[s]
                < buses.len() && f(buses[sel_pos(buses, f)[s]]),
    decreases buses.len(),
{
    if buses.len() > 0 {
        lemma_sel_pos_props(buses.drop_last(), f);
        let p = sel_pos(buses.drop_last(), f);
        assert forall|s: int| 0 <= s < sel_pos(buses, f).len() implies 0 <= #[trigger] sel_pos(
            buses,
            f,
        )[s] < buses.len() && f(buses[sel_pos(buses, f)[s]]) by {
            if s < p.len() {
                assert(sel_pos(buses, f)[s] == p[s]);
                assert(buses.drop_last()[p[s]] == buses[p[s]]);
            }
        }
    }
}

/// Build the position list of a selection.
pub fn build_positions(buses: &Vec<Bus>, sel: BusSel) -> (r: Vec<usize>)
    ensures
        r@.len() == sel_count(buses@, sel.fun()),
        forall|s: int|
            0 <= s < r@.len() ==> (#[trigger] r@[s]) as int == sel_pos(buses@, sel.fun())[s],
{
    let mut r: Vec<usize> = Vec::new();
    let mut i: usize = 0;
    while i < buses.len()
        invariant
            i <= buses@.len(),
            r@.len() == sel_count(buses@.take(i as int), sel.fun()),
            forall|s: int|
                0 <= s < r@.len() ==> (#[trigger] r@[s]) as int == sel_pos(
                    buses@.take(i as int),
                    sel.fun(),
                )[s],
        decreases buses@.len() - i,
    {
        proof {
            assert(buses@.take(i as int + 1).drop_last() =~= buses@.take(i as int));
            assert(buses@.take(i as int + 1).last() == buses@[i as int]);
            lemma_sel_pos_props(buses@.take(i as int), sel.fun());
            lemma_sel_pos_props(buses@.take(i as int + 1), sel.fun());
            lemma_sel_pairs_shape(buses@.take(i as int), sel.fun());
        }
        if bus_passes(sel, &buses[i]) {
            r.push(i);
        }
        i = i + 1;
    }
    proof {
        assert(buses@.take(buses@.len() as int) =~= buses@);
    }
    r
}

/// Which buses a runtime table selects.
#[derive(Clone, Copy, Debug)]
pub enum BusSel {
    NonSlack,
    All,
    Pq,
}

impl BusSel {
    /// The selection this tag denotes.
    pub open spec fn fun(self) -> spec_fn(Bus) -> bool {
        match self {
            BusSel::NonSlack => nonslack_sel(),
            BusSel::All => all_sel(),
            BusSel::Pq => pq_sel(),
        }
    }
}

fn bus_passes(sel: BusSel, b: &Bus) -> (r: bool)
    ensures
        r == sel.fun()(*b),
{
    match sel {
        BusSel::NonSlack => !(matches!(b.bus_type, BusType::Slack)),
        BusSel::All => true,
        BusSel::Pq => matches!(b.bus_type, BusType::PQ),
    }
}

/// Build the index table a selection induces, walking the buses in
/// insertion order.
pub fn build_index(buses: &Vec<Bus>, sel: BusSel) -> (t: IndexTable)
    ensures
        t.pairs@ == sel_pairs(buses@, sel.fun()),
        t@ == idx_map(buses@, sel.fun()),
        crate::model::distinct_ids(buses@) ==> t.wf(),
{
    let mut pairs: Vec<(usize, usize)> = Vec::new();
    let mut i: usize = 0;
    while i < buses.len()
        invariant
            i <= buses@.len(),
            pairs@ == sel_pairs(buses@.take(i as int), sel.fun()),
            pairs@.len() <= i,
        decreases buses@.len() - i,
    {
        proof {
            assert(buses@.take(i as int + 1).drop_last() =~= buses@.take(i as int));
            assert(buses@.take(i as int + 1).last() == buses@[i as int]);
        }
        if bus_passes(sel, &buses[i]) {
            let next: usize = pairs.len();
            pairs.push((buses[i].bus_id, next));
        }
        i = i + 1;
    }
    proof {
        assert(buses@.take(buses@.len() as int) =~= buses@);
        if crate::model::distinct_ids(buses@) {
            lemma_sel_pairs_distinct(buses@, sel.fun());
        }
    }
    IndexTable { pairs }
}

impl Network {
    /// Rebuild `bus_map` from the current bus list; call after any
    /// bus change.
    pub fn rebuild_bus_map(&mut self)
        ensures
            final(self).bus_map.pairs@ == sel_pairs(old(self).buses@, nonslack_sel()),
            final(self).bus_map@ == bus_map_of(old(self).buses@),
            crate::model::distinct_ids(old(self).buses@) ==> final(self).bus_map.wf(),
            final(self).case_name == old(self).case_name,
            final(self).s_base == old(self).s_base,
            final(self).frequency == old(self).frequency,
            final(self).buses == old(self).buses,
            final(self).branches == old(self).branches,
            final(self).loads == old(self).loads,
            final(self).generators == old(self).generators,
            final(self).fixed_shunts == old(self).fixed_shunts,
            final(self).switched_shunts == old(self).switched_shunts,
            final(self).areas == old(self).areas,
            final(self).zones == old(self).zones,
    {
        let t = build_index(&self.buses, BusSel::NonSlack);
        self.bus_map = t;
    }
}

} // verus!
