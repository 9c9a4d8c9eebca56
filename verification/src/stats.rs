//! Breakdowns of fuses by owner, tag and expiry month.

use crate::annotation::{Fuse, Status};
use crate::date::formatted_ym;
use crate::order::{is_permutation, key_eq, key_lt, lemma_key_order, lex_lt, stable_order, stably_sorted, SortKey};
use crate::output::OutputFormat;
use crate::style::{push_led_line, push_line, styled, Rendered, StyledLine, Tint};
use crate::text::{append, chars_of, decimal, padded_left, padded_right, push_decimal, push_padded_left, push_padded_right, str_eq, string_of_range, to_owned};
use vstd::prelude::*;

verus! {

/// One row of the owner breakdown.
#[derive(Debug)]
pub struct OwnerRow {
    pub owner: String,
    pub total: usize,
    pub detonated: usize,
    pub ticking: usize,
    pub inert: usize,
}

/// One row of the tag breakdown.
#[derive(Debug)]
pub struct TagRow {
    pub tag: String,
    pub total: usize,
    pub detonated: usize,
    pub ticking: usize,
    pub inert: usize,
}

/// One row of the month timeline.
#[derive(Debug)]
pub struct MonthRow {
    /// The expiry month, `YYYY-MM`.
    pub month: String,
    pub total: usize,
    pub detonated: usize,
    pub ticking: usize,
    pub inert: usize,
}

/// All breakdowns of a set of fuses.
#[derive(Debug)]
pub struct StatsResult {
    pub total_fuses: usize,
    pub total_detonated: usize,
    pub total_ticking: usize,
    pub total_inert: usize,
    pub by_owner: Vec<OwnerRow>,
    pub by_tag: Vec<TagRow>,
    pub by_month: Vec<MonthRow>,
}

/// A row of some breakdown, as plain values: its name and counts (total,
/// detonated, ticking, inert).
pub type RowView = (Seq<char>, nat, nat, nat, nat);

/// How many of the fuses named `names` with statuses `sts` are named `k`
/// and, when `st` is given, have that status.
pub open spec fn count_of(names: Seq<Seq<char>>, sts: Seq<Status>, k: Seq<char>, st: Option<Status>) -> nat
    decreases names.len(),
{
    if names.len() == 0 || sts.len() == 0 {
        0
    } else {
        count_of(names.drop_last(), sts.drop_last(), k, st) + if names.last() == k && (match st {
            Some(s) => sts.last() == s,
            None => true,
        }) {
            1nat
        } else {
            0nat
        }
    }
}

/// Some row of `rows` has the name `n`.
pub open spec fn has_row(rows: Seq<RowView>, n: Seq<char>) -> bool {
    exists|j: int| 0 <= j < rows.len() && rows[j].0 == n
}

/// `rows` is the breakdown of the fuses named `names` with statuses `sts`:
/// one row per name that occurs, each with its exact counts.
pub open spec fn breakdown(rows: Seq<RowView>, names: Seq<Seq<char>>, sts: Seq<Status>) -> bool {
    &&& forall|i: int, j: int| 0 <= i < j < rows.len() ==> rows[i].0 != rows[j].0
    &&& forall|i: int| 0 <= i < rows.len() ==> names.contains(#[trigger] rows[i].0)
    &&& forall|i: int| 0 <= i < names.len() ==> has_row(rows, #[trigger] names[i])
    &&& forall|i: int| 0 <= i < rows.len() ==> {
        let r = #[trigger] rows[i];
        &&& r.1 == count_of(names, sts, r.0, None)
        &&& r.2 == count_of(names, sts, r.0, Some(Status::Detonated))
        &&& r.3 == count_of(names, sts, r.0, Some(Status::Ticking))
        &&& r.4 == count_of(names, sts, r.0, Some(Status::Inert))
    }
}

/// `a` comes before `b` when ordering by debt: more detonated first, then
/// more in total, then by name.
pub open spec fn by_debt(a: RowView, b: RowView) -> bool {
    ||| a.2 > b.2
    ||| a.2 == b.2 && a.1 > b.1
    ||| a.2 == b.2 && a.1 == b.1 && lex_lt(a.0, b.0)
}

/// A row being built: its name and counts.
struct Tally {
    name: String,
    total: usize,
    detonated: usize,
    ticking: usize,
    inert: usize,
}

spec fn tally_view(t: Tally) -> RowView {
    (t.name@, t.total as nat, t.detonated as nat, t.ticking as nat, t.inert as nat)
}

spec fn tallies(v: Seq<Tally>) -> Seq<RowView> {
    v.map_values(|t: Tally| tally_view(t))
}

proof fn lemma_count_bound(names: Seq<Seq<char>>, sts: Seq<Status>, k: Seq<char>, st: Option<Status>)
    ensures
        count_of(names, sts, k, st) <= names.len(),
    decreases names.len(),
{
    if names.len() > 0 && sts.len() > 0 {
        lemma_count_bound(names.drop_last(), sts.drop_last(), k, st);
    }
}

proof fn lemma_count_zero(names: Seq<Seq<char>>, sts: Seq<Status>, k: Seq<char>, st: Option<Status>)
    requires
        !names.contains(k),
    ensures
        count_of(names, sts, k, st) == 0,
    decreases names.len(),
{
    if names.len() > 0 && sts.len() > 0 {
        assert(!names.drop_last().contains(k)) by {
            if names.drop_last().contains(k) {
                let i = choose|i: int| 0 <= i < names.drop_last().len() && names.drop_last()[i] == k;
                assert(names[i] == k);
            }
        }
        assert(names.last() != k) by {
            if names.last() == k {
                assert(names[names.len() - 1] == k);
            }
        }
        lemma_count_zero(names.drop_last(), sts.drop_last(), k, st);
    }
}

/// The rows of the breakdown of `names` (with statuses `sts`), in order of
/// first appearance.
fn tally(names: &Vec<String>, sts: &Vec<Status>) -> (r: Vec<Tally>)
    requires
        names@.len() == sts@.len(),
    ensures
        breakdown(tallies(r@), names@.map_values(|s: String| s@), sts@),
{
    let ghost nm = names@.map_values(|s: String| s@);
    let mut rows: Vec<Tally> = Vec::new();
    let mut i: usize = 0;
    while i < names.len()
        invariant
            i <= names.len(),
            names@.len() == sts@.len(),
            nm == names@.map_values(|s: String| s@),
            breakdown(tallies(rows@), nm.take(i as int), sts@.take(i as int)),
        decreases names.len() - i,
    {
        let ghost pn = nm.take(i as int);
        let ghost ps = sts@.take(i as int);
        let ghost nn = nm.take(i + 1);
        let ghost ns = sts@.take(i + 1);
        let ghost k = nm[i as int];
        let ghost old_rows = tallies(rows@);
        proof {
            assert(nn.drop_last() =~= pn);
            assert(ns.drop_last() =~= ps);
            assert(nn.last() == k);
            assert(names@[i as int]@ == k);
        }
        let st = sts[i];
        let d: usize = if st == Status::Detonated { 1 } else { 0 };
        let t: usize = if st == Status::Ticking { 1 } else { 0 };
        let n: usize = if st == Status::Inert { 1 } else { 0 };
        let mut g: usize = 0;
        while g < rows.len() && !str_eq(rows[g].name.as_str(), names[i].as_str())
            invariant
                g <= rows@.len(),
                i < names@.len(),
                forall|h: int| 0 <= h < g ==> rows@[h].name@ != names@[i as int]@,
            decreases rows.len() - g,
        {
            g = g + 1;
        }
        proof {
            lemma_count_bound(pn, ps, k, None);
        }
        if g == rows.len() {
            proof {
                assert(!pn.contains(k)) by {
                    if pn.contains(k) {
                        let w = choose|w: int| 0 <= w < pn.len() && pn[w] == k;
                        assert(has_row(old_rows, pn[w]));
                        let j = choose|j: int| 0 <= j < old_rows.len() && old_rows[j].0 == pn[w];
                        assert(rows@[j].name@ == old_rows[j].0);
                    }
                }
                lemma_count_zero(pn, ps, k, None);
                lemma_count_zero(pn, ps, k, Some(Status::Detonated));
                lemma_count_zero(pn, ps, k, Some(Status::Ticking));
                lemma_count_zero(pn, ps, k, Some(Status::Inert));
            }
            rows.push(Tally { name: names[i].clone(), total: 1, detonated: d, ticking: t, inert: n });
            proof {
                let nr = tallies(rows@);
                assert(nr =~= old_rows.push((k, 1nat, d as nat, t as nat, n as nat)));
                assert forall|a: int| 0 <= a < nr.len() implies nn.contains(#[trigger] nr[a].0) by {
                    if a < old_rows.len() {
                        let w = choose|w: int| 0 <= w < pn.len() && pn[w] == old_rows[a].0;
                        assert(nn[w] == pn[w]);
                    } else {
                        assert(nn[i as int] == k);
                    }
                }
                assert forall|a: int| 0 <= a < nn.len() implies has_row(nr, #[trigger] nn[a]) by {
                    if a < i {
                        assert(nn[a] == pn[a]);
                        assert(has_row(old_rows, pn[a]));
                        let j = choose|j: int| 0 <= j < old_rows.len() && old_rows[j].0 == pn[a];
                        assert(nr[j] == old_rows[j]);
                    } else {
                        assert(nr[old_rows.len() as int].0 == nn[a]);
                    }
                }
                assert forall|a: int| 0 <= a < nr.len() implies {
                    let r = #[trigger] nr[a];
                    &&& r.1 == count_of(nn, ns, r.0, None)
                    &&& r.2 == count_of(nn, ns, r.0, Some(Status::Detonated))
                    &&& r.3 == count_of(nn, ns, r.0, Some(Status::Ticking))
                    &&& r.4 == count_of(nn, ns, r.0, Some(Status::Inert))
                } by {
                    if a < old_rows.len() {
                        assert(nr[a] == old_rows[a]);
                        assert(old_rows[a].0 != k);
                    }
                }
            }
        } else {
            let mut e = Tally { name: String::new(), total: 0, detonated: 0, ticking: 0, inert: 0 };
            std::mem::swap(&mut e, &mut rows[g]);
            proof {
                assert(e.name@ == k);
                assert(old_rows[g as int] == tally_view(e));
                lemma_count_bound(pn, ps, k, Some(Status::Detonated));
                lemma_count_bound(pn, ps, k, Some(Status::Ticking));
                lemma_count_bound(pn, ps, k, Some(Status::Inert));
            }
            e.total = e.total + 1;
            e.detonated = e.detonated + d;
            e.ticking = e.ticking + t;
            e.inert = e.inert + n;
            std::mem::swap(&mut e, &mut rows[g]);
            proof {
                let nr = tallies(rows@);
                assert forall|a: int| 0 <= a < nr.len() implies (#[trigger] nr[a]) == if a == g {
                    (k, (old_rows[a].1 + 1) as nat, (old_rows[a].2 + d) as nat, (old_rows[a].3 + t) as nat, (old_rows[a].4 + n) as nat)
                } else {
                    old_rows[a]
                } by {}
                assert forall|a: int| 0 <= a < nr.len() implies nn.contains(#[trigger] nr[a].0) by {
                    let w = choose|w: int| 0 <= w < pn.len() && pn[w] == old_rows[a].0;
                    assert(nn[w] == pn[w]);
                }
                assert forall|a: int| 0 <= a < nn.len() implies has_row(nr, #[trigger] nn[a]) by {
                    if a < i {
                        assert(nn[a] == pn[a]);
                        assert(has_row(old_rows, pn[a]));
                        let j = choose|j: int| 0 <= j < old_rows.len() && old_rows[j].0 == pn[a];
                        assert(nr[j].0 == old_rows[j].0);
                    } else {
                        assert(nr[g as int].0 == nn[a]);
                    }
                }
                assert forall|a: int, b: int| 0 <= a < b < nr.len() implies nr[a].0 != nr[b].0 by {
                    assert(nr[a].0 == old_rows[a].0 && nr[b].0 == old_rows[b].0);
                }
                assert forall|a: int| 0 <= a < nr.len() implies {
                    let r = #[trigger] nr[a];
                    &&& r.1 == count_of(nn, ns, r.0, None)
                    &&& r.2 == count_of(nn, ns, r.0, Some(Status::Detonated))
                    &&& r.3 == count_of(nn, ns, r.0, Some(Status::Ticking))
                    &&& r.4 == count_of(nn, ns, r.0, Some(Status::Inert))
                } by {
                    if a != g {
                        assert(old_rows[a].0 != k);
                    }
                }
            }
        }
        i = i + 1;
    }
    assert(nm.take(names.len() as int) =~= nm);
    assert(sts@.take(names.len() as int) =~= sts@);
    rows
}

/// The breakdown rows in order of debt: more detonated first, then more in
/// total, then by name.
fn order_by_debt(rows: &Vec<Tally>) -> (r: Vec<Tally>)
    requires
        forall|i: int, j: int| 0 <= i < j < rows@.len() ==> rows@[i].name@ != rows@[j].name@,
    ensures
        exists|p: Seq<usize>| is_permutation(p, rows@.len()) && tallies(r@) == permuted(tallies(rows@), p),
        forall|i: int, j: int| 0 <= i < j < r@.len() ==> by_debt(tally_view(r@[i]), tally_view(r@[j])),
{
    let mut keys: Vec<SortKey> = Vec::new();
    let mut i: usize = 0;
    while i < rows.len()
        invariant
            i <= rows.len(),
            keys@.len() == i,
            forall|j: int| 0 <= j < i ==> {
                &&& (#[trigger] keys@[j]).first == u64::MAX - rows@[j].detonated
                &&& keys@[j].second == u64::MAX - rows@[j].total
                &&& keys@[j].text@ == rows@[j].name@
                &&& keys@[j].third == 0
                &&& keys@[j].fourth == 0
            },
        decreases rows.len() - i,
    {
        keys.push(SortKey {
            first: u64::MAX - rows[i].detonated as u64,
            second: u64::MAX - rows[i].total as u64,
            text: rows[i].name.clone(),
            third: 0,
            fourth: 0,
        });
        i = i + 1;
    }
    let p = stable_order(&keys);
    let mut r: Vec<Tally> = Vec::new();
    let mut j: usize = 0;
    while j < p.len()
        invariant
            j <= p.len(),
            is_permutation(p@, rows@.len()),
            r@.len() == j,
            forall|a: int| 0 <= a < j ==> tally_view(#[trigger] r@[a]) == tally_view(rows@[p@[a] as int]),
        decreases p.len() - j,
    {
        let src = &rows[p[j]];
        r.push(Tally {
            name: src.name.clone(),
            total: src.total,
            detonated: src.detonated,
            ticking: src.ticking,
            inert: src.inert,
        });
        j = j + 1;
    }
    proof {
        assert(tallies(r@) =~= permuted(tallies(rows@), p@));
        assert forall|a: int, b: int| 0 <= a < b < r@.len() implies by_debt(tally_view(r@[a]), tally_view(r@[b])) by {
            let ka = keys@[p@[a] as int];
            let kb = keys@[p@[b] as int];
            assert(!key_lt(kb, ka));
            lemma_key_order(ka, kb, ka);
            assert(p@[a] != p@[b]);
            assert(rows@[p@[a] as int].name@ != rows@[p@[b] as int].name@) by {
                if p@[a] < p@[b] {
                } else {
                }
            }
            assert(!key_eq(ka, kb));
        }
    }
    r
}

/// The rows of `rows` in the order `p`.
pub open spec fn permuted(rows: Seq<RowView>, p: Seq<usize>) -> Seq<RowView> {
    p.map_values(|k: usize| rows[k as int])
}

/// A breakdown reordered is still the breakdown.
pub proof fn lemma_breakdown_permuted(rows: Seq<RowView>, p: Seq<usize>, names: Seq<Seq<char>>, sts: Seq<Status>)
    requires
        breakdown(rows, names, sts),
        is_permutation(p, rows.len()),
    ensures
        breakdown(permuted(rows, p), names, sts),
{
    let q = permuted(rows, p);
    assert forall|i: int, j: int| 0 <= i < j < q.len() implies q[i].0 != q[j].0 by {
        assert(p[i] != p[j]);
        if p[i] < p[j] {
            assert(rows[p[i] as int].0 != rows[p[j] as int].0);
        } else {
            assert(rows[p[j] as int].0 != rows[p[i] as int].0);
        }
    }
    assert forall|i: int| 0 <= i < q.len() implies names.contains(#[trigger] q[i].0) by {
        assert(q[i] == rows[p[i] as int]);
    }
    assert forall|i: int| 0 <= i < names.len() implies has_row(q, #[trigger] names[i]) by {
        assert(has_row(rows, names[i]));
        let k = choose|k: int| 0 <= k < rows.len() && rows[k].0 == names[i];
        assert(0 <= k < rows.len());
        crate::order::lemma_permutation_covers(p, rows.len(), k);
        assert(exists|a: int| 0 <= a < p.len() && p[a] == k);
        let a = choose|a: int| 0 <= a < p.len() && p[a] == k;
        assert(q[a] == rows[k]);
        assert(q[a].0 == names[i]);
        assert(0 <= a < q.len());
    }
    assert forall|i: int| 0 <= i < q.len() implies {
        let r = #[trigger] q[i];
        &&& r.1 == count_of(names, sts, r.0, None)
        &&& r.2 == count_of(names, sts, r.0, Some(Status::Detonated))
        &&& r.3 == count_of(names, sts, r.0, Some(Status::Ticking))
        &&& r.4 == count_of(names, sts, r.0, Some(Status::Inert))
    } by {
        assert(q[i] == rows[p[i] as int]);
    }
}

/// The breakdown rows ordered by name.
fn order_by_name(rows: &Vec<Tally>) -> (r: Vec<Tally>)
    requires
        forall|i: int, j: int| 0 <= i < j < rows@.len() ==> rows@[i].name@ != rows@[j].name@,
    ensures
        exists|p: Seq<usize>| is_permutation(p, rows@.len()) && tallies(r@) == permuted(tallies(rows@), p),
        forall|i: int, j: int| 0 <= i < j < r@.len() ==> lex_lt(r@[i].name@, r@[j].name@),
{
    let mut keys: Vec<SortKey> = Vec::new();
    let mut i: usize = 0;
    while i < rows.len()
        invariant
            i <= rows.len(),
            keys@.len() == i,
            forall|j: int| 0 <= j < i ==> {
                &&& (#[trigger] keys@[j]).first == 0
                &&& keys@[j].second == 0
                &&& keys@[j].text@ == rows@[j].name@
                &&& keys@[j].third == 0
                &&& keys@[j].fourth == 0
            },
        decreases rows.len() - i,
    {
        keys.push(SortKey { first: 0, second: 0, text: rows[i].name.clone(), third: 0, fourth: 0 });
        i = i + 1;
    }
    let p = stable_order(&keys);
    let mut r: Vec<Tally> = Vec::new();
    let mut j: usize = 0;
    while j < p.len()
        invariant
            j <= p.len(),
            is_permutation(p@, rows@.len()),
            r@.len() == j,
            forall|a: int| 0 <= a < j ==> tally_view(#[trigger] r@[a]) == tally_view(rows@[p@[a] as int]),
        decreases p.len() - j,
    {
        let src = &rows[p[j]];
        r.push(Tally {
            name: src.name.clone(),
            total: src.total,
            detonated: src.detonated,
            ticking: src.ticking,
            inert: src.inert,
        });
        j = j + 1;
    }
    proof {
        assert(tallies(r@) =~= permuted(tallies(rows@), p@));
        assert forall|a: int, b: int| 0 <= a < b < r@.len() implies lex_lt(r@[a].name@, r@[b].name@) by {
            let ka = keys@[p@[a] as int];
            let kb = keys@[p@[b] as int];
            assert(!key_lt(kb, ka));
            lemma_key_order(ka, kb, ka);
            assert(p@[a] != p@[b]);
            assert(rows@[p@[a] as int].name@ != rows@[p@[b] as int].name@) by {
                if p@[a] < p@[b] {
                } else {
                }
            }
            assert(!key_eq(ka, kb));
        }
    }
    r
}

/// The owner a fuse is counted under: its explicit owner, or `(unowned)`.
pub open spec fn owner_key(f: Fuse) -> Seq<char> {
    match f.owner {
        Some(o) => o@,
        None => "(unowned)"@,
    }
}

pub open spec fn owner_names(fs: Seq<Fuse>) -> Seq<Seq<char>> {
    fs.map_values(|f: Fuse| owner_key(f))
}

pub open spec fn tag_names(fs: Seq<Fuse>) -> Seq<Seq<char>> {
    fs.map_values(|f: Fuse| f.tag@)
}

/// The expiry month of each fuse, `YYYY-MM`.
pub open spec fn month_names(fs: Seq<Fuse>) -> Seq<Seq<char>> {
    fs.map_values(|f: Fuse| formatted_ym(f.date@ as i32))
}

pub open spec fn statuses(fs: Seq<Fuse>) -> Seq<Status> {
    fs.map_values(|f: Fuse| f.status)
}

pub open spec fn owner_rows(v: Seq<OwnerRow>) -> Seq<RowView> {
    v.map_values(|r: OwnerRow| (r.owner@, r.total as nat, r.detonated as nat, r.ticking as nat, r.inert as nat))
}

pub open spec fn tag_rows(v: Seq<TagRow>) -> Seq<RowView> {
    v.map_values(|r: TagRow| (r.tag@, r.total as nat, r.detonated as nat, r.ticking as nat, r.inert as nat))
}

pub open spec fn month_rows(v: Seq<MonthRow>) -> Seq<RowView> {
    v.map_values(|r: MonthRow| (r.month@, r.total as nat, r.detonated as nat, r.ticking as nat, r.inert as nat))
}

/// How many of `sts` are `st`.
pub open spec fn status_count(sts: Seq<Status>, st: Status) -> nat
    decreases sts.len(),
{
    if sts.len() == 0 {
        0
    } else {
        status_count(sts.drop_last(), st) + if sts.last() == st { 1nat } else { 0nat }
    }
}

/// The breakdowns of `fuses`: the totals by status; one row per owner
/// (`(unowned)` for fuses without one) and one per tag, each ordered by
/// debt (more detonated first, then more in total, then by name); and one
/// row per expiry month, in order of month.
pub fn compute_stats(fuses: &Vec<Fuse>) -> (r: StatsResult)
    ensures
        r.total_fuses == fuses@.len(),
        r.total_detonated == status_count(statuses(fuses@), Status::Detonated),
        r.total_ticking == status_count(statuses(fuses@), Status::Ticking),
        r.total_inert == status_count(statuses(fuses@), Status::Inert),
        breakdown(owner_rows(r.by_owner@), owner_names(fuses@), statuses(fuses@)),
        forall|i: int, j: int| 0 <= i < j < r.by_owner@.len() ==> by_debt(owner_rows(r.by_owner@)[i], owner_rows(r.by_owner@)[j]),
        breakdown(tag_rows(r.by_tag@), tag_names(fuses@), statuses(fuses@)),
        forall|i: int, j: int| 0 <= i < j < r.by_tag@.len() ==> by_debt(tag_rows(r.by_tag@)[i], tag_rows(r.by_tag@)[j]),
        breakdown(month_rows(r.by_month@), month_names(fuses@), statuses(fuses@)),
        forall|i: int, j: int| 0 <= i < j < r.by_month@.len() ==> lex_lt(r.by_month@[i].month@, r.by_month@[j].month@),
{
    let mut owners: Vec<String> = Vec::new();
    let mut tags: Vec<String> = Vec::new();
    let mut months: Vec<String> = Vec::new();
    let mut sts: Vec<Status> = Vec::new();
    let mut det: usize = 0;
    let mut tick: usize = 0;
    let mut inert: usize = 0;
    let mut i: usize = 0;
    while i < fuses.len()
        invariant
            i <= fuses.len(),
            owners@.map_values(|s: String| s@) == owner_names(fuses@.take(i as int)),
            tags@.map_values(|s: String| s@) == tag_names(fuses@.take(i as int)),
            months@.map_values(|s: String| s@) == month_names(fuses@.take(i as int)),
            sts@ == statuses(fuses@.take(i as int)),
            det == status_count(statuses(fuses@.take(i as int)), Status::Detonated),
            tick == status_count(statuses(fuses@.take(i as int)), Status::Ticking),
            inert == status_count(statuses(fuses@.take(i as int)), Status::Inert),
            det + tick + inert == i,
        decreases fuses.len() - i,
    {
        let f = &fuses[i];
        let ghost t = fuses@.take(i as int);
        let ghost t1 = fuses@.take(i + 1);
        proof {
            assert(t1 =~= t.push(fuses@[i as int]));
            assert(statuses(t1).drop_last() =~= statuses(t));
        }
        let o = match &f.owner {
            Some(x) => x.clone(),
            None => to_owned("(unowned)"),
        };
        let ghost ob = owners@;
        owners.push(o);
        assert(owners@.map_values(|s: String| s@) =~= ob.map_values(|s: String| s@).push(owner_key(fuses@[i as int])));
        let ghost tb = tags@;
        tags.push(f.tag.clone());
        assert(tags@.map_values(|s: String| s@) =~= tb.map_values(|s: String| s@).push(fuses@[i as int].tag@));
        let ghost mb = months@;
        months.push(f.date.format_month());
        assert(months@.map_values(|s: String| s@) =~= mb.map_values(|s: String| s@).push(formatted_ym(fuses@[i as int].date@ as i32)));
        sts.push(f.status);
        match f.status {
            Status::Detonated => {
                det = det + 1;
            },
            Status::Ticking => {
                tick = tick + 1;
            },
            Status::Inert => {
                inert = inert + 1;
            },
        }
        proof {
            assert(owner_names(t1) =~= owner_names(t).push(owner_key(fuses@[i as int])));
            assert(tag_names(t1) =~= tag_names(t).push(fuses@[i as int].tag@));
            assert(month_names(t1) =~= month_names(t).push(formatted_ym(fuses@[i as int].date@ as i32)));
            assert(statuses(t1) =~= statuses(t).push(fuses@[i as int].status));
        }
        i = i + 1;
    }
    assert(fuses@.take(fuses.len() as int) =~= fuses@);
    let owner_tally = tally(&owners, &sts);
    let tag_tally = tally(&tags, &sts);
    let month_tally = tally(&months, &sts);
    proof {
        assert forall|a: int, b: int| 0 <= a < b < owner_tally@.len() implies owner_tally@[a].name@ != owner_tally@[b].name@ by {
            assert(tallies(owner_tally@)[a].0 != tallies(owner_tally@)[b].0);
        }
        assert forall|a: int, b: int| 0 <= a < b < tag_tally@.len() implies tag_tally@[a].name@ != tag_tally@[b].name@ by {
            assert(tallies(tag_tally@)[a].0 != tallies(tag_tally@)[b].0);
        }
        assert forall|a: int, b: int| 0 <= a < b < month_tally@.len() implies month_tally@[a].name@ != month_tally@[b].name@ by {
            assert(tallies(month_tally@)[a].0 != tallies(month_tally@)[b].0);
        }
    }
    let owner_sorted = order_by_debt(&owner_tally);
    let tag_sorted = order_by_debt(&tag_tally);
    let month_sorted = order_by_name(&month_tally);
    proof {
        let p1 = choose|p: Seq<usize>| is_permutation(p, owner_tally@.len()) && tallies(owner_sorted@) == permuted(tallies(owner_tally@), p);
        lemma_breakdown_permuted(tallies(owner_tally@), p1, owner_names(fuses@), statuses(fuses@));
        let p2 = choose|p: Seq<usize>| is_permutation(p, tag_tally@.len()) && tallies(tag_sorted@) == permuted(tallies(tag_tally@), p);
        lemma_breakdown_permuted(tallies(tag_tally@), p2, tag_names(fuses@), statuses(fuses@));
        let p3 = choose|p: Seq<usize>| is_permutation(p, month_tally@.len()) && tallies(month_sorted@) == permuted(tallies(month_tally@), p);
        lemma_breakdown_permuted(tallies(month_tally@), p3, month_names(fuses@), statuses(fuses@));
    }
    let mut by_owner: Vec<OwnerRow> = Vec::new();
    let mut k: usize = 0;
    while k < owner_sorted.len()
        invariant
            k <= owner_sorted.len(),
            owner_rows(by_owner@) == tallies(owner_sorted@).take(k as int),
        decreases owner_sorted.len() - k,
    {
        let t = &owner_sorted[k];
        let ghost before = by_owner@;
        by_owner.push(OwnerRow { owner: t.name.clone(), total: t.total, detonated: t.detonated, ticking: t.ticking, inert: t.inert });
        assert(owner_rows(by_owner@) =~= owner_rows(before).push(tally_view(owner_sorted@[k as int])));
        assert(tallies(owner_sorted@).take(k + 1) =~= tallies(owner_sorted@).take(k as int).push(tally_view(owner_sorted@[k as int])));
        k = k + 1;
    }
    assert(tallies(owner_sorted@).take(owner_sorted.len() as int) =~= tallies(owner_sorted@));
    let mut by_tag: Vec<TagRow> = Vec::new();
    let mut k: usize = 0;
    while k < tag_sorted.len()
        invariant
            k <= tag_sorted.len(),
            tag_rows(by_tag@) == tallies(tag_sorted@).take(k as int),
        decreases tag_sorted.len() - k,
    {
        let t = &tag_sorted[k];
        let ghost before = by_tag@;
        by_tag.push(TagRow { tag: t.name.clone(), total: t.total, detonated: t.detonated, ticking: t.ticking, inert: t.inert });
        assert(tag_rows(by_tag@) =~= tag_rows(before).push(tally_view(tag_sorted@[k as int])));
        assert(tallies(tag_sorted@).take(k + 1) =~= tallies(tag_sorted@).take(k as int).push(tally_view(tag_sorted@[k as int])));
        k = k + 1;
    }
    assert(tallies(tag_sorted@).take(tag_sorted.len() as int) =~= tallies(tag_sorted@));
    let mut by_month: Vec<MonthRow> = Vec::new();
    let mut k: usize = 0;
    while k < month_sorted.len()
        invariant
            k <= month_sorted.len(),
            month_rows(by_month@) == tallies(month_sorted@).take(k as int),
        decreases month_sorted.len() - k,
    {
        let t = &month_sorted[k];
        let ghost before = by_month@;
        by_month.push(MonthRow { month: t.name.clone(), total: t.total, detonated: t.detonated, ticking: t.ticking, inert: t.inert });
        assert(month_rows(by_month@) =~= month_rows(before).push(tally_view(month_sorted@[k as int])));
        assert(tallies(month_sorted@).take(k + 1) =~= tallies(month_sorted@).take(k as int).push(tally_view(month_sorted@[k as int])));
        k = k + 1;
    }
    assert(tallies(month_sorted@).take(month_sorted.len() as int) =~= tallies(month_sorted@));
    proof {
        assert forall|a: int, b: int| 0 <= a < b < by_owner@.len() implies by_debt(owner_rows(by_owner@)[a], owner_rows(by_owner@)[b]) by {
            assert(owner_rows(by_owner@)[a] == tally_view(owner_sorted@[a]));
            assert(owner_rows(by_owner@)[b] == tally_view(owner_sorted@[b]));
        }
        assert forall|a: int, b: int| 0 <= a < b < by_tag@.len() implies by_debt(tag_rows(by_tag@)[a], tag_rows(by_tag@)[b]) by {
            assert(tag_rows(by_tag@)[a] == tally_view(tag_sorted@[a]));
            assert(tag_rows(by_tag@)[b] == tally_view(tag_sorted@[b]));
        }
        assert forall|a: int, b: int| 0 <= a < b < by_month@.len() implies lex_lt(by_month@[a].month@, by_month@[b].month@) by {
            assert(month_rows(by_month@)[a] == tally_view(month_sorted@[a]));
            assert(month_rows(by_month@)[b] == tally_view(month_sorted@[b]));
        }
    }
    StatsResult {
        total_fuses: fuses.len(),
        total_detonated: det,
        total_ticking: tick,
        total_inert: inert,
        by_owner,
        by_tag,
        by_month,
    }
}

// ───────────────────────── rendering ─────────────────────────

/// A name cut to 18 characters and `..` when it has more than 18.
pub open spec fn truncated(name: Seq<char>) -> Seq<char> {
    if name.len() > 18 {
        name.take(18) + ".."@
    } else {
        name
    }
}

/// A name fitted to its 20-column field: more than 18 characters are cut
/// to 18 followed by `..`.
pub fn truncate_name(name: &str) -> (r: String)
    ensures
        r@ == truncated(name@),
{
    let v = chars_of(name);
    if v.len() > 18 {
        let mut r = string_of_range(&v, 0, 18);
        append(&mut r, "..");
        assert(v@.subrange(0, 18) =~= name@.take(18));
        r
    } else {
        to_owned(name)
    }
}

/// The header row of a breakdown table.
pub open spec fn table_header(label: Seq<char>) -> Seq<char> {
    padded_right(label, 20) + padded_left("TOTAL"@, 8) + padded_left("DETONATED"@, 10) + padded_left("TICKING"@, 8) + padded_left("INERT"@, 8)
}

/// A row of a breakdown table: the name in 20 columns, then the counts
/// right-aligned in 8 columns each; the detonated count is red when it is
/// not zero.
pub open spec fn table_row(name: Seq<char>, r: RowView) -> (Seq<char>, Seq<char>, Tint, Seq<char>) {
    (
        padded_right(name, 20) + padded_left(decimal(r.1), 8),
        padded_left(decimal(r.2), 8),
        if r.2 > 0 { Tint::Red } else { Tint::Plain },
        padded_left(decimal(r.3), 8) + padded_left(decimal(r.4), 8),
    )
}

/// A breakdown row lines up with its header: the header ends with the
/// `TICKING` and `INERT` cells, eight columns each, and the row ends with
/// two eight-column cells holding its ticking count and then its inert
/// count; its total ends the leading part, and its detonated count is the
/// coloured cell, red exactly when it is not zero (for counts that fit
/// their cells).
pub proof fn law_breakdown_columns(label: Seq<char>, name: Seq<char>, w: RowView)
    requires
        decimal(w.1).len() <= 8,
        decimal(w.2).len() <= 8,
        decimal(w.3).len() <= 8,
        decimal(w.4).len() <= 8,
    ensures
        ({
            let h = table_header(label);
            let row = table_row(name, w);
            let text = row.0 + row.1 + row.3;
            &&& h.len() >= 16 && text.len() >= 16
            &&& row.1 == padded_left(decimal(w.2), 8)
            &&& (row.2 == Tint::Red <==> w.2 > 0)
            &&& row.0.subrange(row.0.len() - 8, row.0.len() as int) == padded_left(decimal(w.1), 8)
            &&& h.subrange(h.len() - 16, h.len() - 8) == padded_left("TICKING"@, 8)
            &&& h.subrange(h.len() - 8, h.len() as int) == padded_left("INERT"@, 8)
            &&& text.subrange(text.len() - 16, text.len() - 8) == padded_left(decimal(w.3), 8)
            &&& text.subrange(text.len() - 8, text.len() as int) == padded_left(decimal(w.4), 8)
        }),
{
    reveal_strlit("TICKING");
    reveal_strlit("INERT");
    let h = table_header(label);
    let row = table_row(name, w);
    let text = row.0 + row.1 + row.3;
    let tk = padded_left("TICKING"@, 8);
    let it = padded_left("INERT"@, 8);
    assert(tk.len() == 8 && it.len() == 8);
    let pre = padded_right(label, 20) + padded_left("TOTAL"@, 8) + padded_left("DETONATED"@, 10);
    assert(h =~= pre + tk + it);
    assert(h.subrange(h.len() - 16, h.len() - 8) =~= tk);
    assert(h.subrange(h.len() - 8, h.len() as int) =~= it);
    let a = padded_left(decimal(w.3), 8);
    let b = padded_left(decimal(w.4), 8);
    assert(a.len() == 8 && b.len() == 8);
    assert(text =~= (row.0 + row.1) + a + b);
    let t1 = padded_left(decimal(w.1), 8);
    assert(t1.len() == 8);
    assert(row.0 =~= padded_right(name, 20) + t1);
    assert(row.0.subrange(row.0.len() - 8, row.0.len() as int) =~= t1);
    assert(text.subrange(text.len() - 16, text.len() - 8) =~= a);
    assert(text.subrange(text.len() - 8, text.len() as int) =~= b);
}

/// The closing line of a breakdown: the totals.
pub open spec fn totals_line(r: StatsResult) -> Seq<char> {
    decimal(r.total_fuses as nat) + " fuse(s) total · "@ + decimal(r.total_detonated as nat) + " detonated · "@ + decimal(r.total_ticking as nat) + " ticking · "@ + decimal(r.total_inert as nat) + " inert"@
}

/// A plain line.
pub open spec fn plain(t: Seq<char>) -> (Seq<char>, Seq<char>, Tint, Seq<char>) {
    (Seq::empty(), t, Tint::Plain, Seq::empty())
}

/// The terminal lines of the owner and tag breakdowns.
pub open spec fn stats_text(r: StatsResult) -> Seq<(Seq<char>, Seq<char>, Tint, Seq<char>)> {
    seq![plain("BY OWNER"@), plain("--------"@), plain(table_header("OWNER"@))]
        + owner_rows(r.by_owner@).map_values(|w: RowView| table_row(truncated(w.0), w))
        + seq![plain(Seq::empty()), plain("BY TAG"@), plain("------"@), plain(table_header("TAG"@))]
        + tag_rows(r.by_tag@).map_values(|w: RowView| table_row(truncated(w.0), w))
        + seq![plain(Seq::empty()), plain(totals_line(r))]
}

/// The terminal lines of the month timeline.
pub open spec fn stats_month_text(r: StatsResult) -> Seq<(Seq<char>, Seq<char>, Tint, Seq<char>)> {
    seq![plain("BY MONTH"@), plain("--------"@), plain(table_header("MONTH"@))]
        + month_rows(r.by_month@).map_values(|w: RowView| table_row(w.0, w))
        + seq![plain(Seq::empty()), plain(totals_line(r))]
}

fn header_string(label: &str) -> (r: String)
    ensures
        r@ == table_header(label@),
{
    let mut h = String::new();
    push_padded_right(&mut h, label, 20);
    push_padded_left(&mut h, "TOTAL", 8);
    push_padded_left(&mut h, "DETONATED", 10);
    push_padded_left(&mut h, "TICKING", 8);
    push_padded_left(&mut h, "INERT", 8);
    h
}

fn push_row(out: &mut Vec<StyledLine>, name: &str, total: usize, detonated: usize, ticking: usize, inert: usize)
    ensures
        styled(final(out)@) == styled(old(out)@).push(table_row(name@, (name@, total as nat, detonated as nat, ticking as nat, inert as nat))),
{
    let mut lead = String::new();
    push_padded_right(&mut lead, name, 20);
    let t = crate::text::decimal_string(total as u128);
    push_padded_left(&mut lead, t.as_str(), 8);
    let mut cell = String::new();
    let d = crate::text::decimal_string(detonated as u128);
    push_padded_left(&mut cell, d.as_str(), 8);
    let mut tail = String::new();
    let k = crate::text::decimal_string(ticking as u128);
    push_padded_left(&mut tail, k.as_str(), 8);
    let n = crate::text::decimal_string(inert as u128);
    push_padded_left(&mut tail, n.as_str(), 8);
    let tint = if detonated > 0 { Tint::Red } else { Tint::Plain };
    crate::style::push_cell_line(out, lead, cell, tint, tail);
}

fn totals_string(r: &StatsResult) -> (s: String)
    ensures
        s@ == totals_line(*r),
{
    let mut s = String::new();
    push_decimal(&mut s, r.total_fuses as u128);
    append(&mut s, " fuse(s) total · ");
    push_decimal(&mut s, r.total_detonated as u128);
    append(&mut s, " detonated · ");
    push_decimal(&mut s, r.total_ticking as u128);
    append(&mut s, " ticking · ");
    push_decimal(&mut s, r.total_inert as u128);
    append(&mut s, " inert");
    s
}

/// The lines that show the owner and tag breakdowns on a terminal.
pub fn stats_terminal_lines(r: &StatsResult) -> (out: Vec<StyledLine>)
    ensures
        styled(out@) == stats_text(*r),
        forall|i: int|
            0 <= i < r.by_owner@.len() ==> (#[trigger] styled(out@)[3 + i]).3 == padded_left(
                decimal(r.by_owner@[i].ticking as nat),
                8,
            ) + padded_left(decimal(r.by_owner@[i].inert as nat), 8),
        forall|j: int|
            0 <= j < r.by_tag@.len() ==> (#[trigger] styled(out@)[7 + r.by_owner@.len() + j]).3 == padded_left(
                decimal(r.by_tag@[j].ticking as nat),
                8,
            ) + padded_left(decimal(r.by_tag@[j].inert as nat), 8),
{
    let mut out: Vec<StyledLine> = Vec::new();
    push_line(&mut out, to_owned("BY OWNER"), Tint::Plain);
    push_line(&mut out, to_owned("--------"), Tint::Plain);
    push_line(&mut out, header_string("OWNER"), Tint::Plain);
    let ghost head = styled(out@);
    let mut i: usize = 0;
    while i < r.by_owner.len()
        invariant
            i <= r.by_owner.len(),
            styled(out@) == head + owner_rows(r.by_owner@).take(i as int).map_values(|w: RowView| table_row(truncated(w.0), w)),
        decreases r.by_owner.len() - i,
    {
        let row = &r.by_owner[i];
        let name = truncate_name(row.owner.as_str());
        push_row(&mut out, name.as_str(), row.total, row.detonated, row.ticking, row.inert);
        proof {
            let w = owner_rows(r.by_owner@)[i as int];
            assert(owner_rows(r.by_owner@).take(i + 1).map_values(|w: RowView| table_row(truncated(w.0), w)) =~= owner_rows(r.by_owner@).take(i as int).map_values(|w: RowView| table_row(truncated(w.0), w)).push(table_row(truncated(w.0), w)));
        }
        i = i + 1;
    }
    assert(owner_rows(r.by_owner@).take(r.by_owner.len() as int) =~= owner_rows(r.by_owner@));
    push_line(&mut out, String::new(), Tint::Plain);
    push_line(&mut out, to_owned("BY TAG"), Tint::Plain);
    push_line(&mut out, to_owned("------"), Tint::Plain);
    push_line(&mut out, header_string("TAG"), Tint::Plain);
    let ghost head2 = styled(out@);
    let mut j: usize = 0;
    while j < r.by_tag.len()
        invariant
            j <= r.by_tag.len(),
            styled(out@) == head2 + tag_rows(r.by_tag@).take(j as int).map_values(|w: RowView| table_row(truncated(w.0), w)),
        decreases r.by_tag.len() - j,
    {
        let row = &r.by_tag[j];
        let name = truncate_name(row.tag.as_str());
        push_row(&mut out, name.as_str(), row.total, row.detonated, row.ticking, row.inert);
        proof {
            let w = tag_rows(r.by_tag@)[j as int];
            assert(tag_rows(r.by_tag@).take(j + 1).map_values(|w: RowView| table_row(truncated(w.0), w)) =~= tag_rows(r.by_tag@).take(j as int).map_values(|w: RowView| table_row(truncated(w.0), w)).push(table_row(truncated(w.0), w)));
        }
        j = j + 1;
    }
    assert(tag_rows(r.by_tag@).take(r.by_tag.len() as int) =~= tag_rows(r.by_tag@));
    push_line(&mut out, String::new(), Tint::Plain);
    push_line(&mut out, totals_string(r), Tint::Plain);
    assert(styled(out@) =~= stats_text(*r));
    proof {
        let ow = owner_rows(r.by_owner@).map_values(|w: RowView| table_row(truncated(w.0), w));
        let tg = tag_rows(r.by_tag@).map_values(|w: RowView| table_row(truncated(w.0), w));
        let x = stats_text(*r);
        assert forall|i: int| 0 <= i < r.by_owner@.len() implies (#[trigger] styled(out@)[3 + i]).3 == padded_left(
            decimal(r.by_owner@[i].ticking as nat),
            8,
        ) + padded_left(decimal(r.by_owner@[i].inert as nat), 8) by {
            assert(x[3 + i] == ow[i]);
        }
        assert forall|j: int| 0 <= j < r.by_tag@.len() implies (#[trigger] styled(out@)[7 + r.by_owner@.len() + j]).3
            == padded_left(decimal(r.by_tag@[j].ticking as nat), 8) + padded_left(
            decimal(r.by_tag@[j].inert as nat),
            8,
        ) by {
            assert(x[7 + r.by_owner@.len() + j] == tg[j]);
        }
    }
    out
}

/// The lines that show the month timeline on a terminal.
pub fn stats_month_terminal_lines(r: &StatsResult) -> (out: Vec<StyledLine>)
    ensures
        styled(out@) == stats_month_text(*r),
{
    let mut out: Vec<StyledLine> = Vec::new();
    push_line(&mut out, to_owned("BY MONTH"), Tint::Plain);
    push_line(&mut out, to_owned("--------"), Tint::Plain);
    push_line(&mut out, header_string("MONTH"), Tint::Plain);
    let ghost head = styled(out@);
    let mut i: usize = 0;
    while i < r.by_month.len()
        invariant
            i <= r.by_month.len(),
            styled(out@) == head + month_rows(r.by_month@).take(i as int).map_values(|w: RowView| table_row(w.0, w)),
        decreases r.by_month.len() - i,
    {
        let row = &r.by_month[i];
        push_row(&mut out, row.month.as_str(), row.total, row.detonated, row.ticking, row.inert);
        proof {
            let w = month_rows(r.by_month@)[i as int];
            assert(month_rows(r.by_month@).take(i + 1).map_values(|w: RowView| table_row(w.0, w)) =~= month_rows(r.by_month@).take(i as int).map_values(|w: RowView| table_row(w.0, w)).push(table_row(w.0, w)));
        }
        i = i + 1;
    }
    assert(month_rows(r.by_month@).take(r.by_month.len() as int) =~= month_rows(r.by_month@));
    push_line(&mut out, String::new(), Tint::Plain);
    push_line(&mut out, totals_string(r), Tint::Plain);
    assert(styled(out@) =~= stats_month_text(*r));
    out
}

/// A GitHub Actions warning for each row of `rows` with detonated fuses,
/// `::warning ::KIND NAME has N detonated fuse(s)`.
pub open spec fn warnings(kind: Seq<char>, rows: Seq<RowView>) -> Seq<Seq<char>>
    decreases rows.len(),
{
    if rows.len() == 0 {
        Seq::empty()
    } else {
        warnings(kind, rows.drop_last()) + if rows.last().2 > 0 {
            seq!["::warning ::"@ + kind + seq![' '] + rows.last().0 + " has "@ + decimal(rows.last().2) + " detonated fuse(s)"@]
        } else {
            Seq::empty()
        }
    }
}

fn push_warnings(out: &mut Vec<String>, kind: &str, names: &Vec<String>, detonated: &Vec<usize>, Ghost(rows): Ghost<Seq<RowView>>)
    requires
        names@.len() == rows.len(),
        detonated@.len() == rows.len(),
        forall|i: int| 0 <= i < rows.len() ==> (#[trigger] rows[i]).0 == names@[i]@ && rows[i].2 == detonated@[i],
    ensures
        final(out)@.map_values(|s: String| s@) == old(out)@.map_values(|s: String| s@) + warnings(kind@, rows),
{
    let ghost start = out@.map_values(|s: String| s@);
    let mut i: usize = 0;
    assert(rows.take(0) =~= Seq::<RowView>::empty());
    assert(start + warnings(kind@, rows.take(0)) =~= start);
    while i < names.len()
        invariant
            i <= names.len(),
            names@.len() == rows.len(),
            detonated@.len() == rows.len(),
            forall|j: int| 0 <= j < rows.len() ==> (#[trigger] rows[j]).0 == names@[j]@ && rows[j].2 == detonated@[j],
            out@.map_values(|s: String| s@) == start + warnings(kind@, rows.take(i as int)),
        decreases names.len() - i,
    {
        proof {
            assert(rows.take(i + 1).drop_last() =~= rows.take(i as int));
            assert(rows.take(i + 1).last() == rows[i as int]);
        }
        let ghost before = out@;
        if detonated[i] > 0 {
            let mut w = to_owned("::warning ::");
            append(&mut w, kind);
            crate::text::push_char(&mut w, ' ');
            append(&mut w, names[i].as_str());
            append(&mut w, " has ");
            push_decimal(&mut w, detonated[i] as u128);
            append(&mut w, " detonated fuse(s)");
            let ghost wv = w@;
            out.push(w);
            assert(out@.map_values(|s: String| s@) =~= before.map_values(|s: String| s@).push(wv));
            assert(wv == "::warning ::"@ + kind@ + seq![' '] + rows[i as int].0 + " has "@ + decimal(rows[i as int].2) + " detonated fuse(s)"@);
            assert(warnings(kind@, rows.take(i + 1)) =~= warnings(kind@, rows.take(i as int)).push(wv));
            assert(out@.map_values(|s: String| s@) =~= start + warnings(kind@, rows.take(i + 1)));
        } else {
            assert(warnings(kind@, rows.take(i + 1)) =~= warnings(kind@, rows.take(i as int)));
        }
        i = i + 1;
    }
    assert(rows.take(names.len() as int) =~= rows);
}

/// The GitHub Actions warnings for the owner and tag breakdowns: one per
/// owner, then one per tag, with detonated fuses.
pub fn stats_github_lines(r: &StatsResult) -> (out: Vec<String>)
    ensures
        out@.map_values(|s: String| s@) == warnings("OWNER"@, owner_rows(r.by_owner@)) + warnings("TAG"@, tag_rows(r.by_tag@)),
{
    let mut out: Vec<String> = Vec::new();
    let mut names: Vec<String> = Vec::new();
    let mut det: Vec<usize> = Vec::new();
    let mut i: usize = 0;
    while i < r.by_owner.len()
        invariant
            i <= r.by_owner.len(),
            names@.len() == i,
            det@.len() == i,
            forall|j: int| 0 <= j < i ==> (#[trigger] owner_rows(r.by_owner@)[j]).0 == names@[j]@ && owner_rows(r.by_owner@)[j].2 == det@[j],
        decreases r.by_owner.len() - i,
    {
        names.push(r.by_owner[i].owner.clone());
        det.push(r.by_owner[i].detonated);
        assert(owner_rows(r.by_owner@)[i as int].0 == r.by_owner@[i as int].owner@);
        assert(owner_rows(r.by_owner@)[i as int].2 == r.by_owner@[i as int].detonated);
        i = i + 1;
    }
    push_warnings(&mut out, "OWNER", &names, &det, Ghost(owner_rows(r.by_owner@)));
    let mut names2: Vec<String> = Vec::new();
    let mut det2: Vec<usize> = Vec::new();
    let mut j: usize = 0;
    while j < r.by_tag.len()
        invariant
            j <= r.by_tag.len(),
            names2@.len() == j,
            det2@.len() == j,
            forall|k: int| 0 <= k < j ==> (#[trigger] tag_rows(r.by_tag@)[k]).0 == names2@[k]@ && tag_rows(r.by_tag@)[k].2 == det2@[k],
        decreases r.by_tag.len() - j,
    {
        names2.push(r.by_tag[j].tag.clone());
        det2.push(r.by_tag[j].detonated);
        assert(tag_rows(r.by_tag@)[j as int].0 == r.by_tag@[j as int].tag@);
        assert(tag_rows(r.by_tag@)[j as int].2 == r.by_tag@[j as int].detonated);
        j = j + 1;
    }
    push_warnings(&mut out, "TAG", &names2, &det2, Ghost(tag_rows(r.by_tag@)));
    out
}

/// The GitHub Actions warnings for the month timeline.
pub fn stats_month_github_lines(r: &StatsResult) -> (out: Vec<String>)
    ensures
        out@.map_values(|s: String| s@) == warnings("MONTH"@, month_rows(r.by_month@)),
{
    let mut out: Vec<String> = Vec::new();
    let mut names: Vec<String> = Vec::new();
    let mut det: Vec<usize> = Vec::new();
    let mut i: usize = 0;
    while i < r.by_month.len()
        invariant
            i <= r.by_month.len(),
            names@.len() == i,
            det@.len() == i,
            forall|j: int| 0 <= j < i ==> (#[trigger] month_rows(r.by_month@)[j]).0 == names@[j]@ && month_rows(r.by_month@)[j].2 == det@[j],
        decreases r.by_month.len() - i,
    {
        names.push(r.by_month[i].month.clone());
        det.push(r.by_month[i].detonated);
        assert(month_rows(r.by_month@)[i as int].0 == r.by_month@[i as int].month@);
        assert(month_rows(r.by_month@)[i as int].2 == r.by_month@[i as int].detonated);
        i = i + 1;
    }
    push_warnings(&mut out, "MONTH", &names, &det, Ghost(month_rows(r.by_month@)));
    out
}

/// How the owner and tag breakdowns are shown in `format`: as JSON, as
/// GitHub Actions warnings, or as terminal lines (also for CSV and table).
pub fn print_stats(result: &StatsResult, format: OutputFormat) -> (r: Rendered)
    ensures
        match format {
            OutputFormat::Json => r is Json,
            OutputFormat::GitHub => r matches Rendered::Plain(v) && v@.map_values(|s: String| s@) == warnings("OWNER"@, owner_rows(result.by_owner@)) + warnings("TAG"@, tag_rows(result.by_tag@)),
            _ => r matches Rendered::Styled(v) && styled(v@) == stats_text(*result),
        },
{
    match format {
        OutputFormat::Json => Rendered::Json,
        OutputFormat::GitHub => Rendered::Plain(stats_github_lines(result)),
        _ => Rendered::Styled(stats_terminal_lines(result)),
    }
}

/// How the month timeline is shown in `format`.
pub fn print_stats_month(result: &StatsResult, format: OutputFormat) -> (r: Rendered)
    ensures
        match format {
            OutputFormat::Json => r is Json,
            OutputFormat::GitHub => r matches Rendered::Plain(v) && v@.map_values(|s: String| s@) == warnings("MONTH"@, month_rows(result.by_month@)),
            _ => r matches Rendered::Styled(v) && styled(v@) == stats_month_text(*result),
        },
{
    match format {
        OutputFormat::Json => Rendered::Json,
        OutputFormat::GitHub => Rendered::Plain(stats_month_github_lines(result)),
        _ => Rendered::Styled(stats_month_terminal_lines(result)),
    }
}

} // verus!
