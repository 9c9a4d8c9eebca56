//! Persisted reports of a sweep, and what changed between two of them.

use crate::annotation::{opt_text, status_name, Fuse, Status};
use crate::date::formatted_ymd;
use crate::scanner::{with_status, ScanResult};
use crate::style::{push_line, styled, StyledLine, Tint};
use crate::text::{append, decimal, padded_right, push_char, push_decimal, push_padded_right, str_eq, to_owned};
use vstd::prelude::*;

verus! {

/// A fuse as a report stores it: plain text throughout.
#[derive(Debug, PartialEq, Eq)]
pub struct ReportAnnotation {
    pub file: String,
    pub line: usize,
    pub tag: String,
    pub date: String,
    pub owner: Option<String>,
    pub message: String,
    pub status: String,
}

impl ReportAnnotation {
    /// An identical copy.
    pub fn duplicate(&self) -> (r: ReportAnnotation)
        ensures
            r == *self,
    {
        ReportAnnotation {
            file: self.file.clone(),
            line: self.line,
            tag: self.tag.clone(),
            date: self.date.clone(),
            owner: crate::annotation::copy_opt_string(&self.owner),
            message: self.message.clone(),
            status: self.status.clone(),
        }
    }
}

/// A report of one sweep.
#[derive(Debug)]
pub struct Report {
    /// When the report was generated (RFC 3339), as supplied by the caller.
    pub generated_at: String,
    pub swept_files: usize,
    pub total_fuses: usize,
    pub detonated: Vec<ReportAnnotation>,
    pub ticking: Vec<ReportAnnotation>,
    pub inert: Vec<ReportAnnotation>,
}

/// What changed from one report to the next.
#[derive(Debug)]
pub struct ReportDiff {
    /// Detonated now, and not detonated before.
    pub newly_detonated: Vec<ReportAnnotation>,
    /// In the old report (any status), and gone now.
    pub resolved: Vec<ReportAnnotation>,
    /// Present now, absent before (any status), each once.
    pub new_annotations: Vec<ReportAnnotation>,
    /// Present in both with a different date: (before, after).
    pub snoozed: Vec<(ReportAnnotation, ReportAnnotation)>,
}

/// `a` records the fuse `f`.
pub open spec fn records(a: ReportAnnotation, f: Fuse) -> bool {
    &&& a.file@ == f.file@
    &&& a.line == f.line
    &&& a.tag@ == f.tag@
    &&& a.date@ == formatted_ymd(f.date@ as i32)
    &&& opt_text(a.owner) == opt_text(f.owner)
    &&& a.message@ == f.message@
    &&& a.status@ == status_name(f.status)
}

/// `anns` records the fuses `fs`, one for one.
pub open spec fn records_all(anns: Seq<ReportAnnotation>, fs: Seq<Fuse>) -> bool {
    anns.len() == fs.len() && forall|i: int| 0 <= i < fs.len() ==> records(#[trigger] anns[i], fs[i])
}

fn annotation_of(f: &Fuse) -> (r: ReportAnnotation)
    ensures
        records(r, *f),
{
    ReportAnnotation {
        file: f.file.clone(),
        line: f.line,
        tag: f.tag.clone(),
        date: f.date_str(),
        owner: crate::annotation::copy_opt_string(&f.owner),
        message: f.message.clone(),
        status: to_owned(f.status.as_str()),
    }
}

/// The report of a sweep: its fuses split by status, each bucket in the
/// sweep's order, and the counts.
pub fn build_report(result: &ScanResult, generated_at: &str) -> (r: Report)
    ensures
        r.generated_at@ == generated_at@,
        r.swept_files == result.swept_files,
        r.total_fuses == result.fuses@.len(),
        records_all(r.detonated@, with_status(result.fuses@, Status::Detonated)),
        records_all(r.ticking@, with_status(result.fuses@, Status::Ticking)),
        records_all(r.inert@, with_status(result.fuses@, Status::Inert)),
{
    let fs = &result.fuses;
    let mut detonated: Vec<ReportAnnotation> = Vec::new();
    let mut ticking: Vec<ReportAnnotation> = Vec::new();
    let mut inert: Vec<ReportAnnotation> = Vec::new();
    let mut i: usize = 0;
    while i < fs.len()
        invariant
            i <= fs.len(),
            records_all(detonated@, with_status(fs@.take(i as int), Status::Detonated)),
            records_all(ticking@, with_status(fs@.take(i as int), Status::Ticking)),
            records_all(inert@, with_status(fs@.take(i as int), Status::Inert)),
            detonated@.len() + ticking@.len() + inert@.len() == i,
        decreases fs.len() - i,
    {
        let ghost t = fs@.take(i as int);
        proof {
            assert(fs@.take(i + 1).drop_last() =~= t);
            assert(fs@.take(i + 1).last() == fs@[i as int]);
            assert(with_status(t, Status::Detonated) + Seq::<Fuse>::empty() =~= with_status(
                t,
                Status::Detonated,
            ));
            assert(with_status(t, Status::Ticking) + Seq::<Fuse>::empty() =~= with_status(
                t,
                Status::Ticking,
            ));
            assert(with_status(t, Status::Inert) + Seq::<Fuse>::empty() =~= with_status(
                t,
                Status::Inert,
            ));
        }
        let a = annotation_of(&fs[i]);
        match fs[i].status {
            Status::Detonated => {
                detonated.push(a);
                assert(with_status(fs@.take(i + 1), Status::Detonated) =~= with_status(
                    t,
                    Status::Detonated,
                ).push(fs@[i as int]));
            },
            Status::Ticking => {
                ticking.push(a);
                assert(with_status(fs@.take(i + 1), Status::Ticking) =~= with_status(
                    t,
                    Status::Ticking,
                ).push(fs@[i as int]));
            },
            Status::Inert => {
                inert.push(a);
                assert(with_status(fs@.take(i + 1), Status::Inert) =~= with_status(
                    t,
                    Status::Inert,
                ).push(fs@[i as int]));
            },
        }
        i = i + 1;
    }
    assert(fs@.take(fs.len() as int) =~= fs@);
    let total = detonated.len() + ticking.len() + inert.len();
    Report {
        generated_at: to_owned(generated_at),
        swept_files: result.swept_files,
        total_fuses: total,
        detonated,
        ticking,
        inert,
    }
}

// ───────────────────────── diffing ─────────────────────────

/// What identifies a fuse across reports: its file, line and tag.
pub open spec fn ann_key(a: ReportAnnotation) -> (Seq<char>, usize, Seq<char>) {
    (a.file@, a.line, a.tag@)
}

/// Some annotation of `s` has the key `k`.
pub open spec fn has_key(s: Seq<ReportAnnotation>, k: (Seq<char>, usize, Seq<char>)) -> bool {
    exists|i: int| 0 <= i < s.len() && ann_key(s[i]) == k
}

/// All annotations of a report: detonated, ticking, then inert.
pub open spec fn all_of(r: Report) -> Seq<ReportAnnotation> {
    r.detonated@ + r.ticking@ + r.inert@
}

/// The annotations of `s` whose key is nowhere in `other`, in order.
pub open spec fn keys_absent(s: Seq<ReportAnnotation>, other: Seq<ReportAnnotation>) -> Seq<
    ReportAnnotation,
>
    decreases s.len(),
{
    if s.len() == 0 {
        Seq::empty()
    } else {
        keys_absent(s.drop_last(), other) + if has_key(other, ann_key(s.last())) {
            Seq::empty()
        } else {
            seq![s.last()]
        }
    }
}

/// The annotations of `s` whose key is nowhere in `old`, the first of each
/// key only, in order.
pub open spec fn fresh(s: Seq<ReportAnnotation>, old: Seq<ReportAnnotation>) -> Seq<ReportAnnotation>
    decreases s.len(),
{
    if s.len() == 0 {
        Seq::empty()
    } else {
        let prev = fresh(s.drop_last(), old);
        if has_key(old, ann_key(s.last())) || has_key(prev, ann_key(s.last())) {
            prev
        } else {
            prev.push(s.last())
        }
    }
}

/// The last annotation of `s` with the key `k`, if any.
pub open spec fn last_with_key(s: Seq<ReportAnnotation>, k: (Seq<char>, usize, Seq<char>)) -> Option<
    ReportAnnotation,
>
    decreases s.len(),
{
    if s.len() == 0 {
        None
    } else if ann_key(s.last()) == k {
        Some(s.last())
    } else {
        last_with_key(s.drop_last(), k)
    }
}

/// For each annotation of `s`, in order, whose key is in `old` with another
/// date: the annotation of `old` (its last with that key) and it.
pub open spec fn date_changes(s: Seq<ReportAnnotation>, old: Seq<ReportAnnotation>) -> Seq<
    (ReportAnnotation, ReportAnnotation),
>
    decreases s.len(),
{
    if s.len() == 0 {
        Seq::empty()
    } else {
        date_changes(s.drop_last(), old) + match last_with_key(old, ann_key(s.last())) {
            Some(o) => if o.date@ != s.last().date@ {
                seq![(o, s.last())]
            } else {
                Seq::empty()
            },
            None => Seq::empty(),
        }
    }
}

fn same_key(a: &ReportAnnotation, b: &ReportAnnotation) -> (r: bool)
    ensures
        r == (ann_key(*a) == ann_key(*b)),
{
    a.line == b.line && str_eq(a.file.as_str(), b.file.as_str()) && str_eq(
        a.tag.as_str(),
        b.tag.as_str(),
    )
}

fn key_in(s: &Vec<ReportAnnotation>, a: &ReportAnnotation) -> (r: bool)
    ensures
        r == has_key(s@, ann_key(*a)),
{
    let mut i: usize = 0;
    while i < s.len()
        invariant
            i <= s.len(),
            forall|j: int| 0 <= j < i ==> ann_key(s@[j]) != ann_key(*a),
        decreases s.len() - i,
    {
        if same_key(&s[i], a) {
            return true;
        }
        i = i + 1;
    }
    false
}

fn last_key_match(s: &Vec<ReportAnnotation>, a: &ReportAnnotation) -> (r: Option<usize>)
    ensures
        match r {
            Some(i) => i < s@.len() && last_with_key(s@, ann_key(*a)) == Some(s@[i as int]),
            None => last_with_key(s@, ann_key(*a)) is None,
        },
{
    let mut i: usize = s.len();
    assert(s@.take(i as int) =~= s@);
    while i > 0
        invariant
            i <= s.len(),
            last_with_key(s@, ann_key(*a)) == last_with_key(s@.take(i as int), ann_key(*a)),
        decreases i,
    {
        proof {
            assert(s@.take(i as int).drop_last() =~= s@.take(i - 1));
            assert(s@.take(i as int).last() == s@[i - 1]);
        }
        if same_key(&s[i - 1], a) {
            return Some(i - 1);
        }
        i = i - 1;
    }
    assert(s@.take(0) =~= Seq::<ReportAnnotation>::empty());
    None
}

fn concat_all(r: &Report) -> (v: Vec<ReportAnnotation>)
    ensures
        v@ == all_of(*r),
{
    let mut v: Vec<ReportAnnotation> = Vec::new();
    let mut b: usize = 0;
    while b < 3
        invariant
            b <= 3,
            v@ == if b == 0 {
                Seq::empty()
            } else if b == 1 {
                r.detonated@
            } else if b == 2 {
                r.detonated@ + r.ticking@
            } else {
                all_of(*r)
            },
        decreases 3 - b,
    {
        let bucket = if b == 0 {
            &r.detonated
        } else if b == 1 {
            &r.ticking
        } else {
            &r.inert
        };
        let ghost start = v@;
        let mut i: usize = 0;
        while i < bucket.len()
            invariant
                i <= bucket.len(),
                v@ == start + bucket@.take(i as int),
            decreases bucket.len() - i,
        {
            v.push(bucket[i].duplicate());
            assert(bucket@.take(i + 1) =~= bucket@.take(i as int).push(bucket@[i as int]));
            i = i + 1;
        }
        assert(bucket@.take(bucket.len() as int) =~= bucket@);
        assert(start == Seq::<ReportAnnotation>::empty() ==> v@ =~= bucket@);
        b = b + 1;
    }
    v
}

fn without_keys_of(s: &Vec<ReportAnnotation>, other: &Vec<ReportAnnotation>) -> (r: Vec<
    ReportAnnotation,
>)
    ensures
        r@ == keys_absent(s@, other@),
{
    let mut r: Vec<ReportAnnotation> = Vec::new();
    let mut i: usize = 0;
    while i < s.len()
        invariant
            i <= s.len(),
            r@ == keys_absent(s@.take(i as int), other@),
        decreases s.len() - i,
    {
        proof {
            assert(s@.take(i + 1).drop_last() =~= s@.take(i as int));
            assert(s@.take(i + 1).last() == s@[i as int]);
        }
        if !key_in(other, &s[i]) {
            r.push(s[i].duplicate());
        } else {
            assert(r@ + Seq::<ReportAnnotation>::empty() =~= r@);
        }
        i = i + 1;
    }
    assert(s@.take(s.len() as int) =~= s@);
    r
}

/// What changed from the report `old` to the report `new`: fuses detonated
/// in `new` whose key was not detonated in `old`; fuses of `old`, of any
/// status, whose key is nowhere in `new`; fuses of `new` whose key is nowhere in
/// `old`, each key once; and fuses of `new` whose key is in `old` with
/// another date, paired with the last annotation of `old` with that key.
/// The key of a fuse is its file, line and tag.
pub fn diff_reports(old: &Report, new: &Report) -> (r: ReportDiff)
    ensures
        r.newly_detonated@ == keys_absent(new.detonated@, old.detonated@),
        r.resolved@ == keys_absent(all_of(*old), all_of(*new)),
        r.new_annotations@ == fresh(all_of(*new), all_of(*old)),
        r.snoozed@ == date_changes(all_of(*new), all_of(*old)),
{
    let old_all = concat_all(old);
    let new_all = concat_all(new);
    let newly_detonated = without_keys_of(&new.detonated, &old.detonated);
    let resolved = without_keys_of(&old_all, &new_all);
    let mut fresh_v: Vec<ReportAnnotation> = Vec::new();
    let mut snoozed: Vec<(ReportAnnotation, ReportAnnotation)> = Vec::new();
    let mut i: usize = 0;
    while i < new_all.len()
        invariant
            i <= new_all.len(),
            fresh_v@ == fresh(new_all@.take(i as int), old_all@),
            snoozed@ == date_changes(new_all@.take(i as int), old_all@),
        decreases new_all.len() - i,
    {
        proof {
            assert(new_all@.take(i + 1).drop_last() =~= new_all@.take(i as int));
            assert(new_all@.take(i + 1).last() == new_all@[i as int]);
        }
        let a = &new_all[i];
        if !key_in(&old_all, a) && !key_in(&fresh_v, a) {
            fresh_v.push(a.duplicate());
        }
        match last_key_match(&old_all, a) {
            Some(k) => {
                if !str_eq(old_all[k].date.as_str(), a.date.as_str()) {
                    snoozed.push((old_all[k].duplicate(), a.duplicate()));
                } else {
                    assert(snoozed@ + Seq::<(ReportAnnotation, ReportAnnotation)>::empty() =~= snoozed@);
                }
            },
            None => {
                assert(snoozed@ + Seq::<(ReportAnnotation, ReportAnnotation)>::empty() =~= snoozed@);
            },
        }
        i = i + 1;
    }
    assert(new_all@.take(new_all.len() as int) =~= new_all@);
    ReportDiff { newly_detonated, resolved, new_annotations: fresh_v, snoozed }
}

/// No two annotations of `s` share a key.
pub open spec fn keys_unique(s: Seq<ReportAnnotation>) -> bool {
    forall|i: int, j: int| 0 <= i < j < s.len() ==> ann_key(s[i]) != ann_key(s[j])
}

proof fn lemma_keys_absent_self(s: Seq<ReportAnnotation>, other: Seq<ReportAnnotation>)
    requires
        forall|i: int| 0 <= i < s.len() ==> has_key(other, ann_key(#[trigger] s[i])),
    ensures
        keys_absent(s, other) == Seq::<ReportAnnotation>::empty(),
    decreases s.len(),
{
    if s.len() > 0 {
        assert(has_key(other, ann_key(s[s.len() - 1])));
        assert forall|i: int| 0 <= i < s.drop_last().len() implies has_key(
            other,
            ann_key(#[trigger] s.drop_last()[i]),
        ) by {
            assert(s.drop_last()[i] == s[i]);
        }
        lemma_keys_absent_self(s.drop_last(), other);
        assert(keys_absent(s, other) =~= Seq::<ReportAnnotation>::empty());
    }
}

proof fn lemma_fresh_none(s: Seq<ReportAnnotation>, old: Seq<ReportAnnotation>)
    requires
        forall|i: int| 0 <= i < s.len() ==> has_key(old, ann_key(#[trigger] s[i])),
    ensures
        fresh(s, old) == Seq::<ReportAnnotation>::empty(),
    decreases s.len(),
{
    if s.len() > 0 {
        assert(has_key(old, ann_key(s[s.len() - 1])));
        assert forall|i: int| 0 <= i < s.drop_last().len() implies has_key(
            old,
            ann_key(#[trigger] s.drop_last()[i]),
        ) by {
            assert(s.drop_last()[i] == s[i]);
        }
        lemma_fresh_none(s.drop_last(), old);
    }
}

proof fn lemma_last_with_key_unique(s: Seq<ReportAnnotation>, i: int)
    requires
        keys_unique(s),
        0 <= i < s.len(),
    ensures
        last_with_key(s, ann_key(s[i])) == Some(s[i]),
    decreases s.len(),
{
    if i < s.len() - 1 {
        assert(ann_key(s.last()) != ann_key(s[i]));
        assert(s.drop_last()[i] == s[i]);
        assert forall|a: int, b: int| 0 <= a < b < s.drop_last().len() implies ann_key(
            s.drop_last()[a],
        ) != ann_key(s.drop_last()[b]) by {
            assert(s.drop_last()[a] == s[a] && s.drop_last()[b] == s[b]);
        }
        lemma_last_with_key_unique(s.drop_last(), i);
    }
}

proof fn lemma_date_changes_none(s: Seq<ReportAnnotation>, all: Seq<ReportAnnotation>, k: int)
    requires
        keys_unique(all),
        0 <= k <= all.len(),
        s == all.take(k),
    ensures
        date_changes(s, all) == Seq::<(ReportAnnotation, ReportAnnotation)>::empty(),
    decreases k,
{
    if k > 0 {
        assert(s.drop_last() =~= all.take(k - 1));
        lemma_date_changes_none(s.drop_last(), all, k - 1);
        assert(s.last() == all[k - 1]);
        lemma_last_with_key_unique(all, k - 1);
        assert(date_changes(s, all) =~= Seq::<(ReportAnnotation, ReportAnnotation)>::empty());
    }
}

/// A report compared with itself shows no change, as long as no two of
/// its fuses share a file, line and tag.
pub proof fn law_diff_with_itself_is_empty(r: Report)
    requires
        keys_unique(all_of(r)),
    ensures
        keys_absent(r.detonated@, r.detonated@) == Seq::<ReportAnnotation>::empty(),
        keys_absent(all_of(r), all_of(r)) == Seq::<ReportAnnotation>::empty(),
        fresh(all_of(r), all_of(r)) == Seq::<ReportAnnotation>::empty(),
        date_changes(all_of(r), all_of(r)) == Seq::<(ReportAnnotation, ReportAnnotation)>::empty(),
{
    let all = all_of(r);
    assert forall|i: int| 0 <= i < r.detonated@.len() implies has_key(
        r.detonated@,
        ann_key(#[trigger] r.detonated@[i]),
    ) by {}
    lemma_keys_absent_self(r.detonated@, r.detonated@);
    assert forall|i: int| 0 <= i < r.detonated@.len() implies has_key(
        all,
        ann_key(#[trigger] r.detonated@[i]),
    ) by {
        assert(all[i] == r.detonated@[i]);
    }
    assert forall|i: int| 0 <= i < all.len() implies has_key(all, ann_key(#[trigger] all[i])) by {}
    lemma_keys_absent_self(all, all);
    lemma_fresh_none(all, all);
    assert(all.take(all.len() as int) =~= all);
    lemma_date_changes_none(all, all, all.len() as int);
}

// ───────────────────────── terminal rendering ─────────────────────────

/// `file:line`.
pub open spec fn ann_location(a: ReportAnnotation) -> Seq<char> {
    a.file@ + seq![':'] + decimal(a.line as nat)
}

/// One row of the diff: two spaces, the label in 9 columns, the location
/// in 30, the tag and date in 22, then the message.
pub open spec fn diff_row(label: Seq<char>, location: Seq<char>, tag_date: Seq<char>, message: Seq<char>) -> Seq<char> {
    "  "@ + padded_right(label, 9) + seq![' '] + padded_right(location, 30) + seq![' '] + padded_right(tag_date, 22) + seq![' '] + message
}

/// The row of an annotation under `label`: its tag and date as `TAG[DATE]`.
pub open spec fn plain_row(label: Seq<char>, a: ReportAnnotation) -> Seq<char> {
    diff_row(label, ann_location(a), a.tag@ + seq!['['] + a.date@ + seq![']'], a.message@)
}

/// The row of a snoozed fuse: `TAG[BEFORE→AFTER]`, at its new place.
pub open spec fn snooze_row(before: ReportAnnotation, after: ReportAnnotation) -> Seq<char> {
    diff_row("SNOOZED"@, ann_location(after), after.tag@ + seq!['['] + before.date@ + seq!['→'] + after.date@ + seq![']'], after.message@)
}

/// A titled section of the diff: the title line, then one row per entry.
pub open spec fn section(title: Seq<char>, rows: Seq<Seq<char>>, tint: Tint) -> Seq<(Seq<char>, Seq<char>, Tint, Seq<char>)> {
    seq![(Seq::empty(), title, Tint::Plain, Seq::empty())] + rows.map_values(|t: Seq<char>| (Seq::empty(), t, tint, Seq::empty()))
}

/// The terminal lines of a report diff, each with its colour.
pub open spec fn diff_text(d: ReportDiff) -> Seq<(Seq<char>, Seq<char>, Tint, Seq<char>)> {
    let blank = seq![(Seq::<char>::empty(), Seq::<char>::empty(), Tint::Plain, Seq::<char>::empty())];
    seq![(Seq::empty(), "REPORT DIFF"@, Tint::Plain, Seq::empty()), (Seq::empty(), "-----------"@, Tint::Plain, Seq::empty())]
        + section(decimal(d.newly_detonated@.len()) + " newly detonated fuse(s):"@, d.newly_detonated@.map_values(|a: ReportAnnotation| plain_row("DETONATED"@, a)), Tint::Red)
        + blank
        + section(decimal(d.resolved@.len()) + " resolved fuse(s):"@, d.resolved@.map_values(|a: ReportAnnotation| plain_row("REMOVED"@, a)), Tint::Green)
        + blank
        + section(decimal(d.new_annotations@.len()) + " new fuse(s) added:"@, d.new_annotations@.map_values(|a: ReportAnnotation| plain_row("NEW"@, a)), Tint::Yellow)
        + blank
        + section(decimal(d.snoozed@.len()) + " snoozed fuse(s):"@, d.snoozed@.map_values(|p: (ReportAnnotation, ReportAnnotation)| snooze_row(p.0, p.1)), Tint::Cyan)
}

/// A report diff shows, under its heading, first how many fuses newly
/// detonated and one red `DETONATED` row for each of them, then after a
/// blank line how many were resolved and one green `REMOVED` row for each.
pub proof fn law_diff_sections(d: ReportDiff)
    ensures
        ({
            let x = diff_text(d);
            let n = d.newly_detonated@.len() as int;
            let m = d.resolved@.len() as int;
            &&& x[2].1 == decimal(d.newly_detonated@.len()) + " newly detonated fuse(s):"@
            &&& forall|i: int| 0 <= i < n ==> (#[trigger] x[3 + i]).1 == plain_row("DETONATED"@, d.newly_detonated@[i])
                && x[3 + i].2 == Tint::Red
            &&& x[3 + n].1 == Seq::<char>::empty()
            &&& x[4 + n].1 == decimal(d.resolved@.len()) + " resolved fuse(s):"@
            &&& forall|i: int| 0 <= i < m ==> (#[trigger] x[5 + n + i]).1 == plain_row("REMOVED"@, d.resolved@[i])
                && x[5 + n + i].2 == Tint::Green
        }),
{
    let x = diff_text(d);
    let n = d.newly_detonated@.len() as int;
    let m = d.resolved@.len() as int;
    let head = seq![(Seq::<char>::empty(), "REPORT DIFF"@, Tint::Plain, Seq::<char>::empty()), (Seq::<char>::empty(), "-----------"@, Tint::Plain, Seq::<char>::empty())];
    let blank = seq![(Seq::<char>::empty(), Seq::<char>::empty(), Tint::Plain, Seq::<char>::empty())];
    let s1 = section(decimal(d.newly_detonated@.len()) + " newly detonated fuse(s):"@, d.newly_detonated@.map_values(|a: ReportAnnotation| plain_row("DETONATED"@, a)), Tint::Red);
    let s2 = section(decimal(d.resolved@.len()) + " resolved fuse(s):"@, d.resolved@.map_values(|a: ReportAnnotation| plain_row("REMOVED"@, a)), Tint::Green);
    let p = head + s1 + blank + s2;
    assert(s1.len() == n + 1);
    assert(s2.len() == m + 1);
    assert(p.len() == 5 + n + m);
    assert forall|k: int| 0 <= k < p.len() implies #[trigger] x[k] == p[k] by {}
    assert(p[2] == s1[0]);
    assert forall|i: int| 0 <= i < n implies (#[trigger] x[3 + i]).1 == plain_row("DETONATED"@, d.newly_detonated@[i])
        && x[3 + i].2 == Tint::Red by {
        assert(x[3 + i] == p[3 + i]);
        assert(p[3 + i] == s1[1 + i]);
    }
    assert(x[3 + n] == p[3 + n]);
    assert(p[3 + n] == blank[0]);
    assert(x[4 + n] == p[4 + n]);
    assert(p[4 + n] == s2[0]);
    assert forall|i: int| 0 <= i < m implies (#[trigger] x[5 + n + i]).1 == plain_row("REMOVED"@, d.resolved@[i])
        && x[5 + n + i].2 == Tint::Green by {
        assert(x[5 + n + i] == p[5 + n + i]);
        assert(p[5 + n + i] == s2[1 + i]);
    }
}

fn diff_row_string(label: &str, location: &str, tag_date: &str, message: &str) -> (r: String)
    ensures
        r@ == diff_row(label@, location@, tag_date@, message@),
{
    let mut r = to_owned("  ");
    push_padded_right(&mut r, label, 9);
    push_char(&mut r, ' ');
    push_padded_right(&mut r, location, 30);
    push_char(&mut r, ' ');
    push_padded_right(&mut r, tag_date, 22);
    push_char(&mut r, ' ');
    append(&mut r, message);
    r
}

fn location_string(a: &ReportAnnotation) -> (r: String)
    ensures
        r@ == ann_location(*a),
{
    let mut location = to_owned(a.file.as_str());
    push_char(&mut location, ':');
    push_decimal(&mut location, a.line as u128);
    location
}

fn plain_row_string(label: &str, a: &ReportAnnotation) -> (r: String)
    ensures
        r@ == plain_row(label@, *a),
{
    let location = location_string(a);
    let mut tag_date = to_owned(a.tag.as_str());
    push_char(&mut tag_date, '[');
    append(&mut tag_date, a.date.as_str());
    push_char(&mut tag_date, ']');
    diff_row_string(label, location.as_str(), tag_date.as_str(), a.message.as_str())
}

fn snooze_row_string(before: &ReportAnnotation, after: &ReportAnnotation) -> (r: String)
    ensures
        r@ == snooze_row(*before, *after),
{
    let location = location_string(after);
    let mut tag_date = to_owned(after.tag.as_str());
    push_char(&mut tag_date, '[');
    append(&mut tag_date, before.date.as_str());
    push_char(&mut tag_date, '→');
    append(&mut tag_date, after.date.as_str());
    push_char(&mut tag_date, ']');
    diff_row_string("SNOOZED", location.as_str(), tag_date.as_str(), after.message.as_str())
}

fn push_section(
    out: &mut Vec<StyledLine>,
    count: usize,
    title_rest: &str,
    label: &str,
    anns: &Vec<ReportAnnotation>,
    tint: Tint,
)
    requires
        count == anns@.len(),
    ensures
        styled(final(out)@) == styled(old(out)@) + section(
            decimal(count as nat) + title_rest@,
            anns@.map_values(|a: ReportAnnotation| plain_row(label@, a)),
            tint,
        ),
{
    let ghost start = styled(out@);
    let mut title = String::new();
    push_decimal(&mut title, count as u128);
    append(&mut title, title_rest);
    push_line(out, title, Tint::Plain);
    let ghost head = styled(out@);
    let mut i: usize = 0;
    while i < anns.len()
        invariant
            i <= anns.len(),
            styled(out@) == head + anns@.take(i as int).map_values(|a: ReportAnnotation| plain_row(label@, a)).map_values(|t: Seq<char>| (Seq::<char>::empty(), t, tint, Seq::<char>::empty())),
        decreases anns.len() - i,
    {
        let row = plain_row_string(label, &anns[i]);
        push_line(out, row, tint);
        assert(anns@.take(i + 1).map_values(|a: ReportAnnotation| plain_row(label@, a)).map_values(|t: Seq<char>| (Seq::<char>::empty(), t, tint, Seq::<char>::empty())) =~= anns@.take(i as int).map_values(|a: ReportAnnotation| plain_row(label@, a)).map_values(|t: Seq<char>| (Seq::<char>::empty(), t, tint, Seq::<char>::empty())).push((Seq::<char>::empty(), plain_row(label@, anns@[i as int]), tint, Seq::<char>::empty())));
        i = i + 1;
    }
    assert(anns@.take(anns.len() as int) =~= anns@);
    assert(styled(out@) =~= start + section(
        decimal(count as nat) + title_rest@,
        anns@.map_values(|a: ReportAnnotation| plain_row(label@, a)),
        tint,
    ));
}

/// The lines that show a report diff on a terminal, each with its colour:
/// a heading, then the newly detonated (red), resolved (green), new
/// (yellow) and snoozed (cyan) fuses, each under a count, separated by
/// blank lines.
pub fn diff_terminal_lines(d: &ReportDiff) -> (r: Vec<StyledLine>)
    ensures
        styled(r@) == diff_text(*d),
{
    let mut out: Vec<StyledLine> = Vec::new();
    push_line(&mut out, to_owned("REPORT DIFF"), Tint::Plain);
    push_line(&mut out, to_owned("-----------"), Tint::Plain);
    push_section(&mut out, d.newly_detonated.len(), " newly detonated fuse(s):", "DETONATED", &d.newly_detonated, Tint::Red);
    push_line(&mut out, String::new(), Tint::Plain);
    push_section(&mut out, d.resolved.len(), " resolved fuse(s):", "REMOVED", &d.resolved, Tint::Green);
    push_line(&mut out, String::new(), Tint::Plain);
    push_section(&mut out, d.new_annotations.len(), " new fuse(s) added:", "NEW", &d.new_annotations, Tint::Yellow);
    push_line(&mut out, String::new(), Tint::Plain);
    let ghost before_snoozed = styled(out@);
    let mut title = String::new();
    push_decimal(&mut title, d.snoozed.len() as u128);
    append(&mut title, " snoozed fuse(s):");
    push_line(&mut out, title, Tint::Plain);
    let ghost head = styled(out@);
    let mut i: usize = 0;
    while i < d.snoozed.len()
        invariant
            i <= d.snoozed.len(),
            styled(out@) == head + d.snoozed@.take(i as int).map_values(|p: (ReportAnnotation, ReportAnnotation)| snooze_row(p.0, p.1)).map_values(|t: Seq<char>| (Seq::<char>::empty(), t, Tint::Cyan, Seq::<char>::empty())),
        decreases d.snoozed.len() - i,
    {
        let row = snooze_row_string(&d.snoozed[i].0, &d.snoozed[i].1);
        push_line(&mut out, row, Tint::Cyan);
        assert(d.snoozed@.take(i + 1).map_values(|p: (ReportAnnotation, ReportAnnotation)| snooze_row(p.0, p.1)).map_values(|t: Seq<char>| (Seq::<char>::empty(), t, Tint::Cyan, Seq::<char>::empty())) =~= d.snoozed@.take(i as int).map_values(|p: (ReportAnnotation, ReportAnnotation)| snooze_row(p.0, p.1)).map_values(|t: Seq<char>| (Seq::<char>::empty(), t, Tint::Cyan, Seq::<char>::empty())).push((Seq::<char>::empty(), snooze_row(d.snoozed@[i as int].0, d.snoozed@[i as int].1), Tint::Cyan, Seq::<char>::empty())));
        i = i + 1;
    }
    assert(d.snoozed@.take(d.snoozed.len() as int) =~= d.snoozed@);
    proof {
        crate::text::reveal_newline();
    }
    assert(styled(out@) =~= diff_text(*d));
    out
}

/// The exit code of a report run: 1 when failing on new detonations and
/// the diff has some, else 0.
pub fn report_exit_code(diff: Option<&ReportDiff>, fail_on_new: bool) -> (r: i32)
    ensures
        r == (if fail_on_new && (diff matches Some(d) && d.newly_detonated@.len() > 0) { 1i32 } else { 0i32 }),
{
    match diff {
        Some(d) => if fail_on_new && d.newly_detonated.len() > 0 { 1 } else { 0 },
        None => 0,
    }
}

} // verus!
