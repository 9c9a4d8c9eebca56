//! How fuse debt changed between two reports.

use crate::report::{ann_location, Report, ReportAnnotation};
use crate::output::OutputFormat;
use crate::style::{push_led_line, push_line, styled, Rendered, StyledLine, Tint};
use crate::text::{append, decimal, push_char, push_decimal, push_signed_decimal, signed_decimal, str_eq, to_owned};
use vstd::prelude::*;

verus! {

/// The change from one report to a later one.
#[derive(Debug)]
pub struct TrendResult {
    pub from_timestamp: String,
    pub to_timestamp: String,
    /// Detonated count of the later report minus that of the earlier one.
    pub detonated_delta: i64,
    pub ticking_delta: i64,
    pub total_delta: i64,
    /// Detonated in the later report, at a `file:line` not detonated before.
    pub newly_detonated: Vec<ReportAnnotation>,
    /// Detonated before, at a `file:line` absent from the later report.
    pub resolved: Vec<ReportAnnotation>,
    /// Detonated before, at a `file:line` ticking in the later report.
    pub snoozed: Vec<ReportAnnotation>,
}

/// The `file:line` key of an annotation.
pub fn annotation_key(a: &ReportAnnotation) -> (r: String)
    ensures
        r@ == ann_location(*a),
{
    let mut k = to_owned(a.file.as_str());
    push_char(&mut k, ':');
    push_decimal(&mut k, a.line as u128);
    k
}

/// Some annotation of `s` is at the `file:line` key `k`.
pub open spec fn has_location(s: Seq<ReportAnnotation>, k: Seq<char>) -> bool {
    exists|i: int| 0 <= i < s.len() && ann_location(s[i]) == k
}

/// The annotations of `s` whose key is (`present`) or is not in `other`.
pub open spec fn by_location(s: Seq<ReportAnnotation>, other: Seq<ReportAnnotation>, present: bool) -> Seq<
    ReportAnnotation,
>
    decreases s.len(),
{
    if s.len() == 0 {
        Seq::empty()
    } else {
        by_location(s.drop_last(), other, present) + if has_location(other, ann_location(s.last()))
            == present {
            seq![s.last()]
        } else {
            Seq::empty()
        }
    }
}

fn location_in(s: &Vec<ReportAnnotation>, k: &str) -> (r: bool)
    ensures
        r == has_location(s@, k@),
{
    let mut i: usize = 0;
    while i < s.len()
        invariant
            i <= s.len(),
            forall|j: int| 0 <= j < i ==> ann_location(s@[j]) != k@,
        decreases s.len() - i,
    {
        let ki = annotation_key(&s[i]);
        if str_eq(ki.as_str(), k) {
            return true;
        }
        i = i + 1;
    }
    false
}

fn select(s: &Vec<ReportAnnotation>, others: &Vec<ReportAnnotation>, present: bool) -> (r: Vec<
    ReportAnnotation,
>)
    ensures
        r@ == by_location(s@, others@, present),
{
    let mut r: Vec<ReportAnnotation> = Vec::new();
    let mut i: usize = 0;
    while i < s.len()
        invariant
            i <= s.len(),
            r@ == by_location(s@.take(i as int), others@, present),
        decreases s.len() - i,
    {
        proof {
            assert(s@.take(i + 1).drop_last() =~= s@.take(i as int));
            assert(s@.take(i + 1).last() == s@[i as int]);
        }
        let k = annotation_key(&s[i]);
        if location_in(others, k.as_str()) == present {
            r.push(s[i].duplicate());
        } else {
            assert(r@ + Seq::<ReportAnnotation>::empty() =~= r@);
        }
        i = i + 1;
    }
    assert(s@.take(s.len() as int) =~= s@);
    r
}

/// The number of annotations in a report.
pub open spec fn report_size(r: Report) -> int {
    (r.detonated@.len() + r.ticking@.len() + r.inert@.len()) as int
}

/// `r` is the change from report `a` to report `b`.
pub open spec fn describes_trend(r: TrendResult, a: Report, b: Report) -> bool {
    &&& r.from_timestamp@ == a.generated_at@
    &&& r.to_timestamp@ == b.generated_at@
    &&& r.detonated_delta == b.detonated@.len() - a.detonated@.len()
    &&& r.ticking_delta == b.ticking@.len() - a.ticking@.len()
    &&& r.total_delta == report_size(b) - report_size(a)
    &&& r.newly_detonated@ == by_location(b.detonated@, a.detonated@, false)
    &&& r.resolved@ == by_location(a.detonated@, b.detonated@ + b.ticking@ + b.inert@, false)
    &&& r.snoozed@ == by_location(a.detonated@, b.ticking@, true)
}

/// The change from report `a` to the later report `b`: the differences of
/// the detonated, ticking and total counts; the fuses detonated in `b` at a
/// `file:line` not detonated in `a`; those detonated in `a` at a
/// `file:line` nowhere in `b`; and those detonated in `a` at a `file:line`
/// ticking in `b`.
pub fn compute_trend(a: &Report, b: &Report) -> (r: TrendResult)
    requires
        report_size(*a) <= i64::MAX,
        report_size(*b) <= i64::MAX,
    ensures
        describes_trend(r, *a, *b),
{
    let newly_detonated = select(&b.detonated, &a.detonated, false);
    let mut b_all: Vec<ReportAnnotation> = Vec::new();
    let mut k: usize = 0;
    while k < 3
        invariant
            k <= 3,
            b_all@ == if k == 0 {
                Seq::empty()
            } else if k == 1 {
                b.detonated@
            } else if k == 2 {
                b.detonated@ + b.ticking@
            } else {
                b.detonated@ + b.ticking@ + b.inert@
            },
        decreases 3 - k,
    {
        let bucket = if k == 0 {
            &b.detonated
        } else if k == 1 {
            &b.ticking
        } else {
            &b.inert
        };
        let ghost start = b_all@;
        let mut i: usize = 0;
        while i < bucket.len()
            invariant
                i <= bucket.len(),
                b_all@ == start + bucket@.take(i as int),
            decreases bucket.len() - i,
        {
            b_all.push(bucket[i].duplicate());
            assert(bucket@.take(i + 1) =~= bucket@.take(i as int).push(bucket@[i as int]));
            i = i + 1;
        }
        assert(bucket@.take(bucket.len() as int) =~= bucket@);
        assert(start == Seq::<ReportAnnotation>::empty() ==> b_all@ =~= bucket@);
        k = k + 1;
    }
    let resolved = select(&a.detonated, &b_all, false);
    let snoozed = select(&a.detonated, &b.ticking, true);
    let a_total = (a.detonated.len() as i128 + a.ticking.len() as i128 + a.inert.len() as i128) as i64;
    let b_total = (b.detonated.len() as i128 + b.ticking.len() as i128 + b.inert.len() as i128) as i64;
    TrendResult {
        from_timestamp: a.generated_at.clone(),
        to_timestamp: b.generated_at.clone(),
        detonated_delta: b.detonated.len() as i64 - a.detonated.len() as i64,
        ticking_delta: b.ticking.len() as i64 - a.ticking.len() as i64,
        total_delta: b_total - a_total,
        newly_detonated,
        resolved,
        snoozed,
    }
}

/// No two annotations of `s` are at the same `file:line`.
pub open spec fn locations_unique(s: Seq<ReportAnnotation>) -> bool {
    forall|i: int, j: int| 0 <= i < j < s.len() ==> ann_location(s[i]) != ann_location(s[j])
}

proof fn lemma_by_location_all_present(s: Seq<ReportAnnotation>, other: Seq<ReportAnnotation>)
    requires
        forall|i: int| 0 <= i < s.len() ==> has_location(other, ann_location(#[trigger] s[i])),
    ensures
        by_location(s, other, false) == Seq::<ReportAnnotation>::empty(),
    decreases s.len(),
{
    if s.len() > 0 {
        assert(has_location(other, ann_location(s[s.len() - 1])));
        assert forall|i: int| 0 <= i < s.drop_last().len() implies has_location(
            other,
            ann_location(#[trigger] s.drop_last()[i]),
        ) by {
            assert(s.drop_last()[i] == s[i]);
        }
        lemma_by_location_all_present(s.drop_last(), other);
        assert(by_location(s, other, false) =~= Seq::<ReportAnnotation>::empty());
    }
}

proof fn lemma_by_location_none_present(s: Seq<ReportAnnotation>, other: Seq<ReportAnnotation>)
    requires
        forall|i: int| 0 <= i < s.len() ==> !has_location(other, ann_location(#[trigger] s[i])),
    ensures
        by_location(s, other, true) == Seq::<ReportAnnotation>::empty(),
    decreases s.len(),
{
    if s.len() > 0 {
        assert(!has_location(other, ann_location(s[s.len() - 1])));
        assert forall|i: int| 0 <= i < s.drop_last().len() implies !has_location(
            other,
            ann_location(#[trigger] s.drop_last()[i]),
        ) by {
            assert(s.drop_last()[i] == s[i]);
        }
        lemma_by_location_none_present(s.drop_last(), other);
        assert(by_location(s, other, true) =~= Seq::<ReportAnnotation>::empty());
    }
}

/// Comparing a report with itself shows no change: every delta is zero and
/// nothing is newly detonated, resolved or snoozed, as long as no two of
/// its fuses are at the same `file:line`.
pub proof fn law_trend_of_report_with_itself(r: Report, t: TrendResult)
    requires
        locations_unique(r.detonated@ + r.ticking@ + r.inert@),
        describes_trend(t, r, r),
    ensures
        t.detonated_delta == 0,
        t.ticking_delta == 0,
        t.total_delta == 0,
        t.newly_detonated@.len() == 0,
        t.resolved@.len() == 0,
        t.snoozed@.len() == 0,
        by_location(r.detonated@, r.detonated@, false) == Seq::<ReportAnnotation>::empty(),
        by_location(r.detonated@, r.detonated@ + r.ticking@ + r.inert@, false) == Seq::<
            ReportAnnotation,
        >::empty(),
        by_location(r.detonated@, r.ticking@, true) == Seq::<ReportAnnotation>::empty(),
        report_size(r) - report_size(r) == 0,
{
    let all = r.detonated@ + r.ticking@ + r.inert@;
    let d = r.detonated@;
    assert forall|i: int| 0 <= i < d.len() implies has_location(d, ann_location(#[trigger] d[i])) by {}
    lemma_by_location_all_present(d, d);
    assert forall|i: int| 0 <= i < d.len() implies has_location(all, ann_location(#[trigger] d[i])) by {
        assert(all[i] == d[i]);
    }
    lemma_by_location_all_present(d, all);
    assert forall|i: int| 0 <= i < d.len() implies !has_location(
        r.ticking@,
        ann_location(#[trigger] d[i]),
    ) by {
        if has_location(r.ticking@, ann_location(d[i])) {
            let j = choose|j: int| 0 <= j < r.ticking@.len() && ann_location(r.ticking@[j]) == ann_location(d[i]);
            assert(all[d.len() + j] == r.ticking@[j]);
            assert(all[i] == d[i]);
        }
    }
    lemma_by_location_none_present(d, r.ticking@);
}

/// Comparing two reports the other way round negates every delta and
/// swaps the timestamps.
pub proof fn law_trend_reversed(a: Report, b: Report, x: TrendResult, y: TrendResult)
    requires
        describes_trend(x, a, b),
        describes_trend(y, b, a),
    ensures
        x.detonated_delta == -y.detonated_delta,
        x.ticking_delta == -y.ticking_delta,
        x.total_delta == -y.total_delta,
        x.from_timestamp@ == y.to_timestamp@,
        x.to_timestamp@ == y.from_timestamp@,
{
}

// ───────────────────────── rendering ─────────────────────────

/// A delta as shown: a `+` before a positive one.
pub open spec fn delta_text(d: int) -> Seq<char> {
    if d > 0 {
        seq!['+'] + signed_decimal(d)
    } else {
        signed_decimal(d)
    }
}

/// The colour of a delta: red when debt grew, green when it shrank.
pub open spec fn delta_tint(d: int) -> Tint {
    if d > 0 {
        Tint::Red
    } else if d < 0 {
        Tint::Green
    } else {
        Tint::Plain
    }
}

/// `    file:line  TAG[DATE]  tail`.
pub open spec fn trend_row(a: ReportAnnotation, tail: Seq<char>) -> Seq<char> {
    "    "@ + ann_location(a) + "  "@ + a.tag@ + seq!['['] + a.date@ + seq![']'] + "  "@ + tail
}

/// One block of the trend: its heading, then its rows or `(none)`.
pub open spec fn trend_block(
    heading: Seq<char>,
    heading_tint: Tint,
    anns: Seq<ReportAnnotation>,
    removed: bool,
    row_tint: Tint,
) -> Seq<(Seq<char>, Seq<char>, Tint, Seq<char>)> {
    seq![(Seq::empty(), heading, if anns.len() > 0 { heading_tint } else { Tint::Plain }, Seq::empty())] + if anns.len()
        == 0 {
        seq![(Seq::<char>::empty(), "    (none)"@, Tint::Plain, Seq::<char>::empty())]
    } else {
        anns.map_values(
            |a: ReportAnnotation|
                (Seq::<char>::empty(), trend_row(a, if removed { "(removed)"@ } else { a.message@ }), row_tint, Seq::<char>::empty()),
        )
    }
}

/// The terminal lines of a trend, each with its colour.
pub open spec fn trend_text(t: TrendResult) -> Seq<(Seq<char>, Seq<char>, Tint, Seq<char>)> {
    let blank = seq![(Seq::<char>::empty(), Seq::<char>::empty(), Tint::Plain, Seq::<char>::empty())];
    seq![
        (Seq::empty(), "Trend: "@ + t.from_timestamp@ + " → "@ + t.to_timestamp@, Tint::Plain, Seq::empty()),
        (Seq::empty(), Seq::empty(), Tint::Plain, Seq::empty()),
        ("  Detonated:    "@, delta_text(t.detonated_delta as int), delta_tint(t.detonated_delta as int), Seq::empty()),
        ("  Ticking:      "@, delta_text(t.ticking_delta as int), delta_tint(t.ticking_delta as int), Seq::empty()),
        ("  Total:        "@, delta_text(t.total_delta as int), delta_tint(t.total_delta as int), Seq::empty()),
        (Seq::empty(), Seq::empty(), Tint::Plain, Seq::empty()),
    ] + trend_block(
        "  Newly detonated ("@ + decimal(t.newly_detonated@.len()) + "):"@,
        Tint::RedBold,
        t.newly_detonated@,
        false,
        Tint::Red,
    ) + blank + trend_block(
        "  Resolved ("@ + decimal(t.resolved@.len()) + "):"@,
        Tint::GreenBold,
        t.resolved@,
        true,
        Tint::Green,
    ) + blank + trend_block(
        "  Snoozed ("@ + decimal(t.snoozed@.len()) + "):"@,
        Tint::Plain,
        t.snoozed@,
        false,
        Tint::Plain,
    )
}

fn delta_string(d: i64) -> (r: String)
    ensures
        r@ == delta_text(d as int),
{
    let mut s = String::new();
    if d > 0 {
        push_char(&mut s, '+');
    }
    push_signed_decimal(&mut s, d);
    s
}

fn delta_tint_of(d: i64) -> (r: Tint)
    ensures
        r == delta_tint(d as int),
{
    if d > 0 {
        Tint::Red
    } else if d < 0 {
        Tint::Green
    } else {
        Tint::Plain
    }
}

fn trend_row_string(a: &ReportAnnotation, removed: bool) -> (r: String)
    ensures
        r@ == trend_row(*a, if removed { "(removed)"@ } else { a.message@ }),
{
    let mut s = to_owned("    ");
    let k = annotation_key(a);
    append(&mut s, k.as_str());
    append(&mut s, "  ");
    append(&mut s, a.tag.as_str());
    push_char(&mut s, '[');
    append(&mut s, a.date.as_str());
    push_char(&mut s, ']');
    append(&mut s, "  ");
    if removed {
        append(&mut s, "(removed)");
    } else {
        append(&mut s, a.message.as_str());
    }
    s
}

fn push_block(
    out: &mut Vec<StyledLine>,
    heading_start: &str,
    heading_tint: Tint,
    anns: &Vec<ReportAnnotation>,
    removed: bool,
    row_tint: Tint,
)
    ensures
        styled(final(out)@) == styled(old(out)@) + trend_block(
            heading_start@ + decimal(anns@.len()) + "):"@,
            heading_tint,
            anns@,
            removed,
            row_tint,
        ),
{
    let ghost start = styled(out@);
    let mut h = to_owned(heading_start);
    push_decimal(&mut h, anns.len() as u128);
    append(&mut h, "):");
    let tint = if anns.len() > 0 {
        heading_tint
    } else {
        Tint::Plain
    };
    push_line(out, h, tint);
    let ghost head = styled(out@);
    if anns.len() == 0 {
        push_line(out, to_owned("    (none)"), Tint::Plain);
    } else {
        let mut i: usize = 0;
        while i < anns.len()
            invariant
                i <= anns.len(),
                styled(out@) == head + anns@.take(i as int).map_values(
                    |a: ReportAnnotation|
                        (Seq::<char>::empty(), trend_row(a, if removed { "(removed)"@ } else { a.message@ }), row_tint, Seq::<char>::empty()),
                ),
            decreases anns.len() - i,
        {
            let row = trend_row_string(&anns[i], removed);
            push_line(out, row, row_tint);
            assert(anns@.take(i + 1).map_values(
                |a: ReportAnnotation|
                    (Seq::<char>::empty(), trend_row(a, if removed { "(removed)"@ } else { a.message@ }), row_tint, Seq::<char>::empty()),
            ) =~= anns@.take(i as int).map_values(
                |a: ReportAnnotation|
                    (Seq::<char>::empty(), trend_row(a, if removed { "(removed)"@ } else { a.message@ }), row_tint, Seq::<char>::empty()),
            ).push((Seq::<char>::empty(), trend_row(anns@[i as int], if removed { "(removed)"@ } else { anns@[i as int].message@ }), row_tint, Seq::<char>::empty())));
            i = i + 1;
        }
        assert(anns@.take(anns.len() as int) =~= anns@);
    }
    assert(styled(out@) =~= start + trend_block(
        heading_start@ + decimal(anns@.len()) + "):"@,
        heading_tint,
        anns@,
        removed,
        row_tint,
    ));
}

/// The trend between two reports shows, after its heading and a blank
/// line, the change in the detonated count on the `Detonated` line, the
/// change in the ticking count on the `Ticking` line and the change in the
/// number of fuses on the `Total` line: the later report's count less the
/// earlier one's, red when it grew and green when it shrank.
pub proof fn law_trend_lines_show_deltas(a: Report, b: Report, t: TrendResult)
    requires
        describes_trend(t, a, b),
    ensures
        ({
            let x = trend_text(t);
            let dd = b.detonated@.len() - a.detonated@.len();
            let dt = b.ticking@.len() - a.ticking@.len();
            let dn = report_size(b) - report_size(a);
            &&& x[2].0 == "  Detonated:    "@ && x[2].1 == delta_text(dd) && x[2].2 == delta_tint(dd)
            &&& x[3].0 == "  Ticking:      "@ && x[3].1 == delta_text(dt) && x[3].2 == delta_tint(dt)
            &&& x[4].0 == "  Total:        "@ && x[4].1 == delta_text(dn) && x[4].2 == delta_tint(dn)
        }),
{
}

/// After its deltas a trend lists the newly detonated fuses under a
/// heading that counts them, each row with its message (or `(none)`), and
/// then, after a blank line, the resolved fuses under their own counted
/// heading, each marked `(removed)`.
pub proof fn law_trend_blocks(t: TrendResult)
    ensures
        ({
            let x = trend_text(t);
            let n = t.newly_detonated@.len() as int;
            let k = if n == 0 { 1 } else { n };
            &&& x[6].1 == "  Newly detonated ("@ + decimal(t.newly_detonated@.len()) + "):"@
            &&& forall|i: int| 0 <= i < n ==> (#[trigger] x[7 + i]).1 == trend_row(t.newly_detonated@[i], t.newly_detonated@[i].message@)
            &&& x[8 + k].1 == "  Resolved ("@ + decimal(t.resolved@.len()) + "):"@
            &&& forall|i: int| 0 <= i < t.resolved@.len() ==> (#[trigger] x[9 + k + i]).1 == trend_row(t.resolved@[i], "(removed)"@)
        }),
{
    let x = trend_text(t);
    let n = t.newly_detonated@.len() as int;
    let k = if n == 0 { 1int } else { n };
    let blank = seq![(Seq::<char>::empty(), Seq::<char>::empty(), Tint::Plain, Seq::<char>::empty())];
    let b1 = trend_block("  Newly detonated ("@ + decimal(t.newly_detonated@.len()) + "):"@, Tint::RedBold, t.newly_detonated@, false, Tint::Red);
    let b2 = trend_block("  Resolved ("@ + decimal(t.resolved@.len()) + "):"@, Tint::GreenBold, t.resolved@, true, Tint::Green);
    let top = seq![
        (Seq::<char>::empty(), "Trend: "@ + t.from_timestamp@ + " → "@ + t.to_timestamp@, Tint::Plain, Seq::<char>::empty()),
        (Seq::<char>::empty(), Seq::<char>::empty(), Tint::Plain, Seq::<char>::empty()),
        ("  Detonated:    "@, delta_text(t.detonated_delta as int), delta_tint(t.detonated_delta as int), Seq::<char>::empty()),
        ("  Ticking:      "@, delta_text(t.ticking_delta as int), delta_tint(t.ticking_delta as int), Seq::<char>::empty()),
        ("  Total:        "@, delta_text(t.total_delta as int), delta_tint(t.total_delta as int), Seq::<char>::empty()),
        (Seq::<char>::empty(), Seq::<char>::empty(), Tint::Plain, Seq::<char>::empty()),
    ];
    let p = top + b1 + blank + b2;
    assert(b1.len() == 1 + k);
    assert(b2.len() >= 1 + t.resolved@.len());
    assert forall|j: int| 0 <= j < p.len() implies #[trigger] x[j] == p[j] by {}
    assert(x[6] == p[6]);
    assert(p[6] == b1[0]);
    assert forall|i: int| 0 <= i < n implies (#[trigger] x[7 + i]).1 == trend_row(t.newly_detonated@[i], t.newly_detonated@[i].message@) by {
        assert(x[7 + i] == p[7 + i]);
        assert(p[7 + i] == b1[1 + i]);
    }
    assert(x[8 + k] == p[8 + k]);
    assert(p[8 + k] == b2[0]);
    assert forall|i: int| 0 <= i < t.resolved@.len() implies (#[trigger] x[9 + k + i]).1 == trend_row(t.resolved@[i], "(removed)"@) by {
        assert(x[9 + k + i] == p[9 + k + i]);
        assert(p[9 + k + i] == b2[1 + i]);
    }
}

/// The lines that show a trend on a terminal, each with its colour: the
/// timestamps, the three deltas (red when debt grew, green when it
/// shrank), then the newly detonated, resolved and snoozed fuses.
pub fn trend_terminal_lines(t: &TrendResult) -> (r: Vec<StyledLine>)
    ensures
        styled(r@) == trend_text(*t),
        styled(r@)[2].0 == "  Detonated:    "@ && styled(r@)[2].1 == delta_text(t.detonated_delta as int),
        styled(r@)[3].0 == "  Ticking:      "@ && styled(r@)[3].1 == delta_text(t.ticking_delta as int),
        styled(r@)[4].0 == "  Total:        "@ && styled(r@)[4].1 == delta_text(t.total_delta as int),
{
    let mut out: Vec<StyledLine> = Vec::new();
    let mut head = to_owned("Trend: ");
    append(&mut head, t.from_timestamp.as_str());
    append(&mut head, " → ");
    append(&mut head, t.to_timestamp.as_str());
    push_line(&mut out, head, Tint::Plain);
    push_line(&mut out, String::new(), Tint::Plain);
    push_led_line(&mut out, to_owned("  Detonated:    "), delta_string(t.detonated_delta), delta_tint_of(t.detonated_delta));
    push_led_line(&mut out, to_owned("  Ticking:      "), delta_string(t.ticking_delta), delta_tint_of(t.ticking_delta));
    push_led_line(&mut out, to_owned("  Total:        "), delta_string(t.total_delta), delta_tint_of(t.total_delta));
    push_line(&mut out, String::new(), Tint::Plain);
    push_block(&mut out, "  Newly detonated (", Tint::RedBold, &t.newly_detonated, false, Tint::Red);
    push_line(&mut out, String::new(), Tint::Plain);
    push_block(&mut out, "  Resolved (", Tint::GreenBold, &t.resolved, true, Tint::Green);
    push_line(&mut out, String::new(), Tint::Plain);
    push_block(&mut out, "  Snoozed (", Tint::Plain, &t.snoozed, false, Tint::Plain);
    assert(styled(out@) =~= trend_text(*t));
    out
}

/// The GitHub Actions workflow commands for a trend: an error for each
/// newly detonated fuse, a notice for each resolved one.
pub open spec fn trend_github_text(t: TrendResult) -> Seq<Seq<char>> {
    t.newly_detonated@.map_values(
        |a: ReportAnnotation|
            "::error file="@ + a.file@ + ",line="@ + decimal(a.line as nat) + "::"@ + a.tag@ + " detonated on "@ + a.date@ + ": "@ + a.message@,
    ) + t.resolved@.map_values(
        |a: ReportAnnotation|
            "::notice file="@ + a.file@ + ",line="@ + decimal(a.line as nat) + "::"@ + a.tag@ + " fuse resolved (removed from codebase)"@,
    )
}

/// The GitHub Actions workflow commands for a trend.
pub fn trend_github_lines(t: &TrendResult) -> (r: Vec<String>)
    ensures
        r@.map_values(|s: String| s@) == trend_github_text(*t),
{
    let mut r: Vec<String> = Vec::new();
    let mut i: usize = 0;
    while i < t.newly_detonated.len()
        invariant
            i <= t.newly_detonated.len(),
            r@.map_values(|s: String| s@) == t.newly_detonated@.take(i as int).map_values(
                |a: ReportAnnotation|
                    "::error file="@ + a.file@ + ",line="@ + decimal(a.line as nat) + "::"@ + a.tag@ + " detonated on "@ + a.date@ + ": "@ + a.message@,
            ),
        decreases t.newly_detonated.len() - i,
    {
        let a = &t.newly_detonated[i];
        let mut s = to_owned("::error file=");
        append(&mut s, a.file.as_str());
        append(&mut s, ",line=");
        push_decimal(&mut s, a.line as u128);
        append(&mut s, "::");
        append(&mut s, a.tag.as_str());
        append(&mut s, " detonated on ");
        append(&mut s, a.date.as_str());
        append(&mut s, ": ");
        append(&mut s, a.message.as_str());
        let ghost before = r@;
        r.push(s);
        proof {
            assert(r@.map_values(|s: String| s@) =~= before.map_values(|s: String| s@).push(r@.last()@));
            assert(t.newly_detonated@.take(i + 1) =~= t.newly_detonated@.take(i as int).push(t.newly_detonated@[i as int]));
        }
        i = i + 1;
    }
    assert(t.newly_detonated@.take(t.newly_detonated.len() as int) =~= t.newly_detonated@);
    let ghost first = r@.map_values(|s: String| s@);
    let mut j: usize = 0;
    while j < t.resolved.len()
        invariant
            j <= t.resolved.len(),
            r@.map_values(|s: String| s@) == first + t.resolved@.take(j as int).map_values(
                |a: ReportAnnotation|
                    "::notice file="@ + a.file@ + ",line="@ + decimal(a.line as nat) + "::"@ + a.tag@ + " fuse resolved (removed from codebase)"@,
            ),
        decreases t.resolved.len() - j,
    {
        let a = &t.resolved[j];
        let mut s = to_owned("::notice file=");
        append(&mut s, a.file.as_str());
        append(&mut s, ",line=");
        push_decimal(&mut s, a.line as u128);
        append(&mut s, "::");
        append(&mut s, a.tag.as_str());
        append(&mut s, " fuse resolved (removed from codebase)");
        let ghost before = r@;
        r.push(s);
        proof {
            assert(r@.map_values(|s: String| s@) =~= before.map_values(|s: String| s@).push(r@.last()@));
            assert(t.resolved@.take(j + 1) =~= t.resolved@.take(j as int).push(t.resolved@[j as int]));
        }
        j = j + 1;
    }
    assert(t.resolved@.take(t.resolved.len() as int) =~= t.resolved@);
    r
}

/// How a trend is shown in `format`: as JSON, as GitHub Actions workflow
/// commands, or as terminal lines (also for CSV and table).
pub fn print_trend(trend: &TrendResult, format: OutputFormat) -> (r: Rendered)
    ensures
        match format {
            OutputFormat::Json => r is Json,
            OutputFormat::GitHub => r matches Rendered::Plain(v) && v@.map_values(|s: String| s@) == trend_github_text(*trend),
            _ => r matches Rendered::Styled(v) && styled(v@) == trend_text(*trend),
        },
{
    match format {
        OutputFormat::Json => Rendered::Json,
        OutputFormat::GitHub => Rendered::Plain(trend_github_lines(trend)),
        _ => Rendered::Styled(trend_terminal_lines(trend)),
    }
}

/// The trend from report `a` to report `b` and how it is shown in
/// `format`.
pub fn run_trend(a: &Report, b: &Report, format: OutputFormat) -> (r: (TrendResult, Rendered))
    requires
        report_size(*a) <= i64::MAX,
        report_size(*b) <= i64::MAX,
    ensures
        r.0.from_timestamp@ == a.generated_at@,
        r.0.to_timestamp@ == b.generated_at@,
        r.0.detonated_delta == b.detonated@.len() - a.detonated@.len(),
        r.0.ticking_delta == b.ticking@.len() - a.ticking@.len(),
        r.0.total_delta == report_size(*b) - report_size(*a),
        r.0.newly_detonated@ == by_location(b.detonated@, a.detonated@, false),
        r.0.resolved@ == by_location(a.detonated@, b.detonated@ + b.ticking@ + b.inert@, false),
        r.0.snoozed@ == by_location(a.detonated@, b.ticking@, true),
        match format {
            OutputFormat::Json => r.1 is Json,
            OutputFormat::GitHub => r.1 matches Rendered::Plain(v) && v@.map_values(|s: String| s@) == trend_github_text(r.0),
            _ => r.1 matches Rendered::Styled(v) && styled(v@) == trend_text(r.0),
        },
{
    let t = compute_trend(a, b);
    let shown = print_trend(&t, format);
    (t, shown)
}

} // verus!
