use timebomb::annotation::{Fuse, Status};
use timebomb::date::Date;
use timebomb::output::OutputFormat;
use timebomb::report::{build_report, diff_reports, diff_terminal_lines, report_exit_code, Report, ReportAnnotation, ReportDiff};
use timebomb::scanner::ScanResult;
use timebomb::style::{Rendered, Tint};
use timebomb::trend::{annotation_key, compute_trend, print_trend, run_trend, trend_github_lines, trend_terminal_lines, TrendResult};

fn make_fuse(file: &str, line: usize, tag: &str, date: &str, status: Status) -> Fuse {
    Fuse {
        file: file.to_string(),
        line,
        tag: tag.to_string(),
        date: Date::parse(date).unwrap(),
        owner: None,
        message: "test".to_string(),
        status,
        blamed_owner: None,
    }
}

fn make_scan_result(fuses: Vec<Fuse>) -> ScanResult {
    ScanResult { swept_files: 1, skipped_files: 0, fuses }
}

fn make_report_ann(file: &str, line: usize, tag: &str, date: &str, status: &str) -> ReportAnnotation {
    ReportAnnotation {
        file: file.to_string(),
        line,
        tag: tag.to_string(),
        date: date.to_string(),
        owner: None,
        message: "test".to_string(),
        status: status.to_string(),
    }
}

fn trend_ann(file: &str, line: usize, tag: &str, date: &str) -> ReportAnnotation {
    ReportAnnotation {
        message: format!("message at {}:{}", file, line),
        ..make_report_ann(file, line, tag, date, "detonated")
    }
}

fn make_report(detonated: Vec<ReportAnnotation>, ticking: Vec<ReportAnnotation>, inert: Vec<ReportAnnotation>) -> Report {
    make_report_at("2025-01-01T00:00:00+00:00", detonated, ticking, inert)
}

fn make_report_at(
    generated_at: &str,
    detonated: Vec<ReportAnnotation>,
    ticking: Vec<ReportAnnotation>,
    inert: Vec<ReportAnnotation>,
) -> Report {
    let total = detonated.len() + ticking.len() + inert.len();
    Report {
        generated_at: generated_at.to_string(),
        swept_files: 1,
        total_fuses: total,
        detonated,
        ticking,
        inert,
    }
}

// -- build_report --------------------------------------------------------------

#[test]
fn test_build_report_empty() {
    let report = build_report(&make_scan_result(vec![]), "2025-01-01T00:00:00+00:00");
    assert_eq!(report.total_fuses, 0);
    assert!(report.detonated.is_empty());
    assert!(report.ticking.is_empty());
    assert!(report.inert.is_empty());
    assert_eq!(report.swept_files, 1);
    assert_eq!(report.generated_at, "2025-01-01T00:00:00+00:00");
}

#[test]
fn test_build_report_counts() {
    let fuses = vec![
        make_fuse("src/a.rs", 1, "TODO", "2020-01-01", Status::Detonated),
        make_fuse("src/b.rs", 2, "FIXME", "2020-06-01", Status::Detonated),
        make_fuse("src/c.rs", 3, "TODO", "2025-06-10", Status::Ticking),
        make_fuse("src/d.rs", 4, "TODO", "2099-01-01", Status::Inert),
    ];
    let report = build_report(&make_scan_result(fuses), "2025-01-01T00:00:00+00:00");
    assert_eq!(report.detonated.len(), 2);
    assert_eq!(report.ticking.len(), 1);
    assert_eq!(report.inert.len(), 1);
    assert_eq!(report.total_fuses, 4);
    assert_eq!(report.detonated[1], make_report_ann("src/b.rs", 2, "FIXME", "2020-06-01", "detonated"));
}

// -- diff_reports --------------------------------------------------------------

#[test]
fn test_diff_no_change() {
    let ann = make_report_ann("src/a.rs", 1, "TODO", "2020-01-01", "detonated");
    let old = make_report(vec![ann.duplicate()], vec![], vec![]);
    let new = make_report(vec![ann], vec![], vec![]);
    let diff = diff_reports(&old, &new);
    assert!(diff.newly_detonated.is_empty());
    assert!(diff.resolved.is_empty());
    assert!(diff.new_annotations.is_empty());
    assert!(diff.snoozed.is_empty());
}

#[test]
fn test_diff_newly_detonated() {
    let inert_ann = make_report_ann("src/a.rs", 1, "TODO", "2020-01-01", "inert");
    let det_ann = make_report_ann("src/a.rs", 1, "TODO", "2020-01-01", "detonated");
    let old = make_report(vec![], vec![], vec![inert_ann]);
    let new = make_report(vec![det_ann.duplicate()], vec![], vec![]);
    let diff = diff_reports(&old, &new);
    assert_eq!(diff.newly_detonated.len(), 1);
    assert_eq!(diff.newly_detonated[0], det_ann);
    assert!(diff.resolved.is_empty());
    assert!(diff.new_annotations.is_empty());
}

#[test]
fn test_diff_newly_detonated_brand_new() {
    let det_ann = make_report_ann("src/new.rs", 5, "FIXME", "2020-06-01", "detonated");
    let old = make_report(vec![], vec![], vec![]);
    let new = make_report(vec![det_ann], vec![], vec![]);
    let diff = diff_reports(&old, &new);
    assert_eq!(diff.newly_detonated.len(), 1);
    assert_eq!(diff.new_annotations.len(), 1);
}

#[test]
fn test_diff_resolved() {
    let det_ann = make_report_ann("src/a.rs", 1, "TODO", "2020-01-01", "detonated");
    let old = make_report(vec![det_ann.duplicate()], vec![], vec![]);
    let new = make_report(vec![], vec![], vec![]);
    let diff = diff_reports(&old, &new);
    assert_eq!(diff.resolved.len(), 1);
    assert_eq!(diff.resolved[0], det_ann);
    assert!(diff.newly_detonated.is_empty());
}

#[test]
fn test_diff_new_annotation() {
    let inert_ann = make_report_ann("src/brand_new.rs", 10, "TODO", "2099-01-01", "inert");
    let old = make_report(vec![], vec![], vec![]);
    let new = make_report(vec![], vec![], vec![inert_ann.duplicate()]);
    let diff = diff_reports(&old, &new);
    assert_eq!(diff.new_annotations.len(), 1);
    assert_eq!(diff.new_annotations[0], inert_ann);
    assert!(diff.newly_detonated.is_empty());
    assert!(diff.resolved.is_empty());
}

#[test]
fn test_diff_snoozed() {
    let old_ann = make_report_ann("src/worker.rs", 88, "TODO", "2025-03-01", "inert");
    let new_ann = make_report_ann("src/worker.rs", 88, "TODO", "2026-03-01", "inert");
    let old = make_report(vec![], vec![], vec![old_ann]);
    let new = make_report(vec![], vec![], vec![new_ann]);
    let diff = diff_reports(&old, &new);
    assert_eq!(diff.snoozed.len(), 1);
    let (ref before, ref after) = diff.snoozed[0];
    assert_eq!(before.date, "2025-03-01");
    assert_eq!(after.date, "2026-03-01");
    assert!(diff.new_annotations.is_empty());
}

#[test]
fn test_diff_ticking_to_detonated_is_newly_detonated() {
    let ticking_ann = make_report_ann("src/a.rs", 1, "TODO", "2025-06-10", "ticking");
    let detonated_ann = make_report_ann("src/a.rs", 1, "TODO", "2025-06-10", "detonated");
    let old = make_report(vec![], vec![ticking_ann], vec![]);
    let new = make_report(vec![detonated_ann], vec![], vec![]);
    let diff = diff_reports(&old, &new);
    assert_eq!(diff.newly_detonated.len(), 1);
    assert!(diff.resolved.is_empty());
    assert!(diff.new_annotations.is_empty());
}

#[test]
fn diff_of_report_with_itself_is_empty() {
    let r = make_report(
        vec![make_report_ann("a.rs", 1, "TODO", "2020-01-01", "detonated")],
        vec![make_report_ann("b.rs", 2, "TODO", "2026-01-01", "ticking")],
        vec![make_report_ann("c.rs", 3, "HACK", "2099-01-01", "inert")],
    );
    let d = diff_reports(&r, &r);
    assert!(d.newly_detonated.is_empty() && d.resolved.is_empty());
    assert!(d.new_annotations.is_empty() && d.snoozed.is_empty());
}

fn make_nontrivial_diff() -> ReportDiff {
    ReportDiff {
        newly_detonated: vec![make_report_ann("src/auth/login.rs", 42, "TODO", "2025-01-15", "detonated")],
        resolved: vec![make_report_ann("src/db/old.sql", 7, "TODO", "2020-01-01", "detonated")],
        new_annotations: vec![make_report_ann("src/api/handler.rs", 12, "TODO", "2026-06-01", "inert")],
        snoozed: vec![(
            make_report_ann("src/worker.rs", 88, "TODO", "2025-03-01", "inert"),
            make_report_ann("src/worker.rs", 88, "TODO", "2026-03-01", "inert"),
        )],
    }
}

#[test]
fn test_print_diff_terminal_does_not_panic() {
    let lines = diff_terminal_lines(&make_nontrivial_diff());
    assert_eq!(lines[0].text, "REPORT DIFF");
    assert!(lines.iter().any(|l| l.text == "1 newly detonated fuse(s):"));
    assert!(lines.iter().any(|l| l.text.contains("src/worker.rs:88") && l.tint == Tint::Cyan));
    assert!(lines.iter().any(|l| l.text.contains("src/db/old.sql:7") && l.tint == Tint::Green));
}

#[test]
fn report_exit_code_fails_only_on_new_detonations() {
    let d = make_nontrivial_diff();
    assert_eq!(report_exit_code(Some(&d), true), 1);
    assert_eq!(report_exit_code(Some(&d), false), 0);
    assert_eq!(report_exit_code(None, true), 0);
    let quiet = ReportDiff { newly_detonated: vec![], resolved: vec![], new_annotations: vec![], snoozed: vec![] };
    assert_eq!(report_exit_code(Some(&quiet), true), 0);
}

// -- trend ---------------------------------------------------------------------

#[test]
fn test_compute_trend_newly_detonated() {
    let a = make_report_at("2025-01-01T00:00:00Z", vec![], vec![], vec![]);
    let ann = trend_ann("src/foo.rs", 10, "TODO", "2025-01-15");
    let b = make_report_at("2025-02-01T00:00:00Z", vec![ann], vec![], vec![]);
    let trend = compute_trend(&a, &b);
    assert_eq!(trend.newly_detonated.len(), 1);
    assert_eq!(trend.newly_detonated[0].file, "src/foo.rs");
    assert_eq!(trend.detonated_delta, 1);
}

#[test]
fn test_compute_trend_resolved() {
    let ann = trend_ann("src/old.rs", 5, "FIXME", "2020-12-01");
    let a = make_report_at("2025-01-01T00:00:00Z", vec![ann], vec![], vec![]);
    let b = make_report_at("2025-02-01T00:00:00Z", vec![], vec![], vec![]);
    let trend = compute_trend(&a, &b);
    assert_eq!(trend.resolved.len(), 1);
    assert_eq!(trend.resolved[0].file, "src/old.rs");
    assert_eq!(trend.detonated_delta, -1);
}

#[test]
fn test_compute_trend_snoozed() {
    let ann = trend_ann("src/worker.rs", 88, "TODO", "2025-03-01");
    let mut snoozed_ann = ann.duplicate();
    snoozed_ann.date = "2026-06-01".to_string();
    snoozed_ann.status = "ticking".to_string();
    let a = make_report_at("2025-01-01T00:00:00Z", vec![ann], vec![], vec![]);
    let b = make_report_at("2025-02-01T00:00:00Z", vec![], vec![snoozed_ann], vec![]);
    let trend = compute_trend(&a, &b);
    assert_eq!(trend.snoozed.len(), 1);
    assert_eq!(trend.snoozed[0].file, "src/worker.rs");
}

#[test]
fn test_compute_trend_delta_math() {
    let ann1 = trend_ann("src/a.rs", 1, "TODO", "2020-01-01");
    let ann2 = trend_ann("src/b.rs", 2, "FIXME", "2020-06-01");
    let ann3 = trend_ann("src/c.rs", 3, "HACK", "2021-01-01");
    let mut ticking_ann = ann1.duplicate();
    ticking_ann.status = "ticking".to_string();
    let a = make_report_at("2025-01-01T00:00:00Z", vec![ann1, ann2], vec![ticking_ann], vec![]);
    let b = make_report_at("2025-02-01T00:00:00Z", vec![ann3], vec![], vec![]);
    let trend = compute_trend(&a, &b);
    assert_eq!(trend.detonated_delta, -1);
    assert_eq!(trend.ticking_delta, -1);
    assert_eq!(trend.total_delta, -2);
}

#[test]
fn test_compute_trend_timestamps() {
    let a = make_report_at("2025-01-01T00:00:00Z", vec![], vec![], vec![]);
    let b = make_report_at("2025-03-15T12:00:00Z", vec![], vec![], vec![]);
    let trend = compute_trend(&a, &b);
    assert_eq!(trend.from_timestamp, "2025-01-01T00:00:00Z");
    assert_eq!(trend.to_timestamp, "2025-03-15T12:00:00Z");
}

#[test]
fn test_compute_trend_no_change() {
    let ann = trend_ann("src/x.rs", 7, "TODO", "2020-01-01");
    let a = make_report_at("2025-01-01T00:00:00Z", vec![ann.duplicate()], vec![], vec![]);
    let b = make_report_at("2025-02-01T00:00:00Z", vec![ann], vec![], vec![]);
    let trend = compute_trend(&a, &b);
    assert_eq!(trend.detonated_delta, 0);
    assert!(trend.newly_detonated.is_empty());
    assert!(trend.resolved.is_empty());
    assert!(trend.snoozed.is_empty());
}

#[test]
fn test_annotation_key_format() {
    let ann = trend_ann("src/lib.rs", 42, "TODO", "2025-01-01");
    assert_eq!(annotation_key(&ann), "src/lib.rs:42");
}

#[test]
fn test_compute_trend_unchanged_detonated_is_neither_new_nor_resolved() {
    let ann = trend_ann("src/x.rs", 10, "TODO", "2020-01-01");
    let a = make_report_at("2025-01-01T00:00:00Z", vec![ann.duplicate()], vec![], vec![]);
    let b = make_report_at("2025-02-01T00:00:00Z", vec![ann], vec![], vec![]);
    let trend = compute_trend(&a, &b);
    assert!(trend.newly_detonated.is_empty(), "not newly detonated");
    assert!(trend.resolved.is_empty(), "not resolved");
    assert!(trend.snoozed.is_empty(), "not snoozed");
    assert_eq!(trend.detonated_delta, 0);
}

#[test]
fn test_compute_trend_multiple_snoozed() {
    let ann1 = trend_ann("src/a.rs", 1, "TODO", "2025-01-01");
    let ann2 = trend_ann("src/b.rs", 2, "FIXME", "2025-02-01");
    let mut snoozed1 = ann1.duplicate();
    snoozed1.date = "2026-12-01".to_string();
    snoozed1.status = "ticking".to_string();
    let mut snoozed2 = ann2.duplicate();
    snoozed2.date = "2027-06-01".to_string();
    snoozed2.status = "ticking".to_string();
    let a = make_report_at("2025-01-01T00:00:00Z", vec![ann1, ann2], vec![], vec![]);
    let b = make_report_at("2025-02-01T00:00:00Z", vec![], vec![snoozed1, snoozed2], vec![]);
    let trend = compute_trend(&a, &b);
    assert_eq!(trend.snoozed.len(), 2);
    assert_eq!(trend.detonated_delta, -2);
}

#[test]
fn test_compute_trend_moved_to_inert_is_resolved() {
    let ann = trend_ann("src/z.rs", 99, "HACK", "2020-05-01");
    let mut inert_ann = ann.duplicate();
    inert_ann.date = "2099-01-01".to_string();
    inert_ann.status = "inert".to_string();
    let a = make_report_at("2025-01-01T00:00:00Z", vec![ann], vec![], vec![]);
    let b = make_report_at("2025-02-01T00:00:00Z", vec![], vec![], vec![inert_ann]);
    let trend = compute_trend(&a, &b);
    assert!(trend.resolved.is_empty());
    assert!(trend.snoozed.is_empty());
}

#[test]
fn test_compute_trend_both_empty() {
    let a = make_report_at("2025-01-01T00:00:00Z", vec![], vec![], vec![]);
    let b = make_report_at("2025-02-01T00:00:00Z", vec![], vec![], vec![]);
    let trend = compute_trend(&a, &b);
    assert_eq!(trend.detonated_delta, 0);
    assert_eq!(trend.ticking_delta, 0);
    assert_eq!(trend.total_delta, 0);
    assert!(trend.newly_detonated.is_empty());
    assert!(trend.resolved.is_empty());
    assert!(trend.snoozed.is_empty());
}

#[test]
fn trend_of_report_with_itself_is_flat() {
    let r = make_report_at(
        "2025-01-01T00:00:00Z",
        vec![trend_ann("a.rs", 1, "TODO", "2020-01-01")],
        vec![trend_ann("b.rs", 1, "TODO", "2026-01-01")],
        vec![],
    );
    let t = compute_trend(&r, &r);
    assert_eq!((t.detonated_delta, t.ticking_delta, t.total_delta), (0, 0, 0));
    assert!(t.newly_detonated.is_empty() && t.resolved.is_empty() && t.snoozed.is_empty());
}

fn make_nontrivial_trend() -> TrendResult {
    TrendResult {
        from_timestamp: "2025-01-01T00:00:00Z".to_string(),
        to_timestamp: "2025-02-01T00:00:00Z".to_string(),
        detonated_delta: 2,
        ticking_delta: -1,
        total_delta: 1,
        newly_detonated: vec![trend_ann("src/foo.rs", 42, "TODO", "2026-01-15")],
        resolved: vec![trend_ann("src/old.rs", 5, "TODO", "2025-12-01")],
        snoozed: vec![],
    }
}

#[test]
fn test_print_trend_terminal_does_not_panic() {
    let t = make_nontrivial_trend();
    match print_trend(&t, OutputFormat::Terminal) {
        Rendered::Styled(lines) => {
            assert_eq!(lines[0].text, "Trend: 2025-01-01T00:00:00Z → 2025-02-01T00:00:00Z");
            assert_eq!(lines.len(), trend_terminal_lines(&t).len());
        }
        _ => panic!("expected terminal lines"),
    }
}

#[test]
fn test_print_trend_json_does_not_panic() {
    assert!(matches!(print_trend(&make_nontrivial_trend(), OutputFormat::Json), Rendered::Json));
}

#[test]
fn test_print_trend_github_does_not_panic() {
    let t = make_nontrivial_trend();
    match print_trend(&t, OutputFormat::GitHub) {
        Rendered::Plain(v) => {
            assert_eq!(v, trend_github_lines(&t));
            assert_eq!(v.len(), 2);
            assert_eq!(
                v[0],
                "::error file=src/foo.rs,line=42::TODO detonated on 2026-01-15: message at src/foo.rs:42"
            );
            assert_eq!(v[1], "::notice file=src/old.rs,line=5::TODO fuse resolved (removed from codebase)");
        }
        _ => panic!("expected workflow commands"),
    }
}

#[test]
fn test_run_trend_reads_json_files() {
    let report_a = build_report(
        &make_scan_result(vec![make_fuse("src/a.rs", 1, "TODO", "2020-01-01", Status::Detonated)]),
        "2025-01-01T00:00:00Z",
    );
    let report_b = build_report(
        &make_scan_result(vec![make_fuse("src/b.rs", 2, "TODO", "2021-06-01", Status::Detonated)]),
        "2025-02-01T00:00:00Z",
    );
    let (trend, shown) = run_trend(&report_a, &report_b, OutputFormat::Json);
    assert!(matches!(shown, Rendered::Json));
    assert_eq!(trend.newly_detonated.len(), 1);
    assert_eq!(trend.resolved.len(), 1);
    assert_eq!(trend.detonated_delta, 0);
}

#[test]
fn test_diff_resolved_covers_every_status() {
    let tick = make_report_ann("src/a.rs", 3, "TODO", "2026-06-10", "ticking");
    let inert = make_report_ann("src/b.rs", 7, "FIXME", "2030-01-01", "inert");
    let old = make_report(vec![], vec![tick.duplicate()], vec![inert.duplicate()]);
    let new = make_report(vec![], vec![], vec![]);
    let diff = diff_reports(&old, &new);
    assert_eq!(diff.resolved, vec![tick, inert]);
}
