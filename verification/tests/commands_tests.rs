use timebomb::cli::DisarmArgs;
use timebomb::commands::{disarm_plan, DisarmPlan};
use timebomb::annotation::{Fuse, Status};
use timebomb::baseline::check_ratchet;
use timebomb::cli::{ManifestArgs, SortBy};
use timebomb::commands::{file_matches, read_between, retain_owner, select_manifest, sort_fuses, sweep_exit_code, sweep_filter};
use timebomb::config::Config;
use timebomb::date::Date;
use timebomb::diff::parse_unified_diff;
use timebomb::scanner::{scan_content, sort_by_date, ScanResult};
use timebomb::stats::compute_stats;

fn date(s: &str) -> Date {
    Date::parse(s).unwrap()
}

fn today() -> Date {
    date("2025-06-01")
}

fn fuse(file: &str, line: usize, tag: &str, expiry: &str, owner: Option<&str>) -> Fuse {
    let d = date(expiry);
    Fuse {
        file: file.to_string(),
        line,
        tag: tag.to_string(),
        date: d,
        owner: owner.map(|s| s.to_string()),
        message: format!("{} at {}", tag, line),
        status: Fuse::compute_status(&d, &today(), 0),
        blamed_owner: None,
    }
}

fn manifest_args() -> ManifestArgs {
    ManifestArgs {
        path: ".".to_string(),
        detonated: false,
        ticking: None,
        format: None,
        fuse: None,
        config: None,
        blame: false,
        owner: None,
        tag: None,
        next: None,
        sort: None,
        file: vec![],
        between: None,
        count: false,
        no_inert: false,
        owner_missing: false,
        output: None,
    }
}

/// A swept tree: its fuses in date order, as `sweep` and `manifest` see them.
fn swept() -> Vec<Fuse> {
    let cfg = Config::default();
    let mut fs = scan_content(
        "// TODO[2020-01-01][alice]: old auth\n// FIXME[2099-01-01]: far\n",
        "src/auth/login.rs",
        &cfg,
        &today(),
    );
    fs.extend(scan_content(
        "-- HACK[2019-06-01][Bob]: drop column\n-- TODO[2025-06-10]: soon\n",
        "src/db/schema.sql",
        &cfg,
        &today(),
    ));
    fs.extend(scan_content("# TEMP[2088-07-04]: later\n", "tools/gen.py", &cfg, &today()));
    sort_by_date(&fs)
}

fn files_of(fs: &[Fuse]) -> Vec<String> {
    fs.iter().map(|f| f.location()).collect()
}

// -- file filters ------------------------------------------------------------

#[test]
fn test_file_matches_plain_suffix() {
    assert!(file_matches("src/auth/login.rs", "login.rs"));
    assert!(file_matches("src/auth/login.rs", "auth/login.rs"));
    assert!(!file_matches("src/auth/login.rs", "db.rs"));
}

#[test]
fn test_file_matches_dotslash_stripped() {
    assert!(file_matches("auth/login.rs", "./login.rs"));
    assert!(file_matches("auth/login.rs", "./auth/login.rs"));
}

#[test]
fn test_file_matches_glob_doublestar() {
    assert!(file_matches("src/auth/login.rs", "src/auth/**"));
    assert!(!file_matches("src/db/schema.sql", "src/auth/**"));
}

#[test]
fn test_file_matches_glob_extension() {
    assert!(file_matches("schema.sql", "**/*.sql"));
    assert!(!file_matches("main.rs", "**/*.sql"));
}

#[test]
fn test_file_matches_glob_dotslash_stripped() {
    assert!(file_matches("src/auth/login.rs", "./src/**"));
}

#[test]
fn file_matches_is_component_aware() {
    assert!(!file_matches("src/auth/login.rs", "gin.rs"));
}

// -- sweep -------------------------------------------------------------------

#[test]
fn test_sweep_owner_filter_case_insensitive() {
    let kept = sweep_filter(swept(), None, Some("ALICE"), None);
    assert_eq!(files_of(&kept), vec!["src/auth/login.rs:1"]);
    let kept = sweep_filter(swept(), None, Some("bob"), None);
    assert_eq!(files_of(&kept), vec!["src/db/schema.sql:1"]);
}

#[test]
fn test_sweep_owner_filter_no_match_exits_zero() {
    let kept = sweep_filter(swept(), None, Some("nobody"), None);
    assert!(kept.is_empty());
    let result = ScanResult { fuses: kept, swept_files: 3, skipped_files: 0 };
    assert_eq!(sweep_exit_code(&Vec::new(), &result, false), 0);
}

#[test]
fn test_sweep_tag_filter_case_insensitive() {
    let kept = sweep_filter(swept(), None, None, Some("hack"));
    assert_eq!(kept.len(), 1);
    assert_eq!(kept[0].tag, "HACK");
}

#[test]
fn test_sweep_tag_filter_no_match_exits_zero() {
    let kept = sweep_filter(swept(), None, None, Some("STOPSHIP"));
    let result = ScanResult { fuses: kept, swept_files: 3, skipped_files: 0 };
    assert_eq!(sweep_exit_code(&Vec::new(), &result, true), 0);
}

#[test]
fn sweep_changed_lines_only() {
    let diff = "+++ b/src/db/schema.sql\n@@ -1 +2 @@\n";
    let ranges = parse_unified_diff(diff);
    let kept = sweep_filter(swept(), Some(&ranges), None, None);
    assert_eq!(files_of(&kept), vec!["src/db/schema.sql:2"]);
}

#[test]
fn test_sweep_detonated_exits_one() {
    let result = ScanResult { fuses: swept(), swept_files: 3, skipped_files: 0 };
    assert_eq!(sweep_exit_code(&Vec::new(), &result, false), 1);
}

#[test]
fn test_sweep_fail_on_ticking_exits_one() {
    let fs = vec![fuse("a.rs", 1, "TODO", "2025-06-01", None)];
    assert_eq!(fs[0].status, Status::Ticking);
    let result = ScanResult { fuses: fs, swept_files: 1, skipped_files: 0 };
    assert_eq!(sweep_exit_code(&Vec::new(), &result, true), 1);
    assert_eq!(sweep_exit_code(&Vec::new(), &result, false), 0);
}

#[test]
fn test_sweep_max_detonated_zero_exits_one() {
    let result = ScanResult { fuses: vec![fuse("a.rs", 1, "TODO", "2099-01-01", None)], swept_files: 1, skipped_files: 0 };
    let violations = check_ratchet(1, 0, None, Some(0), None);
    assert_eq!(sweep_exit_code(&violations, &result, false), 1);
    assert_eq!(sweep_exit_code(&Vec::new(), &result, false), 0);
}

#[test]
fn retain_owner_uses_blamed_owner_when_unowned() {
    let mut f = fuse("a.rs", 1, "TODO", "2099-01-01", None);
    f.blamed_owner = Some("Carol".to_string());
    let kept = retain_owner(vec![f, fuse("b.rs", 1, "TODO", "2099-01-01", Some("dave"))], "carol");
    assert_eq!(files_of(&kept), vec!["a.rs:1"]);
}

// -- manifest ----------------------------------------------------------------

#[test]
fn test_manifest_detonated_filter() {
    let args = ManifestArgs { detonated: true, ..manifest_args() };
    let listed = select_manifest(swept(), &args, &today()).unwrap();
    assert!(listed.iter().all(|f| f.status == Status::Detonated));
    assert_eq!(listed.len(), 2);
}

#[test]
fn test_manifest_ticking_filter() {
    let args = ManifestArgs { ticking: Some("14d".to_string()), ..manifest_args() };
    let listed = select_manifest(swept(), &args, &today()).unwrap();
    assert_eq!(files_of(&listed), vec!["src/db/schema.sql:2"]);
}

#[test]
fn manifest_bad_ticking_window_is_refused() {
    let args = ManifestArgs { ticking: Some("two weeks".to_string()), ..manifest_args() };
    assert!(select_manifest(swept(), &args, &today()).is_err());
}

#[test]
fn test_manifest_file_suffix_match() {
    let args = ManifestArgs { file: vec!["login.rs".to_string()], ..manifest_args() };
    let listed = select_manifest(swept(), &args, &today()).unwrap();
    assert!(listed.iter().all(|f| f.file == "src/auth/login.rs"));
    assert_eq!(listed.len(), 2);
}

#[test]
fn test_manifest_file_multiple_or_logic() {
    let args = ManifestArgs { file: vec!["login.rs".to_string(), "gen.py".to_string()], ..manifest_args() };
    assert_eq!(select_manifest(swept(), &args, &today()).unwrap().len(), 3);
}

#[test]
fn test_manifest_file_glob_extension() {
    let args = ManifestArgs { file: vec!["**/*.sql".to_string()], ..manifest_args() };
    let listed = select_manifest(swept(), &args, &today()).unwrap();
    assert_eq!(listed.len(), 2);
}

#[test]
fn test_manifest_file_no_match_is_empty() {
    let args = ManifestArgs { file: vec!["nothing.go".to_string()], ..manifest_args() };
    assert!(select_manifest(swept(), &args, &today()).unwrap().is_empty());
}

#[test]
fn test_manifest_between_includes_matching_dates() {
    let args = ManifestArgs { between: Some(vec!["2019-01-01".to_string(), "2020-12-31".to_string()]), ..manifest_args() };
    let listed = select_manifest(swept(), &args, &today()).unwrap();
    assert_eq!(listed.len(), 2);
}

#[test]
fn test_manifest_between_excludes_out_of_range() {
    let args = ManifestArgs { between: Some(vec!["2030-01-01".to_string(), "2031-01-01".to_string()]), ..manifest_args() };
    assert!(select_manifest(swept(), &args, &today()).unwrap().is_empty());
}

#[test]
fn test_manifest_between_invalid_date_is_error() {
    let args = ManifestArgs { between: Some(vec!["2020-13-01".to_string(), "2031-01-01".to_string()]), ..manifest_args() };
    assert_eq!(
        select_manifest(swept(), &args, &today()).unwrap_err().message(),
        "Invalid argument: --between: invalid start date '2020-13-01', expected YYYY-MM-DD"
    );
    assert!(read_between(&vec!["2020-01-01".to_string(), "bad".to_string()]).is_err());
}

#[test]
fn test_manifest_next_truncates_to_n() {
    let args = ManifestArgs { next: Some(2), ..manifest_args() };
    let listed = select_manifest(swept(), &args, &today()).unwrap();
    assert_eq!(files_of(&listed), vec!["src/db/schema.sql:1", "src/auth/login.rs:1"]);
}

#[test]
fn test_manifest_next_zero_shows_nothing() {
    let args = ManifestArgs { next: Some(0), ..manifest_args() };
    assert!(select_manifest(swept(), &args, &today()).unwrap().is_empty());
}

#[test]
fn test_no_inert_removes_inert_fuses() {
    let args = ManifestArgs { no_inert: true, ..manifest_args() };
    let listed = select_manifest(swept(), &args, &today()).unwrap();
    assert!(listed.iter().all(|f| f.status != Status::Inert));
    assert_eq!(listed.len(), 2);
}

#[test]
fn test_owner_missing_keeps_only_unowned() {
    let args = ManifestArgs { owner_missing: true, ..manifest_args() };
    let listed = select_manifest(swept(), &args, &today()).unwrap();
    assert!(listed.iter().all(|f| f.owner.is_none() && f.blamed_owner.is_none()));
    assert_eq!(listed.len(), 3);
}

#[test]
fn test_sort_by_file() {
    let sorted = sort_fuses(&swept(), SortBy::File);
    assert_eq!(
        files_of(&sorted),
        vec!["src/auth/login.rs:1", "src/auth/login.rs:2", "src/db/schema.sql:1", "src/db/schema.sql:2", "tools/gen.py:1"]
    );
}

#[test]
fn test_sort_by_status() {
    let sorted = sort_fuses(&swept(), SortBy::Status);
    let statuses: Vec<Status> = sorted.iter().map(|f| f.status).collect();
    assert_eq!(statuses, vec![Status::Detonated, Status::Detonated, Status::Inert, Status::Inert, Status::Inert]);
    assert_eq!(sorted[0].date, date("2019-06-01"));
}

#[test]
fn sort_by_owner_puts_unowned_first() {
    let sorted = sort_fuses(&swept(), SortBy::Owner);
    assert_eq!(sorted[0].owner, None);
    assert_eq!(sorted[3].owner.as_deref(), Some("Bob"));
    assert_eq!(sorted[4].owner.as_deref(), Some("alice"));
}

#[test]
fn test_intel_owner_filter_limits_stats() {
    let kept = sweep_filter(swept(), None, Some("alice"), None);
    let stats = compute_stats(&kept);
    assert_eq!(stats.total_fuses, 1);
    assert_eq!(stats.by_owner.len(), 1);
}

#[test]
fn test_intel_tag_filter_limits_stats() {
    let kept = sweep_filter(swept(), None, None, Some("todo"));
    let stats = compute_stats(&kept);
    assert_eq!(stats.total_fuses, 2);
    assert_eq!(stats.by_tag.len(), 1);
}

#[test]
fn disarm_needs_a_target_or_all_detonated() {
    let args = |target: Option<&str>, all: bool| DisarmArgs {
        target: target.map(|s| s.to_string()),
        search: None,
        all_detonated: all,
        path: ".".to_string(),
        config: None,
        yes: true,
    };
    assert!(matches!(disarm_plan(&args(None, true)).unwrap(), DisarmPlan::AllDetonated));
    match disarm_plan(&args(Some("a.rs:3"), false)).unwrap() {
        DisarmPlan::Target(t) => assert_eq!(t, "a.rs:3"),
        _ => panic!("expected a target"),
    }
    assert_eq!(
        disarm_plan(&args(None, false)).unwrap_err().message(),
        "Invalid argument: either a target FILE[:LINE] or --all-detonated is required"
    );
}

// -- manifest flags and intel, over a swept tree ------------------------------

#[test]
fn test_no_inert_does_not_affect_detonated_count() {
    let all = swept();
    let detonated_before = all.iter().filter(|f| f.status == Status::Detonated).count();
    let args = ManifestArgs { no_inert: true, ..manifest_args() };
    let listed = select_manifest(all, &args, &today()).unwrap();
    assert_eq!(listed.iter().filter(|f| f.status == Status::Detonated).count(), detonated_before);
}

#[test]
fn test_between_filters_by_date_range() {
    let args = ManifestArgs {
        between: Some(vec!["2019-01-01".to_string(), "2021-12-31".to_string()]),
        ..manifest_args()
    };
    let listed = select_manifest(swept(), &args, &today()).unwrap();
    let (start, end) = (date("2019-01-01"), date("2021-12-31"));
    assert!(listed.iter().all(|f| !f.date.before(&start) && !end.before(&f.date)));
    assert!(!listed.is_empty(), "should have detonated fuses in range");
}

#[test]
fn test_between_empty_range() {
    let args = ManifestArgs {
        between: Some(vec!["2000-01-01".to_string(), "2000-12-31".to_string()]),
        ..manifest_args()
    };
    let listed = select_manifest(swept(), &args, &today()).unwrap();
    assert!(listed.is_empty());
}

#[test]
fn test_count_matches_fuse_vec_length() {
    let fuses = swept();
    let count = fuses.len();
    let result = ScanResult { fuses, swept_files: 3, skipped_files: 0 };
    assert_eq!(count, result.total());
}

#[test]
fn test_timebomb_fuse_days_env_var_sets_window() {
    let today = today();
    let in_20_days = today.add_days(20).unwrap();
    assert_eq!(Fuse::compute_status(&in_20_days, &today, 30), Status::Ticking);
    assert_eq!(Fuse::compute_status(&in_20_days, &today, 0), Status::Inert);
}

#[test]
fn test_file_filter_suffix_match() {
    let fuses = swept();
    let rs_fuses: Vec<&Fuse> = fuses.iter().filter(|f| f.file.ends_with(".rs")).collect();
    assert!(!rs_fuses.is_empty());
    for f in &rs_fuses {
        assert!(file_matches(&f.file, "login.rs"));
        assert!(!file_matches(&f.file, "schema.sql"));
    }
}

#[test]
fn test_intel_by_month_groups_correctly() {
    let stats = compute_stats(&swept());
    for w in stats.by_month.windows(2) {
        assert!(w[0].month <= w[1].month);
    }
    let month_total: usize = stats.by_month.iter().map(|r| r.total).sum();
    assert_eq!(month_total, stats.total_fuses);
}

#[test]
fn test_intel_by_month_counts_consistent() {
    let stats = compute_stats(&swept());
    for row in &stats.by_month {
        assert_eq!(row.detonated + row.ticking + row.inert, row.total, "month {} counts don't add up", row.month);
    }
}

#[test]
fn sort_by_file_orders_paths_by_component() {
    let fs = vec![fuse("a-b.rs", 1, "TODO", "2020-01-01", None), fuse("a/b.rs", 2, "TODO", "2020-01-01", None)];
    let sorted = sort_fuses(&fs, SortBy::File);
    assert_eq!(files_of(&sorted), vec!["a/b.rs:2".to_string(), "a-b.rs:1".to_string()]);
}
