use timebomb::annotation::{Fuse, Status};
use timebomb::date::Date;
use timebomb::output::{
    fuse_terminal_line, json_list, json_output, print_fuse_github, print_github_list, print_list, print_scan_result,
    print_scan_summary, JsonFuse, ListOutput, OutputFormat, ScanOutput,
};
use timebomb::scanner::ScanResult;
use timebomb::style::Tint;

fn date(s: &str) -> Date {
    Date::parse(s).unwrap()
}

fn fixed_today() -> Date {
    date("2026-03-23")
}

fn make_fuse(tag: &str, expiry: &str, status: Status, msg: &str) -> Fuse {
    Fuse {
        file: "src/foo.rs".to_string(),
        line: 42,
        tag: tag.to_string(),
        date: date(expiry),
        owner: None,
        message: msg.to_string(),
        status,
        blamed_owner: None,
    }
}

fn make_fuse_with_owner(tag: &str, expiry: &str, status: Status, msg: &str, owner: &str) -> Fuse {
    Fuse {
        file: "src/foo.rs".to_string(),
        line: 10,
        tag: tag.to_string(),
        date: date(expiry),
        owner: Some(owner.to_string()),
        message: msg.to_string(),
        status,
        blamed_owner: None,
    }
}

#[test]
fn test_output_format_from_str() {
    assert_eq!(OutputFormat::parse_format("json"), Some(OutputFormat::Json));
    assert_eq!(OutputFormat::parse_format("JSON"), Some(OutputFormat::Json));
    assert_eq!(OutputFormat::parse_format("github"), Some(OutputFormat::GitHub));
    assert_eq!(OutputFormat::parse_format("gh"), Some(OutputFormat::GitHub));
    assert_eq!(OutputFormat::parse_format("terminal"), Some(OutputFormat::Terminal));
    assert_eq!(OutputFormat::parse_format("term"), Some(OutputFormat::Terminal));
    assert_eq!(OutputFormat::parse_format("unknown"), None);
}

#[test]
fn test_json_fuse_from_fuse() {
    let fuse = make_fuse("TODO", "2020-01-01", Status::Detonated, "remove this");
    let j = JsonFuse::from_fuse(&fuse);
    assert_eq!(j.file, "src/foo.rs");
    assert_eq!(j.line, 42);
    assert_eq!(j.tag, "TODO");
    assert_eq!(j.date, "2020-01-01");
    assert_eq!(j.owner, None);
    assert_eq!(j.message, "remove this");
    assert_eq!(j.status, "detonated");
}

#[test]
fn test_json_fuse_with_owner() {
    let fuse = make_fuse_with_owner("FIXME", "2099-01-01", Status::Inert, "upgrade later", "bob");
    let j = JsonFuse::from_fuse(&fuse);
    assert_eq!(j.owner.as_deref(), Some("bob"));
    assert_eq!(j.status, "inert");
}

#[test]
fn test_json_fuse_ticking_status() {
    let fuse = make_fuse("HACK", "2025-06-10", Status::Ticking, "temp hack");
    let j = JsonFuse::from_fuse(&fuse);
    assert_eq!(j.status, "ticking");
}

#[test]
fn test_json_fuse_includes_blamed_owner() {
    let mut fuse = make_fuse("TODO", "2020-01-01", Status::Detonated, "msg");
    fuse.blamed_owner = Some("dave".to_string());
    let j = JsonFuse::from_fuse(&fuse);
    assert_eq!(j.blamed_owner.as_deref(), Some("dave"));
    assert_eq!(j.owner, None);
}

#[test]
fn test_json_fuse_blamed_owner_absent_when_none() {
    let fuse = make_fuse("TODO", "2020-01-01", Status::Detonated, "msg");
    let j = JsonFuse::from_fuse(&fuse);
    assert_eq!(j.blamed_owner, None);
}

#[test]
fn test_print_json_does_not_panic() {
    let result = ScanResult {
        fuses: vec![
            make_fuse("TODO", "2020-01-01", Status::Detonated, "detonated"),
            make_fuse("FIXME", "2099-01-01", Status::Inert, "future"),
        ],
        swept_files: 5,
        skipped_files: 1,
    };
    let j = json_output(&result);
    assert_eq!(j.swept_files, 5);
    assert_eq!(j.total_fuses, 2);
    assert_eq!(j.detonated.len(), 1);
    assert_eq!(j.ticking.len(), 0);
    assert_eq!(j.inert.len(), 1);
    assert_eq!(j.inert[0].message, "future");
}

#[test]
fn test_print_json_list_does_not_panic() {
    let fuse = make_fuse("TODO", "2020-01-01", Status::Detonated, "detonated");
    let j = json_list(&vec![fuse]);
    assert_eq!(j.len(), 1);
    assert_eq!(j[0].message, "detonated");
}

#[test]
fn test_print_github_detonated_format() {
    let fuse = make_fuse("TODO", "2020-01-01", Status::Detonated, "remove legacy oauth");
    assert_eq!(
        print_fuse_github(&fuse, &fixed_today()).unwrap(),
        "::error file=src/foo.rs,line=42::TODO detonated on 2020-01-01 (2273 days overdue): remove legacy oauth"
    );
}

#[test]
fn test_print_github_ticking_format() {
    let fuse = make_fuse("FIXME", "2026-04-01", Status::Ticking, "fix before release");
    assert_eq!(
        print_fuse_github(&fuse, &fixed_today()).unwrap(),
        "::warning file=src/foo.rs,line=42::FIXME detonates on 2026-04-01 (in 9 days): fix before release"
    );
}

#[test]
fn test_print_github_inert_is_silent() {
    let fuse = make_fuse("HACK", "2099-01-01", Status::Inert, "fine for now");
    assert!(print_fuse_github(&fuse, &fixed_today()).is_none());
}

#[test]
fn github_list_skips_inert() {
    let fs = vec![
        make_fuse("HACK", "2099-01-01", Status::Inert, "fine"),
        make_fuse("TODO", "2026-03-20", Status::Detonated, "late"),
    ];
    let lines = print_github_list(&fs, &fixed_today());
    assert_eq!(lines.len(), 1);
    assert!(lines[0].starts_with("::error "));
}

#[test]
fn test_print_fuse_line_terminal_with_owner() {
    let fuse = make_fuse_with_owner("TODO", "2020-01-01", Status::Detonated, "remove me", "alice");
    let line = fuse_terminal_line(&fuse, &fixed_today());
    assert_eq!(line.tint, Tint::RedBold);
    assert_eq!(
        line.text,
        format!("DETONATED {:<40}  {:<20} (2273 days overdue) [alice]  remove me", "src/foo.rs:10", "TODO[2020-01-01]")
    );
}

#[test]
fn test_print_fuse_line_terminal_with_blamed_owner() {
    let mut fuse = make_fuse("TODO", "2020-01-01", Status::Detonated, "msg");
    fuse.blamed_owner = Some("eve".to_string());
    let line = fuse_terminal_line(&fuse, &fixed_today());
    assert!(line.text.contains(" [~eve]  msg"));
}

#[test]
fn test_owner_display_explicit_owner() {
    let fuse = make_fuse_with_owner("TODO", "2020-01-01", Status::Detonated, "msg", "alice");
    assert!(fuse_terminal_line(&fuse, &fixed_today()).text.ends_with(" [alice]  msg"));
}

#[test]
fn test_owner_display_blamed_owner() {
    let mut fuse = make_fuse("TODO", "2020-01-01", Status::Detonated, "msg");
    fuse.blamed_owner = Some("bob".to_string());
    assert!(fuse_terminal_line(&fuse, &fixed_today()).text.ends_with(" [~bob]  msg"));
}

#[test]
fn test_owner_display_no_owner() {
    let fuse = make_fuse("TODO", "2020-01-01", Status::Detonated, "msg");
    assert!(fuse_terminal_line(&fuse, &fixed_today()).text.ends_with("overdue)  msg"));
}

#[test]
fn test_owner_display_explicit_takes_precedence_over_blamed() {
    let mut fuse = make_fuse_with_owner("TODO", "2020-01-01", Status::Detonated, "msg", "alice");
    fuse.blamed_owner = Some("bob".to_string());
    let text = fuse_terminal_line(&fuse, &fixed_today()).text;
    assert!(text.ends_with(" [alice]  msg"));
    assert!(!text.contains("~bob"));
}

#[test]
fn test_days_label_detonated_shows_overdue() {
    let fuse = make_fuse("TODO", "2020-01-01", Status::Detonated, "msg");
    let text = fuse_terminal_line(&fuse, &fixed_today()).text;
    assert!(text.contains("overdue"));
    assert!(!text.contains("(in "));
}

#[test]
fn test_days_label_ticking_shows_days_remaining() {
    let fuse = make_fuse("FIXME", "2026-04-01", Status::Ticking, "msg");
    let line = fuse_terminal_line(&fuse, &fixed_today());
    assert!(line.text.contains(" (in 9 days)"));
    assert_eq!(line.tint, Tint::Yellow);
}

#[test]
fn test_days_label_inert_is_empty() {
    let fuse = make_fuse("HACK", "2099-01-01", Status::Inert, "msg");
    let line = fuse_terminal_line(&fuse, &fixed_today());
    assert!(!line.text.contains(" days"));
    assert_eq!(line.tint, Tint::Dimmed);
}

#[test]
fn test_print_terminal_does_not_panic() {
    let result = ScanResult {
        fuses: vec![
            make_fuse("TODO", "2020-01-01", Status::Detonated, "old"),
            make_fuse("FIXME", "2026-04-15", Status::Ticking, "soon"),
            make_fuse("HACK", "2099-12-31", Status::Inert, "future"),
        ],
        swept_files: 3,
        skipped_files: 0,
    };
    match print_scan_result(&result, OutputFormat::Terminal, &fixed_today()) {
        ScanOutput::Terminal { lines, summary } => {
            assert_eq!(lines.len(), 4);
            assert_eq!(lines[3].text, "");
            assert_eq!(
                summary.text,
                "Swept 3 file(s) · 3 fuse(s) total · 1 detonated · 1 ticking · 1 inert"
            );
            assert_eq!(summary.tint, Tint::RedBold);
        }
        _ => panic!("expected terminal output"),
    }
}

#[test]
fn test_print_scan_result_dispatch() {
    let result = ScanResult {
        fuses: vec![make_fuse("TODO", "2020-01-01", Status::Detonated, "x")],
        swept_files: 1,
        skipped_files: 0,
    };
    assert!(matches!(print_scan_result(&result, OutputFormat::Terminal, &fixed_today()), ScanOutput::Terminal { .. }));
    assert!(matches!(print_scan_result(&result, OutputFormat::Json, &fixed_today()), ScanOutput::Json(_)));
    match print_scan_result(&result, OutputFormat::GitHub, &fixed_today()) {
        ScanOutput::GitHub(v) => assert_eq!(v.len(), 1),
        _ => panic!("expected workflow commands"),
    }
}

#[test]
fn scan_summary_is_green_when_clean() {
    let result = ScanResult {
        fuses: vec![make_fuse("HACK", "2099-12-31", Status::Inert, "future")],
        swept_files: 2,
        skipped_files: 0,
    };
    let s = print_scan_summary(&result);
    assert_eq!(s.tint, Tint::Green);
    assert_eq!(s.text, "Swept 2 file(s) · 1 fuse(s) total · 0 detonated · 0 ticking · 1 inert");
}

#[test]
fn test_print_list_terminal_does_not_panic() {
    let fuse = make_fuse("TODO", "2020-01-01", Status::Detonated, "list item");
    match print_list(&vec![fuse], OutputFormat::Terminal, &fixed_today()) {
        ListOutput::Terminal { lines, footer } => {
            assert_eq!(lines.len(), 2);
            assert_eq!(footer, "1 fuse(s) listed");
        }
        _ => panic!("expected terminal output"),
    }
}

#[test]
fn test_print_list_json_does_not_panic() {
    let fuse = make_fuse("FIXME", "2099-01-01", Status::Inert, "future item");
    match print_list(&vec![fuse], OutputFormat::Json, &fixed_today()) {
        ListOutput::Json(v) => assert_eq!(v[0].message, "future item"),
        _ => panic!("expected JSON output"),
    }
}

#[test]
fn test_print_list_github_does_not_panic() {
    let fuse = make_fuse("HACK", "2020-01-01", Status::Detonated, "github list");
    match print_list(&vec![fuse], OutputFormat::GitHub, &fixed_today()) {
        ListOutput::GitHub(v) => assert!(v[0].ends_with("github list")),
        _ => panic!("expected workflow commands"),
    }
}
